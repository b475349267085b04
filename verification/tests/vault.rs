use cofresenhas_rs::cli::confirm_master_password;
use cofresenhas_rs::crypto::hash_master_password;
use cofresenhas_rs::error::VaultError;
use cofresenhas_rs::models::{Credential, EncryptedCredential};
use cofresenhas_rs::storage::{MasterRecord, MemoryStorage, VaultStorage};
use cofresenhas_rs::vault::Vault;

fn open_vault(master_password: &str) -> Vault<MemoryStorage> {
    let storage = MemoryStorage::new();
    Vault::initialize(storage, master_password).unwrap()
}

#[test]
fn full_crud_roundtrip() {
    let mut vault = open_vault("master-forte");

    vault
        .add_credential(&Credential::new("github", "daniel", "senha123"))
        .unwrap();

    let fetched = vault.get_credential("github").unwrap();
    assert_eq!(fetched.password, "senha123");

    vault
        .update_credential(&Credential::new("github", "daniel", "nova-senha"))
        .unwrap();
    assert_eq!(vault.get_credential("github").unwrap().password, "nova-senha");

    vault.remove_credential("github").unwrap();
    assert!(vault.get_credential("github").is_err());
}

#[test]
fn initializing_twice_fails() {
    let mut storage = MemoryStorage::new();
    storage.init().unwrap();
    let vault = Vault::initialize(storage, "senha").unwrap();
    drop(vault);
}

#[test]
fn initializing_a_storage_that_has_an_owner_fails() {
    let mut storage = MemoryStorage::new();
    storage
        .save_master_record(&MasterRecord {
            password_hash: hash_master_password("senha").unwrap(),
            key_salt: vec![0u8; 16],
        })
        .unwrap();
    assert!(matches!(
        Vault::initialize(storage, "senha"),
        Err(VaultError::AlreadyInitialized)
    ));
}

#[test]
fn unlock_with_wrong_password_fails() {
    let mut storage = MemoryStorage::new();
    storage
        .save_master_record(&MasterRecord {
            password_hash: hash_master_password("senha-certa").unwrap(),
            key_salt: vec![5u8; 16],
        })
        .unwrap();
    let result = Vault::unlock(storage, "senha-errada");
    assert!(matches!(result, Err(VaultError::InvalidMasterPassword)));
}

#[test]
fn unlock_with_right_password_reads_what_was_stored_under_the_same_key() {
    // a credential sealed under the key of ("senha-certa", salt) by one vault
    let salt = vec![5u8; 16];
    let key = cofresenhas_rs::crypto::derive_encryption_key("senha-certa", &salt).unwrap();
    let cipher = cofresenhas_rs::crypto::VaultCipher::new(&key);
    let (ciphertext, nonce) = cipher.encrypt("guardada").unwrap();

    let mut storage = MemoryStorage::new();
    storage
        .save_master_record(&MasterRecord {
            password_hash: hash_master_password("senha-certa").unwrap(),
            key_salt: salt,
        })
        .unwrap();
    storage
        .add_credential(&cofresenhas_rs::models::EncryptedCredential {
            service: "email".into(),
            username: "eu".into(),
            ciphertext,
            nonce,
        })
        .unwrap();
    let vault = Vault::unlock(storage, "senha-certa").unwrap();
    let c = vault.get_credential("email").unwrap();
    assert_eq!(c.username, "eu");
    assert_eq!(c.password, "guardada");
}

#[test]
fn unlock_of_an_empty_storage_is_not_initialized() {
    assert!(matches!(
        Vault::unlock(MemoryStorage::new(), "x"),
        Err(VaultError::NotInitialized)
    ));
}

#[test]
fn unlock_with_corrupted_salt_fails() {
    let mut storage = MemoryStorage::new();
    storage
        .save_master_record(&MasterRecord {
            password_hash: hash_master_password("senha").unwrap(),
            key_salt: vec![1, 2, 3],
        })
        .unwrap();
    match Vault::unlock(storage, "senha") {
        Err(VaultError::Crypto(m)) => assert_eq!(m, "salt de chave corrompido"),
        _ => panic!("expected a corrupted-salt error"),
    }
}

#[test]
fn adding_the_same_service_twice_fails_and_list_is_sorted() {
    let mut vault = open_vault("m");
    vault.add_credential(&Credential::new("zeta", "u", "1")).unwrap();
    vault.add_credential(&Credential::new("alfa", "u", "2")).unwrap();
    assert!(matches!(
        vault.add_credential(&Credential::new("zeta", "v", "3")),
        Err(VaultError::CredentialAlreadyExists(s)) if s == "zeta"
    ));
    let all = vault.list_credentials().unwrap();
    let pairs: Vec<(String, String)> = all.into_iter().map(|c| (c.service.clone(), c.password.clone())).collect();
    assert_eq!(pairs, vec![("alfa".to_string(), "2".to_string()), ("zeta".to_string(), "1".to_string())]);
}

#[test]
fn missing_service_errors() {
    let mut vault = open_vault("m");
    assert!(matches!(vault.get_credential("x"), Err(VaultError::CredentialNotFound(s)) if s == "x"));
    assert!(matches!(
        vault.update_credential(&Credential::new("x", "u", "p")),
        Err(VaultError::CredentialNotFound(_))
    ));
    assert!(matches!(vault.remove_credential("x"), Err(VaultError::CredentialNotFound(_))));
}

#[test]
fn error_messages() {
    assert_eq!(
        VaultError::CredentialNotFound("github".into()).message(),
        "credencial não encontrada para o serviço 'github'"
    );
    assert_eq!(
        VaultError::CredentialAlreadyExists("aws".into()).message(),
        "já existe uma credencial cadastrada para o serviço 'aws'"
    );
    assert_eq!(VaultError::InvalidMasterPassword.message(), "master password incorreta");
    assert_eq!(
        VaultError::NotInitialized.message(),
        "o cofre ainda não foi inicializado -- rode o comando `init` primeiro"
    );
    assert_eq!(VaultError::Crypto("x".into()).message(), "falha de criptografia: x");
    let io = VaultError::Io(std::io::Error::new(std::io::ErrorKind::Other, "disco"));
    assert_eq!(io.message(), "erro de I/O: disco");
}

#[test]
fn credential_new_copies_fields() {
    let c = Credential::new("s", "u", "p");
    assert_eq!((c.service.as_str(), c.username.as_str(), c.password.as_str()), ("s", "u", "p"));
}

#[test]
fn confirming_master_password() {
    assert_eq!(confirm_master_password("abc".into(), "abc").unwrap(), "abc");
    match confirm_master_password("abc".into(), "abd") {
        Err(VaultError::Crypto(m)) => assert_eq!(m, "as senhas informadas não coincidem"),
        _ => panic!("expected mismatch"),
    }
}

#[test]
fn a_credential_sealed_under_another_key_reads_as_a_wrong_master_password() {
    let mut storage = MemoryStorage::new();
    storage
        .add_credential(&EncryptedCredential {
            service: "antigo".into(),
            username: "u".into(),
            ciphertext: vec![7u8; 24],
            nonce: vec![0u8; 12],
        })
        .unwrap();
    let mut vault = Vault::initialize(storage, "master").unwrap();
    assert!(matches!(vault.get_credential("antigo"), Err(VaultError::InvalidMasterPassword)));
    vault.add_credential(&Credential::new("novo", "u", "p")).unwrap();
    assert!(matches!(vault.list_credentials(), Err(VaultError::InvalidMasterPassword)));
    assert_eq!(vault.get_credential("novo").unwrap().password, "p");
}

#[test]
fn a_stored_nonce_of_the_wrong_length_is_reported_not_panicked_on() {
    let mut storage = MemoryStorage::new();
    storage
        .add_credential(&EncryptedCredential {
            service: "quebrado".into(),
            username: "u".into(),
            ciphertext: vec![1u8; 20],
            nonce: vec![0u8; 5],
        })
        .unwrap();
    let vault = Vault::initialize(storage, "master").unwrap();
    match vault.get_credential("quebrado") {
        Err(VaultError::Crypto(m)) => assert_eq!(m, "nonce corrompido no cofre"),
        _ => panic!("a corrupted nonce must be reported"),
    }
    assert!(matches!(vault.list_credentials(), Err(VaultError::Crypto(_))));
}
