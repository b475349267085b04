use cofresenhas_rs::error::VaultError;
use cofresenhas_rs::models::EncryptedCredential;
use cofresenhas_rs::storage::{MasterRecord, MemoryStorage, VaultStorage};

fn setup() -> MemoryStorage {
    let mut storage = MemoryStorage::new();
    storage.init().unwrap();
    storage
}

fn sample_credential(service: &str) -> EncryptedCredential {
    EncryptedCredential {
        service: service.to_string(),
        username: "daniel".to_string(),
        ciphertext: vec![1, 2, 3],
        nonce: vec![4, 5, 6],
    }
}

#[test]
fn add_and_get_credential() {
    let mut storage = setup();
    storage.add_credential(&sample_credential("github")).unwrap();

    let fetched = storage.get_credential("github").unwrap();
    assert_eq!(fetched.username, "daniel");
}

#[test]
fn adding_duplicate_service_fails() {
    let mut storage = setup();
    storage.add_credential(&sample_credential("github")).unwrap();

    let result = storage.add_credential(&sample_credential("github"));
    assert!(matches!(result, Err(VaultError::CredentialAlreadyExists(_))));
}

#[test]
fn get_missing_credential_fails() {
    let storage = setup();
    let result = storage.get_credential("nope");
    assert!(matches!(result, Err(VaultError::CredentialNotFound(_))));
}

#[test]
fn list_credentials_returns_all_sorted() {
    let mut storage = setup();
    storage.add_credential(&sample_credential("github")).unwrap();
    storage.add_credential(&sample_credential("aws")).unwrap();

    let all = storage.list_credentials().unwrap();
    let names: Vec<_> = all.iter().map(|c| c.service.as_str()).collect();
    assert_eq!(names, vec!["aws", "github"]);
}

#[test]
fn update_and_delete_credential() {
    let mut storage = setup();
    storage.add_credential(&sample_credential("github")).unwrap();

    let mut updated = sample_credential("github");
    updated.username = "outro-user".to_string();
    storage.update_credential(&updated).unwrap();
    assert_eq!(storage.get_credential("github").unwrap().username, "outro-user");

    storage.delete_credential("github").unwrap();
    assert!(storage.get_credential("github").is_err());
}

#[test]
fn master_record_roundtrip() {
    let mut storage = setup();
    assert!(storage.load_master_record().unwrap().is_none());

    let record = MasterRecord {
        password_hash: "hash123".to_string(),
        key_salt: vec![9, 9, 9],
    };
    storage.save_master_record(&record).unwrap();

    let loaded = storage.load_master_record().unwrap().unwrap();
    assert_eq!(loaded.password_hash, "hash123");
    assert_eq!(loaded.key_salt, vec![9, 9, 9]);
}

#[test]
fn update_or_delete_of_missing_service_fails() {
    let mut storage = setup();
    assert!(matches!(
        storage.update_credential(&sample_credential("x")),
        Err(VaultError::CredentialNotFound(s)) if s == "x"
    ));
    assert!(matches!(
        storage.delete_credential("x"),
        Err(VaultError::CredentialNotFound(s)) if s == "x"
    ));
}

#[test]
fn listing_orders_by_code_point() {
    let mut storage = setup();
    for s in ["b", "B", "ab", "a", "é", "aa"] {
        storage.add_credential(&sample_credential(s)).unwrap();
    }
    let names: Vec<String> = storage
        .list_credentials()
        .unwrap()
        .into_iter()
        .map(|c| c.service)
        .collect();
    assert_eq!(names, vec!["B", "a", "aa", "ab", "b", "é"]);
}

#[test]
fn saving_the_master_record_again_replaces_it() {
    let mut storage = setup();
    storage
        .save_master_record(&MasterRecord { password_hash: "a".into(), key_salt: vec![1] })
        .unwrap();
    storage
        .save_master_record(&MasterRecord { password_hash: "b".into(), key_salt: vec![2] })
        .unwrap();
    let loaded = storage.load_master_record().unwrap().unwrap();
    assert_eq!(loaded.password_hash, "b");
    assert_eq!(loaded.key_salt, vec![2]);
}

#[test]
fn in_memory_backend_fails_only_on_missing_or_repeated_services() {
    let mut storage = MemoryStorage::new();
    assert!(storage.init().is_ok());
    assert!(storage.load_master_record().unwrap().is_none());
    assert!(storage.list_credentials().unwrap().is_empty());
    assert!(matches!(storage.get_credential("x"), Err(VaultError::CredentialNotFound(_))));
    assert!(matches!(storage.delete_credential("x"), Err(VaultError::CredentialNotFound(_))));
}
