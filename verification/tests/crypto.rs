use cofresenhas_rs::crypto::{
    derive_encryption_key, hash_master_password, verify_master_password, VaultCipher,
};
use cofresenhas_rs::error::VaultError;

#[test]
fn encrypt_decrypt_roundtrip() {
    let key = [7u8; 32];
    let cipher = VaultCipher::new(&key);

    let (ciphertext, nonce) = cipher.encrypt("hunter2").unwrap();
    let decrypted = cipher.decrypt(&ciphertext, &nonce).unwrap();

    assert_eq!(decrypted, "hunter2");
}

#[test]
fn wrong_key_fails_to_decrypt() {
    let cipher_a = VaultCipher::new(&[1u8; 32]);
    let cipher_b = VaultCipher::new(&[2u8; 32]);

    let (ciphertext, nonce) = cipher_a.encrypt("segredo").unwrap();
    let result = cipher_b.decrypt(&ciphertext, &nonce);

    assert!(result.is_err());
}

#[test]
fn hash_and_verify_roundtrip() {
    let hash = hash_master_password("uma-senha-forte").unwrap();
    assert!(verify_master_password("uma-senha-forte", &hash).unwrap());
    assert!(!verify_master_password("senha-errada", &hash).unwrap());
}

#[test]
fn derive_key_is_deterministic_for_same_salt() {
    let salt = b"01234567890123456789012345678901";
    let k1 = derive_encryption_key("minha-master", salt).unwrap();
    let k2 = derive_encryption_key("minha-master", salt).unwrap();
    assert_eq!(k1, k2);
}

#[test]
fn ciphertext_carries_a_sixteen_byte_tag_and_a_twelve_byte_nonce() {
    let cipher = VaultCipher::new(&[3u8; 32]);
    let (ciphertext, nonce) = cipher.encrypt("abc").unwrap();
    assert_eq!(ciphertext.len(), 3 + 16);
    assert_eq!(nonce.len(), 12);
    assert_ne!(&ciphertext[..3], b"abc");
}

#[test]
fn non_ascii_password_roundtrips() {
    let cipher = VaultCipher::new(&[9u8; 32]);
    let (ciphertext, nonce) = cipher.encrypt("ção-ñ-€-😀").unwrap();
    assert_eq!(cipher.decrypt(&ciphertext, &nonce).unwrap(), "ção-ñ-€-😀");
}

#[test]
fn tampered_ciphertext_is_reported_as_wrong_master_password() {
    let cipher = VaultCipher::new(&[4u8; 32]);
    let (mut ciphertext, nonce) = cipher.encrypt("segredo").unwrap();
    ciphertext[0] ^= 1;
    assert!(matches!(
        cipher.decrypt(&ciphertext, &nonce),
        Err(VaultError::InvalidMasterPassword)
    ));
}

#[test]
fn too_short_ciphertext_does_not_open() {
    let cipher = VaultCipher::new(&[4u8; 32]);
    assert!(matches!(
        cipher.decrypt(&[1, 2, 3], &[0u8; 12]),
        Err(VaultError::InvalidMasterPassword)
    ));
}

#[test]
fn short_salt_is_refused() {
    match derive_encryption_key("minha-master", b"1234567") {
        Err(VaultError::Crypto(m)) => assert_eq!(m, "salt is too short"),
        _ => panic!("expected a crypto error"),
    }
}

#[test]
fn different_salts_give_different_keys() {
    let k1 = derive_encryption_key("minha-master", b"salt-numero-um!!").unwrap();
    let k2 = derive_encryption_key("minha-master", b"salt-numero-dois").unwrap();
    assert_ne!(k1, k2);
}

#[test]
fn unparsable_stored_hash_is_a_crypto_error() {
    assert!(matches!(
        verify_master_password("x", "isto nao e um hash"),
        Err(VaultError::Crypto(_))
    ));
    assert!(matches!(verify_master_password("x", ""), Err(VaultError::Crypto(_))));
}

#[test]
fn hashes_of_the_same_password_differ_by_salt() {
    let a = hash_master_password("repetida").unwrap();
    let b = hash_master_password("repetida").unwrap();
    assert_ne!(a, b);
    assert!(a.starts_with("$argon2id$"));
}

#[test]
fn ciphertext_length_is_plaintext_bytes_plus_tag() {
    let cipher = VaultCipher::new(&[3u8; 32]);
    for text in ["", "a", "ação", "senha-bem-longa-1234567890"] {
        let (ct, nonce) = cipher.encrypt(text).unwrap();
        assert_eq!(ct.len(), text.len() + 16);
        assert_eq!(nonce.len(), 12);
    }
}
