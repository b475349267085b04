//! Argon2 (account and master passwords) and ChaCha20-Poly1305 (stored
//! passwords), shared by the local vault and the web API.
mod cipher;
mod hashing;

pub use cipher::{
    chacha20poly1305_open, chacha20poly1305_seal, decrypted_text, law_decrypt_undoes_encrypt,
    max_plaintext_len, seals_text, utf8_error_text, VaultCipher,
};
pub use hashing::{
    argon2_derive_key, argon2_verifies, argon2id_phc, derive_encryption_key, hash_master_password, hashed_from, key_derivation,
    law_verify_accepts_hashed_password, phc_parse_error, verification_outcome,
    verify_master_password,
};
pub(crate) use hashing::random_salt_bytes;
