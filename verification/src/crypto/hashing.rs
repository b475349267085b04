use vstd::prelude::*;
use vstd::utf8::encode_utf8;

use argon2::password_hash::rand_core::{OsRng, RngCore};
use argon2::password_hash::{PasswordHash, PasswordHasher, PasswordVerifier, SaltString};
use argon2::Argon2;

use crate::error::VaultError;

verus! {

/// Whether the default Argon2 instance accepts `password` against the PHC
/// string `phc` (it re-hashes with the salt and parameters held in `phc` and
/// compares the outputs).
pub uninterp spec fn argon2_verifies(password: Seq<u8>, phc: Seq<char>) -> bool;

/// What `PasswordHash::new` reports for `phc`: nothing when it parses as a
/// PHC string, else the text of its error.
pub uninterp spec fn phc_parse_error(phc: Seq<char>) -> Option<Seq<char>>;

/// The 32-byte key that the default Argon2 instance derives from `password`
/// and `salt` (`Argon2::hash_password_into`).
pub uninterp spec fn argon2_derive_key(password: Seq<u8>, salt: Seq<u8>) -> Seq<u8>;

/// `phc` is a hash made of `password`: it parses, and Argon2 accepts the
/// password against it.
pub open spec fn hashed_from(password: Seq<u8>, phc: Seq<char>) -> bool {
    phc_parse_error(phc) is None && argon2_verifies(password, phc)
}

/// `phc` is written in the PHC format of Argon2id: it begins with
/// `$argon2id$`.
pub open spec fn argon2id_phc(phc: Seq<char>) -> bool {
    "$argon2id$"@.is_prefix_of(phc)
}

/// What verifying `password` against the stored hash `phc` answers; nothing
/// when the stored hash does not parse.
pub open spec fn verification_outcome(password: Seq<u8>, phc: Seq<char>) -> Option<bool> {
    match phc_parse_error(phc) {
        None => Some(argon2_verifies(password, phc)),
        Some(_) => None,
    }
}

/// What `Argon2::hash_password_into` (default instance, 32-byte output)
/// yields: it checks the password length, then the salt length (8 to
/// `0xFFFFFFFF` bytes), and otherwise derives the key.
pub open spec fn key_derivation(password: Seq<u8>, salt: Seq<u8>) -> Result<Seq<u8>, Seq<char>> {
    if password.len() > 0xFFFF_FFFF {
        Err("password is too long"@)
    } else if salt.len() < 8 {
        Err("salt is too short"@)
    } else if salt.len() > 0xFFFF_FFFF {
        Err("salt is too long"@)
    } else {
        Ok(argon2_derive_key(password, salt))
    }
}

/// `OsRng.fill_bytes` on 16 bytes: a fresh random salt (the length that
/// `SaltString::generate` draws), of which nothing else is claimed.
#[verifier::external_body]
pub(crate) fn random_salt_bytes() -> [u8; 16] {
    let mut salt = [0u8; 16];
    OsRng.fill_bytes(&mut salt);
    salt
}

/// `PasswordHasher::hash_password` of `Argon2::default()`, as a PHC string,
/// with the 16 salt bytes given as a `SaltString` (`SaltString::encode_b64`:
/// 16 bytes are 22 B64 characters, within the salt limits, so the conversion
/// never fails and Argon2 finds a salt long enough). The source then refuses
/// only a password longer than `0xFFFFFFFF` bytes (with "invalid password");
/// the resulting string parses, verifying the same password against it
/// succeeds, and, the default algorithm being Argon2id and a version always
/// being written, it begins with `$argon2id$`.
#[verifier::external_body]
fn argon2_hash(password: &[u8], salt: &[u8; 16]) -> (res: Result<String, String>)
    ensures
        res is Ok <==> password@.len() <= 0xFFFF_FFFF,
        match res {
            Ok(phc) => phc_parse_error(phc@) is None && argon2_verifies(password@, phc@) && argon2id_phc(phc@),
            Err(m) => m@ == "invalid password"@,
        },
{
    let salt = SaltString::encode_b64(salt).map_err(|e| e.to_string())?;
    Argon2::default().hash_password(password, &salt).map(|h| h.to_string()).map_err(|e| e.to_string())
}

/// `PasswordVerifier::verify_password` of `Argon2::default()`, on the
/// `PasswordHash` that `PasswordHash::new` parses from `phc`; the parse error
/// is turned into its text.
#[verifier::external_body]
fn argon2_verify(password: &[u8], phc: &str) -> (res: Result<bool, String>)
    ensures
        match res {
            Ok(b) => phc_parse_error(phc@) is None && b == argon2_verifies(password@, phc@),
            Err(m) => phc_parse_error(phc@) == Some(m@),
        },
{
    let parsed = PasswordHash::new(phc).map_err(|e| e.to_string())?;
    Ok(Argon2::default().verify_password(password, &parsed).is_ok())
}

/// `Argon2::hash_password_into` of `Argon2::default()` into 32 bytes. The
/// source checks the password length, then the salt length (8 to
/// `0xFFFFFFFF` bytes), and otherwise fills the output.
#[verifier::external_body]
fn argon2_key(password: &[u8], salt: &[u8]) -> (res: Result<[u8; 32], String>)
    ensures
        match res {
            Ok(k) => key_derivation(password@, salt@) == Ok::<Seq<u8>, Seq<char>>(k@),
            Err(m) => key_derivation(password@, salt@) == Err::<Seq<u8>, Seq<char>>(m@),
        },
        res matches Ok(k) ==> k@ == argon2_derive_key(password@, salt@),
{
    let mut key = [0u8; 32];
    Argon2::default().hash_password_into(password, salt, &mut key).map_err(|e| e.to_string())?;
    Ok(key)
}

/// Hashes a master (or account) password for storage, as a PHC string with
/// its random salt embedded.
pub fn hash_master_password(password: &str) -> (r: Result<String, VaultError>)
    ensures
        r is Ok <==> encode_utf8(password@).len() <= 0xFFFF_FFFF,
        match r {
            Ok(phc) => hashed_from(encode_utf8(password@), phc@) && argon2id_phc(phc@),
            Err(e) => e matches VaultError::Crypto(m) && m@ == "invalid password"@,
        },
{
    let salt = random_salt_bytes();
    match argon2_hash(password.as_bytes(), &salt) {
        Ok(phc) => Ok(phc),
        Err(m) => Err(VaultError::Crypto(m)),
    }
}

/// Checks `password` against a hash made by `hash_master_password`. A stored
/// hash that does not parse is an error; a wrong password is `Ok(false)`.
pub fn verify_master_password(password: &str, stored_hash: &str) -> (r: Result<bool, VaultError>)
    ensures
        match phc_parse_error(stored_hash@) {
            None => r == Ok::<bool, VaultError>(argon2_verifies(encode_utf8(password@), stored_hash@)),
            Some(msg) => r matches Err(VaultError::Crypto(m)) && m@ == msg,
        },
        r is Ok <==> verification_outcome(encode_utf8(password@), stored_hash@) is Some,
        r matches Ok(b) ==> verification_outcome(encode_utf8(password@), stored_hash@) == Some(b),
{
    match argon2_verify(password.as_bytes(), stored_hash) {
        Ok(b) => Ok(b),
        Err(m) => Err(VaultError::Crypto(m)),
    }
}

/// Derives a 32-byte symmetric key from a secret and a salt of its own
/// (distinct from the salt inside the verification hash).
pub fn derive_encryption_key(password: &str, salt: &[u8]) -> (r: Result<[u8; 32], VaultError>)
    ensures
        match key_derivation(encode_utf8(password@), salt@) {
            Ok(k) => r matches Ok(key) && key@ == k,
            Err(msg) => r matches Err(VaultError::Crypto(m)) && m@ == msg,
        },
{
    match argon2_key(password.as_bytes(), salt) {
        Ok(k) => Ok(k),
        Err(m) => Err(VaultError::Crypto(m)),
    }
}

/// A password is accepted against the hash that was made of it: whenever
/// hashing succeeded, verifying the same password answers `true`.
pub proof fn law_verify_accepts_hashed_password(password: Seq<u8>, phc: Seq<char>)
    requires
        hashed_from(password, phc),
    ensures
        verification_outcome(password, phc) == Some(true),
{
}

} // verus!
