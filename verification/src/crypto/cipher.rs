use vstd::prelude::*;
use vstd::utf8::{decode_utf8, encode_utf8, valid_utf8};

use chacha20poly1305::aead::{Aead, OsRng as AeadOsRng};
use chacha20poly1305::{AeadCore, ChaCha20Poly1305, Key, KeyInit};

use crate::error::VaultError;

verus! {

/// The ciphertext (with its 16-byte tag appended) that ChaCha20-Poly1305
/// computes for `plaintext` under `key` and `nonce`, with no associated data.
pub uninterp spec fn chacha20poly1305_seal(key: Seq<u8>, nonce: Seq<u8>, plaintext: Seq<u8>) -> Seq<u8>;

/// What ChaCha20-Poly1305 gives back when it opens `ciphertext` under `key`
/// and `nonce`: the plaintext, or nothing when the tag does not authenticate.
pub uninterp spec fn chacha20poly1305_open(key: Seq<u8>, nonce: Seq<u8>, ciphertext: Seq<u8>) -> Option<Seq<u8>>;

/// The text that `String::from_utf8` reports for bytes that are not UTF-8.
pub uninterp spec fn utf8_error_text(bytes: Seq<u8>) -> Seq<char>;

/// Plaintexts of this many bytes or more are refused: the ChaCha20 block
/// counter would overflow.
pub open spec fn max_plaintext_len() -> int {
    64int * 0xFFFF_FFFFint
}

/// `ciphertext` is a sealing of the UTF-8 bytes of `text` under `key` and
/// `nonce`: opening it gives those bytes back.
pub open spec fn seals_text(key: Seq<u8>, nonce: Seq<u8>, ciphertext: Seq<u8>, text: Seq<char>) -> bool {
    chacha20poly1305_open(key, nonce, ciphertext) == Some(encode_utf8(text))
}

/// The password that decryption recovers: the opened bytes read as UTF-8.
pub open spec fn decrypted_text(key: Seq<u8>, nonce: Seq<u8>, ciphertext: Seq<u8>) -> Option<Seq<char>> {
    match chacha20poly1305_open(key, nonce, ciphertext) {
        Some(bytes) => if valid_utf8(bytes) {
            Some(decode_utf8(bytes))
        } else {
            None
        },
        None => None,
    }
}

/// `ChaCha20Poly1305::generate_nonce` with the operating system's random
/// source. Nothing is claimed of the bytes: they are random.
#[verifier::external_body]
fn random_nonce() -> [u8; 12] {
    let nonce = ChaCha20Poly1305::generate_nonce(&mut AeadOsRng);
    let mut out = [0u8; 12];
    out.copy_from_slice(nonce.as_slice());
    out
}

/// `Aead::encrypt` of `ChaCha20Poly1305` (no associated data). The source
/// refuses a plaintext of `64 * u32::MAX` bytes or more with `aead::Error`,
/// and otherwise appends the 16-byte tag; opening the result with the same
/// key and nonce gives the plaintext back.
#[verifier::external_body]
fn seal(key: &[u8; 32], nonce: &[u8; 12], plaintext: &[u8]) -> (res: Result<Vec<u8>, String>)
    ensures
        res is Ok <==> plaintext@.len() < max_plaintext_len(),
        match res {
            Ok(ct) => {
                &&& ct@ == chacha20poly1305_seal(key@, nonce@, plaintext@)
                &&& ct@.len() == plaintext@.len() + 16
                &&& chacha20poly1305_open(key@, nonce@, ct@) == Some(plaintext@)
            },
            Err(m) => m@ == "aead::Error"@,
        },
{
    let cipher = ChaCha20Poly1305::new(Key::from_slice(key));
    cipher.encrypt(chacha20poly1305::Nonce::from_slice(nonce), plaintext).map_err(|e| e.to_string())
}

/// `Aead::decrypt` of `ChaCha20Poly1305` (no associated data); `None` where it
/// fails. The nonce must be 12 bytes: `Nonce::from_slice` panics otherwise. A
/// ciphertext shorter than the tag never opens, and a plaintext is 16 bytes
/// shorter than its ciphertext.
#[verifier::external_body]
fn open(key: &[u8; 32], nonce: &[u8], ciphertext: &[u8]) -> (res: Option<Vec<u8>>)
    requires
        nonce@.len() == 12,
    ensures
        match res {
            Some(p) => {
                &&& chacha20poly1305_open(key@, nonce@, ciphertext@) == Some(p@)
                &&& p@.len() + 16 == ciphertext@.len()
            },
            None => chacha20poly1305_open(key@, nonce@, ciphertext@) is None,
        },
        ciphertext@.len() < 16 ==> res is None,
{
    let cipher = ChaCha20Poly1305::new(Key::from_slice(key));
    cipher.decrypt(chacha20poly1305::Nonce::from_slice(nonce), ciphertext).ok()
}

/// `String::from_utf8`, with the error turned into its text.
#[verifier::external_body]
fn string_from_utf8(bytes: Vec<u8>) -> (res: Result<String, String>)
    ensures
        match res {
            Ok(s) => valid_utf8(bytes@) && s@ == decode_utf8(bytes@),
            Err(m) => !valid_utf8(bytes@) && m@ == utf8_error_text(bytes@),
        },
{
    String::from_utf8(bytes).map_err(|e| e.to_string())
}

/// Holds a key already derived from a secret and encrypts or decrypts single
/// passwords with it. The secret itself is never kept.
pub struct VaultCipher {
    key: [u8; 32],
}

impl View for VaultCipher {
    type V = Seq<u8>;

    /// The 32-byte key.
    closed spec fn view(&self) -> Seq<u8> {
        self.key@
    }
}

impl VaultCipher {
    pub fn new(key_bytes: &[u8; 32]) -> (c: Self)
        ensures
            c@ == key_bytes@,
    {
        VaultCipher { key: *key_bytes }
    }

    /// Encrypts `plaintext` under a fresh random nonce and returns
    /// `(ciphertext, nonce)`.
    pub fn encrypt(&self, plaintext: &str) -> (r: Result<(Vec<u8>, Vec<u8>), VaultError>)
        ensures
            r is Ok <==> encode_utf8(plaintext@).len() < max_plaintext_len(),
            match r {
                Ok((ct, nonce)) => {
                    &&& nonce@.len() == 12
                    &&& ct@ == chacha20poly1305_seal(self@, nonce@, encode_utf8(plaintext@))
                    &&& ct@.len() == encode_utf8(plaintext@).len() + 16
                    &&& seals_text(self@, nonce@, ct@, plaintext@)
                },
                Err(e) => e matches VaultError::Crypto(m) && m@ == "aead::Error"@,
            },
    {
        let nonce = random_nonce();
        let bytes = plaintext.as_bytes();
        match seal(&self.key, &nonce, bytes) {
            Ok(ct) => {
                let mut nonce_vec: Vec<u8> = Vec::new();
                let mut i: usize = 0;
                while i < 12
                    invariant
                        0 <= i <= 12,
                        nonce_vec@ == nonce@.subrange(0, i as int),
                    decreases 12 - i,
                {
                    nonce_vec.push(nonce[i]);
                    i = i + 1;
                    assert(nonce_vec@ =~= nonce@.subrange(0, i as int));
                }
                assert(nonce_vec@ =~= nonce@);
                Ok((ct, nonce_vec))
            },
            Err(m) => Err(VaultError::Crypto(m)),
        }
    }

    /// Decrypts with the nonce stored beside the ciphertext. A wrong key and
    /// tampered data are told apart from nothing: both give
    /// `InvalidMasterPassword`.
    pub fn decrypt(&self, ciphertext: &[u8], nonce_bytes: &[u8]) -> (r: Result<String, VaultError>)
        requires
            nonce_bytes@.len() == 12,
        ensures
            match chacha20poly1305_open(self@, nonce_bytes@, ciphertext@) {
                None => r matches Err(VaultError::InvalidMasterPassword),
                Some(bytes) => if valid_utf8(bytes) {
                    r matches Ok(s) && s@ == decode_utf8(bytes)
                } else {
                    r matches Err(VaultError::Crypto(m)) && m@ == utf8_error_text(bytes)
                },
            },
            r is Ok <==> decrypted_text(self@, nonce_bytes@, ciphertext@) is Some,
            r matches Ok(s) ==> decrypted_text(self@, nonce_bytes@, ciphertext@) == Some(s@),
    {
        match open(&self.key, nonce_bytes, ciphertext) {
            None => Err(VaultError::InvalidMasterPassword),
            Some(bytes) => match string_from_utf8(bytes) {
                Ok(s) => Ok(s),
                Err(m) => Err(VaultError::Crypto(m)),
            },
        }
    }
}

/// Decrypting what was encrypted under the same key and nonce gives back the
/// password that was encrypted.
pub proof fn law_decrypt_undoes_encrypt(key: Seq<u8>, nonce: Seq<u8>, ciphertext: Seq<u8>, text: Seq<char>)
    requires
        seals_text(key, nonce, ciphertext, text),
    ensures
        decrypted_text(key, nonce, ciphertext) == Some(text),
{
    vstd::utf8::encode_utf8_valid_utf8(text);
    vstd::utf8::encode_utf8_decode_utf8(text);
}

} // verus!
