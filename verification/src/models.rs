//! Credentials of the local vault, in the clear and as stored.
use vstd::prelude::*;

use crate::text::owned;

verus! {

/// A credential already decrypted, ready to be used or shown.
#[derive(Debug, Clone)]
pub struct Credential {
    pub service: String,
    pub username: String,
    pub password: String,
}

pub struct CredentialView {
    pub service: Seq<char>,
    pub username: Seq<char>,
    pub password: Seq<char>,
}

impl View for Credential {
    type V = CredentialView;

    open spec fn view(&self) -> CredentialView {
        CredentialView { service: self.service@, username: self.username@, password: self.password@ }
    }
}

impl Credential {
    pub fn new(service: &str, username: &str, password: &str) -> (c: Self)
        ensures
            c.service@ == service@,
            c.username@ == username@,
            c.password@ == password@,
    {
        Credential { service: owned(service), username: owned(username), password: owned(password) }
    }
}

/// A credential as it is stored: the password only ever exists as
/// ciphertext, next to the nonce it was sealed with.
#[derive(Debug, Clone)]
pub struct EncryptedCredential {
    pub service: String,
    pub username: String,
    pub ciphertext: Vec<u8>,
    pub nonce: Vec<u8>,
}

pub struct EncryptedCredentialView {
    pub service: Seq<char>,
    pub username: Seq<char>,
    pub ciphertext: Seq<u8>,
    pub nonce: Seq<u8>,
}

impl View for EncryptedCredential {
    type V = EncryptedCredentialView;

    open spec fn view(&self) -> EncryptedCredentialView {
        EncryptedCredentialView {
            service: self.service@,
            username: self.username@,
            ciphertext: self.ciphertext@,
            nonce: self.nonce@,
        }
    }
}

impl EncryptedCredential {
    /// A copy with the same contents.
    pub fn duplicate(&self) -> (c: Self)
        ensures
            c@ == self@,
    {
        let ciphertext = self.ciphertext.clone();
        let nonce = self.nonce.clone();
        assert(ciphertext@ =~= self.ciphertext@);
        assert(nonce@ =~= self.nonce@);
        EncryptedCredential {
            service: self.service.clone(),
            username: self.username.clone(),
            ciphertext,
            nonce,
        }
    }
}

} // verus!
