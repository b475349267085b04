//! An unlocked vault: a storage backend plus the key derived from the master
//! password. The master password itself is never kept: it only lives during
//! `initialize` and `unlock`.
use vstd::prelude::*;
use vstd::utf8::{encode_utf8, valid_utf8};

use zeroize::Zeroize;

use crate::crypto::{
    argon2_derive_key, argon2id_phc, chacha20poly1305_open, decrypted_text, derive_encryption_key, hash_master_password, hashed_from,
    key_derivation, law_decrypt_undoes_encrypt, law_verify_accepts_hashed_password,
    max_plaintext_len, phc_parse_error, random_salt_bytes, seals_text, utf8_error_text, verification_outcome,
    verify_master_password, VaultCipher,
};
use crate::error::{is_backend_error, VaultError};
use crate::models::{Credential, CredentialView, EncryptedCredential, EncryptedCredentialView};
use crate::storage::{credential_views, lists_exactly, MasterRecord, MasterRecordView, VaultStorage};
use crate::text::{lemma_text_less_asymmetric, lemma_text_less_irreflexive, owned, text_less};

verus! {

/// `Zeroize::zeroize`: overwrites the key with zeros.
#[verifier::external_body]
fn wipe_key(key: &mut [u8; 32])
    ensures
        final(key)@ == Seq::new(32, |i: int| 0u8),
{
    key.zeroize();
}

/// `stored` seals `credential` under `key`: same service and user, a 12-byte
/// nonce, and a ciphertext that opens to the password.
pub open spec fn sealed_entry(key: Seq<u8>, credential: CredentialView, stored: EncryptedCredentialView) -> bool {
    &&& stored.service == credential.service
    &&& stored.username == credential.username
    &&& stored.nonce.len() == 12
    &&& seals_text(key, stored.nonce, stored.ciphertext, credential.password)
}

/// The credential that decrypting `stored` under `key` gives, if any; a
/// nonce of another length than 12 bytes gives none.
pub open spec fn opened_entry(key: Seq<u8>, stored: EncryptedCredentialView) -> Option<CredentialView> {
    if stored.nonce.len() != 12 {
        None
    } else {
        match decrypted_text(key, stored.nonce, stored.ciphertext) {
            Some(p) => Some(CredentialView { service: stored.service, username: stored.username, password: p }),
            None => None,
        }
    }
}

/// What looking a service up finds.
pub enum Lookup {
    Found(CredentialView),
    Missing,
    Unreadable,
}

pub open spec fn lookup(
    key: Seq<u8>,
    stored: Map<Seq<char>, EncryptedCredentialView>,
    service: Seq<char>,
) -> Lookup {
    if !stored.contains_key(service) {
        Lookup::Missing
    } else {
        match opened_entry(key, stored[service]) {
            Some(c) => Lookup::Found(c),
            None => Lookup::Unreadable,
        }
    }
}

/// `e` is the error that decrypting `stored` under `key` fails with: the
/// stored nonce is not 12 bytes long (a corrupted store), the tag does not
/// authenticate (as with a wrong key), or the opened bytes are not UTF-8.
pub open spec fn unreadable_error(key: Seq<u8>, stored: EncryptedCredentialView, e: VaultError) -> bool {
    if stored.nonce.len() != 12 {
        e matches VaultError::Crypto(m) && m@ == "nonce corrompido no cofre"@
    } else {
        match chacha20poly1305_open(key, stored.nonce, stored.ciphertext) {
            None => e is InvalidMasterPassword,
            Some(bytes) => !valid_utf8(bytes) && (e matches VaultError::Crypto(m) && m@ == utf8_error_text(bytes)),
        }
    }
}

/// Service `k` is the first, in the order of service names, whose credential
/// does not decrypt, and `e` is its error.
pub open spec fn first_unreadable_service(
    key: Seq<u8>,
    stored: Map<Seq<char>, EncryptedCredentialView>,
    k: Seq<char>,
    e: VaultError,
) -> bool {
    &&& stored.contains_key(k)
    &&& unreadable_error(key, stored[k], e)
    &&& forall|k2: Seq<char>|
        stored.contains_key(k2) && #[trigger] text_less(k2, k) ==> opened_entry(key, stored[k2]) is Some
}

/// Why unlocking is refused.
pub enum UnlockRefusal {
    NotInitialized,
    WrongPassword,
    Crypto(Seq<char>),
}

/// What unlocking with `password` against the stored master record gives:
/// the key of the credentials, or the reason it is refused.
pub open spec fn unlock_outcome(password: Seq<u8>, master: Option<MasterRecordView>) -> Result<Seq<u8>, UnlockRefusal> {
    match master {
        None => Err(UnlockRefusal::NotInitialized),
        Some(m) => match verification_outcome(password, m.password_hash) {
            None => Err(UnlockRefusal::Crypto(phc_parse_error(m.password_hash).unwrap())),
            Some(false) => Err(UnlockRefusal::WrongPassword),
            Some(true) => if m.key_salt.len() != 16 {
                Err(UnlockRefusal::Crypto("salt de chave corrompido"@))
            } else {
                match key_derivation(password, m.key_salt) {
                    Ok(k) => Ok(k),
                    Err(msg) => Err(UnlockRefusal::Crypto(msg)),
                }
            },
        },
    }
}

pub struct Vault<S: VaultStorage> {
    storage: S,
    cipher: VaultCipher,
}

impl<S: VaultStorage> Vault<S> {
    /// The key that encrypts the credentials.
    pub closed spec fn key(&self) -> Seq<u8> {
        self.cipher@
    }

    pub closed spec fn master(&self) -> Option<MasterRecordView> {
        self.storage.stored_master()
    }

    /// The stored (encrypted) credentials, by service.
    pub closed spec fn credentials(&self) -> Map<Seq<char>, EncryptedCredentialView> {
        self.storage.stored_credentials()
    }

    /// First use: creates the schema, records the hash of the master password
    /// and a fresh 16-byte salt, and derives the key. Refused when the storage
    /// already holds a master record.
    pub fn initialize(storage: S, master_password: &str) -> (r: Result<Self, VaultError>)
        ensures
            match r {
                Ok(v) => {
                    &&& storage.stored_master() is None
                    &&& v.credentials() == storage.stored_credentials()
                    &&& v.master() matches Some(m) && hashed_from(encode_utf8(master_password@), m.password_hash)
                        && argon2id_phc(m.password_hash) && m.key_salt.len() == 16
                        && encode_utf8(master_password@).len() <= 0xFFFF_FFFF && v.key() == argon2_derive_key(encode_utf8(master_password@), m.key_salt)
                },
                Err(VaultError::AlreadyInitialized) => storage.stored_master() is Some,
                Err(VaultError::Crypto(m)) => storage.stored_master() is None && encode_utf8(master_password@).len()
                    > 0xFFFF_FFFF && m@ == "invalid password"@,
                Err(e) => is_backend_error(e),
            },
    {
        let mut storage = storage;
        storage.init()?;
        match storage.load_master_record()? {
            Some(_) => {
                return Err(VaultError::AlreadyInitialized);
            },
            None => {},
        }
        let key_salt = random_salt_bytes();
        let password_hash = hash_master_password(master_password)?;
        let record = MasterRecord { password_hash, key_salt: vstd::slice::slice_to_vec(&key_salt) };
        storage.save_master_record(&record)?;
        let mut key = match derive_encryption_key(master_password, &key_salt) {
            Ok(k) => k,
            Err(e) => {
                return Err(e);
            },
        };
        let cipher = VaultCipher::new(&key);
        wipe_key(&mut key);
        Ok(Vault { storage, cipher })
    }

    /// Later use: checks the master password against the stored hash and, if
    /// it matches, derives the same key as at initialization.
    pub fn unlock(storage: S, master_password: &str) -> (r: Result<Self, VaultError>)
        ensures
            match r {
                Ok(v) => {
                    &&& unlock_outcome(encode_utf8(master_password@), storage.stored_master()) == Ok::<
                        Seq<u8>,
                        UnlockRefusal,
                    >(v.key())
                    &&& v.master() == storage.stored_master()
                    &&& v.credentials() == storage.stored_credentials()
                },
                Err(VaultError::NotInitialized) => unlock_outcome(encode_utf8(master_password@), storage.stored_master())
                    == Err::<Seq<u8>, UnlockRefusal>(UnlockRefusal::NotInitialized),
                Err(VaultError::InvalidMasterPassword) => unlock_outcome(
                    encode_utf8(master_password@),
                    storage.stored_master(),
                ) == Err::<Seq<u8>, UnlockRefusal>(UnlockRefusal::WrongPassword),
                Err(VaultError::Crypto(m)) => unlock_outcome(encode_utf8(master_password@), storage.stored_master())
                    == Err::<Seq<u8>, UnlockRefusal>(UnlockRefusal::Crypto(m@)),
                Err(e) => is_backend_error(e),
            },
    {
        let mut storage = storage;
        storage.init()?;
        let record = match storage.load_master_record()? {
            Some(m) => m,
            None => {
                return Err(VaultError::NotInitialized);
            },
        };
        if !verify_master_password(master_password, record.password_hash.as_str())? {
            return Err(VaultError::InvalidMasterPassword);
        }
        if record.key_salt.len() != 16 {
            return Err(VaultError::Crypto(owned("salt de chave corrompido")));
        }
        let mut key = derive_encryption_key(master_password, record.key_salt.as_slice())?;
        let cipher = VaultCipher::new(&key);
        wipe_key(&mut key);
        Ok(Vault { storage, cipher })
    }

    fn seal(&self, credential: &Credential) -> (r: Result<EncryptedCredential, VaultError>)
        ensures
            match r {
                Ok(e) => sealed_entry(self.key(), credential@, e@),
                Err(e) => e matches VaultError::Crypto(m) && m@ == "aead::Error"@ && encode_utf8(
                    credential.password@,
                ).len() >= max_plaintext_len(),
            },
    {
        let (ciphertext, nonce) = self.cipher.encrypt(credential.password.as_str())?;
        Ok(EncryptedCredential {
            service: owned(credential.service.as_str()),
            username: owned(credential.username.as_str()),
            ciphertext,
            nonce,
        })
    }

    fn open(&self, stored: &EncryptedCredential) -> (r: Result<Credential, VaultError>)
        ensures
            match r {
                Ok(c) => opened_entry(self.key(), stored@) == Some(c@),
                Err(e) => opened_entry(self.key(), stored@) is None && unreadable_error(self.key(), stored@, e),
            },
    {
        if stored.nonce.len() != 12 {
            return Err(VaultError::Crypto(owned("nonce corrompido no cofre")));
        }
        let password = self.cipher.decrypt(stored.ciphertext.as_slice(), stored.nonce.as_slice())?;
        Ok(Credential::new(stored.service.as_str(), stored.username.as_str(), password.as_str()))
    }

    /// Encrypts and stores a new credential; a service that is already there
    /// is refused.
    pub fn add_credential(&mut self, credential: &Credential) -> (r: Result<(), VaultError>)
        ensures
            final(self).key() == old(self).key(),
            final(self).master() == old(self).master(),
            match r {
                Ok(()) => !old(self).credentials().contains_key(credential.service@) && exists|
                    e: EncryptedCredentialView,
                | sealed_entry(old(self).key(), credential@, e) && final(self).credentials() == old(self).credentials().insert(credential.service@, e),
                Err(VaultError::CredentialAlreadyExists(s)) => old(self).credentials().contains_key(
                    credential.service@,
                ) && s@ == credential.service@ && final(self).credentials() == old(self).credentials(),
                Err(VaultError::Crypto(m)) => m@ == "aead::Error"@ && encode_utf8(credential.password@).len()
                    >= max_plaintext_len() && final(self).credentials() == old(self).credentials(),
                Err(e) => is_backend_error(e) && final(self).credentials() == old(self).credentials(),
            },
    {
        let encrypted = self.seal(credential)?;
        let r = self.storage.add_credential(&encrypted);
        proof {
            if r is Ok {
                assert(sealed_entry(old(self).key(), credential@, encrypted@));
            }
        }
        r
    }

    /// Looks a credential up by service and decrypts it.
    pub fn get_credential(&self, service: &str) -> (r: Result<Credential, VaultError>)
        ensures
            match r {
                Ok(c) => lookup(self.key(), self.credentials(), service@) == Lookup::Found(c@),
                Err(VaultError::CredentialNotFound(s)) => lookup(self.key(), self.credentials(), service@)
                    == Lookup::Missing && s@ == service@,
                Err(e) => is_backend_error(e) || (lookup(self.key(), self.credentials(), service@)
                    == Lookup::Unreadable && unreadable_error(self.key(), self.credentials()[service@], e)),
            },
    {
        let encrypted = self.storage.get_credential(service)?;
        self.open(&encrypted)
    }

    /// Every credential, decrypted, ordered by service.
    pub fn list_credentials(&self) -> (r: Result<Vec<Credential>, VaultError>)
        ensures
            match r {
                Ok(v) => {
                    &&& forall|i: int|
                        0 <= i < v@.len() ==> self.credentials().contains_key(#[trigger] v@[i].service@)
                            && lookup(self.key(), self.credentials(), v@[i].service@) == Lookup::Found(
                            v@[i]@,
                        )
                    &&& forall|k: Seq<char>|
                        self.credentials().contains_key(k) ==> exists|i: int|
                            0 <= i < v@.len() && #[trigger] v@[i].service@ == k
                    &&& forall|i: int, j: int|
                        0 <= i < j < v@.len() ==> text_less(
                            #[trigger] v@[i].service@,
                            #[trigger] v@[j].service@,
                        )
                },
                Err(e) => is_backend_error(e) || exists|k: Seq<char>|
                    #[trigger] first_unreadable_service(self.key(), self.credentials(), k, e),
            },
    {
        let stored = self.storage.list_credentials()?;
        let ghost views = credential_views(stored@);
        let mut out: Vec<Credential> = Vec::new();
        let mut i: usize = 0;
        while i < stored.len()
            invariant
                0 <= i <= stored@.len(),
                views == credential_views(stored@),
                lists_exactly(views, self.credentials()),
                out@.len() == i,
                forall|j: int|
                    0 <= j < i ==> (#[trigger] out@[j])@.service == views[j].service && opened_entry(
                        self.key(),
                        views[j],
                    ) == Some(out@[j]@),
            decreases stored@.len() - i,
        {
            assert(views[i as int] == stored@[i as int]@);
            assert(self.credentials().contains_key(views[i as int].service));
            let c = match self.open(&stored[i]) {
                Ok(c) => c,
                Err(e) => {
                    proof {
                        let k = views[i as int].service;
                        assert forall|k2: Seq<char>|
                            self.credentials().contains_key(k2) && #[trigger] text_less(k2, k) implies opened_entry(
                            self.key(),
                            self.credentials()[k2],
                        ) is Some by {
                            let j = choose|j: int| 0 <= j < views.len() && #[trigger] views[j].service == k2;
                            if j == i {
                                lemma_text_less_irreflexive(k);
                            } else if j > i {
                                assert(text_less(views[i as int].service, views[j].service));
                                lemma_text_less_asymmetric(k, k2);
                            } else {
                                assert(out@[j]@.service == views[j].service);
                            }
                        }
                        assert(first_unreadable_service(self.key(), self.credentials(), k, e));
                    }
                    return Err(e);
                },
            };
            out.push(c);
            i = i + 1;
        }
        proof {
            assert forall|i: int| 0 <= i < out@.len() implies self.credentials().contains_key(
                #[trigger] out@[i].service@,
            ) && lookup(self.key(), self.credentials(), out@[i].service@) == Lookup::Found(
                out@[i]@,
            ) by {
                assert(views[i].service == out@[i].service@);
            }
            assert forall|k: Seq<char>| self.credentials().contains_key(k) implies exists|i: int|
                0 <= i < out@.len() && #[trigger] out@[i].service@ == k by {
                let i = choose|i: int| 0 <= i < views.len() && #[trigger] views[i].service == k;
                assert(out@[i].service@ == k);
            }
            assert forall|i: int, j: int| 0 <= i < j < out@.len() implies text_less(
                #[trigger] out@[i].service@,
                #[trigger] out@[j].service@,
            ) by {
                assert(text_less(views[i].service, views[j].service));
            }
        }
        Ok(out)
    }

    /// Encrypts and stores new contents for an existing service.
    pub fn update_credential(&mut self, credential: &Credential) -> (r: Result<(), VaultError>)
        ensures
            final(self).key() == old(self).key(),
            final(self).master() == old(self).master(),
            match r {
                Ok(()) => old(self).credentials().contains_key(credential.service@) && exists|
                    e: EncryptedCredentialView,
                | sealed_entry(old(self).key(), credential@, e) && final(self).credentials() == old(self).credentials().insert(credential.service@, e),
                Err(VaultError::CredentialNotFound(s)) => !old(self).credentials().contains_key(
                    credential.service@,
                ) && s@ == credential.service@ && final(self).credentials() == old(self).credentials(),
                Err(VaultError::Crypto(m)) => m@ == "aead::Error"@ && encode_utf8(credential.password@).len()
                    >= max_plaintext_len() && final(self).credentials() == old(self).credentials(),
                Err(e) => is_backend_error(e) && final(self).credentials() == old(self).credentials(),
            },
    {
        let encrypted = self.seal(credential)?;
        let r = self.storage.update_credential(&encrypted);
        proof {
            if r is Ok {
                assert(sealed_entry(old(self).key(), credential@, encrypted@));
            }
        }
        r
    }

    pub fn remove_credential(&mut self, service: &str) -> (r: Result<(), VaultError>)
        ensures
            final(self).key() == old(self).key(),
            final(self).master() == old(self).master(),
            match r {
                Ok(()) => old(self).credentials().contains_key(service@) && final(self).credentials()
                    == old(self).credentials().remove(service@),
                Err(VaultError::CredentialNotFound(s)) => !old(self).credentials().contains_key(service@)
                    && s@ == service@ && final(self).credentials() == old(self).credentials(),
                Err(e) => is_backend_error(e) && final(self).credentials() == old(self).credentials(),
            },
    {
        self.storage.delete_credential(service)
    }
}

/// What was written is read back: after a credential is stored sealed under
/// the vault's key, looking its service up finds exactly that credential.
pub proof fn law_get_after_add(
    key: Seq<u8>,
    stored: Map<Seq<char>, EncryptedCredentialView>,
    credential: CredentialView,
    entry: EncryptedCredentialView,
)
    requires
        sealed_entry(key, credential, entry),
    ensures
        lookup(key, stored.insert(credential.service, entry), credential.service) == Lookup::Found(
            credential,
        ),
{
    law_decrypt_undoes_encrypt(key, entry.nonce, entry.ciphertext, credential.password);
}

/// Storing one credential leaves every other service as it was.
pub proof fn law_add_keeps_other_services(
    key: Seq<u8>,
    stored: Map<Seq<char>, EncryptedCredentialView>,
    service: Seq<char>,
    entry: EncryptedCredentialView,
    other: Seq<char>,
)
    requires
        other != service,
    ensures
        lookup(key, stored.insert(service, entry), other) == lookup(key, stored, other),
{
}

/// After a service is removed, looking it up finds nothing.
pub proof fn law_get_after_remove(
    key: Seq<u8>,
    stored: Map<Seq<char>, EncryptedCredentialView>,
    service: Seq<char>,
)
    ensures
        lookup(key, stored.remove(service), service) == Lookup::Missing,
{
}

/// Unlocking with the master password that initialized the vault succeeds and
/// yields the same key.
pub proof fn law_unlock_after_initialize(password: Seq<u8>, master: MasterRecordView)
    requires
        hashed_from(password, master.password_hash),
        master.key_salt.len() == 16,
        password.len() <= 0xFFFF_FFFF,
    ensures
        unlock_outcome(password, Some(master)) == Ok::<Seq<u8>, UnlockRefusal>(
            argon2_derive_key(password, master.key_salt),
        ),
{
    law_verify_accepts_hashed_password(password, master.password_hash);
}

/// A master password that Argon2 does not accept against the stored hash is
/// refused as wrong.
pub proof fn law_unlock_refuses_wrong_password(password: Seq<u8>, master: MasterRecordView)
    requires
        phc_parse_error(master.password_hash) is None,
        !crate::crypto::argon2_verifies(password, master.password_hash),
    ensures
        unlock_outcome(password, Some(master)) == Err::<Seq<u8>, UnlockRefusal>(
            UnlockRefusal::WrongPassword,
        ),
{
}

/// What a vault stored is read back after unlocking: given the master record
/// that `initialize` wrote for `password` and an entry that `add_credential`
/// sealed under the key it derived, a storage that holds them (the same file
/// opened again) unlocks with `password` to that same key, and looking the
/// service up there finds the credential.
pub proof fn law_unlock_reads_back_what_was_added(
    password: Seq<u8>,
    master: MasterRecordView,
    stored: Map<Seq<char>, EncryptedCredentialView>,
    credential: CredentialView,
    entry: EncryptedCredentialView,
)
    requires
        hashed_from(password, master.password_hash),
        master.key_salt.len() == 16,
        password.len() <= 0xFFFF_FFFF,
        sealed_entry(argon2_derive_key(password, master.key_salt), credential, entry),
    ensures
        unlock_outcome(password, Some(master)) == Ok::<Seq<u8>, UnlockRefusal>(
            argon2_derive_key(password, master.key_salt),
        ),
        lookup(
            argon2_derive_key(password, master.key_salt),
            stored.insert(credential.service, entry),
            credential.service,
        ) == Lookup::Found(credential),
{
    law_unlock_after_initialize(password, master);
    law_get_after_add(argon2_derive_key(password, master.key_salt), stored, credential, entry);
}

} // verus!
