//! The persistence backend of the local vault, behind a trait: `crypto` and
//! the vault only know `VaultStorage`, so a new backend is a new impl of it.
use vstd::prelude::*;

use crate::error::VaultError;
use crate::models::{EncryptedCredential, EncryptedCredentialView};
use crate::text::{owned, text_less};

mod memory;

pub use memory::MemoryStorage;

verus! {

/// Who owns the vault: the hash of the master password (checked on unlock)
/// and the salt from which the credentials' key is derived.
pub struct MasterRecord {
    pub password_hash: String,
    pub key_salt: Vec<u8>,
}

pub struct MasterRecordView {
    pub password_hash: Seq<char>,
    pub key_salt: Seq<u8>,
}

impl View for MasterRecord {
    type V = MasterRecordView;

    open spec fn view(&self) -> MasterRecordView {
        MasterRecordView { password_hash: self.password_hash@, key_salt: self.key_salt@ }
    }
}

impl MasterRecord {
    /// A copy with the same contents.
    pub fn duplicate(&self) -> (m: Self)
        ensures
            m@ == self@,
    {
        let key_salt = self.key_salt.clone();
        assert(key_salt@ =~= self.key_salt@);
        MasterRecord { password_hash: owned(self.password_hash.as_str()), key_salt }
    }
}

/// `listed` holds every credential of `stored` once, in increasing order of
/// service name.
pub open spec fn lists_exactly(
    listed: Seq<EncryptedCredentialView>,
    stored: Map<Seq<char>, EncryptedCredentialView>,
) -> bool {
    &&& forall|i: int|
        0 <= i < listed.len() ==> stored.contains_key(#[trigger] listed[i].service)
            && stored[listed[i].service] == listed[i]
    &&& forall|k: Seq<char>|
        stored.contains_key(k) ==> exists|i: int| 0 <= i < listed.len() && #[trigger] listed[i].service == k
    &&& forall|i: int, j: int|
        0 <= i < j < listed.len() ==> text_less(#[trigger] listed[i].service, #[trigger] listed[j].service)
}

/// The credentials of a backend as a table from service name to entry.
pub type CredentialTable = Map<Seq<char>, EncryptedCredentialView>;

/// The views of a vector of stored credentials.
pub open spec fn credential_views(v: Seq<EncryptedCredential>) -> Seq<EncryptedCredentialView> {
    v.map_values(|c: EncryptedCredential| c@)
}

/// A persistence backend. Its state is a master record (or none) and a map
/// from service name to stored credential. Any call may also fail in the
/// backend itself (`Storage` or `Io`), and then nothing changes.
pub trait VaultStorage {
    /// The master record held, if any.
    spec fn stored_master(&self) -> Option<MasterRecordView>;

    /// The credentials held, by service name.
    spec fn stored_credentials(&self) -> CredentialTable;

    /// Creates the schema if it does not exist yet. Idempotent.
    fn init(&mut self) -> (r: Result<(), VaultError>)
        ensures
            final(self).stored_master() == old(self).stored_master(),
            final(self).stored_credentials() == old(self).stored_credentials(),
            r matches Err(e) ==> crate::error::is_backend_error(e),
    ;

    /// Stores the master record, replacing any earlier one.
    fn save_master_record(&mut self, record: &MasterRecord) -> (r: Result<(), VaultError>)
        ensures
            final(self).stored_credentials() == old(self).stored_credentials(),
            match r {
                Ok(()) => final(self).stored_master() == Some(record@),
                Err(e) => crate::error::is_backend_error(e) && final(self).stored_master()
                    == old(self).stored_master(),
            },
    ;

    fn load_master_record(&self) -> (r: Result<Option<MasterRecord>, VaultError>)
        ensures
            match r {
                Ok(Some(m)) => self.stored_master() == Some(m@),
                Ok(None) => self.stored_master() is None,
                Err(e) => crate::error::is_backend_error(e),
            },
    ;

    /// Adds a credential; a service that is already there is refused.
    fn add_credential(&mut self, credential: &EncryptedCredential) -> (r: Result<(), VaultError>)
        ensures
            final(self).stored_master() == old(self).stored_master(),
            match r {
                Ok(()) => !old(self).stored_credentials().contains_key(credential.service@)
                    && final(self).stored_credentials() == old(self).stored_credentials().insert(
                    credential.service@,
                    credential@,
                ),
                Err(VaultError::CredentialAlreadyExists(s)) => old(self).stored_credentials().contains_key(credential.service@) && s@ == credential.service@
                    && final(self).stored_credentials() == old(self).stored_credentials(),
                Err(e) => crate::error::is_backend_error(e) && final(self).stored_credentials() == old(self).stored_credentials(),
            },
    ;

    fn get_credential(&self, service: &str) -> (r: Result<EncryptedCredential, VaultError>)
        ensures
            match r {
                Ok(c) => self.stored_credentials().contains_key(service@) && c@
                    == self.stored_credentials()[service@],
                Err(VaultError::CredentialNotFound(s)) => !self.stored_credentials().contains_key(
                    service@,
                ) && s@ == service@,
                Err(e) => crate::error::is_backend_error(e),
            },
    ;

    /// Every credential, ordered by service name.
    fn list_credentials(&self) -> (r: Result<Vec<EncryptedCredential>, VaultError>)
        ensures
            match r {
                Ok(v) => lists_exactly(credential_views(v@), self.stored_credentials()),
                Err(e) => crate::error::is_backend_error(e),
            },
    ;

    /// Replaces the credential of an existing service.
    fn update_credential(&mut self, credential: &EncryptedCredential) -> (r: Result<(), VaultError>)
        ensures
            final(self).stored_master() == old(self).stored_master(),
            match r {
                Ok(()) => old(self).stored_credentials().contains_key(credential.service@) && final(self).stored_credentials() == old(self).stored_credentials().insert(
                    credential.service@,
                    credential@,
                ),
                Err(VaultError::CredentialNotFound(s)) => !old(self).stored_credentials().contains_key(credential.service@) && s@ == credential.service@
                    && final(self).stored_credentials() == old(self).stored_credentials(),
                Err(e) => crate::error::is_backend_error(e) && final(self).stored_credentials() == old(self).stored_credentials(),
            },
    ;

    fn delete_credential(&mut self, service: &str) -> (r: Result<(), VaultError>)
        ensures
            final(self).stored_master() == old(self).stored_master(),
            match r {
                Ok(()) => old(self).stored_credentials().contains_key(service@) && final(self).stored_credentials() == old(self).stored_credentials().remove(service@),
                Err(VaultError::CredentialNotFound(s)) => !old(self).stored_credentials().contains_key(
                    service@,
                ) && s@ == service@ && final(self).stored_credentials() == old(self).stored_credentials(),
                Err(e) => crate::error::is_backend_error(e) && final(self).stored_credentials() == old(self).stored_credentials(),
            },
    ;
}

} // verus!
