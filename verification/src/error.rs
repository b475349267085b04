//! Errors of the local vault: its storage, its crypto, and its credentials.
use vstd::prelude::*;

use crate::text::{concat2, concat3, owned};

verus! {

#[verifier::external_type_specification]
#[verifier::external_body]
pub struct ExSqliteError(rusqlite::Error);

#[verifier::external_type_specification]
#[verifier::external_body]
pub struct ExIoError(std::io::Error);

#[derive(Debug)]
pub enum VaultError {
    CredentialNotFound(String),
    CredentialAlreadyExists(String),
    InvalidMasterPassword,
    AlreadyInitialized,
    NotInitialized,
    Crypto(String),
    Storage(rusqlite::Error),
    Io(std::io::Error),
}

/// An error of the storage backend itself (SQLite or the file system), as
/// opposed to one about the vault's contents.
pub open spec fn is_backend_error(e: VaultError) -> bool {
    e is Storage || e is Io
}

/// `Display` of a `rusqlite::Error`.
#[verifier::external_body]
fn sqlite_error_text(e: &rusqlite::Error) -> String {
    e.to_string()
}

/// `Display` of a `std::io::Error`.
#[verifier::external_body]
fn io_error_text(e: &std::io::Error) -> String {
    e.to_string()
}

impl VaultError {
    /// The message that the error shows to a user.
    pub fn message(&self) -> (m: String)
        ensures
            crate::server::error::describes(*self, m@),
            match self {
                VaultError::CredentialNotFound(s) => m@ == "credencial não encontrada para o serviço '"@
                    + s@ + "'"@,
                VaultError::CredentialAlreadyExists(s) => m@
                    == "já existe uma credencial cadastrada para o serviço '"@ + s@ + "'"@,
                VaultError::InvalidMasterPassword => m@ == "master password incorreta"@,
                VaultError::AlreadyInitialized => m@ == "o cofre já foi inicializado nesse arquivo"@,
                VaultError::NotInitialized => m@
                    == "o cofre ainda não foi inicializado -- rode o comando `init` primeiro"@,
                VaultError::Crypto(s) => m@ == "falha de criptografia: "@ + s@,
                VaultError::Storage(_) => "erro de armazenamento: "@.is_prefix_of(m@),
                VaultError::Io(_) => "erro de I/O: "@.is_prefix_of(m@),
            },
    {
        match self {
            VaultError::CredentialNotFound(s) => concat3(
                "credencial não encontrada para o serviço '",
                s.as_str(),
                "'",
            ),
            VaultError::CredentialAlreadyExists(s) => concat3(
                "já existe uma credencial cadastrada para o serviço '",
                s.as_str(),
                "'",
            ),
            VaultError::InvalidMasterPassword => owned("master password incorreta"),
            VaultError::AlreadyInitialized => owned("o cofre já foi inicializado nesse arquivo"),
            VaultError::NotInitialized => owned(
                "o cofre ainda não foi inicializado -- rode o comando `init` primeiro",
            ),
            VaultError::Crypto(s) => concat2("falha de criptografia: ", s.as_str()),
            VaultError::Storage(e) => {
                let t = sqlite_error_text(e);
                let r = concat2("erro de armazenamento: ", t.as_str());
                assert("erro de armazenamento: "@.is_prefix_of(r@)) by {
                    assert(r@.subrange(0, "erro de armazenamento: "@.len() as int)
                        =~= "erro de armazenamento: "@);
                }
                r
            },
            VaultError::Io(e) => {
                let t = io_error_text(e);
                let r = concat2("erro de I/O: ", t.as_str());
                assert("erro de I/O: "@.is_prefix_of(r@)) by {
                    assert(r@.subrange(0, "erro de I/O: "@.len() as int) =~= "erro de I/O: "@);
                }
                r
            },
        }
    }
}

} // verus!
