//! Errors of the web API: each one already knows its HTTP status.
use vstd::prelude::*;

use crate::error::VaultError;
use crate::text::{concat2, owned};

verus! {

#[derive(Debug)]
pub enum AppError {
    BadRequest(String),
    Unauthorized,
    NotFound,
    Conflict(String),
    Internal(String),
}

/// `m` is the message of the vault error `e` (for a backend error, only its
/// prefix is fixed: the rest is the backend's own text).
pub open spec fn describes(e: VaultError, m: Seq<char>) -> bool {
    match e {
        VaultError::CredentialNotFound(s) => m == "credencial não encontrada para o serviço '"@ + s@ + "'"@,
        VaultError::CredentialAlreadyExists(s) => m == "já existe uma credencial cadastrada para o serviço '"@
            + s@ + "'"@,
        VaultError::InvalidMasterPassword => m == "master password incorreta"@,
        VaultError::AlreadyInitialized => m == "o cofre já foi inicializado nesse arquivo"@,
        VaultError::NotInitialized => m == "o cofre ainda não foi inicializado -- rode o comando `init` primeiro"@,
        VaultError::Crypto(s) => m == "falha de criptografia: "@ + s@,
        VaultError::Storage(_) => "erro de armazenamento: "@.is_prefix_of(m),
        VaultError::Io(_) => "erro de I/O: "@.is_prefix_of(m),
    }
}

/// The HTTP status of each error.
pub open spec fn status_of(e: AppError) -> u16 {
    match e {
        AppError::BadRequest(_) => 400,
        AppError::Unauthorized => 401,
        AppError::NotFound => 404,
        AppError::Conflict(_) => 409,
        AppError::Internal(_) => 500,
    }
}

impl AppError {
    /// Any vault error (crypto, storage) becomes an internal server error
    /// carrying its message.
    pub fn from_vault_error(err: VaultError) -> (r: AppError)
        ensures
            r matches AppError::Internal(m) && describes(err, m@),
    {
        let m = err.message();
        AppError::Internal(m)
    }

    pub fn status_code(&self) -> (c: u16)
        ensures
            c == status_of(*self),
    {
        match self {
            AppError::BadRequest(_) => 400,
            AppError::Unauthorized => 401,
            AppError::NotFound => 404,
            AppError::Conflict(_) => 409,
            AppError::Internal(_) => 500,
        }
    }

    /// The `message` field of the JSON body the API answers with.
    pub fn response_message(&self) -> (m: String)
        ensures
            match self {
                AppError::BadRequest(s) => m@ == s@,
                AppError::Unauthorized => m@ == "credenciais inválidas"@,
                AppError::NotFound => m@ == "recurso não encontrado"@,
                AppError::Conflict(s) => m@ == s@,
                AppError::Internal(s) => m@ == s@,
            },
    {
        match self {
            AppError::BadRequest(s) => owned(s.as_str()),
            AppError::Unauthorized => owned("credenciais inválidas"),
            AppError::NotFound => owned("recurso não encontrado"),
            AppError::Conflict(s) => owned(s.as_str()),
            AppError::Internal(s) => owned(s.as_str()),
        }
    }

    /// The error's own text (what `Display` shows).
    pub fn display_text(&self) -> (m: String)
        ensures
            match self {
                AppError::BadRequest(s) => m@ == s@,
                AppError::Unauthorized => m@ == "credenciais inválidas"@,
                AppError::NotFound => m@ == "recurso não encontrado"@,
                AppError::Conflict(s) => m@ == s@,
                AppError::Internal(s) => m@ == "erro interno: "@ + s@,
            },
    {
        match self {
            AppError::Internal(s) => concat2("erro interno: ", s.as_str()),
            _ => self.response_message(),
        }
    }
}

} // verus!
