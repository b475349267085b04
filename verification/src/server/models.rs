//! Database rows and the request/response bodies of the web API (the JSON
//! contract of the React frontend; field names are mapped by the app).
use vstd::prelude::*;

use crate::text::owned;

verus! {

// ---------- database rows ----------

pub struct Usuario {
    pub id: i64,
    pub nome: String,
    pub email: String,
    pub senha_hash: String,
    pub criado_em: String,
    pub two_factor_enabled: bool,
    pub two_factor_secret: Option<String>,
    pub master_password_hash: Option<String>,
    pub encryption_salt: Vec<u8>,
}

pub struct SenhaRow {
    pub id: i64,
    pub titulo: String,
    pub login: String,
    pub senha_ciphertext: Vec<u8>,
    pub senha_nonce: Vec<u8>,
    pub url: Option<String>,
    pub notas: Option<String>,
    pub categoria: String,
    pub criado_em: String,
    pub atualizado_em: String,
}

pub struct SenhaVersaoRow {
    pub id: i64,
    pub titulo: String,
    pub login: String,
    pub senha_ciphertext: Vec<u8>,
    pub senha_nonce: Vec<u8>,
    pub alterado_em: String,
}

// ---------- authentication ----------

pub struct RegisterRequest {
    pub nome: String,
    pub email: String,
    pub senha: String,
}

pub struct LoginRequest {
    pub email: String,
    pub senha: String,
    pub totp_code: Option<String>,
}

pub struct AuthResponse {
    pub token: Option<String>,
    pub two_factor_required: Option<bool>,
}

pub struct Setup2faResponse {
    pub secret: String,
    pub qr_code_uri: String,
}

pub struct Verify2faRequest {
    pub code: String,
}

pub struct ProfileResponse {
    pub id: i64,
    pub nome: String,
    pub email: String,
    pub criado_em: String,
    pub two_factor_enabled: bool,
    pub master_password_configured: bool,
}

pub struct ChangePasswordRequest {
    pub senha_atual: String,
    pub nova_senha: String,
}

pub struct SetupMasterPasswordRequest {
    pub master_password: String,
}

pub struct VerifyMasterPasswordRequest {
    pub master_password: String,
}

pub struct MasterPasswordStatusResponse {
    pub is_configured: bool,
}

// ---------- stored passwords ----------

pub struct CriarSenhaRequest {
    pub titulo: String,
    pub login: String,
    pub senha: String,
    pub url: Option<String>,
    pub notas: Option<String>,
    pub categoria: String,
}

/// The category of a password when the request names none.
pub fn categoria_padrao() -> (c: String)
    ensures
        c@ == "Pessoal"@,
{
    owned("Pessoal")
}

pub struct SenhaResponse {
    pub id: i64,
    pub titulo: String,
    pub login: String,
    pub senha: String,
    pub url: Option<String>,
    pub notas: Option<String>,
    pub categoria: String,
    pub criado_em: String,
}

pub struct SenhaVersaoResponse {
    pub id: i64,
    pub titulo: String,
    pub login: String,
    pub senha: String,
    pub alterado_em: String,
}

pub struct PagedResponse<T> {
    pub items: Vec<T>,
    pub page: i64,
    pub page_size: i64,
    pub total_count: i64,
    pub total_pages: i64,
}

/// The number of pages of `page_size` items that `total_count` items fill
/// (the last one possibly partly).
pub open spec fn page_count(total_count: int, page_size: int) -> int {
    if total_count % page_size == 0 {
        total_count / page_size
    } else {
        total_count / page_size + 1
    }
}

impl<T> PagedResponse<T> {
    /// `total_pages` is `total_count / page_size` rounded up. (It is computed
    /// in integers; the counts this is called with are far below 2^53, where
    /// floating-point division gives the same.)
    pub fn new(items: Vec<T>, page: i64, page_size: i64, total_count: i64) -> (p: Self)
        requires
            page_size > 0,
            0 <= total_count <= 0x20_0000_0000_0000,
        ensures
            p.items == items,
            p.page == page,
            p.page_size == page_size,
            p.total_count == total_count,
            p.total_pages == page_count(total_count as int, page_size as int),
    {
        let total_pages = if total_count % page_size == 0 {
            total_count / page_size
        } else {
            total_count / page_size + 1
        };
        PagedResponse { items, page, page_size, total_count, total_pages }
    }
}

// ---------- password generator ----------

pub enum GerarSenhaRequest {
    Aleatorio { tamanho: usize, usar_maiusculas: bool, usar_numeros: bool, usar_especiais: bool },
    Palavras { quantidade: usize, capitalizar: bool, incluir_numero: bool },
}

#[derive(Debug, Clone, Copy, PartialEq, Eq, Structural)]
pub enum ForcaSenha {
    Fraca,
    Media,
    Forte,
    MuitoForte,
}

pub struct GerarSenhaResponse {
    pub senha: String,
    pub forca: ForcaSenha,
}

// ---------- audit ----------

pub struct AuditLogResponse {
    pub id: i64,
    pub acao: String,
    pub data_hora: String,
    pub titulo: String,
}

pub struct AuditRequest {
    pub senha_id: i64,
    pub acao: String,
}

} // verus!
