//! The decisions of the account endpoints: registration, login (with its
//! two-factor step), two-factor activation, the master password and password
//! changes. The app reads and writes the rows around them.
use vstd::prelude::*;
use vstd::utf8::encode_utf8;

use crate::crypto::{argon2id_phc, hashed_from, phc_parse_error, verification_outcome};
use crate::server::auth::{
    hash_password, totp_verifies_at, verify_password, verify_totp_at, TOTP_MAX_NOW,
};
use crate::server::error::AppError;
use crate::server::models::{
    ChangePasswordRequest, LoginRequest, MasterPasswordStatusResponse, ProfileResponse,
    RegisterRequest,
};
use crate::text::owned;

verus! {

/// The message of the internal error that a stored hash which does not parse
/// gives.
pub open spec fn unparsable_hash_message(phc: Seq<char>) -> Seq<char> {
    "falha de criptografia: "@ + phc_parse_error(phc).unwrap()
}

/// The message of the internal error that a password too long to hash gives.
pub open spec fn unhashable_message() -> Seq<char> {
    "falha de criptografia: invalid password"@
}

/// The columns of `usuarios` that login reads.
pub struct LoginRecord {
    pub id: i64,
    pub nome: String,
    pub email: String,
    pub senha_hash: String,
    pub two_factor_enabled: bool,
    pub two_factor_secret: Option<String>,
}

/// What a login attempt leads to.
pub enum LoginOutcome {
    /// A token is to be issued to this user.
    Authenticated { id: i64, email: String, nome: String },
    /// The password was right, but the account asks for a TOTP code.
    TwoFactorRequired,
}

/// Registration: an e-mail already taken is a conflict; otherwise the
/// password's hash, to be stored with the new account.
pub fn prepare_registration(req: &RegisterRequest, existing_id: Option<i64>) -> (r: Result<String, AppError>)
    ensures
        match existing_id {
            Some(_) => r matches Err(AppError::Conflict(m)) && m@ == "Email já cadastrado."@,
            None => match r {
                Ok(h) => hashed_from(encode_utf8(req.senha@), h@) && argon2id_phc(h@),
                Err(e) => e matches AppError::Internal(m) && m@ == unhashable_message() && encode_utf8(
                    req.senha@,
                ).len() > 0xFFFF_FFFF,
            },
        },
        existing_id is None && encode_utf8(req.senha@).len() <= 0xFFFF_FFFF ==> r is Ok,
{
    if existing_id.is_some() {
        return Err(AppError::Conflict(owned("Email já cadastrado.")));
    }
    hash_password(req.senha.as_str())
}

/// Login: an unknown e-mail or a wrong password is refused alike; with
/// two-factor enabled, a missing code asks for one and a wrong code is
/// refused.
pub fn authenticate(user: Option<LoginRecord>, req: &LoginRequest, now: u64) -> (r: Result<LoginOutcome, AppError>)
    requires
        now <= TOTP_MAX_NOW,
    ensures
        match user {
            None => r matches Err(AppError::Unauthorized),
            Some(u) => match verification_outcome(encode_utf8(req.senha@), u.senha_hash@) {
                None => r matches Err(AppError::Internal(m)) && m@ == unparsable_hash_message(u.senha_hash@),
                Some(false) => r matches Err(AppError::Unauthorized),
                Some(true) => if !u.two_factor_enabled {
                    r matches Ok(LoginOutcome::Authenticated { id, email, nome }) && id == u.id && email
                        == u.email && nome == u.nome
                } else {
                    match (u.two_factor_secret, req.totp_code) {
                        (None, _) => r matches Err(AppError::Internal(m)) && m@ == "2FA inconsistente"@,
                        (Some(_), None) => r matches Ok(LoginOutcome::TwoFactorRequired),
                        (Some(secret), Some(code)) => if totp_verifies_at(secret@, code@, now) {
                            r matches Ok(LoginOutcome::Authenticated { id, email, nome }) && id == u.id
                                && email == u.email && nome == u.nome
                        } else {
                            r matches Err(AppError::Unauthorized)
                        },
                    }
                },
            },
        },
{
    let u = match user {
        Some(u) => u,
        None => {
            return Err(AppError::Unauthorized);
        },
    };
    if !verify_password(req.senha.as_str(), u.senha_hash.as_str())? {
        return Err(AppError::Unauthorized);
    }
    if u.two_factor_enabled {
        let secret = match u.two_factor_secret {
            Some(s) => s,
            None => {
                return Err(AppError::Internal(owned("2FA inconsistente")));
            },
        };
        match &req.totp_code {
            None => {
                return Ok(LoginOutcome::TwoFactorRequired);
            },
            Some(code) => {
                if !verify_totp_at(secret.as_str(), code.as_str(), now) {
                    return Err(AppError::Unauthorized);
                }
            },
        }
    }
    Ok(LoginOutcome::Authenticated { id: u.id, email: u.email, nome: u.nome })
}

/// Activating two-factor authentication: there must be a secret set up, and
/// the code must be valid for it now.
pub fn confirm_two_factor(secret: Option<String>, code: &str, now: u64) -> (r: Result<(), AppError>)
    requires
        now <= TOTP_MAX_NOW,
    ensures
        match secret {
            None => r matches Err(AppError::BadRequest(m)) && m@ == "2FA não configurado."@,
            Some(s) => if totp_verifies_at(s@, code@, now) {
                r is Ok
            } else {
                r matches Err(AppError::BadRequest(m)) && m@ == "Código inválido."@
            },
        },
{
    let s = match secret {
        Some(s) => s,
        None => {
            return Err(AppError::BadRequest(owned("2FA não configurado.")));
        },
    };
    if !verify_totp_at(s.as_str(), code, now) {
        return Err(AppError::BadRequest(owned("Código inválido.")));
    }
    Ok(())
}

/// Checking the master password: with none configured, or a wrong one, the
/// answer is "incorrect"; a stored hash that does not parse is an internal
/// error.
pub fn check_master_password(stored_hash: Option<String>, candidate: &str) -> (r: Result<(), AppError>)
    ensures
        match stored_hash {
            None => r matches Err(AppError::BadRequest(m)) && m@ == "Master password incorreta."@,
            Some(h) => match verification_outcome(encode_utf8(candidate@), h@) {
                Some(true) => r is Ok,
                Some(false) => r matches Err(AppError::BadRequest(m)) && m@
                    == "Master password incorreta."@,
                None => r matches Err(AppError::Internal(m)) && m@ == unparsable_hash_message(h@),
            },
        },
{
    let valid = match stored_hash {
        Some(h) => verify_password(candidate, h.as_str())?,
        None => false,
    };
    if valid {
        Ok(())
    } else {
        Err(AppError::BadRequest(owned("Master password incorreta.")))
    }
}

/// Changing the account password: the current one must check; the answer is
/// the hash of the new one.
pub fn change_password_hash(current_hash: &str, req: &ChangePasswordRequest) -> (r: Result<String, AppError>)
    ensures
        match verification_outcome(encode_utf8(req.senha_atual@), current_hash@) {
            None => r matches Err(AppError::Internal(m)) && m@ == unparsable_hash_message(current_hash@),
            Some(false) => r matches Err(AppError::BadRequest(m)) && m@ == "Senha atual incorreta."@,
            Some(true) => match r {
                Ok(h) => hashed_from(encode_utf8(req.nova_senha@), h@) && argon2id_phc(h@),
                Err(e) => e matches AppError::Internal(m) && m@ == unhashable_message() && encode_utf8(
                    req.nova_senha@,
                ).len() > 0xFFFF_FFFF,
            },
        },
{
    if !verify_password(req.senha_atual.as_str(), current_hash)? {
        return Err(AppError::BadRequest(owned("Senha atual incorreta.")));
    }
    hash_password(req.nova_senha.as_str())
}

/// The profile of a user; the master password counts as configured when a
/// hash of it is stored.
pub fn profile_response(
    id: i64,
    nome: String,
    email: String,
    criado_em: String,
    two_factor_enabled: bool,
    master_password_hash: &Option<String>,
) -> (p: ProfileResponse)
    ensures
        p.id == id,
        p.nome == nome,
        p.email == email,
        p.criado_em == criado_em,
        p.two_factor_enabled == two_factor_enabled,
        p.master_password_configured == master_password_hash.is_some(),
{
    ProfileResponse {
        id,
        nome,
        email,
        criado_em,
        two_factor_enabled,
        master_password_configured: master_password_hash.is_some(),
    }
}

pub fn master_password_status(master_password_hash: &Option<String>) -> (s: MasterPasswordStatusResponse)
    ensures
        s.is_configured == master_password_hash.is_some(),
{
    MasterPasswordStatusResponse { is_configured: master_password_hash.is_some() }
}

} // verus!
