//! Accounts of the web API: password hashing, the claims of its tokens, the
//! bearer header, and two-factor codes (TOTP, SHA-1, 6 digits, 30 s steps).
use vstd::prelude::*;
use vstd::utf8::encode_utf8;

use std::time::{SystemTime, UNIX_EPOCH};
use totp_rs::{Algorithm, Secret, TOTP};

use crate::crypto::{argon2id_phc, hash_master_password, hashed_from, verification_outcome, verify_master_password};
use crate::error::VaultError;
use crate::server::error::{describes, AppError};
use crate::text::{
    chars_of, i64_to_decimal, lemma_parse_signed_decimal, owned, parse_i64, parse_i64_spec,
    signed_decimal, string_from_chars,
};

verus! {

/// How long a token is valid: eight hours.
pub const TOKEN_LIFETIME_SECS: u64 = 28800;

/// The latest clock reading (in seconds) for which the ±30 s window of TOTP
/// verification stays inside `i64`.
pub const TOTP_MAX_NOW: u64 = 0x7fff_ffff_ffff_ffe1;

/// The claims a token carries: the user id (as decimal text), e-mail, name,
/// and the expiry time in seconds since the Unix epoch.
pub struct Claims {
    pub sub: String,
    pub email: String,
    pub nome: String,
    pub exp: usize,
}

/// The authenticated user of a request, taken from its bearer token.
pub struct CurrentUser {
    pub id: i64,
    pub email: String,
    pub nome: String,
}

pub struct TwoFactorSetup {
    pub secret_base32: String,
    pub otpauth_uri: String,
}

/// The current time in whole seconds since the Unix epoch. Nothing is claimed
/// of it: it is the clock.
#[verifier::external_body]
pub(crate) fn now_secs() -> u64 {
    SystemTime::now().duration_since(UNIX_EPOCH).unwrap().as_secs()
}

/// The claims of the token issued at `now` to the user `user_id`.
pub fn token_claims(user_id: i64, email: &str, nome: &str, now: u64) -> (c: Claims)
    requires
        now + TOKEN_LIFETIME_SECS <= usize::MAX,
    ensures
        c.sub@ == signed_decimal(user_id as int),
        c.email@ == email@,
        c.nome@ == nome@,
        c.exp == now + TOKEN_LIFETIME_SECS,
{
    let exp = now + TOKEN_LIFETIME_SECS;
    Claims { sub: i64_to_decimal(user_id), email: owned(email), nome: owned(nome), exp: exp as usize }
}

/// The user that a validated token names; a subject that is not a decimal
/// `i64` is refused.
pub fn current_user_from_claims(claims: Claims) -> (r: Result<CurrentUser, AppError>)
    ensures
        match parse_i64_spec(claims.sub@) {
            Some(id) => r matches Ok(u) && u.id == id && u.email == claims.email && u.nome
                == claims.nome,
            None => r matches Err(AppError::Unauthorized),
        },
{
    match parse_i64(claims.sub.as_str()) {
        Some(id) => Ok(CurrentUser { id, email: claims.email, nome: claims.nome }),
        None => Err(AppError::Unauthorized),
    }
}

/// The token of an `Authorization` header of the form `Bearer <token>`; a
/// missing header, or any other form, is refused.
pub fn bearer_token(header: Option<&str>) -> (r: Result<String, AppError>)
    ensures
        match header {
            Some(h) => if "Bearer "@.is_prefix_of(h@) {
                r matches Ok(t) && t@ == h@.skip(7)
            } else {
                r matches Err(AppError::Unauthorized)
            },
            None => r matches Err(AppError::Unauthorized),
        },
{
    proof {
        reveal_strlit("Bearer ");
    }
    let h = match header {
        Some(h) => h,
        None => {
            return Err(AppError::Unauthorized);
        },
    };
    let chars = chars_of(h);
    let prefix = chars_of("Bearer ");
    assert(prefix@.len() == 7);
    if chars.len() < 7 {
        return Err(AppError::Unauthorized);
    }
    let mut i: usize = 0;
    while i < 7
        invariant
            0 <= i <= 7,
            header == Some(h),
            chars@ == h@,
            prefix@ == "Bearer "@,
            prefix@.len() == 7,
            chars@.len() >= 7,
            forall|j: int| 0 <= j < i ==> chars@[j] == prefix@[j],
        decreases 7 - i,
    {
        if chars[i] != prefix[i] {
            assert(!"Bearer "@.is_prefix_of(h@)) by {
                assert(h@[i as int] != "Bearer "@[i as int]);
            }
            return Err(AppError::Unauthorized);
        }
        i = i + 1;
    }
    assert("Bearer "@.is_prefix_of(h@)) by {
        assert(h@.subrange(0, 7) =~= "Bearer "@);
    }
    let mut rest: Vec<char> = Vec::new();
    let mut k: usize = 7;
    while k < chars.len()
        invariant
            7 <= k <= chars@.len(),
            header == Some(h),
            "Bearer "@.is_prefix_of(h@),
            chars@ == h@,
            rest@ == h@.subrange(7, k as int),
        decreases chars@.len() - k,
    {
        rest.push(chars[k]);
        k = k + 1;
        assert(rest@ =~= h@.subrange(7, k as int));
    }
    assert(rest@ =~= h@.skip(7));
    Ok(string_from_chars(&rest))
}

/// Hashes an account password (Argon2, PHC string with an embedded salt).
pub fn hash_password(password: &str) -> (r: Result<String, AppError>)
    ensures
        r is Ok <==> encode_utf8(password@).len() <= 0xFFFF_FFFF,
        match r {
            Ok(h) => hashed_from(encode_utf8(password@), h@) && argon2id_phc(h@),
            Err(e) => e matches AppError::Internal(m) && m@ == "falha de criptografia: invalid password"@,
        },
{
    match hash_master_password(password) {
        Ok(h) => Ok(h),
        Err(e) => {
            proof {
                reveal_strlit("falha de criptografia: ");
                reveal_strlit("invalid password");
                reveal_strlit("falha de criptografia: invalid password");
            }
            let r = AppError::from_vault_error(e);
            assert(r matches AppError::Internal(m) && m@ =~= "falha de criptografia: invalid password"@);
            Err(r)
        },
    }
}

/// Checks an account password against its stored hash; a stored hash that
/// does not parse is an internal error.
pub fn verify_password(password: &str, hash: &str) -> (r: Result<bool, AppError>)
    ensures
        match verification_outcome(encode_utf8(password@), hash@) {
            Some(b) => r == Ok::<bool, AppError>(b),
            None => r matches Err(AppError::Internal(m)) && m@ == "falha de criptografia: "@
                + crate::crypto::phc_parse_error(hash@).unwrap(),
        },
{
    match verify_master_password(password, hash) {
        Ok(b) => Ok(b),
        Err(e) => Err(AppError::from_vault_error(e)),
    }
}

// ---------- two-factor codes ----------

/// The unpadded RFC 4648 base32 text of `bytes` (`Secret::to_encoded`).
pub uninterp spec fn base32_encode(bytes: Seq<u8>) -> Seq<char>;

/// The bytes that unpadded RFC 4648 base32 text decodes to, if it is valid
/// (`Secret::to_bytes` of an encoded secret).
pub uninterp spec fn base32_decode(text: Seq<char>) -> Option<Seq<u8>>;

/// The 6-digit code of the SHA-1, 30-second TOTP with `secret` at `time`.
pub uninterp spec fn totp_code_at(secret: Seq<u8>, time: u64) -> Seq<char>;

/// The `otpauth://` URI of the SHA-1, 6-digit, 30-second TOTP with `secret`,
/// `issuer` and `account`.
pub uninterp spec fn otpauth_url(secret: Seq<u8>, issuer: Seq<char>, account: Seq<char>) -> Seq<char>;

/// The text of the error `TOTP::new` gives for these arguments.
pub uninterp spec fn totp_rejection(secret: Seq<u8>, issuer: Option<Seq<char>>, account: Seq<char>) -> Seq<char>;

/// Whether `TOTP::new` (SHA-1, 6 digits, skew 1, 30 s) accepts these
/// arguments: a secret of at least 128 bits, and no `:` in issuer or account.
pub open spec fn totp_accepts(secret: Seq<u8>, issuer: Option<Seq<char>>, account: Seq<char>) -> bool {
    &&& secret.len() >= 16
    &&& (issuer matches Some(i) ==> !i.contains(':'))
    &&& !account.contains(':')
}

/// `Secret::generate_secret`: 20 random bytes (160 bits). Nothing else is
/// claimed of them.
#[verifier::external_body]
fn generate_totp_secret() -> (s: Vec<u8>)
    ensures
        s@.len() == 20,
{
    match Secret::generate_secret() {
        Secret::Raw(bytes) => bytes,
        Secret::Encoded(_) => Vec::new(),
    }
}

/// `Secret::to_encoded` of raw bytes, as text. Decoding the text again gives
/// the bytes back.
#[verifier::external_body]
fn encode_totp_secret(bytes: &Vec<u8>) -> (s: String)
    ensures
        s@ == base32_encode(bytes@),
        base32_decode(s@) == Some(bytes@),
{
    Secret::Raw(bytes.clone()).to_encoded().to_string()
}

/// `Secret::to_bytes` of an encoded secret; `None` where it is not valid
/// base32.
#[verifier::external_body]
fn decode_totp_secret(text: &str) -> (r: Option<Vec<u8>>)
    ensures
        match r {
            Some(b) => base32_decode(text@) == Some(b@),
            None => base32_decode(text@) is None,
        },
{
    Secret::Encoded(text.to_string()).to_bytes().ok()
}

/// `TOTP::new` with SHA-1, 6 digits, skew 1 and 30-second steps, keeping only
/// whether it accepts (and the text of its error).
#[verifier::external_body]
fn totp_check(secret: &Vec<u8>, issuer: Option<&str>, account: &str) -> (r: Result<(), String>)
    ensures
        r is Ok <==> totp_accepts(
            secret@,
            match issuer {
                Some(i) => Some(i@),
                None => None,
            },
            account@,
        ),
        r matches Err(m) ==> m@ == totp_rejection(
            secret@,
            match issuer {
                Some(i) => Some(i@),
                None => None,
            },
            account@,
        ),
{
    TOTP::new(Algorithm::SHA1, 6, 1, 30, secret.clone(), issuer.map(|i| i.to_string()), account.to_string())
        .map(|_| ())
        .map_err(|e| e.to_string())
}

/// `TOTP::generate` (SHA-1, 6 digits, 30-second steps): the code at `time`,
/// always six ASCII digits.
#[verifier::external_body]
fn totp_generate(secret: &Vec<u8>, time: u64) -> (code: String)
    ensures
        code@ == totp_code_at(secret@, time),
        code@.len() == 6,
        forall|i: int| 0 <= i < 6 ==> '0' <= #[trigger] code@[i] <= '9',
{
    TOTP::new_unchecked(Algorithm::SHA1, 6, 1, 30, secret.clone(), None, "user".to_string()).generate(time)
}

/// `TOTP::get_url` (SHA-1, 6 digits, 30-second steps).
#[verifier::external_body]
fn totp_url(secret: &Vec<u8>, issuer: &str, account: &str) -> (url: String)
    ensures
        url@ == otpauth_url(secret@, issuer@, account@),
{
    TOTP::new_unchecked(
        Algorithm::SHA1,
        6,
        1,
        30,
        secret.clone(),
        Some(issuer.to_string()),
        account.to_string(),
    ).get_url()
}

/// Creates a fresh TOTP secret for the account `email`, with its base32 text
/// and its `otpauth://` URI (issuer `CofreSenhas`).
pub fn setup_2fa(email: &str) -> (r: Result<TwoFactorSetup, AppError>)
    ensures
        r is Ok <==> !email@.contains(':'),
        match r {
            Ok(s) => exists|secret: Seq<u8>|
                {
                    &&& secret.len() == 20
                    &&& #[trigger] base32_encode(secret) == s.secret_base32@
                    &&& base32_decode(s.secret_base32@) == Some(secret)
                    &&& s.otpauth_uri@ == otpauth_url(secret, "CofreSenhas"@, email@)
                },
            Err(e) => e matches AppError::Internal(m) && exists|secret: Seq<u8>|
                secret.len() == 20 && m@ == #[trigger] totp_rejection(secret, Some("CofreSenhas"@), email@),
        },
{
    proof {
        reveal_strlit("CofreSenhas");
    }
    let secret = generate_totp_secret();
    let secret_base32 = encode_totp_secret(&secret);
    match totp_check(&secret, Some("CofreSenhas"), email) {
        Ok(()) => {},
        Err(m) => {
            return Err(AppError::Internal(m));
        },
    }
    let otpauth_uri = totp_url(&secret, "CofreSenhas", email);
    Ok(TwoFactorSetup { secret_base32, otpauth_uri })
}

/// The instant of the verification window at `offset` steps (−1, 0, +1) of
/// 30 s from `now`, never before the epoch.
pub open spec fn window_time(now: u64, offset: int) -> u64 {
    if now + offset * 30 < 0 {
        0
    } else {
        (now + offset * 30) as u64
    }
}

/// Whether `code` is the TOTP code of the secret in `secret_base32` at `now`
/// or one step (30 s) before or after it.
pub open spec fn totp_verifies_at(secret_base32: Seq<char>, code: Seq<char>, now: u64) -> bool {
    match base32_decode(secret_base32) {
        Some(secret) => {
            &&& totp_accepts(secret, None, "user"@)
            &&& {
                ||| totp_code_at(secret, window_time(now, 0)) == code
                ||| totp_code_at(secret, window_time(now, -1)) == code
                ||| totp_code_at(secret, window_time(now, 1)) == code
            }
        },
        None => false,
    }
}

/// Checks a TOTP code at the clock reading `now`, with a tolerance of one
/// 30-second step each way (the phone's clock may drift).
pub fn verify_totp_at(secret_base32: &str, code: &str, now: u64) -> (ok: bool)
    requires
        now <= TOTP_MAX_NOW,
    ensures
        ok == totp_verifies_at(secret_base32@, code@, now),
{
    proof {
        reveal_strlit("user");
    }
    let secret = match decode_totp_secret(secret_base32) {
        Some(s) => s,
        None => {
            return false;
        },
    };
    match totp_check(&secret, None, "user") {
        Ok(()) => {},
        Err(_) => {
            return false;
        },
    }
    let before = if now >= 30 {
        now - 30
    } else {
        0
    };
    let after = now + 30;
    let c0 = totp_generate(&secret, now);
    if crate::text::text_eq(c0.as_str(), code) {
        assert(window_time(now, 0) == now);
        return true;
    }
    let c1 = totp_generate(&secret, before);
    if crate::text::text_eq(c1.as_str(), code) {
        assert(window_time(now, -1) == before);
        return true;
    }
    let c2 = totp_generate(&secret, after);
    assert(window_time(now, 0) == now);
    assert(window_time(now, -1) == before);
    assert(window_time(now, 1) == after);
    crate::text::text_eq(c2.as_str(), code)
}

/// Checks a TOTP code against the current clock (see `verify_totp_at`); a
/// clock reading beyond `TOTP_MAX_NOW` accepts no code.
pub fn verify_totp(secret_base32: &str, code: &str) -> (ok: bool)
    ensures
        ok ==> exists|now: u64| now <= TOTP_MAX_NOW && totp_verifies_at(secret_base32@, code@, now),
{
    let now = now_secs();
    if now > TOTP_MAX_NOW {
        return false;
    }
    verify_totp_at(secret_base32, code, now)
}

/// The subject written into a token names the same user when it is read
/// back: an id survives `token_claims` and `current_user_from_claims`.
pub proof fn law_token_subject_round_trip(user_id: i64)
    ensures
        parse_i64_spec(signed_decimal(user_id as int)) == Some(user_id as int),
{
    lemma_parse_signed_decimal(user_id);
}

/// The code that the two-factor secret yields at the moment of verification
/// is accepted.
pub proof fn law_totp_accepts_current_code(secret: Seq<u8>, secret_base32: Seq<char>, now: u64)
    requires
        base32_decode(secret_base32) == Some(secret),
        secret.len() >= 16,
        now <= TOTP_MAX_NOW,
    ensures
        totp_verifies_at(secret_base32, totp_code_at(secret, now), now),
{
    reveal_strlit("user");
    assert(window_time(now, 0) == now);
}

} // verus!
