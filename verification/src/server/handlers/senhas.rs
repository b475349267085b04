//! The decisions of the stored-password endpoints: each user's key, turning
//! rows into responses, pages of the list, the CSV export and duplicate
//! detection on import.
use vstd::prelude::*;
use vstd::utf8::encode_utf8;

use crate::crypto::{
    chacha20poly1305_open, decrypted_text, derive_encryption_key, key_derivation, utf8_error_text,
    VaultCipher,
};
use crate::server::error::AppError;
use crate::server::models::{
    page_count, CriarSenhaRequest, PagedResponse, SenhaResponse, SenhaRow, SenhaVersaoResponse,
    SenhaVersaoRow,
};
use crate::text::{chars_of, owned, push_char, string_from_chars, text_eq};

verus! {

/// The query string of the list endpoint.
pub struct ListQuery {
    pub page: Option<i64>,
    pub page_size: Option<i64>,
}

/// The list endpoint answers either one page or everything.
pub enum SenhaList {
    Paged(PagedResponse<SenhaResponse>),
    All(Vec<SenhaResponse>),
}

pub open spec fn opt_text(o: Option<String>) -> Option<Seq<char>> {
    match o {
        Some(s) => Some(s@),
        None => None,
    }
}

fn copy_opt(o: &Option<String>) -> (r: Option<String>)
    ensures
        opt_text(r) == opt_text(*o),
{
    match o {
        Some(s) => Some(owned(s.as_str())),
        None => None,
    }
}

/// `resp` is `row` with its password decrypted under `key`.
pub open spec fn decrypts_row(key: Seq<u8>, row: SenhaRow, resp: SenhaResponse) -> bool {
    &&& decrypted_text(key, row.senha_nonce@, row.senha_ciphertext@) == Some(resp.senha@)
    &&& resp.id == row.id
    &&& resp.titulo@ == row.titulo@
    &&& resp.login@ == row.login@
    &&& opt_text(resp.url) == opt_text(row.url)
    &&& opt_text(resp.notas) == opt_text(row.notas)
    &&& resp.categoria@ == row.categoria@
    &&& resp.criado_em@ == row.criado_em@
}

pub open spec fn row_unreadable(key: Seq<u8>, row: SenhaRow) -> bool {
    decrypted_text(key, row.senha_nonce@, row.senha_ciphertext@) is None
}

/// The message of the internal error that a password which does not decrypt
/// gives: the tag does not authenticate under the key, or the opened bytes
/// are not UTF-8.
pub open spec fn unreadable_message(key: Seq<u8>, nonce: Seq<u8>, ciphertext: Seq<u8>) -> Seq<char> {
    match chacha20poly1305_open(key, nonce, ciphertext) {
        None => "master password incorreta"@,
        Some(bytes) => "falha de criptografia: "@ + utf8_error_text(bytes),
    }
}

/// `e` is the error that the unreadable `row` gives.
pub open spec fn unreadable_row_error(key: Seq<u8>, row: SenhaRow, e: AppError) -> bool {
    &&& row_unreadable(key, row)
    &&& e matches AppError::Internal(m) && m@ == unreadable_message(key, row.senha_nonce@, row.senha_ciphertext@)
}

/// Row `i` is the first of `rows[start..]` that does not decrypt, and `e` is
/// its error.
pub open spec fn first_unreadable(key: Seq<u8>, rows: Seq<SenhaRow>, start: int, i: int, e: AppError) -> bool {
    &&& unreadable_row_error(key, rows[i], e)
    &&& forall|j: int| start <= j < i ==> !row_unreadable(key, #[trigger] rows[j])
}

pub open spec fn nonces_ok(rows: Seq<SenhaRow>) -> bool {
    forall|i: int| 0 <= i < rows.len() ==> (#[trigger] rows[i]).senha_nonce@.len() == 12
}

/// The key of a user: derived from the server's secret and the user's own
/// salt.
pub fn cipher_for_user(encryption_salt: &[u8], encryption_secret: &str) -> (r: Result<VaultCipher, AppError>)
    ensures
        match key_derivation(encode_utf8(encryption_secret@), encryption_salt@) {
            Ok(k) => r matches Ok(c) && c@ == k,
            Err(msg) => r matches Err(AppError::Internal(m)) && m@ == "falha de criptografia: "@ + msg,
        },
{
    match derive_encryption_key(encryption_secret, encryption_salt) {
        Ok(key) => Ok(VaultCipher::new(&key)),
        Err(e) => Err(AppError::from_vault_error(e)),
    }
}

/// A row with its password decrypted.
pub fn row_to_response(row: &SenhaRow, cipher: &VaultCipher) -> (r: Result<SenhaResponse, AppError>)
    requires
        row.senha_nonce@.len() == 12,
    ensures
        match r {
            Ok(resp) => decrypts_row(cipher@, *row, resp),
            Err(e) => unreadable_row_error(cipher@, *row, e),
        },
{
    let senha = match cipher.decrypt(row.senha_ciphertext.as_slice(), row.senha_nonce.as_slice()) {
        Ok(s) => s,
        Err(e) => {
            return Err(AppError::from_vault_error(e));
        },
    };
    Ok(SenhaResponse {
        id: row.id,
        titulo: owned(row.titulo.as_str()),
        login: owned(row.login.as_str()),
        senha,
        url: copy_opt(&row.url),
        notas: copy_opt(&row.notas),
        categoria: owned(row.categoria.as_str()),
        criado_em: owned(row.criado_em.as_str()),
    })
}

/// The rows from `start` to `end` (exclusive), decrypted, in order; the first
/// row that does not decrypt stops it with an error.
pub fn rows_to_responses(rows: &Vec<SenhaRow>, start: usize, end: usize, cipher: &VaultCipher) -> (r: Result<Vec<SenhaResponse>, AppError>)
    requires
        start <= end <= rows@.len(),
        nonces_ok(rows@),
    ensures
        match r {
            Ok(v) => v@.len() == end - start && forall|i: int|
                0 <= i < v@.len() ==> decrypts_row(cipher@, rows@[start + i], #[trigger] v@[i]),
            Err(e) => exists|i: int| start <= i < end && #[trigger] first_unreadable(cipher@, rows@, start as int, i, e),
        },
{
    let mut out: Vec<SenhaResponse> = Vec::new();
    let mut i: usize = start;
    while i < end
        invariant
            start <= i <= end <= rows@.len(),
            nonces_ok(rows@),
            out@.len() == i - start,
            forall|j: int| 0 <= j < out@.len() ==> decrypts_row(cipher@, rows@[start + j], #[trigger] out@[j]),
            forall|j: int| start <= j < i ==> !row_unreadable(cipher@, #[trigger] rows@[j]),
        decreases end - i,
    {
        assert(rows@[i as int].senha_nonce@.len() == 12);
        let resp = match row_to_response(&rows[i], cipher) {
            Ok(resp) => resp,
            Err(e) => {
                assert(first_unreadable(cipher@, rows@, start as int, i as int, e));
                return Err(e);
            },
        };
        out.push(resp);
        i = i + 1;
    }
    Ok(out)
}

/// Two answers carry the same password entry: same id and the same text in
/// every field.
pub open spec fn same_response(a: SenhaResponse, b: SenhaResponse) -> bool {
    &&& a.id == b.id
    &&& a.titulo@ == b.titulo@
    &&& a.login@ == b.login@
    &&& a.senha@ == b.senha@
    &&& opt_text(a.url) == opt_text(b.url)
    &&& opt_text(a.notas) == opt_text(b.notas)
    &&& a.categoria@ == b.categoria@
    &&& a.criado_em@ == b.criado_em@
}

/// The JSON export and the unpaged list answer the same items in the same
/// order: any two answers that decrypt the same rows, one by one, agree item
/// by item (both endpoints decrypt all the user's rows, `list_senhas` without
/// a page and `rows_to_responses` over the whole range).
pub proof fn law_export_agrees_with_list(
    key: Seq<u8>,
    rows: Seq<SenhaRow>,
    listed: Seq<SenhaResponse>,
    exported: Seq<SenhaResponse>,
)
    requires
        listed.len() == rows.len(),
        exported.len() == rows.len(),
        forall|i: int| 0 <= i < rows.len() ==> decrypts_row(key, rows[i], #[trigger] listed[i]),
        forall|i: int| 0 <= i < rows.len() ==> decrypts_row(key, rows[i], #[trigger] exported[i]),
    ensures
        forall|i: int| 0 <= i < rows.len() ==> same_response(#[trigger] listed[i], exported[i]),
{
    assert forall|i: int| 0 <= i < rows.len() implies same_response(#[trigger] listed[i], exported[i]) by {
        assert(decrypts_row(key, rows[i], listed[i]));
        assert(decrypts_row(key, rows[i], exported[i]));
    }
}

/// The page size asked for, or 20, kept within 1 to 100.
pub open spec fn effective_page_size(page_size: Option<i64>) -> int {
    let s = match page_size {
        Some(s) => s as int,
        None => 20,
    };
    if s < 1 {
        1
    } else if s > 100 {
        100
    } else {
        s
    }
}

pub open spec fn page_start(total: int, page: int, size: int) -> int {
    if (page - 1) * size < total {
        (page - 1) * size
    } else {
        total
    }
}

pub open spec fn page_end(total: int, page: int, size: int) -> int {
    if page_start(total, page, size) + size < total {
        page_start(total, page, size) + size
    } else {
        total
    }
}

/// Page `p` of size `s` over `n` rows holds exactly the rows from
/// `(p - 1) * s` up to `p * s`, both cut at `n`; a page that starts inside
/// the list is not empty.
pub proof fn law_page_holds_its_slice_of_rows(n: int, p: int, s: int)
    requires
        n >= 0,
        p >= 1,
        s >= 1,
    ensures
        page_start(n, p, s) == (if (p - 1) * s < n { (p - 1) * s } else { n }),
        page_end(n, p, s) == (if p * s < n { p * s } else { n }),
        (p - 1) * s < n ==> page_start(n, p, s) < page_end(n, p, s),
        page_end(n, p, s) - page_start(n, p, s) <= s,
{
    assert(p * s == (p - 1) * s + s) by (nonlinear_arith);
    assert((p - 1) * s >= 0) by (nonlinear_arith)
        requires
            p >= 1,
            s >= 1,
    ;
}

/// The pages 1 to `page_count(n, s)` list every row once, in order: the first
/// starts at row 0, each ends where the next begins, the last ends at `n`,
/// none of them is empty, and every later page is empty.
pub proof fn law_pages_cover_every_row_once(n: int, s: int)
    requires
        n >= 0,
        s >= 1,
    ensures
        page_start(n, 1, s) == 0,
        forall|p: int| p >= 1 ==> #[trigger] page_end(n, p, s) == page_start(n, p + 1, s),
        n > 0 ==> page_end(n, page_count(n, s), s) == n,
        forall|p: int|
            1 <= p <= page_count(n, s) ==> page_start(n, p, s) < #[trigger] page_end(n, p, s),
        forall|p: int| p > page_count(n, s) ==> #[trigger] page_start(n, p, s) == n,
{
    let c = page_count(n, s);
    let q = n / s;
    let r = n % s;
    assert(n == q * s + r && 0 <= r < s) by (nonlinear_arith)
        requires
            s >= 1,
            q == n / s,
            r == n % s,
    ;
    assert(q >= 0) by (nonlinear_arith)
        requires
            n >= 0,
            s >= 1,
            q == n / s,
    ;
    assert(c * s >= n && (c - 1) * s < n || n == 0) by (nonlinear_arith)
        requires
            n == q * s + r,
            0 <= r < s,
            q >= 0,
            c == (if r == 0 { q } else { q + 1 }),
    ;
    assert(c >= 0);
    assert(n > 0 ==> c >= 1) by (nonlinear_arith)
        requires
            n == q * s + r,
            0 <= r < s,
            q >= 0,
            c == (if r == 0 { q } else { q + 1 }),
    ;
    assert((1 - 1) * s == 0);
    assert forall|p: int| p >= 1 implies #[trigger] page_end(n, p, s) == page_start(n, p + 1, s) by {
        assert(p * s == (p - 1) * s + s) by (nonlinear_arith);
        assert(((p + 1) - 1) * s == p * s);
    }
    assert forall|p: int| 1 <= p <= c implies page_start(n, p, s) < #[trigger] page_end(n, p, s) by {
        assert((p - 1) * s <= (c - 1) * s) by (nonlinear_arith)
            requires
                p <= c,
                s >= 1,
        ;
        law_page_holds_its_slice_of_rows(n, p, s);
    }
    assert forall|p: int| p > c implies #[trigger] page_start(n, p, s) == n by {
        assert((p - 1) * s >= c * s) by (nonlinear_arith)
            requires
                p > c,
                s >= 1,
        ;
    }
    if n > 0 {
        assert(c >= 1);
        law_page_holds_its_slice_of_rows(n, c, s);
    }
}

pub open spec fn paging_requested(query: ListQuery) -> bool {
    query.page matches Some(p) && p > 0
}

/// The list endpoint: with a positive `page`, that page (of the effective
/// page size) of the rows, else every row; either way decrypted, in order.
pub fn list_senhas(rows: &Vec<SenhaRow>, query: &ListQuery, cipher: &VaultCipher) -> (r: Result<SenhaList, AppError>)
    requires
        nonces_ok(rows@),
        rows@.len() <= 0x20_0000_0000_0000,
        query.page matches Some(p) ==> (p > 0 ==> (p - 1) * effective_page_size(query.page_size) <= i64::MAX),
    ensures
        if paging_requested(*query) {
            let p = query.page.unwrap() as int;
            let size = effective_page_size(query.page_size);
            let start = page_start(rows@.len() as int, p, size);
            let end = page_end(rows@.len() as int, p, size);
            match r {
                Ok(SenhaList::Paged(pr)) => {
                    &&& pr.page == p
                    &&& pr.page_size == size
                    &&& pr.total_count == rows@.len()
                    &&& pr.total_pages == page_count(rows@.len() as int, size)
                    &&& pr.items@.len() == end - start
                    &&& forall|i: int|
                        0 <= i < pr.items@.len() ==> decrypts_row(cipher@, rows@[start + i], #[trigger] pr.items@[i])
                },
                Ok(SenhaList::All(_)) => false,
                Err(e) => exists|i: int| start <= i < end && #[trigger] first_unreadable(cipher@, rows@, start, i, e),
            }
        } else {
            match r {
                Ok(SenhaList::All(v)) => v@.len() == rows@.len() && forall|i: int|
                    0 <= i < v@.len() ==> decrypts_row(cipher@, rows@[i], #[trigger] v@[i]),
                Ok(SenhaList::Paged(_)) => false,
                Err(e) => exists|i: int| 0 <= i < rows@.len() && #[trigger] first_unreadable(cipher@, rows@, 0, i, e),
            }
        },
{
    let total = rows.len();
    match query.page {
        Some(page) if page > 0 => {
            let asked: i64 = match query.page_size {
                Some(s) => s,
                None => 20,
            };
            let size: i64 = if asked < 1 {
                1
            } else if asked > 100 {
                100
            } else {
                asked
            };
            assert(size == effective_page_size(query.page_size));
            let offset: i64 = (page - 1) * size;
            let start: usize = if (offset as u64) < (total as u64) {
                offset as usize
            } else {
                total
            };
            let end: usize = if (start as u64) + (size as u64) < (total as u64) {
                start + size as usize
            } else {
                total
            };
            assert(start as int == page_start(total as int, page as int, size as int));
            assert(end as int == page_end(total as int, page as int, size as int));
            let items = match rows_to_responses(rows, start, end, cipher) {
                Ok(items) => items,
                Err(e) => {
                    proof {
                        let i = choose|i: int| start <= i < end && #[trigger] first_unreadable(cipher@, rows@, start as int, i, e);
                        assert(first_unreadable(cipher@, rows@, page_start(total as int, page as int, size as int), i, e));
                    }
                    return Err(e);
                },
            };
            let paged = PagedResponse::new(items, page, size, total as i64);
            Ok(SenhaList::Paged(paged))
        },
        _ => {
            let items = rows_to_responses(rows, 0, total, cipher)?;
            Ok(SenhaList::All(items))
        },
    }
}

/// The answer to saving a password, new or changed: what was asked, under
/// the entry's id and creation time.
pub fn saved_response(id: i64, req: CriarSenhaRequest, criado_em: String) -> (r: SenhaResponse)
    ensures
        r.id == id,
        r.titulo == req.titulo,
        r.login == req.login,
        r.senha == req.senha,
        r.url == req.url,
        r.notas == req.notas,
        r.categoria == req.categoria,
        r.criado_em == criado_em,
{
    SenhaResponse {
        id,
        titulo: req.titulo,
        login: req.login,
        senha: req.senha,
        url: req.url,
        notas: req.notas,
        categoria: req.categoria,
        criado_em,
    }
}

/// A deletion that removed no row was of a password that does not exist (or
/// is not the user's).
pub fn deletion_outcome(affected: usize) -> (r: Result<(), AppError>)
    ensures
        affected == 0 ==> r matches Err(AppError::NotFound),
        affected > 0 ==> r is Ok,
{
    if affected == 0 {
        Err(AppError::NotFound)
    } else {
        Ok(())
    }
}

/// `resp` is the version `v` with its password decrypted under `key`.
pub open spec fn decrypts_version(key: Seq<u8>, v: SenhaVersaoRow, resp: SenhaVersaoResponse) -> bool {
    &&& decrypted_text(key, v.senha_nonce@, v.senha_ciphertext@) == Some(resp.senha@)
    &&& resp.id == v.id
    &&& resp.titulo@ == v.titulo@
    &&& resp.login@ == v.login@
    &&& resp.alterado_em@ == v.alterado_em@
}

/// Version `i` is the first of `versions` that does not decrypt, and `e` is
/// its error.
pub open spec fn first_unreadable_version(key: Seq<u8>, versions: Seq<SenhaVersaoRow>, i: int, e: AppError) -> bool {
    &&& decrypted_text(key, versions[i].senha_nonce@, versions[i].senha_ciphertext@) is None
    &&& e matches AppError::Internal(m) && m@ == unreadable_message(
        key,
        versions[i].senha_nonce@,
        versions[i].senha_ciphertext@,
    )
    &&& forall|j: int|
        0 <= j < i ==> decrypted_text(key, (#[trigger] versions[j]).senha_nonce@, versions[j].senha_ciphertext@) is Some
}

/// The history of a password: every stored version, decrypted, in order; the
/// first version that does not decrypt stops it with an error.
pub fn versions_to_responses(versions: &Vec<SenhaVersaoRow>, cipher: &VaultCipher) -> (r: Result<Vec<SenhaVersaoResponse>, AppError>)
    requires
        forall|i: int| 0 <= i < versions@.len() ==> (#[trigger] versions@[i]).senha_nonce@.len() == 12,
    ensures
        match r {
            Ok(v) => v@.len() == versions@.len() && forall|i: int|
                0 <= i < v@.len() ==> decrypts_version(cipher@, versions@[i], #[trigger] v@[i]),
            Err(e) => exists|i: int| 0 <= i < versions@.len() && #[trigger] first_unreadable_version(cipher@, versions@, i, e),
        },
{
    let mut out: Vec<SenhaVersaoResponse> = Vec::new();
    let mut i: usize = 0;
    while i < versions.len()
        invariant
            0 <= i <= versions@.len(),
            forall|k: int| 0 <= k < versions@.len() ==> (#[trigger] versions@[k]).senha_nonce@.len() == 12,
            out@.len() == i,
            forall|j: int| 0 <= j < i ==> decrypts_version(cipher@, versions@[j], #[trigger] out@[j]),
        decreases versions@.len() - i,
    {
        assert(versions@[i as int].senha_nonce@.len() == 12);
        let resp = match version_to_response(&versions[i], cipher) {
            Ok(resp) => resp,
            Err(e) => {
                proof {
                    assert forall|j: int| 0 <= j < i implies decrypted_text(
                        cipher@,
                        (#[trigger] versions@[j]).senha_nonce@,
                        versions@[j].senha_ciphertext@,
                    ) is Some by {
                        assert(decrypts_version(cipher@, versions@[j], out@[j]));
                    }
                    assert(first_unreadable_version(cipher@, versions@, i as int, e));
                }
                return Err(e);
            },
        };
        out.push(resp);
        i = i + 1;
    }
    Ok(out)
}

/// A stored earlier version, with its password decrypted.
pub fn version_to_response(v: &SenhaVersaoRow, cipher: &VaultCipher) -> (r: Result<SenhaVersaoResponse, AppError>)
    requires
        v.senha_nonce@.len() == 12,
    ensures
        match decrypted_text(cipher@, v.senha_nonce@, v.senha_ciphertext@) {
            Some(p) => r matches Ok(resp) && resp.senha@ == p && resp.id == v.id && resp.titulo@
                == v.titulo@ && resp.login@ == v.login@ && resp.alterado_em@ == v.alterado_em@,
            None => r matches Err(AppError::Internal(m)) && m@ == unreadable_message(
                cipher@,
                v.senha_nonce@,
                v.senha_ciphertext@,
            ),
        },
{
    let senha = match cipher.decrypt(v.senha_ciphertext.as_slice(), v.senha_nonce.as_slice()) {
        Ok(s) => s,
        Err(e) => {
            return Err(AppError::from_vault_error(e));
        },
    };
    Ok(SenhaVersaoResponse {
        id: v.id,
        titulo: owned(v.titulo.as_str()),
        login: owned(v.login.as_str()),
        senha,
        alterado_em: owned(v.alterado_em.as_str()),
    })
}

/// The answer to restoring a version: title, login and password come from
/// the version, everything else from the current entry.
pub fn restored_response(senha_id: i64, version: &SenhaVersaoRow, current: &SenhaRow, cipher: &VaultCipher) -> (r: Result<SenhaResponse, AppError>)
    requires
        version.senha_nonce@.len() == 12,
    ensures
        match decrypted_text(cipher@, version.senha_nonce@, version.senha_ciphertext@) {
            Some(p) => r matches Ok(resp) && resp.senha@ == p && resp.id == senha_id && resp.titulo@
                == version.titulo@ && resp.login@ == version.login@ && opt_text(resp.url) == opt_text(
                current.url,
            ) && opt_text(resp.notas) == opt_text(current.notas) && resp.categoria@
                == current.categoria@ && resp.criado_em@ == current.criado_em@,
            None => r matches Err(AppError::Internal(m)) && m@ == unreadable_message(
                cipher@,
                version.senha_nonce@,
                version.senha_ciphertext@,
            ),
        },
{
    let senha = match cipher.decrypt(version.senha_ciphertext.as_slice(), version.senha_nonce.as_slice()) {
        Ok(s) => s,
        Err(e) => {
            return Err(AppError::from_vault_error(e));
        },
    };
    Ok(SenhaResponse {
        id: senha_id,
        titulo: owned(version.titulo.as_str()),
        login: owned(version.login.as_str()),
        senha,
        url: copy_opt(&current.url),
        notas: copy_opt(&current.notas),
        categoria: owned(current.categoria.as_str()),
        criado_em: owned(current.criado_em.as_str()),
    })
}

// ---------- CSV export ----------

/// A field needs quoting when it holds a double quote, a comma or a newline.
pub open spec fn needs_quotes(s: Seq<char>) -> bool {
    s.contains('"') || s.contains(',') || s.contains('\n')
}

/// `s` with every double quote doubled.
pub open spec fn double_quotes(s: Seq<char>) -> Seq<char>
    decreases s.len(),
{
    if s.len() == 0 {
        Seq::empty()
    } else if s.last() == '"' {
        double_quotes(s.drop_last()) + seq!['"', '"']
    } else {
        double_quotes(s.drop_last()).push(s.last())
    }
}

/// One CSV field: empty stays empty; a field with a quote, comma or newline
/// is quoted, with its quotes doubled; any other is written as is.
pub open spec fn csv_field(s: Seq<char>) -> Seq<char> {
    if s.len() == 0 {
        Seq::empty()
    } else if needs_quotes(s) {
        seq!['"'] + double_quotes(s) + seq!['"']
    } else {
        s
    }
}

proof fn lemma_contains_push(s: Seq<char>, c: char, x: char)
    ensures
        s.push(c).contains(x) <==> (s.contains(x) || c == x),
{
    let t = s.push(c);
    if s.contains(x) {
        let i = choose|i: int| 0 <= i < s.len() && s[i] == x;
        assert(t[i] == x);
    }
    if c == x {
        assert(t[s.len() as int] == x);
    }
    if t.contains(x) {
        let i = choose|i: int| 0 <= i < t.len() && t[i] == x;
        if i < s.len() {
            assert(s[i] == x);
        }
    }
}

pub fn csv_escape(value: &str) -> (r: String)
    ensures
        r@ == csv_field(value@),
{
    let chars = chars_of(value);
    if chars.len() == 0 {
        return String::new();
    }
    let mut special = false;
    let mut i: usize = 0;
    while i < chars.len()
        invariant
            0 <= i <= chars@.len(),
            chars@ == value@,
            special == needs_quotes(chars@.subrange(0, i as int)),
        decreases chars@.len() - i,
    {
        let c = chars[i];
        proof {
            let pre = chars@.subrange(0, i as int);
            let next = chars@.subrange(0, i + 1);
            assert(next =~= pre.push(c));
            lemma_contains_push(pre, c, '"');
            lemma_contains_push(pre, c, ',');
            lemma_contains_push(pre, c, '\n');
        }
        if c == '"' || c == ',' || c == '\n' {
            special = true;
        }
        i = i + 1;
    }
    assert(chars@.subrange(0, chars@.len() as int) =~= chars@);
    if !special {
        return string_from_chars(&chars);
    }
    let mut out: Vec<char> = Vec::new();
    out.push('"');
    let mut k: usize = 0;
    while k < chars.len()
        invariant
            0 <= k <= chars@.len(),
            chars@ == value@,
            out@ == seq!['"'] + double_quotes(chars@.subrange(0, k as int)),
        decreases chars@.len() - k,
    {
        let c = chars[k];
        let ghost pre = chars@.subrange(0, k as int);
        proof {
            let next = chars@.subrange(0, k + 1);
            assert(next.drop_last() =~= pre);
            assert(next.last() == c);
        }
        if c == '"' {
            out.push('"');
            out.push('"');
            assert(out@ =~= seq!['"'] + (double_quotes(pre) + seq!['"', '"']));
        } else {
            out.push(c);
            assert(out@ =~= seq!['"'] + double_quotes(pre).push(c));
        }
        k = k + 1;
    }
    out.push('"');
    string_from_chars(&out)
}

/// The text of an optional field, or nothing.
pub open spec fn text_or_empty(o: Option<String>) -> Seq<char> {
    match o {
        Some(s) => s@,
        None => Seq::empty(),
    }
}

/// The CSV line of one password: title, login, password, URL, category,
/// notes.
pub open spec fn csv_line(item: SenhaResponse) -> Seq<char> {
    csv_field(item.titulo@) + ","@ + csv_field(item.login@) + ","@ + csv_field(item.senha@) + ","@
        + csv_field(text_or_empty(item.url)) + ","@ + csv_field(item.categoria@) + ","@
        + csv_field(text_or_empty(item.notas)) + "\n"@
}

pub open spec fn csv_lines(items: Seq<SenhaResponse>) -> Seq<char>
    decreases items.len(),
{
    if items.len() == 0 {
        Seq::empty()
    } else {
        csv_lines(items.drop_last()) + csv_line(items.last())
    }
}

/// The pieces of `s` between occurrences of `sep`, as `str::split(sep)`
/// yields them: one more piece than `s` holds separators.
pub open spec fn split_on(s: Seq<char>, sep: char) -> Seq<Seq<char>>
    decreases s.len(),
{
    if s.len() == 0 {
        seq![Seq::<char>::empty()]
    } else if s.last() == sep {
        split_on(s.drop_last(), sep).push(Seq::<char>::empty())
    } else {
        let p = split_on(s.drop_last(), sep);
        p.update(p.len() - 1, p.last().push(s.last()))
    }
}

proof fn lemma_split_on_len(s: Seq<char>, sep: char)
    ensures
        split_on(s, sep).len() >= 1,
    decreases s.len(),
{
    if s.len() > 0 {
        lemma_split_on_len(s.drop_last(), sep);
    }
}

proof fn lemma_without_drop_last(b: Seq<char>, sep: char)
    requires
        b.len() > 0,
        !b.contains(sep),
    ensures
        !b.drop_last().contains(sep),
        b.last() != sep,
{
    if b.drop_last().contains(sep) {
        let k = choose|k: int| 0 <= k < b.drop_last().len() && b.drop_last()[k] == sep;
        assert(b[k] == sep);
    }
    assert(b[b.len() - 1] == b.last());
}

proof fn lemma_split_on_single(b: Seq<char>, sep: char)
    requires
        !b.contains(sep),
    ensures
        split_on(b, sep) == seq![b],
    decreases b.len(),
{
    if b.len() == 0 {
        assert(b =~= Seq::<char>::empty());
    } else {
        lemma_without_drop_last(b, sep);
        lemma_split_on_single(b.drop_last(), sep);
        assert(b.drop_last().push(b.last()) =~= b);
        assert(seq![b.drop_last()].update(0, b) =~= seq![b]);
    }
}

proof fn lemma_split_on_after(a: Seq<char>, sep: char, b: Seq<char>)
    requires
        !b.contains(sep),
    ensures
        split_on(a + seq![sep] + b, sep) == split_on(a, sep).push(b),
    decreases b.len(),
{
    let s = a + seq![sep] + b;
    if b.len() == 0 {
        assert(s.drop_last() =~= a);
        assert(b =~= Seq::<char>::empty());
    } else {
        let b2 = b.drop_last();
        lemma_without_drop_last(b, sep);
        lemma_split_on_after(a, sep, b2);
        assert(s.drop_last() =~= a + seq![sep] + b2);
        assert(s.last() == b.last());
        lemma_split_on_len(a, sep);
        let p = split_on(a, sep).push(b2);
        assert(b2.push(b.last()) =~= b);
        assert(p.update(p.len() - 1, b) =~= split_on(a, sep).push(b));
    }
}

/// A field that CSV writes as it is: no double quote, comma or newline.
pub open spec fn plain_field(s: Seq<char>) -> bool {
    !s.contains('"') && !s.contains(',') && !s.contains('\n')
}

/// The CSV line of a password whose fields hold no quote, comma or newline
/// ends in a newline and, split on its commas, gives back the password's
/// title, login, password, URL (empty when it has none), category and notes
/// (empty when it has none), in that order.
pub proof fn law_csv_line_holds_the_fields_in_header_order(item: SenhaResponse)
    requires
        plain_field(item.titulo@),
        plain_field(item.login@),
        plain_field(item.senha@),
        item.url matches Some(u) ==> plain_field(u@),
        plain_field(item.categoria@),
        item.notas matches Some(n) ==> plain_field(n@),
    ensures
        csv_line(item).len() > 0,
        csv_line(item).last() == '\n',
        split_on(csv_line(item).drop_last(), ',') == seq![
            item.titulo@,
            item.login@,
            item.senha@,
            match item.url {
                Some(u) => u@,
                None => Seq::<char>::empty(),
            },
            item.categoria@,
            match item.notas {
                Some(n) => n@,
                None => Seq::<char>::empty(),
            },
        ],
{
    reveal_strlit(",");
    reveal_strlit("\n");
    let url = match item.url {
        Some(u) => u@,
        None => Seq::<char>::empty(),
    };
    let notas = match item.notas {
        Some(n) => n@,
        None => Seq::<char>::empty(),
    };
    assert(url == text_or_empty(item.url));
    assert(notas == text_or_empty(item.notas));
    assert(plain_field(url)) by {
        if item.url is None {
            assert(url =~= Seq::<char>::empty());
        }
    }
    assert(plain_field(notas)) by {
        if item.notas is None {
            assert(notas =~= Seq::<char>::empty());
        }
    }
    let f1 = item.titulo@;
    let f2 = item.login@;
    let f3 = item.senha@;
    let f5 = item.categoria@;
    assert(csv_field(f1) == f1);
    assert(csv_field(f2) == f2);
    assert(csv_field(f3) == f3);
    assert(csv_field(url) == url);
    assert(csv_field(f5) == f5);
    assert(csv_field(notas) == notas);
    let body = f1 + seq![','] + f2 + seq![','] + f3 + seq![','] + url + seq![','] + f5 + seq![','] + notas;
    assert(csv_line(item) =~= body.push('\n'));
    assert(body.push('\n').drop_last() =~= body);
    lemma_split_on_single(f1, ',');
    lemma_split_on_after(f1, ',', f2);
    lemma_split_on_after(f1 + seq![','] + f2, ',', f3);
    lemma_split_on_after(f1 + seq![','] + f2 + seq![','] + f3, ',', url);
    lemma_split_on_after(f1 + seq![','] + f2 + seq![','] + f3 + seq![','] + url, ',', f5);
    lemma_split_on_after(f1 + seq![','] + f2 + seq![','] + f3 + seq![','] + url + seq![','] + f5, ',', notas);
    assert(split_on(body, ',') =~= seq![f1, f2, f3, url, f5, notas]);
}

/// The exported CSV: a header line, then one line per password.
pub open spec fn csv_document(items: Seq<SenhaResponse>) -> Seq<char> {
    "Titulo,Login,Senha,URL,Categoria,Notas\n"@ + csv_lines(items)
}

fn optional_text(o: &Option<String>) -> (r: String)
    ensures
        r@ == text_or_empty(*o),
{
    match o {
        Some(s) => owned(s.as_str()),
        None => String::new(),
    }
}

fn push_field(out: &mut String, value: &str, sep: &str)
    ensures
        final(out)@ == old(out)@ + csv_field(value@) + sep@,
{
    let f = csv_escape(value);
    out.append(f.as_str());
    out.append(sep);
}

fn csv_line_of(item: &SenhaResponse) -> (r: String)
    ensures
        r@ == csv_line(*item),
{
    let url = optional_text(&item.url);
    let notas = optional_text(&item.notas);
    let mut line = String::new();
    let ghost l0 = line@;
    push_field(&mut line, item.titulo.as_str(), ",");
    let ghost l1 = line@;
    push_field(&mut line, item.login.as_str(), ",");
    let ghost l2 = line@;
    push_field(&mut line, item.senha.as_str(), ",");
    let ghost l3 = line@;
    push_field(&mut line, url.as_str(), ",");
    let ghost l4 = line@;
    push_field(&mut line, item.categoria.as_str(), ",");
    let ghost l5 = line@;
    push_field(&mut line, notas.as_str(), "\n");
    proof {
        assert(l1 =~= csv_field(item.titulo@) + ","@);
        assert(l2 =~= csv_field(item.titulo@) + ","@ + csv_field(item.login@) + ","@);
        assert(l3 =~= csv_field(item.titulo@) + ","@ + csv_field(item.login@) + ","@ + csv_field(item.senha@) + ","@);
        assert(l4 =~= csv_field(item.titulo@) + ","@ + csv_field(item.login@) + ","@ + csv_field(item.senha@) + ","@
            + csv_field(text_or_empty(item.url)) + ","@);
        assert(l5 =~= csv_field(item.titulo@) + ","@ + csv_field(item.login@) + ","@ + csv_field(item.senha@) + ","@
            + csv_field(text_or_empty(item.url)) + ","@ + csv_field(item.categoria@) + ","@);
        assert(line@ =~= csv_line(*item));
    }
    line
}

pub fn export_csv(items: &Vec<SenhaResponse>) -> (r: String)
    ensures
        r@ == csv_document(items@),
{
    let mut csv = owned("Titulo,Login,Senha,URL,Categoria,Notas\n");
    let mut i: usize = 0;
    while i < items.len()
        invariant
            0 <= i <= items@.len(),
            csv@ == "Titulo,Login,Senha,URL,Categoria,Notas\n"@ + csv_lines(items@.subrange(0, i as int)),
        decreases items@.len() - i,
    {
        let item = &items[i];
        let ghost before = csv@;
        let line = csv_line_of(item);
        csv.append(line.as_str());
        proof {
            let sub = items@.subrange(0, i + 1);
            assert(sub.drop_last() =~= items@.subrange(0, i as int));
            assert(sub.last() == *item);
            assert(csv@ =~= before + csv_line(*item));
        }
        i = i + 1;
    }
    assert(items@.subrange(0, items@.len() as int) =~= items@);
    csv
}

// ---------- import ----------

/// What an import does: which items it inserts (by position, in order) and
/// how many it skips as duplicates.
pub struct ImportPlan {
    pub to_insert: Vec<usize>,
    pub skipped: usize,
}

/// The identity of a stored password for duplicate detection: its title and
/// login.
pub open spec fn entry_key(item: CriarSenhaRequest) -> (Seq<char>, Seq<char>) {
    (item.titulo@, item.login@)
}

pub open spec fn pair_key(p: (String, String)) -> (Seq<char>, Seq<char>) {
    (p.0@, p.1@)
}

/// Item `i` duplicates a password the user already has, or an earlier item
/// of the same import.
pub open spec fn is_duplicate(
    existing: Seq<(Seq<char>, Seq<char>)>,
    items: Seq<CriarSenhaRequest>,
    i: int,
) -> bool {
    ||| existing.contains(entry_key(items[i]))
    ||| exists|j: int| 0 <= j < i && #[trigger] entry_key(items[j]) == entry_key(items[i])
}

/// Position `i` is among the positions in `to_insert`.
pub open spec fn inserts(to_insert: Seq<usize>, i: int) -> bool {
    exists|k: int| 0 <= k < to_insert.len() && #[trigger] to_insert[k] as int == i
}

/// `plan` inserts exactly the items that are no duplicates, in order, and
/// counts the others as skipped.
pub open spec fn plans_import(
    existing: Seq<(Seq<char>, Seq<char>)>,
    items: Seq<CriarSenhaRequest>,
    to_insert: Seq<usize>,
    skipped: int,
) -> bool {
    &&& forall|k: int| 0 <= k < to_insert.len() ==> #[trigger] to_insert[k] < items.len()
    &&& forall|k: int, l: int| 0 <= k < l < to_insert.len() ==> #[trigger] to_insert[k] < #[trigger] to_insert[l]
    &&& forall|i: int| 0 <= i < items.len() ==> (!is_duplicate(existing, items, i) <==> inserts(to_insert, i))
    &&& skipped == items.len() - to_insert.len()
}

fn same_key(a: &str, b: &str, c: &str, d: &str) -> (r: bool)
    ensures
        r == (a@ == c@ && b@ == d@),
{
    text_eq(a, c) && text_eq(b, d)
}

/// Decides an import: each item whose title and login match an existing
/// password of the user, or an earlier item, is skipped.
pub fn plan_import(existing: &Vec<(String, String)>, items: &Vec<CriarSenhaRequest>) -> (plan: ImportPlan)
    ensures
        plans_import(existing@.map_values(|p: (String, String)| pair_key(p)), items@, plan.to_insert@, plan.skipped as int),
{
    let ghost ex = existing@.map_values(|p: (String, String)| pair_key(p));
    let mut to_insert: Vec<usize> = Vec::new();
    let mut i: usize = 0;
    while i < items.len()
        invariant
            0 <= i <= items@.len(),
            ex == existing@.map_values(|p: (String, String)| pair_key(p)),
            forall|k: int| 0 <= k < to_insert@.len() ==> #[trigger] to_insert@[k] < i,
            forall|k: int, l: int| 0 <= k < l < to_insert@.len() ==> #[trigger] to_insert@[k] < #[trigger] to_insert@[l],
            forall|m: int| 0 <= m < i ==> (!is_duplicate(ex, items@, m) <==> inserts(to_insert@, m)),
            to_insert@.len() <= i,
        decreases items@.len() - i,
    {
        let item = &items[i];
        let mut dup = false;
        let mut j: usize = 0;
        while j < existing.len()
            invariant
                0 <= j <= existing@.len(),
                ex == existing@.map_values(|p: (String, String)| pair_key(p)),
                *item == items@[i as int],
                dup == exists|t: int| 0 <= t < j && ex[t] == entry_key(*item),
            decreases existing@.len() - j,
        {
            if same_key(existing[j].0.as_str(), existing[j].1.as_str(), item.titulo.as_str(), item.login.as_str()) {
                dup = true;
                assert(ex[j as int] == entry_key(*item));
            }
            proof {
                if !dup {
                    assert(ex[j as int] != entry_key(*item));
                }
            }
            j = j + 1;
        }
        let mut earlier = false;
        let mut k: usize = 0;
        while k < i
            invariant
                0 <= k <= i < items@.len(),
                *item == items@[i as int],
                earlier == exists|t: int| 0 <= t < k && #[trigger] entry_key(items@[t]) == entry_key(*item),
            decreases i - k,
        {
            if same_key(items[k].titulo.as_str(), items[k].login.as_str(), item.titulo.as_str(), item.login.as_str()) {
                earlier = true;
                assert(entry_key(items@[k as int]) == entry_key(*item));
            }
            k = k + 1;
        }
        proof {
            if dup {
                let t = choose|t: int| 0 <= t < existing@.len() && ex[t] == entry_key(*item);
                assert(ex.contains(entry_key(items@[i as int])));
            }
            if ex.contains(entry_key(items@[i as int])) {
                let t = choose|t: int| 0 <= t < ex.len() && ex[t] == entry_key(items@[i as int]);
                assert(dup);
            }
        }
        let ghost before = to_insert@;
        if !dup && !earlier {
            to_insert.push(i);
        }
        proof {
            assert forall|m: int| 0 <= m < i + 1 implies (!is_duplicate(ex, items@, m) <==> inserts(to_insert@, m)) by {
                if m < i {
                    if inserts(to_insert@, m) {
                        let q = choose|q: int| 0 <= q < to_insert@.len() && #[trigger] to_insert@[q] as int == m;
                        if q == before.len() {
                            assert(to_insert@[q] == i);
                        } else {
                            assert(before[q] == to_insert@[q]);
                        }
                    }
                    if inserts(before, m) {
                        let q = choose|q: int| 0 <= q < before.len() && #[trigger] before[q] as int == m;
                        assert(to_insert@[q] == before[q]);
                    }
                } else {
                    if inserts(to_insert@, m) {
                        let q = choose|q: int| 0 <= q < to_insert@.len() && #[trigger] to_insert@[q] as int == m;
                        if q < before.len() {
                            assert(before[q] == to_insert@[q]);
                            assert(before[q] < i);
                        }
                    }
                    if !dup && !earlier {
                        assert(to_insert@[before.len() as int] == i);
                    }
                }
            }
        }
        i = i + 1;
    }
    let skipped = items.len() - to_insert.len();
    ImportPlan { to_insert, skipped }
}

/// The identities stored after an import: those there were, then those of
/// the inserted items.
pub open spec fn after_import(
    existing: Seq<(Seq<char>, Seq<char>)>,
    items: Seq<CriarSenhaRequest>,
    to_insert: Seq<usize>,
) -> Seq<(Seq<char>, Seq<char>)> {
    existing + to_insert.map_values(|k: usize| entry_key(items[k as int]))
}

/// Importing the same items a second time, once the first import's
/// insertions are stored, inserts nothing: every item is now a duplicate.
pub proof fn law_import_is_idempotent(
    existing: Seq<(Seq<char>, Seq<char>)>,
    items: Seq<CriarSenhaRequest>,
    to_insert: Seq<usize>,
    skipped: int,
)
    requires
        plans_import(existing, items, to_insert, skipped),
    ensures
        forall|i: int|
            0 <= i < items.len() ==> #[trigger] is_duplicate(after_import(existing, items, to_insert), items, i),
{
    let after = after_import(existing, items, to_insert);
    assert forall|i: int| 0 <= i < items.len() implies is_duplicate(after, items, i) by {
        if existing.contains(entry_key(items[i])) {
            let t = choose|t: int| 0 <= t < existing.len() && existing[t] == entry_key(items[i]);
            assert(after[t] == entry_key(items[i]));
        } else if exists|j: int| 0 <= j < i && #[trigger] entry_key(items[j]) == entry_key(items[i]) {
        } else {
            assert(!is_duplicate(existing, items, i));
            assert(inserts(to_insert, i));
            let q = choose|q: int| 0 <= q < to_insert.len() && #[trigger] to_insert[q] as int == i;
            assert(to_insert.map_values(|k: usize| entry_key(items[k as int]))[q] == entry_key(items[i]));
            assert(after[existing.len() + q] == entry_key(items[i]));
        }
    }
}

/// Duplicates are told by title and login together: an item whose title
/// differs from that of every password already stored and of every earlier
/// item is inserted, whatever its login.
pub proof fn law_import_inserts_an_item_with_a_new_title(
    existing: Seq<(String, String)>,
    items: Seq<CriarSenhaRequest>,
    to_insert: Seq<usize>,
    skipped: int,
    i: int,
)
    requires
        plans_import(existing.map_values(|p: (String, String)| pair_key(p)), items, to_insert, skipped),
        0 <= i < items.len(),
        forall|t: int| 0 <= t < existing.len() ==> (#[trigger] existing[t]).0@ != items[i].titulo@,
        forall|j: int| 0 <= j < i ==> (#[trigger] items[j]).titulo@ != items[i].titulo@,
    ensures
        inserts(to_insert, i),
{
    let ex = existing.map_values(|p: (String, String)| pair_key(p));
    if ex.contains(entry_key(items[i])) {
        let t = choose|t: int| 0 <= t < ex.len() && ex[t] == entry_key(items[i]);
        assert(existing[t].0@ != items[i].titulo@);
    }
    if exists|j: int| 0 <= j < i && #[trigger] entry_key(items[j]) == entry_key(items[i]) {
        let j = choose|j: int| 0 <= j < i && #[trigger] entry_key(items[j]) == entry_key(items[i]);
        assert(items[j].titulo@ != items[i].titulo@);
    }
}

/// Likewise by login: an item whose login differs from that of every
/// password already stored and of every earlier item is inserted, whatever
/// its title.
pub proof fn law_import_inserts_an_item_with_a_new_login(
    existing: Seq<(String, String)>,
    items: Seq<CriarSenhaRequest>,
    to_insert: Seq<usize>,
    skipped: int,
    i: int,
)
    requires
        plans_import(existing.map_values(|p: (String, String)| pair_key(p)), items, to_insert, skipped),
        0 <= i < items.len(),
        forall|t: int| 0 <= t < existing.len() ==> (#[trigger] existing[t]).1@ != items[i].login@,
        forall|j: int| 0 <= j < i ==> (#[trigger] items[j]).login@ != items[i].login@,
    ensures
        inserts(to_insert, i),
{
    let ex = existing.map_values(|p: (String, String)| pair_key(p));
    if ex.contains(entry_key(items[i])) {
        let t = choose|t: int| 0 <= t < ex.len() && ex[t] == entry_key(items[i]);
        assert(existing[t].1@ != items[i].login@);
    }
    if exists|j: int| 0 <= j < i && #[trigger] entry_key(items[j]) == entry_key(items[i]) {
        let j = choose|j: int| 0 <= j < i && #[trigger] entry_key(items[j]) == entry_key(items[i]);
        assert(items[j].login@ != items[i].login@);
    }
}

/// An item with the same title and the same login as a password already
/// stored, or as an earlier item, is skipped.
pub proof fn law_import_skips_a_repeated_title_and_login(
    existing: Seq<(String, String)>,
    items: Seq<CriarSenhaRequest>,
    to_insert: Seq<usize>,
    skipped: int,
    i: int,
)
    requires
        plans_import(existing.map_values(|p: (String, String)| pair_key(p)), items, to_insert, skipped),
        0 <= i < items.len(),
        (exists|t: int|
            0 <= t < existing.len() && (#[trigger] existing[t]).0@ == items[i].titulo@ && existing[t].1@
                == items[i].login@) || (exists|j: int|
            0 <= j < i && (#[trigger] items[j]).titulo@ == items[i].titulo@ && items[j].login@
                == items[i].login@),
    ensures
        !inserts(to_insert, i),
{
    let ex = existing.map_values(|p: (String, String)| pair_key(p));
    if exists|t: int|
        0 <= t < existing.len() && (#[trigger] existing[t]).0@ == items[i].titulo@ && existing[t].1@
            == items[i].login@ {
        let t = choose|t: int|
            0 <= t < existing.len() && (#[trigger] existing[t]).0@ == items[i].titulo@ && existing[t].1@
                == items[i].login@;
        assert(ex[t] == entry_key(items[i]));
        assert(ex.contains(entry_key(items[i])));
    } else {
        let j = choose|j: int|
            0 <= j < i && (#[trigger] items[j]).titulo@ == items[i].titulo@ && items[j].login@
                == items[i].login@;
        assert(entry_key(items[j]) == entry_key(items[i]));
    }
}

/// Every item of an import is either inserted or skipped.
pub proof fn law_import_counts_every_item(
    existing: Seq<(Seq<char>, Seq<char>)>,
    items: Seq<CriarSenhaRequest>,
    to_insert: Seq<usize>,
    skipped: int,
)
    requires
        plans_import(existing, items, to_insert, skipped),
    ensures
        to_insert.len() + skipped == items.len(),
{
}

} // verus!
