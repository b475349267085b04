//! The audit log: each entry names the password it is about, or says that
//! it was deleted.
use vstd::prelude::*;

use crate::server::models::AuditLogResponse;
use crate::text::owned;

verus! {

/// An entry of the audit log, with the title of its password when that still
/// exists.
pub fn audit_entry(id: i64, acao: String, data_hora: String, titulo: Option<String>) -> (r: AuditLogResponse)
    ensures
        r.id == id,
        r.acao == acao,
        r.data_hora == data_hora,
        match titulo {
            Some(t) => r.titulo == t,
            None => r.titulo@ == "(deletada)"@,
        },
{
    let titulo = match titulo {
        Some(t) => t,
        None => owned("(deletada)"),
    };
    AuditLogResponse { id, acao, data_hora, titulo }
}

} // verus!
