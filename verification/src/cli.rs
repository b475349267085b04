//! The command line of the local vault: its commands, and the check that a
//! new master password was typed the same way twice.
use vstd::prelude::*;

use crate::error::VaultError;
use crate::text::{owned, text_eq};

verus! {

pub enum Command {
    /// Creates a new vault in the file, protected by a master password.
    Init,
    /// Adds a credential.
    Add { service: String, username: String },
    /// Shows the credential of a service.
    Get { service: String },
    /// Lists every service.
    List,
    /// Replaces user and password of a credential.
    Update { service: String, username: String },
    /// Removes a credential.
    Remove { service: String },
}

pub struct Cli {
    pub command: Command,
    /// Path of the vault file (SQLite); `cofre.db` by default.
    pub vault_path: String,
}

/// A new master password must be typed twice, the same way.
pub fn confirm_master_password(password: String, confirmation: &str) -> (r: Result<String, VaultError>)
    ensures
        password@ == confirmation@ ==> (r matches Ok(p) && p == password),
        password@ != confirmation@ ==> (r matches Err(VaultError::Crypto(m)) && m@
            == "as senhas informadas não coincidem"@),
{
    if text_eq(password.as_str(), confirmation) {
        Ok(password)
    } else {
        Err(VaultError::Crypto(owned("as senhas informadas não coincidem")))
    }
}

} // verus!
