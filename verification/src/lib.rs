//! A personal password vault: encrypted credentials, account passwords
//! hashed with Argon2, and the rules of its web API.
pub mod cli;
pub mod crypto;
pub mod error;
pub mod models;
pub mod server;
pub mod storage;
pub mod text;
pub mod vault;
