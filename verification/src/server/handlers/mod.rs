//! What the endpoints decide, given what the app read from the database.
pub mod audit;
pub mod auth;
pub mod gerador;
pub mod senhas;
