//! The multi-user web API: its models, errors, authentication rules and the
//! decisions of its handlers. Routing, the database and HTTP live in the app.
pub mod auth;
pub mod error;
pub mod handlers;
pub mod models;
