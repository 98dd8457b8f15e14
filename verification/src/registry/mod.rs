pub mod auth;
pub mod client;
pub mod manifest;
