//! Authentication core of a blogging backend: credential storage, salted
//! password hashing, and signed, time-limited session tokens.
pub mod claims;
pub mod error;
pub mod token;
pub mod store;
pub mod auth;
