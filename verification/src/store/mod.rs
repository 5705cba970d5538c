//! Durable state: the domain types mirroring the store's tables, the
//! store's errors, master-key handling and auth-blob encryption.

pub mod auth;
pub mod clock;
pub mod error;
pub mod types;
