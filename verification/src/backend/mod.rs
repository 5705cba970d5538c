//! Engine-side logic shared by the platform backends: decoding the
//! inspector capture channels into bounded stores, the auth-blob schema,
//! role and op helpers, and the pure decisions of the input and
//! navigation code.

pub mod auth;
pub mod common;
pub mod download;
pub mod inspector_bridge;
pub mod probe;
pub mod seq_store;
pub mod webkit;
pub mod wpe_input;
