//! The store's error type.

use vstd::prelude::*;

verus! {

/// SQLite errors are carried through as they are.
#[verifier::external_type_specification]
#[verifier::external_body]
pub struct ExSqliteError(rusqlite::Error);

/// I/O errors are carried through as they are.
#[verifier::external_type_specification]
#[verifier::external_body]
pub struct ExIoError(std::io::Error);

/// Everything the store can fail with.
#[derive(Debug)]
#[non_exhaustive]
pub enum StoreError {
    Sqlite(rusqlite::Error),
    Io(std::io::Error),
    Crypto(&'static str),
    Keyring(String),
    NotFound { kind: &'static str, id: String },
    Conflict(&'static str),
    Invalid(&'static str),
    /// A master key file holding other than 32 bytes; carries the size.
    KeyFileSize(usize),
}

} // verus!
