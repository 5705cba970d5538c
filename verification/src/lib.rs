use vstd::prelude::*;

pub mod attrs;
pub mod backend;
pub mod codes;
pub mod delta;
pub mod engine;
pub mod envelope;
pub mod error;
pub mod humanize;
pub mod inspector;
pub mod num;
pub mod request;
pub mod store;
pub mod text;
pub mod tokenize;
pub mod tree;
pub mod tree_laws;

verus! {

/// The library's version.
pub fn version() -> (v: &'static str)
    ensures
        v@ == "0.1.0"@,
{
    "0.1.0"
}

} // verus!
