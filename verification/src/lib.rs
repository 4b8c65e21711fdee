use vstd::prelude::*;

pub mod application_settings;
pub mod file_traversal;
pub mod simple_vault;
pub mod behaviour;
pub mod commands;
pub mod dialog_lib;
pub mod crypto_files;
pub mod encryption_options;
pub mod encryption_utils;
pub mod parser;
pub mod paths;
pub mod text;
pub mod vault_roundtrip;

verus! {

/// The sum of two numbers.
pub fn add(left: u64, right: u64) -> (res: u64)
    requires
        left + right <= u64::MAX,
    ensures
        res == left + right,
{
    left + right
}

} // verus!
