//! What the application's commands answer.
use vstd::prelude::*;
use vstd::string::StringExecFns;

use crate::behaviour::VaultwyrError;
use crate::crypto_files::VaultError;

verus! {

/// A greeting for `name`.
pub fn greet(name: &str) -> (res: String)
    ensures
        res@ == "Hello, "@ + name@ + "! You've been greeted from Rust!"@,
{
    let mut res = String::from_str("Hello, ");
    res.append(name);
    res.append("! You've been greeted from Rust!");
    res
}

/// The answer to a request to encrypt a path, from how encrypting ended.
pub fn encryption_message(outcome: Option<VaultwyrError>) -> (res: String)
    ensures
        res@ == if outcome is None {
            "File encrypted Successfully"@
        } else {
            "Error encrypting file"@
        },
{
    match outcome {
        None => String::from_str("File encrypted Successfully"),
        Some(_) => String::from_str("Error encrypting file"),
    }
}

/// The answer to a request to decrypt a vault, from how decrypting ended.
pub fn decryption_message(failure: Option<VaultError>) -> (res: String)
    ensures
        res@ == if failure is None {
            "decrypted file successfully"@
        } else {
            "Wrong password"@
        },
{
    match failure {
        None => String::from_str("decrypted file successfully"),
        Some(_) => String::from_str("Wrong password"),
    }
}

} // verus!
