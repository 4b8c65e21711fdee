//! The application's settings.
use vstd::prelude::*;

verus! {

/// The user's settings.
#[allow(non_snake_case)]
pub struct AppSettings {
    /// The largest total size, in bytes, of what may be deleted after
    /// encrypting.
    pub MaxDeletionSize: u64,
    /// Whether decrypted files go back to where they came from.
    pub RestoreToOriginalFolder: bool,
}

impl AppSettings {
    /// The settings used when none are stored: 50 GB may be deleted, and
    /// files go back to where they came from.
    pub fn default() -> (res: Self)
        ensures
            res.MaxDeletionSize == 53_687_091_200u64,
            res.RestoreToOriginalFolder,
    {
        AppSettings { MaxDeletionSize: 53_687_091_200, RestoreToOriginalFolder: true }
    }
}

} // verus!
