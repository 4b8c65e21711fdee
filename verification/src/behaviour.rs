//! What the program does when something goes wrong while it encrypts: ask
//! the user, or give up at once.
use vstd::prelude::*;

use crate::dialog_lib::popup_builders::GenericPopUp;
use crate::dialog_lib::prebuilt_windows::close_popup;
use crate::dialog_lib::responses::{UserResponseClose, UserResponseSkipRetry, UserResponseTerminateRetry};

verus! {

/// How errors are handled.
#[derive(Debug, Clone, Copy, PartialEq, Eq, Structural)]
pub enum OnErrorBehaviour {
    /// Tell the user, or ask whether to retry.
    AskUser,
    /// Stop at the first error.
    TerminateOnError,
}

/// Why encrypting or decrypting a path failed.
#[derive(Debug, Clone, Copy, PartialEq, Eq, Structural)]
pub enum VaultwyrError {
    BadPath,
    BadPassword,
    FileWriteError,
    FileReadError,
    FileHashError,
    FileOpenError,
    PathSizeError,
    NotImplemented,
    EncryptionError,
    DecryptionError,
    FileDeletionError,
}

/// What to do after an operation failed.
#[derive(Debug, Clone, Copy, PartialEq, Eq, Structural)]
pub enum RetryDecision {
    /// Try the operation again.
    Retry,
    /// Leave this item and go on with the next.
    Skip,
    /// Stop with this error.
    Fail(VaultwyrError),
}

impl VaultwyrError {
    /// Reports a failed write: the error `FileWriteError`, with a notice
    /// window when the user is to be told.
    pub fn handle_file_write_error(on_error_behaviour: &OnErrorBehaviour, title: &str, message: &str) -> (res: (
        VaultwyrError,
        Option<GenericPopUp<UserResponseClose>>,
    ))
        ensures
            res.0 == VaultwyrError::FileWriteError,
            res.1 is Some <==> *on_error_behaviour == OnErrorBehaviour::AskUser,
            res.1 matches Some(w) ==> w.title@ == title@ && w.heading@ == message@ && w.is_fresh(),
    {
        VaultwyrError::handle_generic_error(on_error_behaviour, title, message, VaultwyrError::FileWriteError)
    }

    /// Reports an error: the error itself, with a notice window (title and
    /// message) when the user is to be told.
    pub fn handle_generic_error(
        on_error_behaviour: &OnErrorBehaviour,
        title: &str,
        message: &str,
        error: VaultwyrError,
    ) -> (res: (VaultwyrError, Option<GenericPopUp<UserResponseClose>>))
        ensures
            res.0 == error,
            res.1 is Some <==> *on_error_behaviour == OnErrorBehaviour::AskUser,
            res.1 matches Some(w) ==> w.title@ == title@ && w.heading@ == message@ && w.is_fresh(),
    {
        match on_error_behaviour {
            OnErrorBehaviour::AskUser => (error, Some(close_popup(title, message))),
            OnErrorBehaviour::TerminateOnError => (error, None),
        }
    }
}

/// After the vault header could not be written: retry only when the user
/// asked to; otherwise fail with `FileWriteError`.
pub fn on_header_write_error(
    on_error_behaviour: &OnErrorBehaviour,
    answer: Option<UserResponseTerminateRetry>,
) -> (res: RetryDecision)
    ensures
        res == (if *on_error_behaviour == OnErrorBehaviour::AskUser && answer == Some(
            UserResponseTerminateRetry::Retry,
        ) {
            RetryDecision::Retry
        } else {
            RetryDecision::Fail(VaultwyrError::FileWriteError)
        }),
{
    match on_error_behaviour {
        OnErrorBehaviour::AskUser => match answer {
            Some(UserResponseTerminateRetry::Retry) => RetryDecision::Retry,
            _ => RetryDecision::Fail(VaultwyrError::FileWriteError),
        },
        OnErrorBehaviour::TerminateOnError => RetryDecision::Fail(VaultwyrError::FileWriteError),
    }
}

/// After a file's hash could not be computed: when asking the user, skip the
/// file if asked to and otherwise retry (also when the window was closed);
/// otherwise fail with `FileHashError`.
pub fn on_hash_error(on_error_behaviour: &OnErrorBehaviour, answer: Option<UserResponseSkipRetry>) -> (res:
    RetryDecision)
    ensures
        res == (if *on_error_behaviour == OnErrorBehaviour::AskUser {
            if answer == Some(UserResponseSkipRetry::Skip) {
                RetryDecision::Skip
            } else {
                RetryDecision::Retry
            }
        } else {
            RetryDecision::Fail(VaultwyrError::FileHashError)
        }),
{
    match on_error_behaviour {
        OnErrorBehaviour::AskUser => match answer {
            Some(UserResponseSkipRetry::Skip) => RetryDecision::Skip,
            _ => RetryDecision::Retry,
        },
        OnErrorBehaviour::TerminateOnError => RetryDecision::Fail(VaultwyrError::FileHashError),
    }
}

/// After an encrypted file could not be deleted: when asking the user, skip
/// it if asked to and otherwise retry (also when the window was closed);
/// otherwise leave it and go on.
pub fn on_delete_error(on_error_behaviour: &OnErrorBehaviour, answer: Option<UserResponseSkipRetry>) -> (res:
    RetryDecision)
    ensures
        res == (if *on_error_behaviour == OnErrorBehaviour::AskUser && answer != Some(
            UserResponseSkipRetry::Skip,
        ) {
            RetryDecision::Retry
        } else {
            RetryDecision::Skip
        }),
{
    match on_error_behaviour {
        OnErrorBehaviour::AskUser => match answer {
            Some(UserResponseSkipRetry::Skip) => RetryDecision::Skip,
            _ => RetryDecision::Retry,
        },
        OnErrorBehaviour::TerminateOnError => RetryDecision::Skip,
    }
}

} // verus!
