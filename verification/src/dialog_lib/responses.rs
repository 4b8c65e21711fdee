//! The sets of answers that a dialog window offers.
use vstd::prelude::*;
use vstd::string::StringExecFns;

verus! {

/// A set of answers: the buttons of a window, in order, and their labels.
pub trait UserResponse: Sized + Copy {
    /// The answers, in the order of their buttons.
    spec fn spec_variants() -> Seq<Self>;

    /// The answers, in the order of their buttons.
    fn variants() -> (res: Vec<Self>)
        ensures
            res@ == Self::spec_variants(),
    ;

    /// The label of the answer's button.
    spec fn spec_name(self) -> Seq<char>;

    /// The label of the answer's button.
    fn name(&self) -> (res: String)
        ensures
            res@ == self.spec_name(),
    ;
}

/// A window with one button, to close it.
#[derive(Debug, Clone, Copy, PartialEq, Eq, Structural)]
pub enum UserResponseClose {
    Close,
}

/// A window that asks yes or no.
#[derive(Debug, Clone, Copy, PartialEq, Eq, Structural)]
pub enum UserResponseYesNo {
    Yes,
    No,
}

/// A window that asks yes, no or cancel.
#[derive(Debug, Clone, Copy, PartialEq, Eq, Structural)]
pub enum UserResponseYesNoCancel {
    Yes,
    No,
    Cancel,
}

/// A window that asks whether to skip or retry.
#[derive(Debug, Clone, Copy, PartialEq, Eq, Structural)]
pub enum UserResponseSkipRetry {
    Skip,
    Retry,
}

/// A window that asks whether to terminate or retry.
#[derive(Debug, Clone, Copy, PartialEq, Eq, Structural)]
pub enum UserResponseTerminateRetry {
    Terminate,
    Retry,
}

/// A window that asks whether to replace, terminate or retry.
#[derive(Debug, Clone, Copy, PartialEq, Eq, Structural)]
pub enum UserResponseReplaceTerminateRetry {
    Replace,
    Terminate,
    Retry,
}

impl UserResponse for UserResponseClose {
    open spec fn spec_variants() -> Seq<Self> {
        seq![UserResponseClose::Close]
    }

    fn variants() -> (res: Vec<Self>) {
        let v = vec![UserResponseClose::Close];
        assert(v@ =~= Self::spec_variants());
        v
    }

    open spec fn spec_name(self) -> Seq<char> {
        "Close"@
    }

    fn name(&self) -> (res: String) {
        String::from_str("Close")
    }
}

impl UserResponse for UserResponseYesNo {
    open spec fn spec_variants() -> Seq<Self> {
        seq![UserResponseYesNo::Yes, UserResponseYesNo::No]
    }

    fn variants() -> (res: Vec<Self>) {
        let v = vec![UserResponseYesNo::Yes, UserResponseYesNo::No];
        assert(v@ =~= Self::spec_variants());
        v
    }

    open spec fn spec_name(self) -> Seq<char> {
        match self {
            UserResponseYesNo::Yes => "Yes"@,
            UserResponseYesNo::No => "No"@,
        }
    }

    fn name(&self) -> (res: String) {
        match self {
            UserResponseYesNo::Yes => String::from_str("Yes"),
            UserResponseYesNo::No => String::from_str("No"),
        }
    }
}

impl UserResponse for UserResponseYesNoCancel {
    open spec fn spec_variants() -> Seq<Self> {
        seq![UserResponseYesNoCancel::Yes, UserResponseYesNoCancel::No, UserResponseYesNoCancel::Cancel]
    }

    fn variants() -> (res: Vec<Self>) {
        let v = vec![UserResponseYesNoCancel::Yes, UserResponseYesNoCancel::No, UserResponseYesNoCancel::Cancel];
        assert(v@ =~= Self::spec_variants());
        v
    }

    open spec fn spec_name(self) -> Seq<char> {
        match self {
            UserResponseYesNoCancel::Yes => "Yes"@,
            UserResponseYesNoCancel::No => "No"@,
            UserResponseYesNoCancel::Cancel => "Cancel"@,
        }
    }

    fn name(&self) -> (res: String) {
        match self {
            UserResponseYesNoCancel::Yes => String::from_str("Yes"),
            UserResponseYesNoCancel::No => String::from_str("No"),
            UserResponseYesNoCancel::Cancel => String::from_str("Cancel"),
        }
    }
}

impl UserResponse for UserResponseSkipRetry {
    open spec fn spec_variants() -> Seq<Self> {
        seq![UserResponseSkipRetry::Skip, UserResponseSkipRetry::Retry]
    }

    fn variants() -> (res: Vec<Self>) {
        let v = vec![UserResponseSkipRetry::Skip, UserResponseSkipRetry::Retry];
        assert(v@ =~= Self::spec_variants());
        v
    }

    open spec fn spec_name(self) -> Seq<char> {
        match self {
            UserResponseSkipRetry::Skip => "Skip"@,
            UserResponseSkipRetry::Retry => "Retry"@,
        }
    }

    fn name(&self) -> (res: String) {
        match self {
            UserResponseSkipRetry::Skip => String::from_str("Skip"),
            UserResponseSkipRetry::Retry => String::from_str("Retry"),
        }
    }
}

impl UserResponse for UserResponseTerminateRetry {
    open spec fn spec_variants() -> Seq<Self> {
        seq![UserResponseTerminateRetry::Terminate, UserResponseTerminateRetry::Retry]
    }

    fn variants() -> (res: Vec<Self>) {
        let v = vec![UserResponseTerminateRetry::Terminate, UserResponseTerminateRetry::Retry];
        assert(v@ =~= Self::spec_variants());
        v
    }

    open spec fn spec_name(self) -> Seq<char> {
        match self {
            UserResponseTerminateRetry::Terminate => "Terminate"@,
            UserResponseTerminateRetry::Retry => "Retry"@,
        }
    }

    fn name(&self) -> (res: String) {
        match self {
            UserResponseTerminateRetry::Terminate => String::from_str("Terminate"),
            UserResponseTerminateRetry::Retry => String::from_str("Retry"),
        }
    }
}

impl UserResponse for UserResponseReplaceTerminateRetry {
    open spec fn spec_variants() -> Seq<Self> {
        seq![
            UserResponseReplaceTerminateRetry::Replace,
            UserResponseReplaceTerminateRetry::Terminate,
            UserResponseReplaceTerminateRetry::Retry,
        ]
    }

    fn variants() -> (res: Vec<Self>) {
        let v = vec![
            UserResponseReplaceTerminateRetry::Replace,
            UserResponseReplaceTerminateRetry::Terminate,
            UserResponseReplaceTerminateRetry::Retry,
        ];
        assert(v@ =~= Self::spec_variants());
        v
    }

    open spec fn spec_name(self) -> Seq<char> {
        match self {
            UserResponseReplaceTerminateRetry::Replace => "Replace"@,
            UserResponseReplaceTerminateRetry::Terminate => "Terminate"@,
            UserResponseReplaceTerminateRetry::Retry => "Retry"@,
        }
    }

    fn name(&self) -> (res: String) {
        match self {
            UserResponseReplaceTerminateRetry::Replace => String::from_str("Replace"),
            UserResponseReplaceTerminateRetry::Terminate => String::from_str("Terminate"),
            UserResponseReplaceTerminateRetry::Retry => String::from_str("Retry"),
        }
    }
}


/// The labels of the buttons, in order.
pub open spec fn labels<T: UserResponse>() -> Seq<Seq<char>> {
    T::spec_variants().map_values(|v: T| v.spec_name())
}

/// The buttons of the window, in order, give Close, and
/// each is labelled with the name of the answer it gives.
pub proof fn law_close_labels()
    ensures
        UserResponseClose::spec_variants() == seq![UserResponseClose::Close],
        labels::<UserResponseClose>() == seq!["Close"@],
{
    reveal_strlit("Close");
    assert(labels::<UserResponseClose>() =~= seq!["Close"@]);
}

/// The buttons of the window, in order, give Yes, No, and
/// each is labelled with the name of the answer it gives.
pub proof fn law_yes_no_labels()
    ensures
        UserResponseYesNo::spec_variants() == seq![UserResponseYesNo::Yes, UserResponseYesNo::No],
        labels::<UserResponseYesNo>() == seq!["Yes"@, "No"@],
{
    reveal_strlit("Yes");
    reveal_strlit("No");
    assert(labels::<UserResponseYesNo>() =~= seq!["Yes"@, "No"@]);
}

/// The buttons of the window, in order, give Yes, No, Cancel, and
/// each is labelled with the name of the answer it gives.
pub proof fn law_yes_no_cancel_labels()
    ensures
        UserResponseYesNoCancel::spec_variants() == seq![UserResponseYesNoCancel::Yes, UserResponseYesNoCancel::No, UserResponseYesNoCancel::Cancel],
        labels::<UserResponseYesNoCancel>() == seq!["Yes"@, "No"@, "Cancel"@],
{
    reveal_strlit("Yes");
    reveal_strlit("No");
    reveal_strlit("Cancel");
    assert(labels::<UserResponseYesNoCancel>() =~= seq!["Yes"@, "No"@, "Cancel"@]);
}

/// The buttons of the window, in order, give Skip, Retry, and
/// each is labelled with the name of the answer it gives.
pub proof fn law_skip_retry_labels()
    ensures
        UserResponseSkipRetry::spec_variants() == seq![UserResponseSkipRetry::Skip, UserResponseSkipRetry::Retry],
        labels::<UserResponseSkipRetry>() == seq!["Skip"@, "Retry"@],
{
    reveal_strlit("Skip");
    reveal_strlit("Retry");
    assert(labels::<UserResponseSkipRetry>() =~= seq!["Skip"@, "Retry"@]);
}

/// The buttons of the window, in order, give Terminate, Retry, and
/// each is labelled with the name of the answer it gives.
pub proof fn law_terminate_retry_labels()
    ensures
        UserResponseTerminateRetry::spec_variants() == seq![UserResponseTerminateRetry::Terminate, UserResponseTerminateRetry::Retry],
        labels::<UserResponseTerminateRetry>() == seq!["Terminate"@, "Retry"@],
{
    reveal_strlit("Terminate");
    reveal_strlit("Retry");
    assert(labels::<UserResponseTerminateRetry>() =~= seq!["Terminate"@, "Retry"@]);
}

/// The buttons of the window, in order, give Replace, Terminate, Retry, and
/// each is labelled with the name of the answer it gives.
pub proof fn law_replace_terminate_retry_labels()
    ensures
        UserResponseReplaceTerminateRetry::spec_variants() == seq![UserResponseReplaceTerminateRetry::Replace, UserResponseReplaceTerminateRetry::Terminate, UserResponseReplaceTerminateRetry::Retry],
        labels::<UserResponseReplaceTerminateRetry>() == seq!["Replace"@, "Terminate"@, "Retry"@],
{
    reveal_strlit("Replace");
    reveal_strlit("Terminate");
    reveal_strlit("Retry");
    assert(labels::<UserResponseReplaceTerminateRetry>() =~= seq!["Replace"@, "Terminate"@, "Retry"@]);
}

} // verus!
