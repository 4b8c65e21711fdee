//! Dialog windows that ask the user to pick one of a few answers.
//!
//! A window is described by a `GenericPopUp`; what it does when the user
//! clicks or closes it is a state machine (`GenericPopUp::handle_event`), and
//! the program that draws the window feeds it the user's events.
use vstd::prelude::*;

pub mod popup_builders;
pub mod prebuilt_windows;
pub mod responses;

use popup_builders::GenericPopUp;
use prebuilt_windows::build_default_window;
use responses::{labels, UserResponse};

verus! {

/// The answers of the error window.
#[derive(Debug, Clone, Copy, PartialEq, Eq, Structural)]
pub enum UserResponseShowError {
    Close,
    Open,
    ETC,
}

impl UserResponse for UserResponseShowError {
    open spec fn spec_variants() -> Seq<Self> {
        seq![UserResponseShowError::Close, UserResponseShowError::Open, UserResponseShowError::ETC]
    }

    fn variants() -> (res: Vec<Self>) {
        let v = vec![UserResponseShowError::Close, UserResponseShowError::Open, UserResponseShowError::ETC];
        assert(v@ =~= Self::spec_variants());
        v
    }

    open spec fn spec_name(self) -> Seq<char> {
        match self {
            UserResponseShowError::Close => "Close"@,
            UserResponseShowError::Open => "Open"@,
            UserResponseShowError::ETC => "ETC"@,
        }
    }

    fn name(&self) -> (res: String) {
        match self {
            UserResponseShowError::Close => String::from_str("Close"),
            UserResponseShowError::Open => String::from_str("Open"),
            UserResponseShowError::ETC => String::from_str("ETC"),
        }
    }
}

/// The window that shows an error: `content` as its heading, `title` as its
/// title, and the answers of `UserResponseShowError`.
pub fn show_error(title: &str, content: &str) -> (res: GenericPopUp<UserResponseShowError>)
    ensures
        res.title@ == title@,
        res.heading@ == content@,
        res.is_fresh(),
        res.button_collors@.len() == 0,
{
    build_default_window(title, content)
}


/// The buttons of the error window, in order, give Close, Open and ETC, and
/// each is labelled with the name of the answer it gives.
pub proof fn law_show_error_labels()
    ensures
        UserResponseShowError::spec_variants() == seq![
            UserResponseShowError::Close,
            UserResponseShowError::Open,
            UserResponseShowError::ETC,
        ],
        labels::<UserResponseShowError>() == seq!["Close"@, "Open"@, "ETC"@],
{
    reveal_strlit("Close");
    reveal_strlit("Open");
    reveal_strlit("ETC");
    assert(labels::<UserResponseShowError>() =~= seq!["Close"@, "Open"@, "ETC"@]);
}

} // verus!
