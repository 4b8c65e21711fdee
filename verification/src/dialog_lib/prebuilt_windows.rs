//! The windows the program shows: a close notice and a few questions.
use vstd::prelude::*;

use super::popup_builders::{GenericPopUp, Rgb};
use super::responses::{
    UserResponse, UserResponseClose, UserResponseSkipRetry, UserResponseTerminateRetry,
    UserResponseYesNo,
};

verus! {

/// A window with `content` as heading and `title` as title, otherwise as
/// `GenericPopUp::default` makes it.
pub fn build_default_window<T: UserResponse>(title: &str, content: &str) -> (res: GenericPopUp<T>)
    ensures
        res.title@ == title@,
        res.heading@ == content@,
        res.is_fresh(),
        res.button_collors@.len() == 0,
{
    GenericPopUp::<T>::default().heading(content).title(title)
}

/// A notice with a single "Close" button.
pub fn close_popup(title: &str, content: &str) -> (res: GenericPopUp<UserResponseClose>)
    ensures
        res.title@ == title@,
        res.heading@ == content@,
        res.is_fresh(),
        res.button_collors@.len() == 0,
{
    build_default_window::<UserResponseClose>(title, content)
}

/// A question with a green "Yes" and a red "No".
pub fn ask_yes_no(title: &str, content: &str) -> (res: GenericPopUp<UserResponseYesNo>)
    ensures
        res.title@ == title@,
        res.heading@ == content@,
        res.is_fresh(),
        res.button_collors@ == seq![Rgb { r: 20, g: 125, b: 20 }, Rgb { r: 255, g: 20, b: 20 }],
{
    build_default_window::<UserResponseYesNo>(title, content).button_collors(
        vec![Rgb::from_rgb(20, 125, 20), Rgb::from_rgb(255, 20, 20)],
    )
}

/// A question with a grey "Skip" and a blue "Retry".
pub fn ask_skip_retry(title: &str, content: &str) -> (res: GenericPopUp<UserResponseSkipRetry>)
    ensures
        res.title@ == title@,
        res.heading@ == content@,
        res.is_fresh(),
        res.button_collors@ == seq![Rgb { r: 125, g: 125, b: 125 }, Rgb { r: 125, g: 125, b: 255 }],
{
    build_default_window::<UserResponseSkipRetry>(title, content).button_collors(
        vec![Rgb::from_rgb(125, 125, 125), Rgb::from_rgb(125, 125, 255)],
    )
}

/// A question with a pink "Terminate" and a blue "Retry".
pub fn ask_terminate_retry(title: &str, content: &str) -> (res: GenericPopUp<UserResponseTerminateRetry>)
    ensures
        res.title@ == title@,
        res.heading@ == content@,
        res.is_fresh(),
        res.button_collors@ == seq![Rgb { r: 255, g: 125, b: 125 }, Rgb { r: 125, g: 125, b: 255 }],
{
    build_default_window::<UserResponseTerminateRetry>(title, content).button_collors(
        vec![Rgb::from_rgb(255, 125, 125), Rgb::from_rgb(125, 125, 255)],
    )
}

} // verus!
