//! A dialog window: its texts, its buttons, and what it does with the user's
//! clicks and close requests.
use vstd::prelude::*;
use vstd::string::StringExecFns;

use super::responses::UserResponse;

verus! {

/// A button colour, as red, green and blue.
#[derive(Debug, Clone, Copy, PartialEq, Eq, Structural)]
pub struct Rgb {
    pub r: u8,
    pub g: u8,
    pub b: u8,
}

impl Rgb {
    /// The colour with the given red, green and blue.
    pub fn from_rgb(r: u8, g: u8, b: u8) -> (res: Rgb)
        ensures
            res == (Rgb { r, g, b }),
    {
        Rgb { r, g, b }
    }
}

/// The colour of a button with no colour of its own.
pub open spec fn default_button_color() -> Rgb {
    Rgb { r: 200, g: 30, b: 30 }
}

/// What happened in the window.
#[derive(Debug, Clone, Copy, PartialEq, Eq, Structural)]
pub enum PopUpEvent {
    /// The user clicked the answer button with this index.
    ButtonClicked(usize),
    /// The window is asked to close.
    CloseRequested,
    /// The user answered "No" in the confirmation window.
    ConfirmNo,
    /// The user answered "Yes" in the confirmation window.
    ConfirmYes,
}

/// What the window does next.
#[derive(Debug, Clone, Copy, PartialEq, Eq, Structural)]
pub enum PopUpAction {
    /// Nothing changes.
    Nothing,
    /// The window closes.
    Close,
    /// The request to close is refused.
    CancelClose,
}

/// A dialog window that asks the user to pick one of the answers of `T`.
pub struct GenericPopUp<T> {
    pub title: String,
    pub heading: String,
    pub button_collors: Vec<Rgb>,
    pub max_buttons_per_row: u8,
    /// Whether the user must confirm the answer before the window closes.
    pub extra_confimation: bool,
    /// Whether the confirmation window is shown.
    pub show_confirmation: bool,
    /// Whether the window may close.
    pub allowed_to_close: bool,
    /// The answer the user picked, if any.
    pub response: Option<T>,
}

impl<T: UserResponse> GenericPopUp<T> {
    /// No answer picked, no confirmation asked, three buttons per row.
    pub open spec fn is_fresh(&self) -> bool {
        &&& self.max_buttons_per_row == 3
        &&& !self.extra_confimation
        &&& !self.show_confirmation
        &&& !self.allowed_to_close
        &&& self.response is None
    }

    /// The window "Title" with the heading "Please confirm your choice", no
    /// button colours, three buttons per row and no extra confirmation.
    pub fn default() -> (res: Self)
        ensures
            res.title@ == "Title"@,
            res.heading@ == "Please confirm your choice"@,
            res.button_collors@.len() == 0,
            res.is_fresh(),
    {
        GenericPopUp {
            title: String::from_str("Title"),
            heading: String::from_str("Please confirm your choice"),
            button_collors: Vec::new(),
            max_buttons_per_row: 3,
            extra_confimation: false,
            show_confirmation: false,
            allowed_to_close: false,
            response: None,
        }
    }

    /// The window with another heading.
    pub fn heading(self, heading: &str) -> (res: Self)
        ensures
            res.heading@ == heading@,
            res.title == self.title,
            res.button_collors == self.button_collors,
            res.max_buttons_per_row == self.max_buttons_per_row,
            res.extra_confimation == self.extra_confimation,
            res.show_confirmation == self.show_confirmation,
            res.allowed_to_close == self.allowed_to_close,
            res.response == self.response,
    {
        GenericPopUp { heading: String::from_str(heading), ..self }
    }

    /// The window with other button colours, one per button in order.
    pub fn button_collors(self, button_collors: Vec<Rgb>) -> (res: Self)
        ensures
            res.button_collors@ == button_collors@,
            res.title == self.title,
            res.heading == self.heading,
            res.max_buttons_per_row == self.max_buttons_per_row,
            res.extra_confimation == self.extra_confimation,
            res.show_confirmation == self.show_confirmation,
            res.allowed_to_close == self.allowed_to_close,
            res.response == self.response,
    {
        GenericPopUp { button_collors, ..self }
    }

    /// The window with another title.
    pub fn title(self, title: &str) -> (res: Self)
        ensures
            res.title@ == title@,
            res.heading == self.heading,
            res.button_collors == self.button_collors,
            res.max_buttons_per_row == self.max_buttons_per_row,
            res.extra_confimation == self.extra_confimation,
            res.show_confirmation == self.show_confirmation,
            res.allowed_to_close == self.allowed_to_close,
            res.response == self.response,
    {
        GenericPopUp { title: String::from_str(title), ..self }
    }

    /// The window with the extra confirmation switched on or off; with it on,
    /// the window may not close until the user confirms.
    pub fn extra_confimation(self, enable: bool) -> (res: Self)
        ensures
            res.extra_confimation == enable,
            res.allowed_to_close == !enable,
            res.title == self.title,
            res.heading == self.heading,
            res.button_collors == self.button_collors,
            res.max_buttons_per_row == self.max_buttons_per_row,
            res.show_confirmation == self.show_confirmation,
            res.response == self.response,
    {
        GenericPopUp { extra_confimation: enable, allowed_to_close: !enable, ..self }
    }

    /// The answer the user picked, if any.
    pub fn response(&self) -> (res: Option<T>)
        ensures
            res == self.response,
    {
        self.response
    }

    /// The colour of the button with index `i`: its own colour, or the default.
    pub fn button_color(&self, i: usize) -> (res: Rgb)
        ensures
            i < self.button_collors@.len() ==> res == self.button_collors@[i as int],
            i >= self.button_collors@.len() ==> res == default_button_color(),
    {
        if i < self.button_collors.len() {
            self.button_collors[i]
        } else {
            Rgb { r: 200, g: 30, b: 30 }
        }
    }

    /// How many columns the buttons take: one per answer, at most the
    /// number of buttons per row.
    pub fn column_count(&self) -> (res: usize)
        ensures
            res == if T::spec_variants().len() < self.max_buttons_per_row {
                T::spec_variants().len()
            } else {
                self.max_buttons_per_row as nat
            },
    {
        let n = T::variants().len();
        let max = self.max_buttons_per_row as usize;
        if n < max {
            n
        } else {
            max
        }
    }

    /// The column of the button with index `i`.
    pub fn column_of(&self, i: usize) -> (res: usize)
        requires
            self.max_buttons_per_row > 0,
        ensures
            res == i % (self.max_buttons_per_row as usize),
    {
        i % (self.max_buttons_per_row as usize)
    }

    /// The question of the confirmation window, when it is shown.
    pub fn confirmation_text(&self) -> (res: Option<String>)
        ensures
            !(self.extra_confimation && self.show_confirmation) ==> res is None,
            self.extra_confimation && self.show_confirmation ==> (res matches Some(s) && s@ == (
            match self.response {
                Some(v) => "Are you sure you want to "@ + v.spec_name() + "?"@,
                None => "Are you sure you want to nothing?"@,
            })),
    {
        if !(self.extra_confimation && self.show_confirmation) {
            return None;
        }
        match self.response {
            Some(v) => {
                let mut text = String::from_str("Are you sure you want to ");
                let name = v.name();
                text.append(name.as_str());
                text.append("?");
                Some(text)
            },
            None => Some(String::from_str("Are you sure you want to nothing?")),
        }
    }

    /// What the window does with one event: a click on an answer picks it and
    /// closes the window; a close request is refused, and confirmation asked,
    /// while the window may not close; "Yes" in the confirmation lets it
    /// close, "No" keeps it open.
    pub fn handle_event(&mut self, event: PopUpEvent) -> (action: PopUpAction)
        ensures
            final(self).title == old(self).title,
            final(self).heading == old(self).heading,
            final(self).button_collors == old(self).button_collors,
            final(self).max_buttons_per_row == old(self).max_buttons_per_row,
            final(self).extra_confimation == old(self).extra_confimation,
            ({
                let s = *old(self);
                let t = *final(self);
                match event {
                    PopUpEvent::ButtonClicked(i) => if i < T::spec_variants().len() {
                        &&& t.response == Some(T::spec_variants()[i as int])
                        &&& t.show_confirmation == s.show_confirmation
                        &&& t.allowed_to_close == s.allowed_to_close
                        &&& action == PopUpAction::Close
                    } else {
                        &&& t.response == s.response
                        &&& t.show_confirmation == s.show_confirmation
                        &&& t.allowed_to_close == s.allowed_to_close
                        &&& action == PopUpAction::Nothing
                    },
                    PopUpEvent::CloseRequested => {
                        &&& t.response == s.response
                        &&& t.allowed_to_close == s.allowed_to_close
                        &&& if s.allowed_to_close || !s.extra_confimation {
                            t.show_confirmation == s.show_confirmation && action
                                == PopUpAction::Close
                        } else {
                            t.show_confirmation && action == PopUpAction::CancelClose
                        }
                    },
                    PopUpEvent::ConfirmNo => {
                        &&& t.response == s.response
                        &&& if s.extra_confimation && s.show_confirmation {
                            !t.show_confirmation && !t.allowed_to_close
                        } else {
                            t.show_confirmation == s.show_confirmation && t.allowed_to_close
                                == s.allowed_to_close
                        }
                        &&& action == PopUpAction::Nothing
                    },
                    PopUpEvent::ConfirmYes => {
                        &&& t.response == s.response
                        &&& if s.extra_confimation && s.show_confirmation {
                            !t.show_confirmation && t.allowed_to_close && action
                                == PopUpAction::Close
                        } else {
                            t.show_confirmation == s.show_confirmation && t.allowed_to_close
                                == s.allowed_to_close && action == PopUpAction::Nothing
                        }
                    },
                }
            }),
    {
        match event {
            PopUpEvent::ButtonClicked(i) => {
                let variants = T::variants();
                if i < variants.len() {
                    self.response = Some(variants[i]);
                    PopUpAction::Close
                } else {
                    PopUpAction::Nothing
                }
            },
            PopUpEvent::CloseRequested => {
                if self.allowed_to_close || !self.extra_confimation {
                    PopUpAction::Close
                } else {
                    self.show_confirmation = true;
                    PopUpAction::CancelClose
                }
            },
            PopUpEvent::ConfirmNo => {
                if self.extra_confimation && self.show_confirmation {
                    self.show_confirmation = false;
                    self.allowed_to_close = false;
                }
                PopUpAction::Nothing
            },
            PopUpEvent::ConfirmYes => {
                if self.extra_confimation && self.show_confirmation {
                    self.show_confirmation = false;
                    self.allowed_to_close = true;
                    PopUpAction::Close
                } else {
                    PopUpAction::Nothing
                }
            },
        }
    }
}

} // verus!
