use vaultwyr::dialog_lib::popup_builders::{GenericPopUp, PopUpAction, PopUpEvent, Rgb};
use vaultwyr::dialog_lib::prebuilt_windows::{ask_skip_retry, ask_terminate_retry, ask_yes_no, close_popup};
use vaultwyr::dialog_lib::responses::{UserResponseSkipRetry, UserResponseYesNo};
use vaultwyr::dialog_lib::{show_error, UserResponseShowError};

#[test]
fn test_show_error() -> Result<(), String> {
    let mut pop_up = show_error("test_title", "test content");
    // The user clicks the first answer.
    let action = pop_up.handle_event(PopUpEvent::ButtonClicked(0));
    assert_eq!(action, PopUpAction::Close);
    let result = pop_up.response();
    if result.is_some() {
        Ok(())
    } else {
        Err("Expected Some(UserResponseShowError), got None".into())
    }
}

#[test]
fn show_error_window_texts() {
    let pop_up = show_error("test_title", "test content");
    assert_eq!(pop_up.title, "test_title");
    assert_eq!(pop_up.heading, "test content");
    assert!(pop_up.response().is_none());
    assert_eq!(pop_up.max_buttons_per_row, 3);
}

#[test]
fn default_window() {
    let pop_up = GenericPopUp::<UserResponseShowError>::default();
    assert_eq!(pop_up.title, "Title");
    assert_eq!(pop_up.heading, "Please confirm your choice");
    assert!(pop_up.button_collors.is_empty());
    assert!(!pop_up.extra_confimation);
}

#[test]
fn clicking_picks_the_answer_at_that_index() {
    let mut pop_up = show_error("t", "c");
    assert_eq!(pop_up.handle_event(PopUpEvent::ButtonClicked(2)), PopUpAction::Close);
    assert_eq!(pop_up.response(), Some(UserResponseShowError::ETC));
}

#[test]
fn clicking_outside_the_answers_does_nothing() {
    let mut pop_up = show_error("t", "c");
    assert_eq!(pop_up.handle_event(PopUpEvent::ButtonClicked(3)), PopUpAction::Nothing);
    assert_eq!(pop_up.response(), None);
}

#[test]
fn closing_without_confirmation_closes() {
    let mut pop_up = close_popup("t", "c");
    assert_eq!(pop_up.handle_event(PopUpEvent::CloseRequested), PopUpAction::Close);
}

#[test]
fn closing_with_confirmation_asks_first() {
    let mut pop_up = ask_yes_no("Quit", "Really?").extra_confimation(true);
    assert_eq!(pop_up.handle_event(PopUpEvent::ButtonClicked(1)), PopUpAction::Close);
    assert_eq!(pop_up.response(), Some(UserResponseYesNo::No));
    assert_eq!(pop_up.handle_event(PopUpEvent::CloseRequested), PopUpAction::CancelClose);
    assert!(pop_up.show_confirmation);
    assert_eq!(pop_up.confirmation_text(), Some("Are you sure you want to No?".to_string()));
    assert_eq!(pop_up.handle_event(PopUpEvent::ConfirmNo), PopUpAction::Nothing);
    assert!(!pop_up.show_confirmation);
    assert_eq!(pop_up.handle_event(PopUpEvent::CloseRequested), PopUpAction::CancelClose);
    assert_eq!(pop_up.handle_event(PopUpEvent::ConfirmYes), PopUpAction::Close);
    assert!(pop_up.allowed_to_close);
    assert_eq!(pop_up.handle_event(PopUpEvent::CloseRequested), PopUpAction::Close);
}

#[test]
fn confirmation_text_without_an_answer() {
    let mut pop_up = ask_yes_no("Quit", "Really?").extra_confimation(true);
    assert_eq!(pop_up.confirmation_text(), None);
    pop_up.handle_event(PopUpEvent::CloseRequested);
    assert_eq!(pop_up.confirmation_text(), Some("Are you sure you want to nothing?".to_string()));
}

#[test]
fn prebuilt_window_colours() {
    let yes_no = ask_yes_no("t", "c");
    assert_eq!(yes_no.button_collors, vec![Rgb { r: 20, g: 125, b: 20 }, Rgb { r: 255, g: 20, b: 20 }]);
    assert_eq!(yes_no.button_color(5), Rgb::from_rgb(200, 30, 30));
    let skip_retry = ask_skip_retry("t", "c");
    assert_eq!(skip_retry.button_collors.len(), 2);
    let terminate_retry = ask_terminate_retry("t", "c");
    assert_eq!(terminate_retry.button_collors.len(), 2);
}

#[test]
fn skip_retry_answers_in_order() {
    let mut pop_up = ask_skip_retry("t", "c");
    pop_up.handle_event(PopUpEvent::ButtonClicked(1));
    assert_eq!(pop_up.response(), Some(UserResponseSkipRetry::Retry));
}

#[test]
fn button_layout() {
    let pop_up = show_error("t", "c");
    assert_eq!(pop_up.column_count(), 3);
    assert_eq!(pop_up.column_of(4), 1);
    let yes_no = ask_yes_no("t", "c");
    assert_eq!(yes_no.column_count(), 2);
}
