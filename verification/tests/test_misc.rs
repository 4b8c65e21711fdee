use vaultwyr::application_settings::AppSettings;
use vaultwyr::behaviour::{
    on_delete_error, on_hash_error, on_header_write_error, OnErrorBehaviour, RetryDecision, VaultwyrError,
};
use vaultwyr::commands::{decryption_message, encryption_message, greet};
use vaultwyr::crypto_files::VaultError;
use vaultwyr::dialog_lib::responses::{UserResponseSkipRetry, UserResponseTerminateRetry};
use vaultwyr::text::{lines, parse_usize, trim, usize_to_decimal};

#[test]
fn it_works() {
    let result = vaultwyr::add(2, 2);
    assert_eq!(result, 4);
}

#[test]
fn default_settings() {
    let s = AppSettings::default();
    assert_eq!(s.MaxDeletionSize, 53_687_091_200);
    assert!(s.RestoreToOriginalFolder);
}

#[test]
fn greeting() {
    assert_eq!(greet("Ana"), "Hello, Ana! You've been greeted from Rust!");
}

#[test]
fn command_answers() {
    assert_eq!(encryption_message(None), "File encrypted Successfully");
    assert_eq!(encryption_message(Some(VaultwyrError::BadPassword)), "Error encrypting file");
    assert_eq!(decryption_message(None), "decrypted file successfully");
    assert_eq!(decryption_message(Some(VaultError::WrongPassword)), "Wrong password");
}

#[test]
fn reporting_errors() {
    let (e, notice) = VaultwyrError::handle_generic_error(
        &OnErrorBehaviour::AskUser,
        "Error converting password into key",
        "The password you provided is invalid",
        VaultwyrError::BadPassword,
    );
    assert_eq!(e, VaultwyrError::BadPassword);
    let notice = notice.unwrap();
    assert_eq!(notice.title, "Error converting password into key");
    assert_eq!(notice.heading, "The password you provided is invalid");
    let (e, notice) = VaultwyrError::handle_file_write_error(&OnErrorBehaviour::TerminateOnError, "t", "m");
    assert_eq!(e, VaultwyrError::FileWriteError);
    assert!(notice.is_none());
}

#[test]
fn retry_decisions() {
    let ask = OnErrorBehaviour::AskUser;
    let stop = OnErrorBehaviour::TerminateOnError;
    assert_eq!(on_header_write_error(&ask, Some(UserResponseTerminateRetry::Retry)), RetryDecision::Retry);
    assert_eq!(
        on_header_write_error(&ask, Some(UserResponseTerminateRetry::Terminate)),
        RetryDecision::Fail(VaultwyrError::FileWriteError)
    );
    assert_eq!(on_header_write_error(&ask, None), RetryDecision::Fail(VaultwyrError::FileWriteError));
    assert_eq!(on_header_write_error(&stop, None), RetryDecision::Fail(VaultwyrError::FileWriteError));
    assert_eq!(on_hash_error(&ask, Some(UserResponseSkipRetry::Skip)), RetryDecision::Skip);
    assert_eq!(on_hash_error(&ask, None), RetryDecision::Retry);
    assert_eq!(on_hash_error(&stop, None), RetryDecision::Fail(VaultwyrError::FileHashError));
    assert_eq!(on_delete_error(&ask, Some(UserResponseSkipRetry::Retry)), RetryDecision::Retry);
    assert_eq!(on_delete_error(&ask, Some(UserResponseSkipRetry::Skip)), RetryDecision::Skip);
    assert_eq!(on_delete_error(&stop, None), RetryDecision::Skip);
}

#[test]
fn text_helpers() {
    assert_eq!(trim(" \t a b \n"), "a b");
    assert_eq!(parse_usize("123"), Some(123));
    assert_eq!(parse_usize("+1"), Some(1));
    assert_eq!(parse_usize(""), None);
    assert_eq!(parse_usize("18446744073709551616"), None);
    assert_eq!(usize_to_decimal(9050), b"9050".to_vec());
    assert_eq!(lines("a\r\nb\n\nc\n"), vec!["a", "b", "", "c"]);
}
