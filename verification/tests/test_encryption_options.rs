use vaultwyr::encryption_options::{EncryptionOptions, OptionsError};

fn described() -> EncryptionOptions {
    EncryptionOptions::new("notes.txt".to_string(), b"hello", None, None).unwrap()
}

#[test]
fn new_describes_the_file() {
    let o = described();
    assert_eq!(o.original_path, "notes.txt");
    assert_eq!(o.new_path, "notes.vaultwyr");
    assert_eq!(o.chunk_size, 4096);
    assert_eq!(o.algo, "aes256");
    assert_eq!(o.validation, vec![0u8; 32]);
    assert_eq!(o.file_hash, "2cf24dba5fb0a30e26e83b2ac5b9e29e1b161e5c1fa7425e73043362938b9824");
    assert!(o.data.is_empty());
}

#[test]
fn new_with_given_chunk_size_and_algorithm() {
    let o = EncryptionOptions::new("a/b.md".to_string(), b"", Some(10), Some("other".to_string())).unwrap();
    assert_eq!(o.chunk_size, 10);
    assert_eq!(o.algo, "other");
    assert_eq!(o.new_path, "a/b.vaultwyr");
}

#[test]
fn new_refuses_a_path_without_extension() {
    assert!(matches!(
        EncryptionOptions::new("Makefile".to_string(), b"all:", None, None),
        Err(OptionsError::MissingExtension)
    ));
}

#[test]
fn lock_then_unlock_gives_the_text_back() {
    let mut o = described();
    o.lock_file_with_password("password", "hello").unwrap();
    assert_eq!(o.validation.len(), 60);
    assert_eq!(o.data.len(), 5 + 28);
    assert!(o.get_data_as_utf().is_err() || o.get_data_as_utf().unwrap() != "hello");
    o.unlock_file_with_password("password").unwrap();
    assert_eq!(o.validation, vec![0u8; 32]);
    assert_eq!(o.data, b"hello".to_vec());
    assert_eq!(o.get_data_as_utf(), Ok("hello".to_string()));
}

#[test]
fn locking_twice_is_refused() {
    let mut o = described();
    o.lock_file_with_password("pw", "hello").unwrap();
    let before = o.data.clone();
    assert_eq!(o.lock_file_with_password("pw", "hello"), Err(OptionsError::AlreadyEncrypted));
    assert_eq!(o.data, before);
}

#[test]
fn unlocking_an_unlocked_file_is_refused() {
    let mut o = described();
    assert_eq!(o.unlock_file_with_password("pw"), Err(OptionsError::AlreadyDecrypted));
}

#[test]
fn unlocking_with_a_wrong_password_is_refused() {
    let mut o = described();
    o.lock_file_with_password("pw", "hello").unwrap();
    let locked = o.validation.clone();
    assert_eq!(o.unlock_file_with_password("wrong"), Err(OptionsError::ValidationDecryption));
    assert_eq!(o.validation, locked);
}

#[test]
fn a_too_long_password_is_refused() {
    let mut o = described();
    let long = "x".repeat(33);
    assert_eq!(o.lock_file_with_password(&long, "hello"), Err(OptionsError::PasswordTooLong));
    assert_eq!(o.validation, vec![0u8; 32]);
}

#[test]
fn the_locked_file_must_end_in_vaultwyr() {
    let mut o = described();
    o.new_path = "notes.txt".to_string();
    assert_eq!(o.lock_file_with_password("pw", "hello"), Err(OptionsError::WrongExtension));
    assert_eq!(o.validation, vec![0u8; 32]);
}

#[test]
fn corrupted_data_is_refused() {
    let mut o = described();
    o.lock_file_with_password("pw", "hello").unwrap();
    let last = o.data.len() - 1;
    o.data[last] ^= 0x80;
    assert_eq!(o.unlock_file_with_password("pw"), Err(OptionsError::DataDecryption));
    assert_eq!(o.validation, vec![0u8; 32]);
}

#[test]
fn a_short_block_is_malformed() {
    let mut o = described();
    o.validation = vec![1, 2, 3];
    assert_eq!(o.unlock_file_with_password("pw"), Err(OptionsError::Malformed));
}

#[test]
fn data_that_is_not_utf8() {
    let mut o = described();
    o.data = vec![0xff, 0xfe];
    assert_eq!(o.get_data_as_utf(), Err(OptionsError::InvalidUtf8));
}

#[test]
fn paths_under_a_folder() {
    assert!(matches!(
        EncryptionOptions::new("dir.d/notes".to_string(), b"x", None, None),
        Err(OptionsError::MissingExtension)
    ));
    let mut o = EncryptionOptions::new("dir/notes.txt".to_string(), b"hi", None, None).unwrap();
    assert_eq!(o.new_path, "dir/notes.vaultwyr");
    o.lock_file_with_password("pw", "hi").unwrap();
    o.unlock_file_with_password("pw").unwrap();
    assert_eq!(o.data, b"hi".to_vec());
}
