use vaultwyr::encryption_utils::{
    aes_decrypt_with_key, aes_encrypt_with_key, aes_encrypt_with_nonce, password_to_key, password_to_key32,
    validate_key32, CipherError, KeyError,
};

fn hex(bytes: &[u8]) -> String {
    bytes.iter().map(|b| format!("{:02x}", b)).collect()
}

#[test]
fn aes_known_answer_empty_plaintext() {
    // AES-256-GCM, zero key and nonce, empty plaintext: only the tag.
    let out = aes_encrypt_with_nonce([0u8; 32], [0u8; 12], &[]).unwrap();
    assert_eq!(out.len(), 12 + 16);
    assert_eq!(&out[..12], &[0u8; 12]);
    assert_eq!(hex(&out[12..]), "530f8afbc74536b9a963b4f1c4cb738b");
}

#[test]
fn aes_known_answer_one_block() {
    let out = aes_encrypt_with_nonce([0u8; 32], [0u8; 12], &[0u8; 16]).unwrap();
    assert_eq!(hex(&out[12..28]), "cea7403d4d606b6e074ec5d3baf39d18");
    assert_eq!(hex(&out[28..]), "d0d1c8a799996bf0265b98b5d48ab919");
}

#[test]
fn aes_roundtrip() {
    let key = password_to_key32("password").unwrap();
    let plain = b"This is a test file to be encrypted.".to_vec();
    let sealed = aes_encrypt_with_key(key, &plain).unwrap();
    assert_eq!(sealed.len(), plain.len() + 28);
    assert_ne!(&sealed[12..12 + plain.len()], &plain[..]);
    assert_eq!(aes_decrypt_with_key(key, &sealed).unwrap(), plain);
}

#[test]
fn aes_wrong_key_is_refused() {
    let key = password_to_key32("password").unwrap();
    let other = password_to_key32("passw0rd").unwrap();
    let sealed = aes_encrypt_with_key(key, b"secret").unwrap();
    assert_eq!(aes_decrypt_with_key(other, &sealed), Err(CipherError::AuthenticationFailed));
}

#[test]
fn aes_tampered_chunk_is_refused() {
    let key = password_to_key32("k").unwrap();
    let mut sealed = aes_encrypt_with_key(key, b"secret").unwrap();
    let last = sealed.len() - 1;
    sealed[last] ^= 1;
    assert_eq!(aes_decrypt_with_key(key, &sealed), Err(CipherError::AuthenticationFailed));
}

#[test]
fn aes_fresh_nonce_each_time() {
    let key = [7u8; 32];
    let a = aes_encrypt_with_key(key, b"same").unwrap();
    let b = aes_encrypt_with_key(key, b"same").unwrap();
    assert_ne!(a, b);
}

#[test]
fn password_key_is_padded_with_zeros() {
    let key = password_to_key32("password").unwrap();
    let mut expected = [0u8; 32];
    expected[..8].copy_from_slice(b"password");
    assert_eq!(key, expected);
}

#[test]
fn password_key_of_exact_length() {
    let key = password_to_key::<4>("abcd").unwrap();
    assert_eq!(key, *b"abcd");
}

#[test]
fn password_too_long_is_refused() {
    assert_eq!(password_to_key::<4>("abcde"), Err(KeyError::PasswordTooLong));
    let long = "x".repeat(33);
    assert_eq!(password_to_key32(&long), Err(KeyError::PasswordTooLong));
}

#[test]
fn password_key_counts_utf8_bytes() {
    // "é" takes two bytes.
    assert_eq!(password_to_key::<2>("é").unwrap(), [0xc3, 0xa9]);
    assert_eq!(password_to_key::<1>("é"), Err(KeyError::PasswordTooLong));
}

#[test]
fn validation_block_checks_the_key() {
    let key = password_to_key32("password").unwrap();
    let block = aes_encrypt_with_key(key, &[0u8; 32]).unwrap();
    assert!(validate_key32(&key, &block));
    let other = password_to_key32("other").unwrap();
    assert!(!validate_key32(&other, &block));
    let not_zero = aes_encrypt_with_key(key, &[1u8; 32]).unwrap();
    assert!(!validate_key32(&key, &not_zero));
    assert!(!validate_key32(&key, &[0u8; 5]));
}
