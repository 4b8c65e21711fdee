use vaultwyr::file_traversal::calculate_file_hash;

#[test]
fn hash_of_nothing() {
    assert_eq!(
        calculate_file_hash(&[]),
        "e3b0c44298fc1c149afbf4c8996fb92427ae41e4649b934ca495991b7852b855"
    );
}

#[test]
fn hash_of_abc() {
    assert_eq!(
        calculate_file_hash(b"abc"),
        "ba7816bf8f01cfea414140de5dae2223b00361a396177a9cb410ff61f20015ad"
    );
}

#[test]
fn hash_is_lowercase_hex_of_64_digits() {
    let h = calculate_file_hash(b"This is a test file to be encrypted.");
    assert_eq!(h.len(), 64);
    assert!(h.chars().all(|c| c.is_ascii_digit() || ('a'..='f').contains(&c)));
}
