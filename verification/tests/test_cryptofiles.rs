use vaultwyr::behaviour::{OnErrorBehaviour, VaultwyrError};
use vaultwyr::crypto_files::{EncryptionPath, PathType, PlainFile, VaultError};
use vaultwyr::encryption_utils::{aes_encrypt_with_key, password_to_key32};
use vaultwyr::file_traversal::calculate_file_hash;
use vaultwyr::parser::parser_utils::encode_record;
use vaultwyr::parser::VaultWyrFileParser;

fn sample_files() -> Vec<PlainFile> {
    let long_string = "This is a test file to be encrypted.".repeat(1000) + "\n";
    vec![
        PlainFile { path: "tempg/test.txt".to_string(), contents: long_string.into_bytes() },
        PlainFile {
            path: "tempg/test1.txt".to_string(),
            contents: b"this is a test for a smaller file on top of the other file\n".to_vec(),
        },
        PlainFile {
            path: "tempg/test/test1.txt".to_string(),
            contents: b"this file is stored deeper in the folder".to_vec(),
        },
    ]
}

#[test]
fn test_encryption_and_decryption() {
    let files = sample_files();
    let mut folder = EncryptionPath::new("tempg", true);
    folder.algo = Some("aes256".to_string());
    folder.chunk_size = Some(1024);

    let vault = folder.encrypt_files("password", &files).unwrap();
    assert_eq!(folder.new_path, "tempg.fvaultwyr");
    assert!(vault.len() > 0);
    assert_eq!(folder.paths, vec!["tempg/test.txt", "tempg/test1.txt", "tempg/test/test1.txt"]);

    let parser = VaultWyrFileParser::from_path(folder.new_path.clone(), vault);
    let mut opened = parser.to_folder().unwrap();
    assert_eq!(opened.algo, "aes256");
    assert!(opened.validate_password("password"));
    let plan = opened.decrypt_all_files("password");
    assert!(plan.failure.is_none());
    assert_eq!(plan.files.len(), 3);
    for (restored, original) in plan.files.iter().zip(files.iter()) {
        assert_eq!(restored.original_path, original.path);
        assert_eq!(restored.file_hash, calculate_file_hash(&original.contents));
        assert_eq!(restored.contents(), original.contents);
    }
    // 36001 bytes in pieces of 1024: 35 full pieces and one of 161.
    assert_eq!(plan.files[0].chunks.len(), 36);
    assert_eq!(plan.files[0].chunks[35].len(), 161);
}

#[test]
fn decrypting_with_a_wrong_password_is_refused() {
    let files = sample_files();
    let mut folder = EncryptionPath::new("tempg", true);
    let vault = folder.encrypt_files("password", &files).unwrap();
    let mut opened = VaultWyrFileParser::from_path(folder.new_path.clone(), vault).to_folder().unwrap();
    assert!(!opened.validate_password("Password"));
    let plan = opened.decrypt_all_files("Password");
    assert!(plan.files.is_empty());
    assert_eq!(plan.failure, Some(VaultError::WrongPassword));
}

#[test]
fn encrypting_one_file() {
    let mut single = EncryptionPath::new("notes.txt", false);
    assert_eq!(single.new_path, "notes.vaultwyr");
    assert!(matches!(&single.files, PathType::File(p) if p == "notes.txt"));
    let files = vec![PlainFile { path: "notes.txt".to_string(), contents: b"remember the milk".to_vec() }];
    let vault = single.encrypt_files("pw", &files).unwrap();
    let mut opened = VaultWyrFileParser::from_path(single.new_path.clone(), vault).to_folder().unwrap();
    let plan = opened.decrypt_all_files("pw");
    assert!(plan.failure.is_none());
    assert_eq!(plan.files.len(), 1);
    assert_eq!(plan.files[0].contents(), b"remember the milk".to_vec());
    assert_eq!(plan.files[0].chunks.len(), 1);
}

#[test]
fn encrypting_an_empty_last_file() {
    let mut folder = EncryptionPath::new("dir", true);
    let files = vec![
        PlainFile { path: "dir/a".to_string(), contents: b"a".to_vec() },
        PlainFile { path: "dir/empty".to_string(), contents: Vec::new() },
    ];
    let vault = folder.encrypt_files("pw", &files).unwrap();
    let mut opened = VaultWyrFileParser::from_path(folder.new_path.clone(), vault).to_folder().unwrap();
    let plan = opened.decrypt_all_files("pw");
    assert!(plan.failure.is_none());
    assert_eq!(plan.files.len(), 2);
    assert!(plan.files[1].contents().is_empty());
}

#[test]
fn an_empty_file_before_another_cannot_be_read_back() {
    let mut folder = EncryptionPath::new("dir", true);
    let files = vec![
        PlainFile { path: "dir/empty".to_string(), contents: Vec::new() },
        PlainFile { path: "dir/a".to_string(), contents: b"a".to_vec() },
    ];
    let vault = folder.encrypt_files("pw", &files).unwrap();
    let mut opened = VaultWyrFileParser::from_path(folder.new_path.clone(), vault).to_folder().unwrap();
    let plan = opened.decrypt_all_files("pw");
    assert!(plan.files.is_empty());
    assert_eq!(
        plan.failure,
        Some(VaultError::Parse(vaultwyr::parser::parser_utils::ParseError::HeaderWithoutChunks))
    );
}

#[test]
fn unknown_algorithm_is_not_implemented() {
    let mut folder = EncryptionPath::new("dir", true);
    folder.algo = Some("rot13".to_string());
    let files = vec![PlainFile { path: "dir/a".to_string(), contents: b"abc".to_vec() }];
    assert_eq!(folder.encrypt_files("pw", &files), Err(VaultwyrError::NotImplemented));
    assert_eq!(folder.paths, vec!["dir/a"]);
}

#[test]
fn unknown_algorithm_with_only_empty_files() {
    let mut folder = EncryptionPath::new("dir", true);
    folder.algo = Some("rot13".to_string());
    let files = vec![PlainFile { path: "dir/a".to_string(), contents: Vec::new() }];
    assert!(folder.encrypt_files("pw", &files).is_ok());
}

#[test]
fn too_long_password_is_refused() {
    let mut folder = EncryptionPath::new("dir", true);
    let files = vec![PlainFile { path: "dir/a".to_string(), contents: b"abc".to_vec() }];
    let long = "p".repeat(40);
    assert_eq!(folder.encrypt_files(&long, &files), Err(VaultwyrError::BadPassword));
    assert!(folder.paths.is_empty());
    assert_eq!(folder.validation, vec![0u8; 32]);
}

#[test]
fn header_record_layout() {
    let mut folder = EncryptionPath::new("v", true);
    let key = password_to_key32("pw").unwrap();
    let header = folder.encode_header(&key);
    let path_and_algo = format!("{}\naes256\n", folder.new_path);
    let content_len = path_and_algo.len() + 60;
    let prefix = format!("m {} {}", content_len, path_and_algo);
    assert_eq!(&header[..prefix.len()], prefix.as_bytes());
    assert_eq!(&header[prefix.len()..], &folder.validation[..]);
    assert_eq!(folder.validation.len(), 60);
}

#[test]
fn file_record_layout() {
    let mut folder = EncryptionPath::new("v", true);
    folder.chunk_size = Some(2);
    let key = password_to_key32("pw").unwrap();
    let encoded = folder.encode_file("a.txt", "ff", b"abc", &key);
    assert_eq!(encoded.error, None);
    let header = encode_record(b'h', b"a.txt\nff");
    assert_eq!(&encoded.bytes[..header.len()], &header[..]);
    // Two pieces (2 bytes and 1 byte), each 28 bytes longer once encrypted.
    assert_eq!(encoded.bytes.len(), header.len() + (5 + 30) + (5 + 29));
    assert_eq!(folder.paths, vec!["a.txt"]);
}

#[test]
fn builders_keep_the_rest() {
    let folder = EncryptionPath::new("v", true)
        .on_error_behaviour(OnErrorBehaviour::TerminateOnError)
        .max_size(10);
    assert_eq!(folder.on_error_behaviour, OnErrorBehaviour::TerminateOnError);
    assert_eq!(folder.max_size, 10);
    assert_eq!(folder.chunk_size, Some(2048));
    assert_eq!(folder.algo_name(), "aes256");
    let fresh = EncryptionPath::new("v", true);
    assert_eq!(fresh.max_size, 53_687_091_200);
    assert_eq!(fresh.on_error_behaviour, OnErrorBehaviour::AskUser);
}

#[test]
fn deletion_size_limit() {
    let folder = EncryptionPath::new("v", true).max_size(100);
    assert!(folder.check_deletion_size(100).is_none());
    let (error, notice) = folder.check_deletion_size(101).unwrap();
    assert_eq!(error, VaultwyrError::PathSizeError);
    let notice = notice.unwrap();
    assert_eq!(notice.title, "The path is too large");
    assert_eq!(
        notice.heading,
        "The path that you provided for deletion is too large!\n101>100If you want to be able to encrypt larger files please update the settings"
    );
    let quiet = EncryptionPath::new("v", true).max_size(0).on_error_behaviour(OnErrorBehaviour::TerminateOnError);
    let (error, notice) = quiet.check_deletion_size(1).unwrap();
    assert_eq!(error, VaultwyrError::PathSizeError);
    assert!(notice.is_none());
}

#[test]
fn deletion_target_of_a_file_is_the_file() {
    let single = EncryptionPath::new("docs/notes.txt", false);
    assert_eq!(single.deletion_target(), "docs/notes.txt");
    let folder = EncryptionPath::new("docs", true);
    assert_eq!(folder.deletion_target(), "docs");
}

#[test]
fn restoring_one_file_with_its_password() {
    let files = vec![PlainFile { path: "a".to_string(), contents: b"hello".to_vec() }];
    let mut folder = EncryptionPath::new("d", true);
    folder.chunk_size = Some(2);
    let vault = folder.encrypt_files("pw", &files).unwrap();
    let mut linker = VaultWyrFileParser::from_path("d.fvaultwyr".to_string(), vault.clone()).linker;
    linker.next().unwrap();
    let header = linker.next().unwrap().unwrap();
    let mut file = header.parse_file_header(&vault).unwrap().unwrap();
    let restored = file.try_restore_with_password("pw");
    assert!(restored.error.is_none());
    assert_eq!(restored.chunks, vec![b"he".to_vec(), b"ll".to_vec(), b"o".to_vec()]);
}

#[test]
fn restoring_with_a_wrong_key_stops_at_the_first_chunk() {
    let files = vec![PlainFile { path: "a".to_string(), contents: b"hello".to_vec() }];
    let mut folder = EncryptionPath::new("d", true);
    let vault = folder.encrypt_files("pw", &files).unwrap();
    let mut linker = VaultWyrFileParser::from_path("d.fvaultwyr".to_string(), vault.clone()).linker;
    linker.next().unwrap();
    let header = linker.next().unwrap().unwrap();
    let mut file = header.parse_file_header(&vault).unwrap().unwrap();
    let restored = file.try_restore_with_password("other");
    assert!(restored.chunks.is_empty());
    assert_eq!(restored.error, Some(VaultError::ChunkDecryption));
    let long = "p".repeat(33);
    assert_eq!(file.try_restore_with_password(&long).error, Some(VaultError::PasswordTooLong));
}

#[test]
fn a_short_chunk_is_reported() {
    let key = password_to_key32("pw").unwrap();
    let validation = aes_encrypt_with_key(key, &[0u8; 32]).unwrap();
    let mut content = b"v\naes256\n".to_vec();
    content.extend(&validation);
    let mut vault = encode_record(b'm', &content);
    vault.extend(encode_record(b'h', b"a\nh"));
    vault.extend(encode_record(b'c', b"short"));
    let mut opened = VaultWyrFileParser::from_path("v".to_string(), vault).to_folder().unwrap();
    let plan = opened.decrypt_all_files("pw");
    assert_eq!(plan.failure, Some(VaultError::ShortChunk));
    assert_eq!(plan.files.len(), 1);
    assert!(plan.files[0].chunks.is_empty());
}

#[test]
fn vault_paths_under_a_folder() {
    let folder = EncryptionPath::new("dir/sub/tempg", true);
    assert_eq!(folder.new_path, "dir/sub/tempg.fvaultwyr");
    assert_eq!(folder.deletion_target(), "dir/sub/tempg");
    let single = EncryptionPath::new("dir/a.b.txt", false);
    assert_eq!(single.new_path, "dir/a.b.vaultwyr");
}
