use vaultwyr::crypto_files::{EncryptionPath, PlainFile, VaultError};
use vaultwyr::encryption_utils::{aes_decrypt_with_key, password_to_key32};
use vaultwyr::simple_vault::{
    EncryptedFileHeaderIterator, EncryptedFileReader, EncryptedFileWriter, FileChunkParser, Folder, VaultWyrFolder,
};
use vaultwyr::parser::VaultWyrFileParser;
use vaultwyr::parser::parser_utils::{encode_record, ParseError};

#[test]
fn chunk_parser_reads_chunks_in_order() {
    let mut data = encode_record(b'c', b"abc");
    data.extend(encode_record(b'c', b"xy"));
    let mut parser = FileChunkParser::new(data, 0);
    assert_eq!(parser.next(), Some(Ok(b"abc".to_vec())));
    assert_eq!(parser.pos, 7);
    assert_eq!(parser.next(), Some(Ok(b"xy".to_vec())));
    assert_eq!(parser.next(), None);
}

#[test]
fn chunk_parser_stops_at_another_record() {
    let mut parser = FileChunkParser::new(encode_record(b'h', b"abc"), 0);
    assert_eq!(parser.next(), None);
    assert_eq!(parser.pos, 2);
}

#[test]
fn chunk_parser_reports_bad_chunks() {
    let mut bad_length = FileChunkParser::new(b"c x abc".to_vec(), 0);
    assert_eq!(bad_length.next(), Some(Err(ParseError::InvalidLength)));
    let mut truncated = FileChunkParser::new(b"c 9 ab".to_vec(), 0);
    assert_eq!(truncated.next(), Some(Err(ParseError::UnexpectedEof)));
    assert_eq!(truncated.pos, 6);
}

#[test]
fn chunk_parser_from_an_index() {
    let mut data = b"xx".to_vec();
    data.extend(encode_record(b'c', b"hello"));
    let mut parser = FileChunkParser::new(data, 2);
    assert_eq!(parser.index, 2);
    assert_eq!(parser.next(), Some(Ok(b"hello".to_vec())));
}

#[test]
fn header_iterator_finds_each_h() {
    let mut it = EncryptedFileHeaderIterator::new(b"xxhyyh".to_vec());
    assert_eq!(it.next(), Some(4));
    assert_eq!(it.pos, 3);
    assert_eq!(it.next(), Some(7));
    assert_eq!(it.next(), None);
    assert_eq!(it.pos, 6);
}

#[test]
fn folder_header_and_files() {
    let mut folder = Folder::new("tempg");
    assert_eq!(folder.new_path, "tempg.fvaultwyr");
    assert_eq!(folder.encode_header(), b"m 27 tempg.fvaultwyr\naes256\n2048".to_vec());
    folder.chunk_size = Some(1024);
    let key = password_to_key32("password").unwrap();
    let contents = "This is a test file to be encrypted.".repeat(1000);
    let encoded = folder.encode_file("tempg/test.txt", contents.as_bytes(), &key);
    assert_eq!(encoded.error, None);
    let header = encode_record(b'h', b"tempg/test.txt\n14");
    assert_eq!(&encoded.bytes[..header.len()], &header[..]);
    let mut chunks = FileChunkParser::new(encoded.bytes.clone(), header.len() as u64);
    let mut restored = Vec::new();
    while let Some(chunk) = chunks.next() {
        restored.extend(aes_decrypt_with_key(key, &chunk.unwrap()).unwrap());
    }
    assert_eq!(restored, contents.as_bytes());
}

#[test]
fn folder_with_an_unknown_algorithm() {
    let mut folder = Folder::new("d");
    folder.algo = Some("des".to_string());
    let key = password_to_key32("pw").unwrap();
    let encoded = folder.encode_file("d/a", b"abc", &key);
    assert_eq!(encoded.error, Some(vaultwyr::behaviour::VaultwyrError::NotImplemented));
    assert_eq!(encoded.bytes, encode_record(b'h', b"d/a\n3"));
}

#[test]
fn writer_needs_the_folder_extension() {
    assert!(EncryptedFileWriter::new("v.txt".to_string(), "aes256".to_string(), 10).is_none());
    assert!(EncryptedFileWriter::new("v".to_string(), "aes256".to_string(), 10).is_none());
    assert!(EncryptedFileWriter::new("v.fvaultwyr".to_string(), "aes256".to_string(), 10).is_some());
}

#[test]
fn writer_header_reads_back() {
    let writer = EncryptedFileWriter::new("vault.fvaultwyr".to_string(), "aes256".to_string(), 1024).unwrap();
    let header = writer.encode_header();
    assert_eq!(header, b"27 vault.fvaultwyr\naes256\n1024".to_vec());
    let key = password_to_key32("pw").unwrap();
    let mut data = header.clone();
    data.extend(writer.encode_file("a.txt", "abc", b"hello", &key).bytes);
    let folder = EncryptedFileReader::new("vault.fvaultwyr".to_string(), data).into_folder().unwrap();
    assert_eq!(folder.new_path, "vault.fvaultwyr");
    assert_eq!(folder.algo, "aes256");
    assert_eq!(folder.chunk_size, 1024);
    assert_eq!(folder.files.pos, header.len() as u64);
    let mut files = folder.files;
    assert_eq!(files.next(), Some(header.len() as u64 + 2));
}

#[test]
fn reader_errors() {
    let read = |data: &[u8]| EncryptedFileReader::new("v".to_string(), data.to_vec()).into_folder().err();
    assert_eq!(read(b"abc def"), Some(ParseError::InvalidLength));
    assert_eq!(read(b"99 abc"), Some(ParseError::UnexpectedEof));
    assert_eq!(read(b"3 a\nb"), Some(ParseError::MissingFields));
    assert_eq!(read(b"7 a\nb\nxyz"), Some(ParseError::InvalidLength));
    assert_eq!(read(&[b'2', b' ', 0xff, 0xfe]), Some(ParseError::InvalidUtf8));
    assert_eq!(read(b"7 a\nb\nc\nd"), Some(ParseError::MissingFields));
}

#[test]
fn test_encrypt_to_file_success() {
    let long_string = "This is a test file to be encrypted.".repeat(1000) + "\n";
    let mut folder = Folder::new("tempg");
    folder.algo = Some("aes256".to_string());
    folder.chunk_size = Some(1024);
    let key = password_to_key32("password").unwrap();
    let mut contents = folder.encode_header();
    let encoded = folder.encode_file("tempg/test.txt", long_string.as_bytes(), &key);
    assert_eq!(encoded.error, None);
    contents.extend(encoded.bytes);
    assert_eq!(folder.new_path, "tempg.fvaultwyr");
    assert!(contents.len() > 0);
}

#[test]
fn folder_restored_without_a_password_check() {
    let files = vec![PlainFile { path: "d/a".to_string(), contents: b"abc".to_vec() }];
    let mut path = EncryptionPath::new("d", true);
    let vault = path.encrypt_files("password", &files).unwrap();
    let open = |data: Vec<u8>| {
        let opened = VaultWyrFileParser::from_path("d.fvaultwyr".to_string(), data).to_folder().unwrap();
        VaultWyrFolder::new(opened.new_path, opened.algo, 2048, opened.files)
    };
    let mut folder = open(vault.clone());
    let plan = folder.decrypt_all_files("password");
    assert!(plan.failure.is_none());
    assert_eq!(plan.files[0].contents(), b"abc".to_vec());
    let mut wrong = open(vault.clone());
    let plan = wrong.decrypt_all_files("other");
    assert_eq!(plan.failure, Some(VaultError::ChunkDecryption));
    assert_eq!(plan.files.len(), 1);
    let mut long = open(vault);
    assert_eq!(long.decrypt_all_files(&"p".repeat(33)).failure, Some(VaultError::PasswordTooLong));
}

#[test]
fn folder_vault_path_replaces_the_extension() {
    assert_eq!(Folder::new("photos.old").new_path, "photos.fvaultwyr");
    assert_eq!(Folder::new(".hidden").new_path, ".hidden.fvaultwyr");
    assert_eq!(Folder::new("a.").new_path, "a.fvaultwyr");
    assert!(EncryptedFileWriter::new(".fvaultwyr".to_string(), "aes256".to_string(), 1).is_none());
    assert!(EncryptedFileWriter::new("..fvaultwyr".to_string(), "aes256".to_string(), 1).is_some());
}
