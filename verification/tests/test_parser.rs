use vaultwyr::parser::parser_utils::{
    encode_record, parse_content, parse_length, read_until_any, split_into_chunks, vec_to_string, vec_to_usize,
    ParseError,
};
use vaultwyr::parser::{FileChunkIterator, FileHeader, HeaderType, VaultWyrFileParser, VaultwyrFileLinker};

#[test]
fn vec_to_usize_reads_trimmed_decimal() {
    assert_eq!(vec_to_usize(b" 42\n".to_vec()), Ok(42));
    assert_eq!(vec_to_usize(b"0".to_vec()), Ok(0));
}

#[test]
fn vec_to_usize_refuses_non_numbers() {
    assert_eq!(vec_to_usize(b"4x2".to_vec()), Err(ParseError::InvalidLength));
    assert_eq!(vec_to_usize(b"".to_vec()), Err(ParseError::InvalidLength));
    assert_eq!(vec_to_usize(vec![0xff, 0x31]), Err(ParseError::InvalidUtf8));
}

#[test]
fn vec_to_string_trims() {
    assert_eq!(vec_to_string(b"  aes256 \n".to_vec()), Ok("aes256".to_string()));
    assert_eq!(vec_to_string(vec![0xc3]), Err(ParseError::InvalidUtf8));
}

#[test]
fn split_into_chunks_keeps_the_rest_whole() {
    let parts = split_into_chunks(b"a,b,c,d".to_vec(), b',', 3);
    assert_eq!(parts, vec![b"a".to_vec(), b"b".to_vec(), b"c,d".to_vec()]);
}

#[test]
fn split_into_chunks_with_few_pieces() {
    let parts = split_into_chunks(b"a".to_vec(), b',', 3);
    assert_eq!(parts, vec![b"a".to_vec(), Vec::new()]);
    let parts = split_into_chunks(b"a,b,".to_vec(), b',', 2);
    assert_eq!(parts, vec![b"a".to_vec(), b"b,".to_vec()]);
    let parts = split_into_chunks(b"x\ny".to_vec(), b'\n', 1);
    assert_eq!(parts, vec![b"x\ny".to_vec()]);
}

#[test]
fn records_are_tag_length_content() {
    assert_eq!(encode_record(b'c', b"abc"), b"c 3 abc".to_vec());
    assert_eq!(encode_record(b'h', b""), b"h 0 ".to_vec());
    let content = vec![7u8; 12];
    let rec = encode_record(b'm', &content);
    assert_eq!(&rec[..5], b"m 12 ");
}

#[test]
fn parse_length_and_content() {
    let data = b"c 12 abcdefghijklmnop";
    assert_eq!(parse_length(data, 0), Ok((12, 5)));
    let (content, end) = parse_content(data, 0).unwrap();
    assert_eq!(content, b"abcdefghijkl".to_vec());
    assert_eq!(end, 17);
    assert_eq!(parse_content(b"c 9 abc", 0), Err(ParseError::UnexpectedEof));
    assert_eq!(parse_length(b"c x1 abc", 0), Err(ParseError::InvalidLength));
    assert_eq!(parse_content(b"c 0 ", 0), Ok((Vec::new(), 4)));
}

#[test]
fn read_until_any_finds_the_first_delimiter() {
    assert_eq!(read_until_any(b"xxhyc", 0, b"hc"), Ok((b'h', 3)));
    assert_eq!(read_until_any(b"xxhyc", 3, b"hc"), Ok((b'c', 5)));
    assert_eq!(read_until_any(b"xyz", 0, b"hc"), Err(ParseError::UnexpectedEof));
}

#[test]
fn file_header_builder() {
    let mut h = FileHeader::new(9);
    h.add_chunk_index(20);
    h.add_chunk_index(31);
    assert_eq!(h.header_index, 9);
    assert_eq!(h.chunk_indexes, vec![20, 31]);
}

#[test]
fn linker_yields_main_then_files_with_their_chunks() {
    let mut data = encode_record(b'm', b"v\naes256\nxyz");
    data.extend(encode_record(b'h', b"a.txt\nhash"));
    let chunk_at = data.len() as u64 + 1;
    data.extend(encode_record(b'c', b"12345678901234"));
    let mut linker = VaultwyrFileLinker::from_vaultwyr_file(data);
    match linker.next() {
        Ok(Some(HeaderType::MainHeader(i))) => assert_eq!(i, 1),
        _ => panic!("expected the main header"),
    }
    match linker.next() {
        Ok(Some(HeaderType::FileHeader(f))) => {
            assert_eq!(f.header_index, 18);
            assert_eq!(f.chunk_indexes, vec![chunk_at]);
        },
        _ => panic!("expected a file header"),
    }
    assert!(matches!(linker.next(), Ok(None)));
}

#[test]
fn linker_refuses_a_chunk_before_any_header() {
    let mut linker = VaultwyrFileLinker::from_vaultwyr_file(encode_record(b'c', b"abc"));
    assert!(matches!(linker.next(), Err(ParseError::ChunkWithoutHeader)));
}

#[test]
fn linker_refuses_a_header_without_chunks() {
    let mut data = encode_record(b'h', b"a\nb");
    data.extend(encode_record(b'h', b"c\nd"));
    let mut linker = VaultwyrFileLinker::from_vaultwyr_file(data);
    assert!(matches!(linker.next(), Err(ParseError::HeaderWithoutChunks)));
}

#[test]
fn linker_refuses_a_bad_length() {
    let mut linker = VaultwyrFileLinker::from_vaultwyr_file(b"m zz abc".to_vec());
    assert!(matches!(linker.next(), Err(ParseError::InvalidLength)));
}

#[test]
fn main_header_fields() {
    let data = encode_record(b'm', b"vault.fvaultwyr\naes256\nva\nlid");
    let header = HeaderType::MainHeader(1);
    let parts = header.parse_main_header(&data).unwrap().unwrap();
    assert_eq!(parts, vec![b"vault.fvaultwyr".to_vec(), b"aes256".to_vec(), b"va\nlid".to_vec()]);
    let file = HeaderType::FileHeader(FileHeader::new(1));
    assert!(matches!(file.parse_main_header(&data), Ok(None)));
}

#[test]
fn main_header_with_missing_fields() {
    let data = encode_record(b'm', b"only one field");
    let header = HeaderType::MainHeader(1);
    assert!(matches!(header.parse_main_header(&data), Err(ParseError::MissingFields)));
}

#[test]
fn file_header_gives_path_hash_and_chunks() {
    let mut data = encode_record(b'h', b"dir/a.txt\r\nabc123");
    let chunk_at = data.len() as u64 + 1;
    data.extend(encode_record(b'c', b"xyz"));
    let mut header = FileHeader::new(1);
    header.add_chunk_index(chunk_at);
    let mut file = HeaderType::FileHeader(header).parse_file_header(&data).unwrap().unwrap();
    assert_eq!(file.original_path, "dir/a.txt");
    assert_eq!(file.file_hash, "abc123");
    assert_eq!(file.data.next(), Some(Ok(b"xyz".to_vec())));
    assert_eq!(file.data.next(), None);
}

#[test]
fn file_header_with_one_line() {
    let data = encode_record(b'h', b"just-a-path");
    let header = HeaderType::FileHeader(FileHeader::new(1));
    assert!(matches!(header.parse_file_header(&data), Err(ParseError::MissingFields)));
    assert!(matches!(HeaderType::MainHeader(1).parse_file_header(&data), Ok(None)));
}

#[test]
fn chunk_iterator_reads_chunks_in_order() {
    let mut data = encode_record(b'c', b"one");
    data.extend(encode_record(b'c', b"three"));
    let mut it = FileChunkIterator::new(data, vec![1, 8]);
    assert_eq!(it.next(), Some(Ok(b"one".to_vec())));
    assert_eq!(it.next(), Some(Ok(b"three".to_vec())));
    assert_eq!(it.next(), None);
}

#[test]
fn chunk_iterator_reports_a_truncated_chunk() {
    let mut it = FileChunkIterator::new(b"c 9 abc".to_vec(), vec![1]);
    assert_eq!(it.next(), Some(Err(ParseError::UnexpectedEof)));
}

#[test]
fn opening_a_vault_without_main_header() {
    let parser = VaultWyrFileParser::from_path("x.fvaultwyr".to_string(), encode_record(b'h', b"a\nb"));
    assert!(matches!(parser.to_folder(), Err(ParseError::MissingMainHeader)));
    let empty = VaultWyrFileParser::from_path("x.fvaultwyr".to_string(), Vec::new());
    assert!(matches!(empty.to_folder(), Err(ParseError::MissingMainHeader)));
}

#[test]
fn opening_a_vault_reads_its_main_header() {
    let data = encode_record(b'm', b"x.fvaultwyr\n aes256 \nVALID");
    let folder = VaultWyrFileParser::from_path("x.fvaultwyr".to_string(), data).to_folder().unwrap();
    assert_eq!(folder.new_path, "x.fvaultwyr");
    assert_eq!(folder.algo, "aes256");
    assert_eq!(folder.validation, b"VALID".to_vec());
}
