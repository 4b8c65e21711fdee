//! What a vault file gives back: reading a vault written by `EncryptionPath`
//! yields the files that were written, and decrypting them with the
//! password gives their contents.
use vstd::prelude::*;
use vstd::utf8::*;

use crate::crypto_files::{
    chunk_pieces, concat_pieces, lemma_chunk_pieces_join, password_opens, sealed_files, chunk_records, decrypt_plan_spec, encrypts_pieces, file_header_content, main_header_content,
    restore_spec, VaultError,
};
use crate::encryption_utils::{key_opens, opened_chunk, password_key};
use crate::file_traversal::{hex_lower, sha256};
use crate::parser::parser_utils::{
    content_spec, find_any, join_pieces, lemma_delim_index, lemma_join_split, lemma_record_fields,
    length_field_spec, max_position, record, split_into_chunks_spec, split_pieces, ParseError,
};
use crate::parser::{
    chunk_spec, file_header_spec, linker_next_spec, main_header_spec, record_tags,
    seek_header_end_spec, to_folder_spec, HeaderSpec,
};
use crate::text::{
    is_unicode_whitespace, lemma_encode_utf8_concat, lemma_newline_index, lines_chars,
    newline_index, strip_cr, trim_chars, trim_end_chars, trim_start_chars, vec_to_string_spec,
};

verus! {

broadcast use vstd::utf8::group_utf8_lib;

// ---------------------------------------------------------------------------
// The layout of a vault file
// ---------------------------------------------------------------------------

/// A file as stored in a vault: original path, hash, encrypted chunks.
pub type StoredFile = (Seq<char>, Seq<char>, Seq<Seq<u8>>);

/// The records of one stored file: its header, then its chunks.
pub open spec fn file_bytes(f: StoredFile) -> Seq<u8> {
    record(104u8, file_header_content(f.0, f.1)) + chunk_records(f.2)
}

/// The records of the stored files, one after another.
pub open spec fn files_bytes(files: Seq<StoredFile>) -> Seq<u8>
    decreases files.len(),
{
    if files.len() == 0 {
        seq![]
    } else {
        file_bytes(files[0]) + files_bytes(files.drop_first())
    }
}

/// Adding a stored file at the end adds its records at the end.
pub proof fn lemma_files_bytes_push(files: Seq<StoredFile>, f: StoredFile)
    ensures
        files_bytes(files.push(f)) == files_bytes(files) + file_bytes(f),
    decreases files.len(),
{
    if files.len() == 0 {
        assert(files.push(f).drop_first() =~= Seq::<StoredFile>::empty());
        assert(files_bytes(files.push(f).drop_first()) =~= Seq::<u8>::empty());
        assert(files_bytes(files.push(f)) =~= file_bytes(f));
        assert(files_bytes(files) =~= Seq::<u8>::empty());
    } else {
        lemma_files_bytes_push(files.drop_first(), f);
        assert(files.push(f).drop_first() =~= files.drop_first().push(f));
        assert(files_bytes(files.push(f)) =~= files_bytes(files) + file_bytes(f));
    }
}

/// A whole vault file: the main header, then the stored files.
pub open spec fn vault_bytes(new_path: Seq<char>, algo: Seq<char>, validation: Seq<u8>, files: Seq<StoredFile>) -> Seq<u8> {
    record(109u8, main_header_content(new_path, algo, validation)) + files_bytes(files)
}

/// No character is a newline.
pub open spec fn has_no_newline(s: Seq<char>) -> bool {
    forall|i: int| 0 <= i < s.len() ==> s[i] != '\n'
}

/// A field that a header gives back unchanged: not empty, no newline, and no
/// whitespace at either end.
pub open spec fn is_header_field(s: Seq<char>) -> bool {
    &&& s.len() > 0
    &&& has_no_newline(s)
    &&& !is_unicode_whitespace(s[0])
    &&& !is_unicode_whitespace(s.last())
}

/// A nonempty text of hex digits, such as a file hash, is a header field.
pub proof fn lemma_hex_text_is_field(s: Seq<char>)
    requires
        s.len() > 0,
        crate::file_traversal::is_hex_text(s),
    ensures
        is_header_field(s),
{
    assert(48 <= (s[0] as u32) <= 57 || 97 <= (s[0] as u32) <= 102);
    assert(48 <= (s.last() as u32) <= 57 || 97 <= (s.last() as u32) <= 102);
}

/// The positions of the length fields of the chunk records starting at `base`.
pub open spec fn chunk_positions(base: int, encrypted: Seq<Seq<u8>>) -> Seq<u64>
    decreases encrypted.len(),
{
    if encrypted.len() == 0 {
        seq![]
    } else {
        seq![(base + 1) as u64] + chunk_positions(
            base + record(99u8, encrypted[0]).len(),
            encrypted.drop_first(),
        )
    }
}

// ---------------------------------------------------------------------------
// Records inside a larger byte sequence
// ---------------------------------------------------------------------------

/// Where the fields of a record lie when it stands at position `p` of `data`.
proof fn lemma_record_at(data: Seq<u8>, p: int, tag: u8, content: Seq<u8>)
    requires
        0 <= p,
        p + record(tag, content).len() <= data.len(),
        data.subrange(p, p + record(tag, content).len()) == record(tag, content),
        content.len() <= usize::MAX,
        data.len() <= max_position(),
    ensures
        data[p] == tag,
        content_spec(data, p + 1) == Ok::<(Seq<u8>, int), ParseError>(
            (content, p + record(tag, content).len()),
        ),
        seek_header_end_spec(data, p + 1) == Ok::<int, ParseError>(p + record(tag, content).len()),
        find_any(data, p, record_tags()) == (if record_tags().contains(tag) {
            Some(p)
        } else {
            find_any(data, p + 1, record_tags())
        }),
{
    let r = record(tag, content);
    let prefix = data.take(p);
    let suffix = data.skip(p + r.len());
    assert(data =~= prefix + r + suffix);
    lemma_record_fields(prefix, tag, content, suffix);
    assert(data[p] == r[0]);
}

// ---------------------------------------------------------------------------
// UTF-8 of texts without newlines
// ---------------------------------------------------------------------------

proof fn lemma_encode_scalar_no_newline(c: char)
    requires
        c != '\n',
    ensures
        forall|j: int|
            0 <= j < encode_scalar(c as u32).len() ==> #[trigger] encode_scalar(c as u32)[j] != 10u8,
{
    let s = c as u32;
    char_is_scalar(c);
    if has_width_1_encoding(s) {
        assert(s != 10u32);
        assert(((s & 0x7Fu32) as u8) != 10u8) by (bit_vector)
            requires
                s <= 0x7F,
                s != 10,
        ;
    } else {
        assert((0xC0u8 | (((s >> 6u32) & 0x1Fu32) as u8)) != 10u8) by (bit_vector);
        assert((0xE0u8 | (((s >> 12u32) & 0x0Fu32) as u8)) != 10u8) by (bit_vector);
        assert((0xF0u8 | (((s >> 18u32) & 0x7u32) as u8)) != 10u8) by (bit_vector);
        assert((0x80u8 | ((s & 0x3Fu32) as u8)) != 10u8) by (bit_vector);
        assert((0x80u8 | (((s >> 6u32) & 0x3Fu32) as u8)) != 10u8) by (bit_vector);
        assert((0x80u8 | (((s >> 12u32) & 0x3Fu32) as u8)) != 10u8) by (bit_vector);
    }
}

/// The UTF-8 encoding of a text without newlines has no newline byte.
proof fn lemma_encode_no_newline(cs: Seq<char>)
    requires
        has_no_newline(cs),
    ensures
        forall|j: int| 0 <= j < encode_utf8(cs).len() ==> #[trigger] encode_utf8(cs)[j] != 10u8,
    decreases cs.len(),
{
    if cs.len() > 0 {
        lemma_encode_scalar_no_newline(cs[0]);
        lemma_encode_no_newline(cs.drop_first());
        let a = encode_scalar(cs[0] as u32);
        let b = encode_utf8(cs.drop_first());
        assert forall|j: int| 0 <= j < encode_utf8(cs).len() implies #[trigger] encode_utf8(cs)[j]
            != 10u8 by {
            if j < a.len() {
                assert(encode_utf8(cs)[j] == a[j]);
            } else {
                assert(encode_utf8(cs)[j] == b[j - a.len()]);
            }
        }
    }
}

proof fn lemma_encode_newline()
    ensures
        encode_utf8(seq!['\n']) == seq![10u8],
{
    let s = '\n' as u32;
    assert(s == 10u32);
    assert(((s & 0x7Fu32) as u8) == 10u8) by (bit_vector)
        requires
            s == 10u32,
    ;
    assert(seq!['\n'].drop_first() =~= Seq::<char>::empty());
    assert(seq!['\n'][0] as u32 == 10u32);
    assert(has_width_1_encoding(10u32));
    assert(leading_byte_width_1(10u32) == 10u8);
    assert(encode_scalar(10u32) =~= seq![10u8]);
    assert(encode_utf8(Seq::<char>::empty()) =~= Seq::<u8>::empty());
    assert(encode_utf8(seq!['\n']) =~= seq![10u8]);
}

/// The bytes of two texts with a newline between them.
pub proof fn lemma_encode_two_fields(a: Seq<char>, b: Seq<char>)
    ensures
        encode_utf8(a) + seq![10u8] + encode_utf8(b) == encode_utf8(a + seq!['\n'] + b),
{
    lemma_encode_newline();
    lemma_encode_utf8_concat(a, seq!['\n']);
    lemma_encode_utf8_concat(a + seq!['\n'], b);
}

// ---------------------------------------------------------------------------
// The headers read back
// ---------------------------------------------------------------------------

proof fn lemma_lines_of_field(s: Seq<char>)
    requires
        s.len() > 0,
        has_no_newline(s),
    ensures
        lines_chars(s) == seq![s],
{
    lemma_newline_index(s, s.len() as int);
}

/// A file header's content reads back as its path and hash.
proof fn lemma_file_header_text(path: Seq<char>, hash: Seq<char>)
    requires
        is_header_field(path),
        is_header_field(hash),
    ensures
        vec_to_string_spec(file_header_content(path, hash)) == Some(path + seq!['\n'] + hash),
        lines_chars(path + seq!['\n'] + hash) == seq![path, hash],
{
    let t = path + seq!['\n'] + hash;
    lemma_encode_two_fields(path, hash);
    encode_utf8_valid_utf8(t);
    encode_utf8_decode_utf8(t);
    assert(t[0] == path[0]);
    assert(trim_start_chars(t) == t);
    assert(t.last() == hash.last());
    assert(trim_end_chars(t) == t);
    assert(trim_chars(t) == t);
    lemma_newline_index(t, path.len() as int);
    assert(t.take(path.len() as int) =~= path);
    assert(strip_cr(path) == path) by {
        assert(is_unicode_whitespace('\r'));
    }
    assert(t.skip(path.len() as int + 1) =~= hash);
    lemma_lines_of_field(hash);
    assert(lines_chars(t) =~= seq![path] + seq![hash]);
}

/// The main header's content splits into the new path, the algorithm and
/// the validation block.
proof fn lemma_main_header_split(new_path: Seq<char>, algo: Seq<char>, validation: Seq<u8>)
    requires
        has_no_newline(new_path),
        has_no_newline(algo),
    ensures
        split_into_chunks_spec(main_header_content(new_path, algo, validation), 10u8, 3) == seq![
            encode_utf8(new_path),
            encode_utf8(algo),
            validation,
        ],
{
    let a = encode_utf8(new_path);
    let b = encode_utf8(algo);
    let c = main_header_content(new_path, algo, validation);
    lemma_encode_no_newline(new_path);
    lemma_encode_no_newline(algo);
    lemma_delim_index(c, 10u8, a.len() as int);
    let rest = c.skip(a.len() as int + 1);
    assert(rest =~= b + seq![10u8] + validation);
    lemma_delim_index(rest, 10u8, b.len() as int);
    assert(c.take(a.len() as int) =~= a);
    assert(rest.take(b.len() as int) =~= b);
    assert(rest.skip(b.len() as int + 1) =~= validation);
    lemma_join_split(validation, 10u8);
    let pieces = split_pieces(c, 10u8);
    assert(split_pieces(c, 10u8) == seq![c.take(a.len() as int)] + split_pieces(rest, 10u8));
    assert(split_pieces(rest, 10u8) == seq![rest.take(b.len() as int)] + split_pieces(
        rest.skip(b.len() as int + 1),
        10u8,
    ));
    assert(pieces =~= seq![a, b] + split_pieces(validation, 10u8));
    assert(pieces.take(2) =~= seq![a, b]);
    assert(pieces.skip(2) =~= split_pieces(validation, 10u8));
    assert(split_into_chunks_spec(c, 10u8, 3) =~= seq![a, b, validation]);
}


// ---------------------------------------------------------------------------
// The linker over the records of a vault
// ---------------------------------------------------------------------------

/// `data` holds the bytes `b` at position `p`.
pub open spec fn holds_at(data: Seq<u8>, p: int, b: Seq<u8>) -> bool {
    &&& 0 <= p
    &&& p + b.len() <= data.len()
    &&& data.subrange(p, p + b.len()) == b
}

proof fn lemma_holds_at_split(data: Seq<u8>, p: int, a: Seq<u8>, b: Seq<u8>)
    requires
        holds_at(data, p, a + b),
    ensures
        holds_at(data, p, a),
        holds_at(data, p + a.len(), b),
{
    assert(data.subrange(p, p + a.len()) =~= (a + b).subrange(0, a.len() as int));
    assert((a + b).subrange(0, a.len() as int) =~= a);
    assert(data.subrange(p + a.len(), p + a.len() + b.len()) =~= (a + b).subrange(
        a.len() as int,
        (a + b).len() as int,
    ));
    assert((a + b).subrange(a.len() as int, (a + b).len() as int) =~= b);
}

/// Reading the chunk records of a file adds their positions to the file
/// header being gathered.
proof fn lemma_chunks_linker(data: Seq<u8>, base: int, encrypted: Seq<Seq<u8>>, h: u64, cs: Seq<u64>)
    requires
        holds_at(data, base, chunk_records(encrypted)),
        data.len() <= max_position(),
        data.len() <= usize::MAX,
    ensures
        linker_next_spec(data, base, Some((h, cs))) == linker_next_spec(
            data,
            base + chunk_records(encrypted).len(),
            Some((h, cs + chunk_positions(base, encrypted))),
        ),
    decreases encrypted.len(),
{
    if encrypted.len() == 0 {
        assert(cs + chunk_positions(base, encrypted) =~= cs);
    } else {
        let r = record(99u8, encrypted[0]);
        let rest = chunk_records(encrypted.drop_first());
        lemma_holds_at_split(data, base, r, rest);
        lemma_record_at(data, base, 99u8, encrypted[0]);
        assert(record_tags().contains(99u8)) by {
            assert(record_tags()[2] == 99u8);
        }
        lemma_chunks_linker(data, base + r.len(), encrypted.drop_first(), h, cs.push((base + 1) as u64));
        assert(cs.push((base + 1) as u64) + chunk_positions(base + r.len(), encrypted.drop_first())
            =~= cs + chunk_positions(base, encrypted));
    }
}

/// The chunks of a file decrypt to its pieces.
proof fn lemma_chunks_restore(
    key: Seq<u8>,
    data: Seq<u8>,
    base: int,
    encrypted: Seq<Seq<u8>>,
    pieces: Seq<Seq<u8>>,
)
    requires
        holds_at(data, base, chunk_records(encrypted)),
        encrypts_pieces(key, encrypted, pieces),
        data.len() <= max_position(),
        data.len() <= usize::MAX,
    ensures
        restore_spec(key, data, chunk_positions(base, encrypted)) == (pieces, None::<VaultError>),
    decreases encrypted.len(),
{
    if encrypted.len() == 0 {
        assert(pieces =~= Seq::<Seq<u8>>::empty());
    } else {
        let r = record(99u8, encrypted[0]);
        let rest = chunk_records(encrypted.drop_first());
        lemma_holds_at_split(data, base, r, rest);
        lemma_record_at(data, base, 99u8, encrypted[0]);
        let positions = chunk_positions(base, encrypted);
        assert(positions[0] == (base + 1) as u64);
        assert(chunk_spec(data, positions[0]) == Ok::<Seq<u8>, ParseError>(encrypted[0]));
        assert(opened_chunk(key, encrypted[0]) == Some(pieces[0]));
        assert(encrypts_pieces(key, encrypted.drop_first(), pieces.drop_first())) by {
            assert forall|i: int| 0 <= i < pieces.drop_first().len() implies #[trigger] opened_chunk(
                key,
                encrypted.drop_first()[i],
            ) == Some(pieces.drop_first()[i]) && encrypted.drop_first()[i].len()
                == pieces.drop_first()[i].len() + 28 by {
                assert(opened_chunk(key, encrypted[i + 1]) == Some(pieces[i + 1]));
            }
        }
        lemma_chunks_restore(key, data, base + r.len(), encrypted.drop_first(), pieces.drop_first());
        assert(positions.drop_first() =~= chunk_positions(base + r.len(), encrypted.drop_first()));
        assert(seq![pieces[0]] + pieces.drop_first() =~= pieces);
    }
}


// ---------------------------------------------------------------------------
// Reading back a whole vault
// ---------------------------------------------------------------------------

/// The files restored from stored files whose chunks decrypt to `plains`.
pub open spec fn restored_files(files: Seq<StoredFile>, plains: Seq<Seq<Seq<u8>>>) -> Seq<
    (Seq<char>, Seq<char>, Seq<Seq<u8>>),
> {
    Seq::new(files.len(), |i: int| (files[i].0, files[i].1, plains[i]))
}

/// Stored files that read back: path and hash are header fields, the chunks
/// decrypt under `key` to the pieces in `plains`, and only the last file may
/// have no chunks.
pub open spec fn files_ok(key: Seq<u8>, files: Seq<StoredFile>, plains: Seq<Seq<Seq<u8>>>) -> bool {
    &&& plains.len() == files.len()
    &&& forall|i: int|
        0 <= i < files.len() ==> is_header_field(#[trigger] files[i].0) && is_header_field(files[i].1)
            && encrypts_pieces(key, files[i].2, plains[i])
    &&& forall|i: int| 0 <= i < files.len() - 1 ==> (#[trigger] files[i].2).len() > 0
}

proof fn lemma_files_ok_rest(key: Seq<u8>, files: Seq<StoredFile>, plains: Seq<Seq<Seq<u8>>>)
    requires
        files.len() >= 1,
        files_ok(key, files, plains),
    ensures
        files_ok(key, files.drop_first(), plains.drop_first()),
{
    let fs = files.drop_first();
    assert forall|i: int| 0 <= i < fs.len() implies is_header_field(#[trigger] fs[i].0) && is_header_field(
        fs[i].1,
    ) && encrypts_pieces(key, fs[i].2, plains.drop_first()[i]) by {
        assert(fs[i] == files[i + 1]);
        assert(is_header_field(files[i + 1].0));
    }
    assert forall|i: int| 0 <= i < fs.len() - 1 implies (#[trigger] fs[i].2).len() > 0 by {
        assert(fs[i] == files[i + 1]);
        assert((files[i + 1].2).len() > 0);
    }
}

proof fn lemma_chunk_positions_len(base: int, encrypted: Seq<Seq<u8>>)
    ensures
        chunk_positions(base, encrypted).len() == encrypted.len(),
    decreases encrypted.len(),
{
    if encrypted.len() > 0 {
        lemma_chunk_positions_len(base + record(99u8, encrypted[0]).len(), encrypted.drop_first());
    }
}

/// The linker at the end of the data gives out the file header it gathered.
proof fn lemma_linker_at_end(data: Seq<u8>, cur: Option<(u64, Seq<u64>)>)
    ensures
        linker_next_spec(data, data.len() as int, cur) == (match cur {
            None => Ok::<(Option<HeaderSpec>, int, Option<(u64, Seq<u64>)>), ParseError>(
                (None, data.len() as int, None),
            ),
            Some(f) => Ok((Some(HeaderSpec::File(f.0, f.1)), data.len() as int, None)),
        }),
{
}

/// A file header record read by the linker.
proof fn lemma_linker_header_step(data: Seq<u8>, p: int, content: Seq<u8>, cur: Option<(u64, Seq<u64>)>)
    requires
        holds_at(data, p, record(104u8, content)),
        data.len() <= max_position(),
        data.len() <= usize::MAX,
    ensures
        ({
            let np = p + record(104u8, content).len();
            let fresh = Some(((p + 1) as u64, Seq::<u64>::empty()));
            linker_next_spec(data, p, cur) == match cur {
                None => linker_next_spec(data, np, fresh),
                Some(f) => if f.1.len() == 0 {
                    Err(ParseError::HeaderWithoutChunks)
                } else {
                    Ok((Some(HeaderSpec::File(f.0, f.1)), np, fresh))
                },
            }
        }),
{
    lemma_record_at(data, p, 104u8, content);
    assert(record_tags().contains(104u8)) by {
        assert(record_tags()[1] == 104u8);
    }
}

/// A step of the decryption that yields a file which restores fully.
proof fn lemma_plan_file_step(
    key: Seq<u8>,
    data: Seq<u8>,
    pos: int,
    cur: Option<(u64, Seq<u64>)>,
    h: u64,
    chunks: Seq<u64>,
    np: int,
    ncur: Option<(u64, Seq<u64>)>,
    path: Seq<char>,
    hash: Seq<char>,
    pieces: Seq<Seq<u8>>,
)
    requires
        0 <= pos,
        linker_next_spec(data, pos, cur) == Ok::<
            (Option<HeaderSpec>, int, Option<(u64, Seq<u64>)>),
            ParseError,
        >((Some(HeaderSpec::File(h, chunks)), np, ncur)),
        file_header_spec(data, h) == Ok::<(Seq<char>, Seq<char>), ParseError>((path, hash)),
        restore_spec(key, data, chunks) == (pieces, None::<VaultError>),
    ensures
        decrypt_plan_spec(key, data, pos, cur) == (
            seq![(path, hash, pieces)] + decrypt_plan_spec(key, data, np, ncur).0,
            decrypt_plan_spec(key, data, np, ncur).1,
        ),
{
}

/// Two linker states that lead to the same step decrypt the same way.
proof fn lemma_plan_same_step(
    key: Seq<u8>,
    data: Seq<u8>,
    p1: int,
    c1: Option<(u64, Seq<u64>)>,
    p2: int,
    c2: Option<(u64, Seq<u64>)>,
)
    requires
        0 <= p1,
        0 <= p2,
        linker_next_spec(data, p1, c1) == linker_next_spec(data, p2, c2),
    ensures
        decrypt_plan_spec(key, data, p1, c1) == decrypt_plan_spec(key, data, p2, c2),
{
}

/// From just after a file header, the rest of the vault decrypts to the
/// stored files.
#[verifier::spinoff_prover]
proof fn lemma_plan_from_file(
    key: Seq<u8>,
    data: Seq<u8>,
    base: int,
    files: Seq<StoredFile>,
    plains: Seq<Seq<Seq<u8>>>,
)
    requires
        files.len() >= 1,
        files_ok(key, files, plains),
        holds_at(data, base, files_bytes(files)),
        base + files_bytes(files).len() == data.len(),
        data.len() <= max_position(),
        data.len() <= usize::MAX,
    ensures
        decrypt_plan_spec(
            key,
            data,
            base + record(104u8, file_header_content(files[0].0, files[0].1)).len(),
            Some(((base + 1) as u64, Seq::<u64>::empty())),
        ) == (restored_files(files, plains), None::<VaultError>),
    decreases files.len(),
{
    let f = files[0];
    let hrec = record(104u8, file_header_content(f.0, f.1));
    let crs = chunk_records(f.2);
    let rest = files.drop_first();
    let start = base + hrec.len();
    let after = start + crs.len();
    let pos0 = start;
    let cur0 = Some(((base + 1) as u64, Seq::<u64>::empty()));
    assert(files_bytes(files) =~= hrec + crs + files_bytes(rest));
    lemma_holds_at_split(data, base, hrec + crs, files_bytes(rest));
    lemma_holds_at_split(data, base, hrec, crs);
    lemma_record_at(data, base, 104u8, file_header_content(f.0, f.1));
    assert(is_header_field(f.0) && is_header_field(f.1) && encrypts_pieces(key, f.2, plains[0]));
    lemma_file_header_text(f.0, f.1);
    assert(file_header_spec(data, (base + 1) as u64) == Ok::<(Seq<char>, Seq<char>), ParseError>(
        (f.0, f.1),
    ));
    lemma_chunks_linker(data, start, f.2, (base + 1) as u64, Seq::<u64>::empty());
    let positions = chunk_positions(start, f.2);
    assert(Seq::<u64>::empty() + positions =~= positions);
    lemma_chunks_restore(key, data, start, f.2, plains[0]);
    lemma_chunk_positions_len(start, f.2);
    let this = (f.0, f.1, plains[0]);
    let gathered = Some(((base + 1) as u64, positions));
    assert(linker_next_spec(data, pos0, cur0) == linker_next_spec(data, after, gathered));
    if rest.len() == 0 {
        assert(after == data.len());
        lemma_linker_at_end(data, gathered);
        lemma_linker_at_end(data, None);
        lemma_plan_file_step(
            key,
            data,
            pos0,
            cur0,
            (base + 1) as u64,
            positions,
            data.len() as int,
            None,
            f.0,
            f.1,
            plains[0],
        );
        assert(decrypt_plan_spec(key, data, data.len() as int, None) == (
            Seq::<(Seq<char>, Seq<char>, Seq<Seq<u8>>)>::empty(),
            None::<VaultError>,
        ));
        assert(restored_files(files, plains) =~= seq![this]);
        assert(seq![this] + Seq::<(Seq<char>, Seq<char>, Seq<Seq<u8>>)>::empty() =~= seq![this]);
    } else {
        let g = rest[0];
        let hrec1 = record(104u8, file_header_content(g.0, g.1));
        assert(files_bytes(rest) =~= hrec1 + (chunk_records(g.2) + files_bytes(rest.drop_first())));
        assert(holds_at(data, after, files_bytes(rest))) by {
            lemma_holds_at_split(data, base, file_bytes(f), files_bytes(rest));
        }
        lemma_holds_at_split(data, after, hrec1, chunk_records(g.2) + files_bytes(rest.drop_first()));
        assert(f.2.len() > 0);
        lemma_linker_header_step(data, after, file_header_content(g.0, g.1), gathered);
        let next = Some(((after + 1) as u64, Seq::<u64>::empty()));
        lemma_plan_file_step(
            key,
            data,
            pos0,
            cur0,
            (base + 1) as u64,
            positions,
            after + hrec1.len(),
            next,
            f.0,
            f.1,
            plains[0],
        );
        lemma_files_ok_rest(key, files, plains);
        lemma_plan_from_file(key, data, after, rest, plains.drop_first());
        assert(restored_files(files, plains) =~= seq![this] + restored_files(rest, plains.drop_first()));
    }
}

/// Opening a vault: its first record is the main header, which gives the
/// algorithm and the validation block.
#[verifier::spinoff_prover]
proof fn lemma_open_vault(
    new_path: Seq<char>,
    algo: Seq<char>,
    validation: Seq<u8>,
    files: Seq<StoredFile>,
)
    requires
        has_no_newline(new_path),
        is_header_field(algo),
        vault_bytes(new_path, algo, validation, files).len() <= max_position(),
        vault_bytes(new_path, algo, validation, files).len() <= usize::MAX,
    ensures
        ({
            let data = vault_bytes(new_path, algo, validation, files);
            let after_main = record(109u8, main_header_content(new_path, algo, validation)).len() as int;
            to_folder_spec(data, data, 0, None) == Ok::<
                (Seq<char>, Seq<u8>, int, Option<(u64, Seq<u64>)>),
                ParseError,
            >((algo, validation, after_main, None))
        }),
{
    let data = vault_bytes(new_path, algo, validation, files);
    let mrec = record(109u8, main_header_content(new_path, algo, validation));
    let m = mrec.len() as int;
    assert(holds_at(data, 0, mrec + files_bytes(files))) by {
        assert(data.subrange(0, data.len() as int) =~= data);
    }
    lemma_holds_at_split(data, 0, mrec, files_bytes(files));
    lemma_record_at(data, 0, 109u8, main_header_content(new_path, algo, validation));
    assert(record_tags().contains(109u8)) by {
        assert(record_tags()[0] == 109u8);
    }
    assert(linker_next_spec(data, 0, None) == Ok::<
        (Option<HeaderSpec>, int, Option<(u64, Seq<u64>)>),
        ParseError,
    >((Some(HeaderSpec::Main(1)), m, None)));
    lemma_main_header_split(new_path, algo, validation);
    assert(main_header_spec(data, 1) == Ok::<Seq<Seq<u8>>, ParseError>(
        seq![encode_utf8(new_path), encode_utf8(algo), validation],
    ));
    encode_utf8_valid_utf8(algo);
    encode_utf8_decode_utf8(algo);
    assert(trim_start_chars(algo) == algo);
    assert(trim_end_chars(algo) == algo);
    assert(vec_to_string_spec(encode_utf8(algo)) == Some(algo));
}

/// After the main header, a vault decrypts to its stored files.
#[verifier::spinoff_prover]
proof fn lemma_plan_after_main(
    key: Seq<u8>,
    new_path: Seq<char>,
    algo: Seq<char>,
    validation: Seq<u8>,
    files: Seq<StoredFile>,
    plains: Seq<Seq<Seq<u8>>>,
)
    requires
        files_ok(key, files, plains),
        vault_bytes(new_path, algo, validation, files).len() <= max_position(),
        vault_bytes(new_path, algo, validation, files).len() <= usize::MAX,
    ensures
        ({
            let data = vault_bytes(new_path, algo, validation, files);
            let after_main = record(109u8, main_header_content(new_path, algo, validation)).len() as int;
            decrypt_plan_spec(key, data, after_main, None) == (
                restored_files(files, plains),
                None::<VaultError>,
            )
        }),
{
    let data = vault_bytes(new_path, algo, validation, files);
    let mrec = record(109u8, main_header_content(new_path, algo, validation));
    let m = mrec.len() as int;
    assert(holds_at(data, 0, mrec + files_bytes(files))) by {
        assert(data.subrange(0, data.len() as int) =~= data);
    }
    lemma_holds_at_split(data, 0, mrec, files_bytes(files));
    if files.len() == 0 {
        assert(data =~= mrec);
        lemma_linker_at_end(data, None);
        assert(restored_files(files, plains) =~= Seq::<(Seq<char>, Seq<char>, Seq<Seq<u8>>)>::empty());
    } else {
        let f = files[0];
        let hrec = record(104u8, file_header_content(f.0, f.1));
        assert(files_bytes(files) =~= hrec + (chunk_records(f.2) + files_bytes(files.drop_first())));
        lemma_holds_at_split(data, m, hrec, chunk_records(f.2) + files_bytes(files.drop_first()));
        lemma_linker_header_step(data, m, file_header_content(f.0, f.1), None);
        lemma_plan_same_step(key, data, m, None, m + hrec.len(), Some(((m + 1) as u64, Seq::<u64>::empty())));
        lemma_plan_from_file(key, data, m, files, plains);
    }
}

/// Reading a vault back gives what was written into it: opening it gives
/// the algorithm and the validation block, and decrypting it with the key
/// gives every stored file's path, hash and pieces, in order, with no
/// failure. It holds when the vault's path and the algorithm have no
/// newline, the algorithm, paths and hashes have no whitespace at either
/// end, every file but the last has at least one chunk, and the vault fits
/// in a file.
pub proof fn law_vault_roundtrip(
    key: Seq<u8>,
    new_path: Seq<char>,
    algo: Seq<char>,
    validation: Seq<u8>,
    files: Seq<StoredFile>,
    plains: Seq<Seq<Seq<u8>>>,
)
    requires
        has_no_newline(new_path),
        is_header_field(algo),
        files_ok(key, files, plains),
        vault_bytes(new_path, algo, validation, files).len() <= max_position(),
        vault_bytes(new_path, algo, validation, files).len() <= usize::MAX,
    ensures
        ({
            let data = vault_bytes(new_path, algo, validation, files);
            let after_main = record(109u8, main_header_content(new_path, algo, validation)).len() as int;
            &&& to_folder_spec(data, data, 0, None) == Ok::<
                (Seq<char>, Seq<u8>, int, Option<(u64, Seq<u64>)>),
                ParseError,
            >((algo, validation, after_main, None))
            &&& decrypt_plan_spec(key, data, after_main, None) == (
                restored_files(files, plains),
                None::<VaultError>,
            )
        }),
{
    lemma_open_vault(new_path, algo, validation, files);
    lemma_plan_after_main(key, new_path, algo, validation, files, plains);
}


/// Encrypting files into a vault and reading it back with the same password
/// gives every file back: opening the vault gives the algorithm and the
/// validation block, the password opens it, and decrypting it gives each
/// file's path, the hash of its contents and the pieces it was read in, in
/// order and with no failure; joined, the pieces are the file's contents.
/// It holds when the pieces have at least one byte, the vault's path has no
/// newline, the algorithm and the paths are header fields, every file but
/// the last has contents, and the vault fits in a file.
pub proof fn law_encrypt_decrypt_roundtrip(
    password: Seq<char>,
    new_path: Seq<char>,
    algo: Seq<char>,
    validation: Seq<u8>,
    size: nat,
    files: Seq<(Seq<char>, Seq<u8>)>,
    stored: Seq<StoredFile>,
)
    requires
        password_key(password, 32) matches Some(k) && key_opens(k, validation) && sealed_files(
            k,
            files,
            size,
            stored,
        ),
        size > 0,
        has_no_newline(new_path),
        is_header_field(algo),
        forall|i: int| 0 <= i < files.len() ==> is_header_field(#[trigger] files[i].0),
        forall|i: int| 0 <= i < files.len() - 1 ==> (#[trigger] files[i].1).len() > 0,
        vault_bytes(new_path, algo, validation, stored).len() <= max_position(),
        vault_bytes(new_path, algo, validation, stored).len() <= usize::MAX,
    ensures
        ({
            let data = vault_bytes(new_path, algo, validation, stored);
            let after_main = record(109u8, main_header_content(new_path, algo, validation)).len() as int;
            let k = password_key(password, 32)->0;
            &&& to_folder_spec(data, data, 0, None) == Ok::<
                (Seq<char>, Seq<u8>, int, Option<(u64, Seq<u64>)>),
                ParseError,
            >((algo, validation, after_main, None))
            &&& password_opens(password, validation)
            &&& decrypt_plan_spec(k, data, after_main, None) == (
                Seq::new(
                    files.len(),
                    |i: int| (files[i].0, hex_lower(sha256(files[i].1)), chunk_pieces(files[i].1, size)),
                ),
                None::<VaultError>,
            )
            &&& forall|i: int|
                0 <= i < files.len() ==> concat_pieces(chunk_pieces(#[trigger] files[i].1, size))
                    == files[i].1
        }),
{
    let k = password_key(password, 32)->0;
    let plains = Seq::new(files.len(), |i: int| chunk_pieces(files[i].1, size));
    assert forall|i: int| 0 <= i < stored.len() implies is_header_field(#[trigger] stored[i].0)
        && is_header_field(stored[i].1) && encrypts_pieces(k, stored[i].2, plains[i]) by {
        assert(is_header_field(files[i].0));
        lemma_hex_text_is_field(stored[i].1);
    }
    assert forall|i: int| 0 <= i < stored.len() - 1 implies (#[trigger] stored[i].2).len() > 0 by {
        assert(files[i].1.len() > 0);
        assert(chunk_pieces(files[i].1, size).len() > 0);
    }
    law_vault_roundtrip(k, new_path, algo, validation, stored, plains);
    assert(restored_files(stored, plains) =~= Seq::new(
        files.len(),
        |i: int| (files[i].0, hex_lower(sha256(files[i].1)), chunk_pieces(files[i].1, size)),
    ));
    assert forall|i: int| 0 <= i < files.len() implies concat_pieces(
        chunk_pieces(#[trigger] files[i].1, size),
    ) == files[i].1 by {
        lemma_chunk_pieces_join(files[i].1, size);
    }
}

} // verus!
