//! The simple vault layout. Its main header holds the vault's path, the
//! algorithm and the chunk size, with no validation block, so a password is
//! not checked before files are restored; the writer of folders tags the
//! header `m`, the stand-alone writer does not. File headers and chunks are
//! records as in the checked layout, and a folder's file is hashed as the
//! length of its path.
use vstd::prelude::*;

use crate::crypto_files::{
    decrypt_plan_spec, encode_file_records, file_records_outcome, is_aes256, restore_all_files,
    restored_files_view, DecryptionPlan, EncodedFile, VaultError,
};
use crate::encryption_utils::{password_key, password_to_key32};
use crate::parser::parser_utils::{
    append_bytes, encode_record, find_any, lemma_read_until_run, max_position, read_bytes,
    read_until, read_until_any, read_until_end, record, vec_to_string, vec_to_usize, ParseError,
};
use crate::parser::VaultwyrFileLinker;
use crate::paths::{is_plain_path, path_extension, path_extension_of, path_with_extension, set_extension};
use crate::text::{
    all_ascii, ascii_chars, chars_of, decimal_digits, is_unicode_whitespace, lemma_ascii_decode,
    lemma_decimal_digits_shape, lemma_decimal_digits_value, lemma_decimal_field_roundtrip,
    parse_usize, parse_usize_chars, push_char, str_equals, string_from_chars, trim_chars,
    trim_end_chars, trim_start_chars, usize_to_decimal, vec_to_string_spec, vec_to_usize_spec,
};
use crate::vault_roundtrip::lemma_encode_two_fields;

verus! {

/// The kinds of record of the simple layout, with their positions.
pub enum HeaderType {
    MainHeader(u64),
    FileHeader(u64),
    FileChunk(u64),
}

// ---------------------------------------------------------------------------
// Splitting text
// ---------------------------------------------------------------------------

/// Index of the first `d`, or the length when there is none.
pub open spec fn char_index(s: Seq<char>, d: char) -> nat
    decreases s.len(),
{
    if s.len() == 0 {
        0
    } else if s[0] == d {
        0
    } else {
        1 + char_index(s.drop_first(), d)
    }
}

/// The pieces between the `d`s, as `str::split` yields them.
pub open spec fn split_text(s: Seq<char>, d: char) -> Seq<Seq<char>>
    decreases s.len(),
{
    let i = char_index(s, d) as int;
    if i >= s.len() {
        seq![s]
    } else {
        seq![s.take(i)] + split_text(s.skip(i + 1), d)
    }
}

proof fn lemma_char_index(s: Seq<char>, d: char, k: int)
    requires
        0 <= k <= s.len(),
        forall|j: int| 0 <= j < k ==> s[j] != d,
        k == s.len() || s[k] == d,
    ensures
        char_index(s, d) == k,
    decreases k,
{
    if k > 0 {
        assert forall|j: int| 0 <= j < k - 1 implies s.drop_first()[j] != d by {
            assert(s.drop_first()[j] == s[j + 1]);
        }
        lemma_char_index(s.drop_first(), d, k - 1);
    }
}

/// The pieces of `s` between the `d`s.
fn split_text_exec(s: &str, d: char) -> (res: Vec<String>)
    ensures
        res@.len() == split_text(s@, d).len(),
        forall|k: int| 0 <= k < res@.len() ==> #[trigger] res@[k]@ == split_text(s@, d)[k],
{
    let cs = chars_of(s);
    let n = cs.len();
    let ghost all = split_text(s@, d);
    let ghost mut done: Seq<Seq<char>> = seq![];
    let mut parts: Vec<String> = Vec::new();
    let mut start: usize = 0;
    let mut i: usize = 0;
    assert(cs@.skip(0) =~= cs@);
    while i < n
        invariant
            start <= i <= n == cs@.len(),
            cs@ == s@,
            all == split_text(s@, d),
            parts@.len() == done.len(),
            forall|k: int| 0 <= k < parts@.len() ==> #[trigger] parts@[k]@ == done[k],
            all == done + split_text(cs@.skip(start as int), d),
            forall|j: int| start <= j < i ==> cs@[j] != d,
        decreases n - i,
    {
        if cs[i] == d {
            let ghost rest = cs@.skip(start as int);
            proof {
                lemma_char_index(rest, d, (i - start) as int);
                assert(rest.take(i - start) =~= cs@.subrange(start as int, i as int));
                assert(rest.skip(i - start + 1) =~= cs@.skip(i + 1));
                done = done.push(rest.take(i - start));
                assert(all =~= done + split_text(cs@.skip(i + 1), d));
            }
            parts.push(string_from_chars(&cs, start, i));
            start = i + 1;
        }
        i = i + 1;
    }
    let ghost rest = cs@.skip(start as int);
    proof {
        lemma_char_index(rest, d, (n - start) as int);
        assert(rest =~= cs@.subrange(start as int, n as int));
        done = done.push(rest);
        assert(all =~= done);
    }
    parts.push(string_from_chars(&cs, start, n));
    parts
}

// ---------------------------------------------------------------------------
// Reading
// ---------------------------------------------------------------------------

/// What reading a chunk at `pos` gives, and the position after: nothing when
/// the text up to the first space does not start with `c`; otherwise the
/// chunk whose length follows, or the failure to read it.
pub open spec fn simple_chunk_spec(data: Seq<u8>, pos: int) -> (Option<Result<Seq<u8>, ParseError>>, int) {
    let q1 = read_until_end(data, pos, 32u8);
    let tag = read_bytes(data, pos, q1);
    if tag.len() == 0 || tag[0] != 99u8 {
        (None, q1)
    } else {
        let q2 = read_until_end(data, q1, 32u8);
        match vec_to_usize_spec(read_bytes(data, q1, q2)) {
            None => (Some(Err(ParseError::InvalidLength)), q2),
            Some(n) => if q2 + n <= data.len() {
                (Some(Ok(data.subrange(q2, q2 + n))), q2 + n)
            } else {
                (Some(Err(ParseError::UnexpectedEof)), data.len() as int)
            },
        }
    }
}

/// Reads the chunks of a file one after another from a position.
pub struct FileChunkParser {
    pub data: Vec<u8>,
    /// Where reading started.
    pub index: u64,
    /// Where reading stands.
    pub pos: u64,
}

impl FileChunkParser {
    /// Reads `data` from `index` on.
    pub fn new(data: Vec<u8>, index: u64) -> (res: Self)
        ensures
            res.data@ == data@,
            res.index == index,
            res.pos == index,
    {
        FileChunkParser { data, index, pos: index }
    }

    /// The next chunk, if a chunk record stands here.
    pub fn next(&mut self) -> (res: Option<Result<Vec<u8>, ParseError>>)
        ensures
            final(self).data@ == old(self).data@,
            final(self).index == old(self).index,
            final(self).pos == simple_chunk_spec(old(self).data@, old(self).pos as int).1,
            match simple_chunk_spec(old(self).data@, old(self).pos as int).0 {
                None => res is None,
                Some(Err(e)) => res == Some(Err::<Vec<u8>, ParseError>(e)),
                Some(Ok(c)) => res matches Some(Ok(v)) && v@ == c,
            },
    {
        let data = self.data.as_slice();
        let q1 = read_until(data, self.pos, 32u8);
        proof {
            crate::parser::parser_utils::lemma_read_until_end_bounds(data@, self.pos as int, 32u8);
        }
        if self.pos >= data.len() as u64 {
            self.pos = q1;
            return None;
        }
        if data[self.pos as usize] != 99u8 {
            self.pos = q1;
            return None;
        }
        let q2 = read_until(data, q1, 32u8);
        proof {
            crate::parser::parser_utils::lemma_read_until_end_bounds(data@, q1 as int, 32u8);
        }
        let field: Vec<u8> = if q1 < data.len() as u64 {
            vstd::slice::slice_to_vec(&data[q1 as usize..q2 as usize])
        } else {
            Vec::new()
        };
        assert(field@ == read_bytes(data@, q1 as int, q2 as int));
        let n = match vec_to_usize(field) {
            Ok(n) => n,
            Err(_) => {
                self.pos = q2;
                return Some(Err(ParseError::InvalidLength));
            },
        };
        let len = data.len();
        if (n as u64) <= (len as u64) - q2 {
            let chunk = vstd::slice::slice_to_vec(&data[q2 as usize..q2 as usize + n]);
            self.pos = q2 + n as u64;
            Some(Ok(chunk))
        } else {
            self.pos = len as u64;
            Some(Err(ParseError::UnexpectedEof))
        }
    }
}

/// Finds the file headers: each `h` byte, one after another.
pub struct EncryptedFileHeaderIterator {
    pub reader: Vec<u8>,
    pub pos: u64,
}

impl EncryptedFileHeaderIterator {
    /// Searches `reader` from its start.
    pub fn new(reader: Vec<u8>) -> (res: Self)
        ensures
            res.reader@ == reader@,
            res.pos == 0,
    {
        EncryptedFileHeaderIterator { reader, pos: 0 }
    }

    /// The position one past the byte after the next `h`, or nothing when
    /// no `h` is left.
    pub fn next(&mut self) -> (res: Option<u64>)
        requires
            old(self).reader@.len() <= max_position(),
        ensures
            final(self).reader@ == old(self).reader@,
            match find_any(old(self).reader@, old(self).pos as int, seq![104u8]) {
                Some(i) => res == Some((i + 2) as u64) && final(self).pos == i + 1,
                None => res is None && final(self).pos == if old(self).pos < old(self).reader@.len() {
                    old(self).reader@.len() as u64
                } else {
                    old(self).pos
                },
            },
    {
        let delims: [u8; 1] = [104u8];
        assert(delims@ =~= seq![104u8]);
        proof {
            crate::parser::lemma_find_any_range(self.reader@, self.pos as int, seq![104u8]);
        }
        match read_until_any(self.reader.as_slice(), self.pos, &delims) {
            Ok((_, after)) => {
                self.pos = after;
                Some(after + 1)
            },
            Err(_) => {
                if self.pos < self.reader.len() as u64 {
                    self.pos = self.reader.len() as u64;
                }
                None
            },
        }
    }
}

/// What reading the simple layout's untagged main header gives: the vault's
/// path, the algorithm and the chunk size from its three lines, and where
/// the files start.
pub open spec fn simple_header_spec(data: Seq<u8>) -> Result<(Seq<char>, Seq<char>, usize, int), ParseError> {
    let q1 = read_until_end(data, 0, 32u8);
    match vec_to_usize_spec(read_bytes(data, 0, q1)) {
        None => Err(ParseError::InvalidLength),
        Some(n) => if q1 + n > data.len() {
            Err(ParseError::UnexpectedEof)
        } else {
            match vec_to_string_spec(data.subrange(q1, q1 + n)) {
                None => Err(ParseError::InvalidUtf8),
                Some(text) => {
                    let parts = split_text(text, '\n');
                    if parts.len() != 3 {
                        Err(ParseError::MissingFields)
                    } else {
                        match parse_usize_chars(parts[2]) {
                            None => Err(ParseError::InvalidLength),
                            Some(size) => Ok((parts[0], parts[1], size, q1 + n)),
                        }
                    }
                },
            }
        },
    }
}

/// A vault of the simple layout, opened.
pub struct OpenedFolder {
    pub new_path: String,
    pub algo: String,
    pub chunk_size: usize,
    /// The file headers, from just after the main header.
    pub files: EncryptedFileHeaderIterator,
}

/// Reads a vault file of the simple layout.
pub struct EncryptedFileReader {
    pub vaultwyr_path: String,
    pub reader: Vec<u8>,
}

impl EncryptedFileReader {
    /// A reader of the vault file at `vaultwyr_path`, whose contents are
    /// `contents`.
    pub fn new(vaultwyr_path: String, contents: Vec<u8>) -> (res: Self)
        ensures
            res.vaultwyr_path@ == vaultwyr_path@,
            res.reader@ == contents@,
    {
        EncryptedFileReader { vaultwyr_path, reader: contents }
    }

    /// Reads the main header; the file headers are searched after it.
    pub fn into_folder(self) -> (res: Result<OpenedFolder, ParseError>)
        ensures
            match simple_header_spec(self.reader@) {
                Ok((path, algo, size, end)) => res matches Ok(f) && f.new_path@ == path && f.algo@
                    == algo && f.chunk_size == size && f.files.reader@ == self.reader@ && f.files.pos
                    == end,
                Err(e) => res matches Err(e2) && e2 == e,
            },
    {
        let data = self.reader;
        let q1 = read_until(data.as_slice(), 0, 32u8);
        proof {
            crate::parser::parser_utils::lemma_read_until_end_bounds(data@, 0, 32u8);
        }
        let field: Vec<u8> = if 0 < data.len() {
            vstd::slice::slice_to_vec(&data.as_slice()[0..q1 as usize])
        } else {
            Vec::new()
        };
        assert(field@ == read_bytes(data@, 0, q1 as int));
        let n = match vec_to_usize(field) {
            Ok(n) => n,
            Err(_) => {
                return Err(ParseError::InvalidLength);
            },
        };
        if (n as u64) > (data.len() as u64) - q1 {
            return Err(ParseError::UnexpectedEof);
        }
        let content = vstd::slice::slice_to_vec(&data.as_slice()[q1 as usize..q1 as usize + n]);
        let text = vec_to_string(content)?;
        let parts = split_text_exec(text.as_str(), '\n');
        if parts.len() != 3 {
            return Err(ParseError::MissingFields);
        }
        let chunk_size = match parse_usize(parts[2].as_str()) {
            Some(size) => size,
            None => {
                return Err(ParseError::InvalidLength);
            },
        };
        let new_path = parts[0].clone();
        let algo = parts[1].clone();
        assert(new_path@ == parts@[0]@);
        assert(algo@ == parts@[1]@);
        let end = q1 + n as u64;
        Ok(OpenedFolder { new_path, algo, chunk_size, files: EncryptedFileHeaderIterator { reader: data, pos: end } })
    }
}

/// A vault opened with the current reader whose files are restored with no
/// check of the password first.
pub struct VaultWyrFolder {
    pub new_path: String,
    pub algo: String,
    pub chunk_size: usize,
    pub files: VaultwyrFileLinker,
}

impl VaultWyrFolder {
    /// An opened vault.
    pub fn new(new_path: String, algo: String, chunk_size: usize, files: VaultwyrFileLinker) -> (res: Self)
        ensures
            res.new_path@ == new_path@,
            res.algo@ == algo@,
            res.chunk_size == chunk_size,
            res.files == files,
    {
        VaultWyrFolder { new_path, algo, chunk_size, files }
    }

    /// Restores every file with the key made of `password`, in order, up to
    /// the first failure; refused when the password is too long for a key.
    pub fn decrypt_all_files(&mut self, password: &str) -> (plan: DecryptionPlan)
        ensures
            password_key(password@, 32) is None ==> plan.files@.len() == 0 && plan.failure == Some(
                VaultError::PasswordTooLong,
            ),
            password_key(password@, 32) is Some ==> (restored_files_view(plan.files@), plan.failure)
                == decrypt_plan_spec(
                password_key(password@, 32)->0,
                old(self).files.data@,
                old(self).files.pos as int,
                old(self).files.cur_view(),
            ),
    {
        if password_to_key32(password).is_err() {
            return DecryptionPlan { files: Vec::new(), failure: Some(VaultError::PasswordTooLong) };
        }
        restore_all_files(&mut self.files, password)
    }
}

// ---------------------------------------------------------------------------
// Writing
// ---------------------------------------------------------------------------

/// The main header's content: the vault's path, the algorithm and the chunk
/// size in decimal, separated by newlines.
pub open spec fn simple_header_content(new_path: Seq<char>, algo: Seq<char>, chunk_size: nat) -> Seq<u8> {
    vstd::utf8::encode_utf8(new_path) + seq![10u8] + vstd::utf8::encode_utf8(algo) + seq![10u8]
        + decimal_digits(chunk_size)
}

/// The hash written for a folder's file: the length of its path in bytes,
/// in decimal.
pub open spec fn path_length_hash(path: Seq<char>) -> Seq<char> {
    ascii_chars(decimal_digits(vstd::utf8::encode_utf8(path).len()))
}

/// The main header's content for the given fields.
fn header_content(new_path: &str, algo: &str, chunk_size: usize) -> (res: Vec<u8>)
    ensures
        res@ == simple_header_content(new_path@, algo@, chunk_size as nat),
{
    let mut buffer: Vec<u8> = Vec::new();
    append_bytes(&mut buffer, new_path.as_bytes());
    buffer.push(10u8);
    append_bytes(&mut buffer, algo.as_bytes());
    buffer.push(10u8);
    let digits = usize_to_decimal(chunk_size);
    append_bytes(&mut buffer, digits.as_slice());
    assert(buffer@ =~= simple_header_content(new_path@, algo@, chunk_size as nat));
    buffer
}

/// A folder being encrypted into a vault of the simple layout.
pub struct Folder {
    pub new_path: String,
    pub algo: Option<String>,
    pub chunk_size: Option<usize>,
}

impl Folder {
    /// The algorithm: the one set, or `aes256`.
    pub open spec fn algo_spec(&self) -> Seq<char> {
        match self.algo {
            Some(a) => a@,
            None => "aes256"@,
        }
    }

    /// The chunk size: the one set, or 2048.
    pub open spec fn chunk_size_spec(&self) -> nat {
        match self.chunk_size {
            Some(n) => n as nat,
            None => 2048,
        }
    }

    /// Encrypting the folder at `path`: the vault goes next to it with the
    /// extension `fvaultwyr`; algorithm and chunk size are the defaults.
    pub fn new(path: &str) -> (res: Self)
        ensures
            is_plain_path(path@) ==> res.new_path@ == path_with_extension(path@, "fvaultwyr"@),
            res.algo is None,
            res.chunk_size is None,
    {
        proof {
            reveal_strlit("fvaultwyr");
        }
        Folder { new_path: set_extension(path, "fvaultwyr"), algo: None, chunk_size: None }
    }

    fn algo_name(&self) -> (res: String)
        ensures
            res@ == self.algo_spec(),
    {
        match &self.algo {
            Some(a) => a.clone(),
            None => String::from_str("aes256"),
        }
    }

    /// The main header record `m`: path, algorithm and chunk size.
    pub fn encode_header(&self) -> (res: Vec<u8>)
        ensures
            res@ == record(
                109u8,
                simple_header_content(self.new_path@, self.algo_spec(), self.chunk_size_spec()),
            ),
    {
        let algo = self.algo_name();
        let size: usize = match self.chunk_size {
            Some(n) => n,
            None => 2048,
        };
        let content = header_content(self.new_path.as_str(), algo.as_str(), size);
        encode_record(109u8, content.as_slice())
    }

    /// The records of one file: its header (path and the length of its path),
    /// then its pieces encrypted under `key`.
    pub fn encode_file(&self, original_path: &str, contents: &[u8], key: &[u8; 32]) -> (res: EncodedFile)
        ensures
            file_records_outcome(
                original_path@,
                path_length_hash(original_path@),
                contents@,
                self.chunk_size_spec(),
                self.algo_spec() == "aes256"@,
                key@,
                res,
            ),
    {
        let digits = usize_to_decimal(original_path.as_bytes().len());
        let mut hash = String::new();
        let mut i: usize = 0;
        while i < digits.len()
            invariant
                i <= digits@.len(),
                hash@ == ascii_chars(digits@.take(i as int)),
            decreases digits@.len() - i,
        {
            push_char(&mut hash, digits[i] as char);
            assert(ascii_chars(digits@.take(i + 1)) =~= ascii_chars(digits@.take(i as int)).push(
                digits@[i as int] as char,
            ));
            i = i + 1;
        }
        assert(digits@.take(digits@.len() as int) =~= digits@);
        let size: usize = match self.chunk_size {
            Some(n) => n,
            None => 2048,
        };
        let algo = self.algo_name();
        let aes = is_aes256(algo.as_str());
        encode_file_records(original_path, hash.as_str(), contents, size, aes, key)
    }
}

/// The untagged main header: the content's length in decimal, a space, then
/// the content.
pub open spec fn untagged_record(content: Seq<u8>) -> Seq<u8> {
    decimal_digits(content.len()) + seq![32u8] + content
}

/// Writes a vault of the simple layout from an opened folder's fields.
pub struct EncryptedFileWriter {
    pub new_path: String,
    pub algo: String,
    pub chunk_size: usize,
}

impl EncryptedFileWriter {
    /// A writer to `new_path`; refused unless that path's extension is
    /// `fvaultwyr`.
    pub fn new(new_path: String, algo: String, chunk_size: usize) -> (res: Option<Self>)
        ensures
            res matches Some(w) ==> w.new_path@ == new_path@ && w.algo@ == algo@ && w.chunk_size
                == chunk_size,
            is_plain_path(new_path@) ==> (res is Some <==> path_extension_of(new_path@) == Some(
                "fvaultwyr"@,
            )),
    {
        let ok = match path_extension(new_path.as_str()) {
            Some(e) => str_equals(e.as_str(), "fvaultwyr"),
            None => false,
        };
        if !ok {
            return None;
        }
        Some(EncryptedFileWriter { new_path, algo, chunk_size })
    }

    /// The untagged main header: path, algorithm and chunk size.
    pub fn encode_header(&self) -> (res: Vec<u8>)
        ensures
            res@ == untagged_record(
                simple_header_content(self.new_path@, self.algo@, self.chunk_size as nat),
            ),
    {
        let content = header_content(self.new_path.as_str(), self.algo.as_str(), self.chunk_size);
        let mut out = usize_to_decimal(content.len());
        out.push(32u8);
        append_bytes(&mut out, content.as_slice());
        assert(out@ =~= untagged_record(content@));
        out
    }

    /// The records of one file: its header (path and hash), then its pieces
    /// encrypted under `key`.
    pub fn encode_file(&self, original_path: &str, file_hash: &str, contents: &[u8], key: &[u8; 32]) -> (res:
        EncodedFile)
        ensures
            file_records_outcome(
                original_path@,
                file_hash@,
                contents@,
                self.chunk_size as nat,
                self.algo@ == "aes256"@,
                key@,
                res,
            ),
    {
        let aes = is_aes256(self.algo.as_str());
        encode_file_records(original_path, file_hash, contents, self.chunk_size, aes, key)
    }
}


// ---------------------------------------------------------------------------
// What is written reads back
// ---------------------------------------------------------------------------

/// The untagged main header reads back as the vault's path, the algorithm
/// and the chunk size it was written with, and the files start right after
/// it. It holds when neither text has a newline, the path is not empty and
/// does not start with whitespace, and the header's length fits in a
/// `usize`.
pub proof fn law_simple_header_roundtrip(new_path: Seq<char>, algo: Seq<char>, chunk_size: usize, rest: Seq<u8>)
    requires
        forall|i: int| 0 <= i < new_path.len() ==> new_path[i] != '\n',
        forall|i: int| 0 <= i < algo.len() ==> algo[i] != '\n',
        new_path.len() > 0,
        !is_unicode_whitespace(new_path[0]),
        simple_header_content(new_path, algo, chunk_size as nat).len() <= usize::MAX,
    ensures
        simple_header_spec(untagged_record(simple_header_content(new_path, algo, chunk_size as nat)) + rest)
            == Ok::<(Seq<char>, Seq<char>, usize, int), ParseError>(
            (
                new_path,
                algo,
                chunk_size,
                untagged_record(simple_header_content(new_path, algo, chunk_size as nat)).len() as int,
            ),
        ),
{
    let content = simple_header_content(new_path, algo, chunk_size as nat);
    let d = decimal_digits(content.len());
    let data = untagged_record(content) + rest;
    lemma_decimal_digits_shape(content.len());
    assert forall|k: int| 0 <= k < d.len() implies data[k] != 32u8 by {
        assert(data[k] == d[k]);
    }
    assert(data[d.len() as int] == 32u8);
    lemma_read_until_run(data, 0, d.len() as int, 32u8);
    let q1 = d.len() + 1int;
    assert(read_bytes(data, 0, q1) =~= d.push(32u8));
    lemma_decimal_field_roundtrip(content.len() as usize);
    assert(data.subrange(q1, q1 + content.len() as int) =~= content);
    // the content is the UTF-8 of the three lines
    let digits = decimal_digits(chunk_size as nat);
    let dc = ascii_chars(digits);
    lemma_decimal_digits_shape(chunk_size as nat);
    assert(all_ascii(digits)) by {
        assert forall|i: int| 0 <= i < digits.len() implies digits[i] < 128 by {
            assert(48 <= digits[i] <= 57);
        }
    }
    lemma_ascii_decode(digits);
    let first = new_path + seq!['\n'] + algo;
    let t = first + seq!['\n'] + dc;
    lemma_encode_two_fields(new_path, algo);
    lemma_encode_two_fields(first, dc);
    assert(vstd::utf8::encode_utf8(t) =~= content);
    vstd::utf8::encode_utf8_valid_utf8(t);
    vstd::utf8::encode_utf8_decode_utf8(t);
    // trimming leaves it as it is
    assert(t[0] == new_path[0]);
    assert(trim_start_chars(t) == t);
    assert(t.last() == dc.last());
    assert(48 <= digits[digits.len() - 1] <= 57);
    assert(!is_unicode_whitespace(t.last()));
    assert(trim_end_chars(t) == t);
    assert(trim_chars(t) == t);
    // three lines
    assert forall|j: int| 0 <= j < dc.len() implies dc[j] != '\n' by {
        assert(48 <= digits[j] <= 57);
    }
    lemma_char_index(t, '\n', new_path.len() as int);
    let r1 = t.skip(new_path.len() + 1int);
    assert(r1 =~= algo + seq!['\n'] + dc);
    lemma_char_index(r1, '\n', algo.len() as int);
    let r2 = r1.skip(algo.len() + 1int);
    assert(r2 =~= dc);
    lemma_char_index(r2, '\n', r2.len() as int);
    assert(t.take(new_path.len() as int) =~= new_path);
    assert(r1.take(algo.len() as int) =~= algo);
    assert(split_text(r2, '\n') == seq![r2]);
    assert(split_text(r1, '\n') =~= seq![algo] + seq![r2]);
    assert(split_text(t, '\n') =~= seq![new_path, algo, dc]);
    // the chunk size
    lemma_decimal_digits_value(chunk_size as nat);
    assert(dc[0] != '+') by {
        assert(48 <= digits[0] <= 57);
    }
    assert(parse_usize_chars(dc) == Some(chunk_size));
}


/// A chunk record reads back as its content, and reading then stands just
/// after the record.
pub proof fn law_simple_chunk_roundtrip(prefix: Seq<u8>, content: Seq<u8>, suffix: Seq<u8>)
    requires
        content.len() <= usize::MAX,
    ensures
        simple_chunk_spec(prefix + record(99u8, content) + suffix, prefix.len() as int) == (
            Some(Ok::<Seq<u8>, ParseError>(content)),
            (prefix.len() + record(99u8, content).len()) as int,
        ),
{
    let data = prefix + record(99u8, content) + suffix;
    let p = prefix.len() as int;
    crate::parser::parser_utils::lemma_record_fields(prefix, 99u8, content, suffix);
    assert(data[p + 1] == 32u8);
    lemma_read_until_run(data, p, p + 1, 32u8);
    lemma_read_until_run(data, p + 1, p + 1, 32u8);
    assert(read_bytes(data, p, p + 2) =~= seq![99u8, 32u8]);
    let q = p + 3 + decimal_digits(content.len()).len();
    assert(read_until_end(data, p, 32u8) == p + 2);
    assert(read_until_end(data, p + 1, 32u8) == p + 2);
    assert(read_until_end(data, p + 2, 32u8) == q);
    assert(vec_to_usize_spec(read_bytes(data, p + 2, q)) == Some(content.len() as usize));
    assert(q + content.len() <= data.len());
    assert(data.subrange(q, q + content.len()) =~= content);
}

} // verus!
