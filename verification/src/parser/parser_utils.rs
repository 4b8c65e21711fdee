//! The record layer of the vault format.
//!
//! A vault file is a sequence of records `<tag> <length> <content>`: one tag
//! byte, a space, the content's length in decimal, a space, and the content.
//! The data is read at positions counted in bytes from the start; a position
//! past the end reads nothing, as a file read after a seek past its end does.
use vstd::prelude::*;
use vstd::utf8::*;
use crate::text::{
    decimal_digits, lemma_decimal_digits_shape, lemma_decimal_field_roundtrip, parse_usize,
    string_from_utf8, trim, usize_to_decimal, vec_to_string_spec, vec_to_usize_spec,
};

verus! {

broadcast use vstd::utf8::group_utf8_lib;

/// Errors raised while reading a vault file.
#[derive(Debug, Clone, Copy, PartialEq, Eq, Structural)]
pub enum ParseError {
    /// Bytes that should be text are not valid UTF-8.
    InvalidUtf8,
    /// A length field is not a decimal number.
    InvalidLength,
    /// The data ends before the expected bytes.
    UnexpectedEof,
    /// A length points past the largest position a file can have.
    SeekOutOfRange,
    /// The first record of the vault is not a main header.
    MissingMainHeader,
    /// A main header appears where a file header is expected.
    UnexpectedMainHeader,
    /// A chunk record appears before any file header.
    ChunkWithoutHeader,
    /// A file header is followed directly by another file header.
    HeaderWithoutChunks,
    /// A header has fewer fields than its kind needs.
    MissingFields,
}

/// The largest position that a seek can reach.
pub open spec fn max_position() -> int {
    0x7fff_ffff_ffff_ffff
}

// ---------------------------------------------------------------------------
// Bytes and text
// ---------------------------------------------------------------------------

/// Decodes the bytes as UTF-8 and trims surrounding whitespace.
pub fn vec_to_string(vector: Vec<u8>) -> (res: Result<String, ParseError>)
    ensures
        res matches Ok(s) ==> vec_to_string_spec(vector@) == Some(s@),
        res is Err <==> vec_to_string_spec(vector@) is None,
        res matches Err(e) ==> e == ParseError::InvalidUtf8,
{
    match string_from_utf8(vector) {
        Some(s) => Ok(trim(s.as_str())),
        None => Err(ParseError::InvalidUtf8),
    }
}

/// Reads a decimal `usize` from the bytes, surrounding whitespace allowed.
pub fn vec_to_usize(vector: Vec<u8>) -> (res: Result<usize, ParseError>)
    ensures
        res matches Ok(n) ==> vec_to_usize_spec(vector@) == Some(n),
        res is Err <==> vec_to_usize_spec(vector@) is None,
{
    let s = vec_to_string(vector)?;
    match parse_usize(s.as_str()) {
        Some(n) => Ok(n),
        None => Err(ParseError::InvalidLength),
    }
}

/// Appends `src` to `out`.
pub fn append_bytes(out: &mut Vec<u8>, src: &[u8])
    ensures
        final(out)@ == old(out)@ + src@,
{
    let mut i: usize = 0;
    while i < src.len()
        invariant
            i <= src@.len(),
            out@ == old(out)@ + src@.subrange(0, i as int),
        decreases src@.len() - i,
    {
        out.push(src[i]);
        i = i + 1;
        assert(out@ =~= old(out)@ + src@.subrange(0, i as int));
    }
    assert(src@.subrange(0, src@.len() as int) =~= src@);
}

// ---------------------------------------------------------------------------
// Reading at a position
// ---------------------------------------------------------------------------

/// The position after reading up to and including the first `delim` at or
/// after `pos`; the end of the data when there is none.
pub open spec fn read_until_end(data: Seq<u8>, pos: int, delim: u8) -> int
    decreases data.len() - pos,
{
    if pos < 0 || pos >= data.len() {
        pos
    } else if data[pos] == delim {
        pos + 1
    } else {
        read_until_end(data, pos + 1, delim)
    }
}

/// The bytes read from `from` up to `to`.
pub open spec fn read_bytes(data: Seq<u8>, from: int, to: int) -> Seq<u8> {
    if 0 <= from < data.len() {
        data.subrange(from, to)
    } else {
        seq![]
    }
}

/// The first position at or after `pos` whose byte is one of `delims`.
pub open spec fn find_any(data: Seq<u8>, pos: int, delims: Seq<u8>) -> Option<int>
    decreases data.len() - pos,
{
    if pos < 0 || pos >= data.len() {
        None
    } else if delims.contains(data[pos]) {
        Some(pos)
    } else {
        find_any(data, pos + 1, delims)
    }
}

/// The length field that starts at `pos`: everything up to the first space is
/// skipped, then the text up to the next space is the length. Gives the
/// length and the position after the field.
pub open spec fn length_field_spec(data: Seq<u8>, pos: int) -> Option<(usize, int)> {
    let q1 = read_until_end(data, pos, 32u8);
    let q2 = read_until_end(data, q1, 32u8);
    match vec_to_usize_spec(read_bytes(data, q1, q2)) {
        Some(n) => Some((n, q2)),
        None => None,
    }
}

/// The content of the record whose length field starts at `pos`, and the
/// position after it.
pub open spec fn content_spec(data: Seq<u8>, pos: int) -> Result<(Seq<u8>, int), ParseError> {
    match length_field_spec(data, pos) {
        Some((n, q)) => if n == 0 {
            Ok((seq![], q))
        } else if q + n <= data.len() {
            Ok((data.subrange(q, q + n), q + n))
        } else {
            Err(ParseError::UnexpectedEof)
        },
        None => Err(ParseError::InvalidLength),
    }
}

pub proof fn lemma_read_until_end_bounds(data: Seq<u8>, pos: int, delim: u8)
    requires
        0 <= pos,
    ensures
        read_until_end(data, pos, delim) >= pos,
        pos <= data.len() ==> read_until_end(data, pos, delim) <= data.len(),
        pos < data.len() ==> read_until_end(data, pos, delim) > pos,
        pos >= data.len() ==> read_until_end(data, pos, delim) == pos,
    decreases data.len() - pos,
{
    if pos < data.len() && data[pos] != delim {
        lemma_read_until_end_bounds(data, pos + 1, delim);
    }
}

/// Reading up to a delimiter across a stretch without it stops just past it.
pub proof fn lemma_read_until_run(data: Seq<u8>, a: int, b: int, delim: u8)
    requires
        0 <= a <= b < data.len(),
        forall|k: int| a <= k < b ==> data[k] != delim,
        data[b] == delim,
    ensures
        read_until_end(data, a, delim) == b + 1,
    decreases b - a,
{
    if a < b {
        lemma_read_until_run(data, a + 1, b, delim);
    }
}

/// The position just past the first `delim` at or after `pos`, or the end.
pub(crate) fn read_until(data: &[u8], pos: u64, delim: u8) -> (res: u64)
    ensures
        res == read_until_end(data@, pos as int, delim),
{
    if pos >= data.len() as u64 {
        return pos;
    }
    let mut p: usize = pos as usize;
    while p < data.len() && data[p] != delim
        invariant
            pos <= p <= data@.len(),
            read_until_end(data@, pos as int, delim) == read_until_end(data@, p as int, delim),
        decreases data@.len() - p,
    {
        p = p + 1;
    }
    if p < data.len() {
        (p + 1) as u64
    } else {
        p as u64
    }
}

/// Scans from `pos` for the first byte that is one of `delimiters`; gives that
/// byte and the position after it.
pub fn read_until_any(data: &[u8], pos: u64, delimiters: &[u8]) -> (res: Result<(u8, u64), ParseError>)
    ensures
        match find_any(data@, pos as int, delimiters@) {
            Some(i) => res == Ok::<(u8, u64), ParseError>((data@[i], (i + 1) as u64)),
            None => res == Err::<(u8, u64), ParseError>(ParseError::UnexpectedEof),
        },
{
    if pos >= data.len() as u64 {
        return Err(ParseError::UnexpectedEof);
    }
    let mut p: usize = pos as usize;
    while p < data.len()
        invariant
            pos <= p <= data@.len(),
            find_any(data@, pos as int, delimiters@) == find_any(data@, p as int, delimiters@),
        decreases data@.len() - p,
    {
        let b = data[p];
        let mut j: usize = 0;
        let mut found = false;
        while j < delimiters.len()
            invariant
                j <= delimiters@.len(),
                found <==> exists|k: int| 0 <= k < j && delimiters@[k] == b,
            decreases delimiters@.len() - j,
        {
            if delimiters[j] == b {
                found = true;
            }
            j = j + 1;
        }
        if found {
            assert(delimiters@.contains(data@[p as int]));
            return Ok((b, (p + 1) as u64));
        }
        assert(!delimiters@.contains(data@[p as int]));
        p = p + 1;
    }
    Err(ParseError::UnexpectedEof)
}

/// Reads the length field at `pos`: skips up to the first space, then reads
/// the decimal length that ends at the next space. Gives the length and the
/// position after the field.
pub fn parse_length(data: &[u8], pos: u64) -> (res: Result<(usize, u64), ParseError>)
    ensures
        match length_field_spec(data@, pos as int) {
            Some((n, q)) => res == Ok::<(usize, u64), ParseError>((n, q as u64)),
            None => res == Err::<(usize, u64), ParseError>(ParseError::InvalidLength),
        },
{
    let q1 = read_until(data, pos, 32u8);
    let q2 = read_until(data, q1, 32u8);
    proof {
        lemma_read_until_end_bounds(data@, pos as int, 32u8);
        lemma_read_until_end_bounds(data@, q1 as int, 32u8);
    }
    let field: Vec<u8> = if q1 < data.len() as u64 {
        vstd::slice::slice_to_vec(&data[q1 as usize..q2 as usize])
    } else {
        Vec::new()
    };
    assert(field@ == read_bytes(data@, q1 as int, q2 as int));
    match vec_to_usize(field) {
        Ok(n) => Ok((n, q2)),
        Err(_) => Err(ParseError::InvalidLength),
    }
}

/// Reads the record content whose length field starts at `pos`; gives the
/// content and the position after it.
pub fn parse_content(data: &[u8], pos: u64) -> (res: Result<(Vec<u8>, u64), ParseError>)
    ensures
        match content_spec(data@, pos as int) {
            Ok((c, q)) => res matches Ok((v, p)) && v@ == c && p == q,
            Err(e) => res == Err::<(Vec<u8>, u64), ParseError>(e),
        },
{
    let (n, q) = parse_length(data, pos)?;
    proof {
        lemma_read_until_end_bounds(data@, pos as int, 32u8);
        lemma_read_until_end_bounds(data@, read_until_end(data@, pos as int, 32u8), 32u8);
    }
    let ghost lf = length_field_spec(data@, pos as int);
    assert(lf is Some);
    let ghost (ln, lq) = lf.unwrap();
    assert(ln == n);
    let ghost q1 = read_until_end(data@, pos as int, 32u8);
    assert(lq == read_until_end(data@, q1, 32u8));
    let dl = data.len();
    assert(data@.len() == dl);
    assert(0 <= lq <= u64::MAX);
    assert(lq == q as int);
    if n == 0 {
        let empty: Vec<u8> = Vec::new();
        assert(empty@ =~= seq![]);
        assert(content_spec(data@, pos as int) == Ok::<(Seq<u8>, int), ParseError>((Seq::<u8>::empty(), q as int)));
        return Ok((empty, q));
    }
    if q <= data.len() as u64 && (n as u64) <= (data.len() as u64) - q {
        let v = vstd::slice::slice_to_vec(&data[q as usize..q as usize + n]);
        Ok((v, q + n as u64))
    } else {
        Err(ParseError::UnexpectedEof)
    }
}

// ---------------------------------------------------------------------------
// Records
// ---------------------------------------------------------------------------

/// The record `<tag> <length> <content>`.
pub open spec fn record(tag: u8, content: Seq<u8>) -> Seq<u8> {
    seq![tag, 32u8] + decimal_digits(content.len()) + seq![32u8] + content
}

/// Encodes a record `<tag> <length> <content>`.
pub fn encode_record(tag: u8, content: &[u8]) -> (res: Vec<u8>)
    ensures
        res@ == record(tag, content@),
{
    let mut out: Vec<u8> = Vec::new();
    out.push(tag);
    out.push(32u8);
    let digits = usize_to_decimal(content.len());
    append_bytes(&mut out, digits.as_slice());
    out.push(32u8);
    append_bytes(&mut out, content);
    assert(out@ =~= record(tag, content@));
    out
}

/// Where the fields of a record lie when it stands at position `p`.
pub proof fn lemma_record_fields(prefix: Seq<u8>, tag: u8, content: Seq<u8>, suffix: Seq<u8>)
    requires
        content.len() <= usize::MAX,
    ensures
        ({
            let data = prefix + record(tag, content) + suffix;
            let p = prefix.len() as int;
            let q = p + 3 + decimal_digits(content.len()).len();
            &&& data[p] == tag
            &&& data.subrange(p, p + record(tag, content).len()) == record(tag, content)
            &&& length_field_spec(data, p + 1) == Some((content.len() as usize, q))
            &&& content_spec(data, p + 1) == Ok::<(Seq<u8>, int), ParseError>((content, q + content.len()))
            &&& q + content.len() == p + record(tag, content).len()
        }),
{
    let data = prefix + record(tag, content) + suffix;
    let p = prefix.len() as int;
    let d = decimal_digits(content.len());
    let q = p + 3 + d.len();
    lemma_decimal_digits_shape(content.len());
    assert(data.subrange(p, p + record(tag, content).len()) =~= record(tag, content));
    assert(data[p + 1] == 32u8);
    lemma_read_until_run(data, p + 1, p + 1, 32u8);
    assert forall|k: int| p + 2 <= k < q - 1 implies data[k] != 32u8 by {
        assert(data[k] == d[k - p - 2]);
        assert(48 <= d[k - p - 2] <= 57);
    }
    assert(data[q - 1] == 32u8);
    lemma_read_until_run(data, p + 2, q - 1, 32u8);
    assert(read_bytes(data, p + 2, q) =~= d.push(32u8));
    lemma_decimal_field_roundtrip(content.len() as usize);
    assert(data.subrange(q, q + content.len()) =~= content);
    if content.len() == 0 {
        assert(content =~= seq![]);
    }
}

// ---------------------------------------------------------------------------
// Splitting at a delimiter
// ---------------------------------------------------------------------------

/// Index of the first `delim`, or the length when there is none.
pub open spec fn delim_index(data: Seq<u8>, delim: u8) -> nat
    decreases data.len(),
{
    if data.len() == 0 {
        0
    } else if data[0] == delim {
        0
    } else {
        1 + delim_index(data.drop_first(), delim)
    }
}

/// The pieces between the delimiters, as `<[u8]>::split` yields them.
pub open spec fn split_pieces(data: Seq<u8>, delim: u8) -> Seq<Seq<u8>>
    decreases data.len(),
{
    let i = delim_index(data, delim) as int;
    if i >= data.len() {
        seq![data]
    } else {
        seq![data.take(i)] + split_pieces(data.skip(i + 1), delim)
    }
}

/// The pieces joined back with the delimiter between them.
pub open spec fn join_pieces(pieces: Seq<Seq<u8>>, delim: u8) -> Seq<u8>
    decreases pieces.len(),
{
    if pieces.len() == 0 {
        seq![]
    } else if pieces.len() == 1 {
        pieces[0]
    } else {
        pieces[0] + seq![delim] + join_pieces(pieces.drop_first(), delim)
    }
}

/// What `split_into_chunks` gives: the first `num_chunks - 1` pieces, then the
/// rest joined back together (empty when no piece is left).
pub open spec fn split_into_chunks_spec(data: Seq<u8>, delimiter: u8, num_chunks: nat) -> Seq<Seq<u8>> {
    let pieces = split_pieces(data, delimiter);
    let k = if pieces.len() < num_chunks - 1 {
        pieces.len() as int
    } else {
        num_chunks - 1
    };
    pieces.take(k).push(join_pieces(pieces.skip(k), delimiter))
}

pub proof fn lemma_delim_index(data: Seq<u8>, delim: u8, k: int)
    requires
        0 <= k <= data.len(),
        forall|j: int| 0 <= j < k ==> data[j] != delim,
        k == data.len() || data[k] == delim,
    ensures
        delim_index(data, delim) == k,
    decreases k,
{
    if k > 0 {
        lemma_delim_index(data.drop_first(), delim, k - 1);
    }
}

pub proof fn lemma_delim_index_bound(data: Seq<u8>, delim: u8)
    ensures
        delim_index(data, delim) <= data.len(),
        delim_index(data, delim) < data.len() ==> data[delim_index(data, delim) as int] == delim,
        forall|j: int| 0 <= j < delim_index(data, delim) ==> data[j] != delim,
    decreases data.len(),
{
    if data.len() > 0 && data[0] != delim {
        lemma_delim_index_bound(data.drop_first(), delim);
        assert forall|j: int| 0 <= j < delim_index(data, delim) implies data[j] != delim by {
            if j > 0 {
                assert(data[j] == data.drop_first()[j - 1]);
            }
        }
    }
}

/// Joining the pieces of a split gives the data back.
pub proof fn lemma_join_split(data: Seq<u8>, delim: u8)
    ensures
        join_pieces(split_pieces(data, delim), delim) == data,
        split_pieces(data, delim).len() >= 1,
    decreases data.len(),
{
    let i = delim_index(data, delim) as int;
    lemma_delim_index_bound(data, delim);
    if i < data.len() {
        lemma_join_split(data.skip(i + 1), delim);
        let rest = split_pieces(data.skip(i + 1), delim);
        let ps = split_pieces(data, delim);
        assert(ps.drop_first() =~= rest);
        assert(data =~= data.take(i) + seq![delim] + data.skip(i + 1));
    }
}

/// Splits `data` at `delimiter` into `num_chunks` parts: the first
/// `num_chunks - 1` pieces, then everything after them (delimiters kept).
pub fn split_into_chunks(data: Vec<u8>, delimiter: u8, num_chunks: usize) -> (res: Vec<Vec<u8>>)
    requires
        num_chunks >= 1,
    ensures
        res@.len() == split_into_chunks_spec(data@, delimiter, num_chunks as nat).len(),
        forall|i: int|
            0 <= i < res@.len() ==> #[trigger] res@[i]@ == split_into_chunks_spec(
                data@,
                delimiter,
                num_chunks as nat,
            )[i],
{
    let ghost all = split_pieces(data@, delimiter);
    let ghost done: Seq<Seq<u8>> = seq![];
    let n = data.len();
    let mut chunks: Vec<Vec<u8>> = Vec::new();
    let mut start: usize = 0;
    let mut i: usize = 0;
    let mut count: usize = 0;
    assert(data@.skip(0) =~= data@);
    while i < n && count < num_chunks - 1
        invariant
            start <= i <= n == data@.len(),
            count <= num_chunks - 1,
            all == split_pieces(data@, delimiter),
            chunks@.len() == done.len() == count,
            forall|k: int| 0 <= k < chunks@.len() ==> #[trigger] chunks@[k]@ == done[k],
            all == done + split_pieces(data@.skip(start as int), delimiter),
            forall|j: int| start <= j < i ==> data@[j] != delimiter,
        decreases n - i,
    {
        if data[i] == delimiter {
            let ghost rest = data@.skip(start as int);
            proof {
                lemma_delim_index(rest, delimiter, (i - start) as int);
                assert(rest.take(i - start) =~= data@.subrange(start as int, i as int));
                assert(rest.skip(i - start + 1) =~= data@.skip(i + 1));
                done = done.push(rest.take(i - start));
                assert(all =~= done + split_pieces(data@.skip(i + 1), delimiter));
            }
            let piece = vstd::slice::slice_to_vec(&data.as_slice()[start..i]);
            chunks.push(piece);
            count = count + 1;
            start = i + 1;
        }
        i = i + 1;
    }
    let ghost rest = data@.skip(start as int);
    proof {
        lemma_join_split(rest, delimiter);
    }
    if count < num_chunks - 1 {
        // every delimiter was used: the rest is the last piece
        proof {
            lemma_delim_index(rest, delimiter, (n - start) as int);
            assert(split_pieces(rest, delimiter) == seq![rest]);
        }
        let piece = vstd::slice::slice_to_vec(&data.as_slice()[start..n]);
        assert(piece@ =~= rest);
        chunks.push(piece);
        chunks.push(Vec::new());
        proof {
            assert(all =~= done.push(rest));
            assert(all.take(all.len() as int) =~= all);
            assert(all.skip(all.len() as int) =~= Seq::<Seq<u8>>::empty());
        }
    } else {
        let piece = vstd::slice::slice_to_vec(&data.as_slice()[start..n]);
        assert(piece@ =~= rest);
        chunks.push(piece);
        proof {
            assert(all.take(count as int) =~= done);
            assert(all.skip(count as int) =~= split_pieces(rest, delimiter));
        }
    }
    chunks
}

} // verus!
