//! Reading the vault file format back: the records of a vault file, grouped
//! into the main header and one file header per stored file.
use vstd::prelude::*;

pub mod parser_utils;

use crate::crypto_files::{FolderFile, VaultwyrFile};
use crate::text::{lines, lines_chars, vec_to_string_spec};
use parser_utils::{
    content_spec, find_any, length_field_spec, max_position, parse_content, parse_length,
    read_until_any, split_into_chunks, split_into_chunks_spec, vec_to_string, ParseError,
};

verus! {

/// A header as the linker yields it: the main header at a position, or a file
/// header at a position with the positions of its chunks.
pub enum HeaderSpec {
    Main(u64),
    File(u64, Seq<u64>),
}

/// The record tags: `m` (main header), `h` (file header), `c` (chunk).
pub open spec fn record_tags() -> Seq<u8> {
    seq![109u8, 104u8, 99u8]
}

/// The position after a record whose length field starts at `p`: the field is
/// read and its length skipped.
pub open spec fn seek_header_end_spec(data: Seq<u8>, p: int) -> Result<int, ParseError> {
    match length_field_spec(data, p) {
        Some((n, q)) => if q + n <= max_position() {
            Ok(q + n)
        } else {
            Err(ParseError::SeekOutOfRange)
        },
        None => Err(ParseError::InvalidLength),
    }
}

/// How much of the data is left to read from `pos`.
pub open spec fn remaining_len(data: Seq<u8>, pos: int) -> nat {
    if pos < data.len() {
        (data.len() - pos) as nat
    } else {
        0
    }
}

pub proof fn lemma_find_any_range(data: Seq<u8>, pos: int, delims: Seq<u8>)
    requires
        0 <= pos,
    ensures
        find_any(data, pos, delims) matches Some(i) ==> pos <= i < data.len() && delims.contains(
            data[i],
        ),
    decreases data.len() - pos,
{
    if pos < data.len() && !delims.contains(data[pos]) {
        lemma_find_any_range(data, pos + 1, delims);
    }
}

pub proof fn lemma_seek_header_end_after(data: Seq<u8>, p: int)
    requires
        0 <= p,
    ensures
        seek_header_end_spec(data, p) matches Ok(np) ==> p <= np <= max_position(),
{
    let q1 = parser_utils::read_until_end(data, p, 32u8);
    parser_utils::lemma_read_until_end_bounds(data, p, 32u8);
    parser_utils::lemma_read_until_end_bounds(data, q1, 32u8);
}

/// One step of the linker: from position `pos`, with the file header being
/// gathered in `cur`, the next header it yields, the position after, and the
/// file header gathered then. Chunk records add their positions to `cur`;
/// a file header is yielded when the next file header or the end comes.
pub open spec fn linker_next_spec(data: Seq<u8>, pos: int, cur: Option<(u64, Seq<u64>)>) -> Result<
    (Option<HeaderSpec>, int, Option<(u64, Seq<u64>)>),
    ParseError,
>
    decreases remaining_len(data, pos),
{
    if pos < 0 {
        Err(ParseError::UnexpectedEof)
    } else {
        match find_any(data, pos, record_tags()) {
            None => {
                let end = if pos < data.len() {
                    data.len() as int
                } else {
                    pos
                };
                match cur {
                    None => Ok((None, end, None)),
                    Some(f) => Ok((Some(HeaderSpec::File(f.0, f.1)), end, None)),
                }
            },
            Some(i) => {
                let tag = data[i];
                let p = i + 1;
                match seek_header_end_spec(data, p) {
                    Err(e) => Err(e),
                    Ok(np) => {
                        proof {
                            lemma_find_any_range(data, pos, record_tags());
                            lemma_seek_header_end_after(data, p);
                        }
                        if tag == 109u8 {
                            Ok((Some(HeaderSpec::Main(p as u64)), np, cur))
                        } else if tag == 104u8 {
                            let fresh = (p as u64, Seq::<u64>::empty());
                            match cur {
                                Some(f) => if f.1.len() == 0 {
                                    Err(ParseError::HeaderWithoutChunks)
                                } else {
                                    Ok((Some(HeaderSpec::File(f.0, f.1)), np, Some(fresh)))
                                },
                                None => linker_next_spec(data, np, Some(fresh)),
                            }
                        } else {
                            match cur {
                                None => Err(ParseError::ChunkWithoutHeader),
                                Some(f) => linker_next_spec(data, np, Some((f.0, f.1.push(p as u64)))),
                            }
                        }
                    },
                }
            },
        }
    }
}

/// Whether a file header is being gathered.
pub open spec fn cur_rank(cur: Option<(u64, Seq<u64>)>) -> nat {
    if cur is Some {
        1
    } else {
        0
    }
}

/// Each header the linker yields moves it on: less data is left, or the
/// pending file header was given out at the end.
pub proof fn lemma_linker_progress(data: Seq<u8>, pos: int, cur: Option<(u64, Seq<u64>)>)
    requires
        0 <= pos,
    ensures
        linker_next_spec(data, pos, cur) matches Ok((Some(_), np, ncur)) ==> 0 <= np && (
        remaining_len(data, np) < remaining_len(data, pos) || (remaining_len(data, np)
            == remaining_len(data, pos) && cur_rank(ncur) < cur_rank(cur))),
    decreases remaining_len(data, pos),
{
    lemma_find_any_range(data, pos, record_tags());
    match find_any(data, pos, record_tags()) {
        None => {},
        Some(i) => {
            let p = i + 1;
            lemma_seek_header_end_after(data, p);
            match seek_header_end_spec(data, p) {
                Err(_) => {},
                Ok(np) => {
                    let tag = data[i];
                    if tag == 104u8 {
                        if cur is None {
                            lemma_linker_progress(data, np, Some((p as u64, Seq::<u64>::empty())));
                        }
                    } else if tag != 109u8 {
                        if let Some(f) = cur {
                            lemma_linker_progress(data, np, Some((f.0, f.1.push(p as u64))));
                        }
                    }
                },
            }
        },
    }
}

/// A file header: the position of its length field and those of its chunks.
#[derive(Debug)]
pub struct FileHeader {
    pub header_index: u64,
    pub chunk_indexes: Vec<u64>,
}

impl FileHeader {
    /// A file header at `header_index` with no chunks yet.
    pub fn new(header_index: u64) -> (res: Self)
        ensures
            res.header_index == header_index,
            res.chunk_indexes@ == Seq::<u64>::empty(),
    {
        FileHeader { header_index, chunk_indexes: Vec::new() }
    }

    /// Records one more chunk of the file.
    pub fn add_chunk_index(&mut self, index: u64)
        ensures
            final(self).header_index == old(self).header_index,
            final(self).chunk_indexes@ == old(self).chunk_indexes@.push(index),
    {
        self.chunk_indexes.push(index);
    }

    /// The header as a pair of positions.
    pub open spec fn view_pair(&self) -> (u64, Seq<u64>) {
        (self.header_index, self.chunk_indexes@)
    }
}

/// The headers of a vault file.
pub enum HeaderType {
    MainHeader(u64),
    FileHeader(FileHeader),
}

/// The header in spec form.
pub open spec fn header_view(h: HeaderType) -> HeaderSpec {
    match h {
        HeaderType::MainHeader(i) => HeaderSpec::Main(i),
        HeaderType::FileHeader(f) => HeaderSpec::File(f.header_index, f.chunk_indexes@),
    }
}

/// The optional header in spec form.
pub open spec fn option_header_view(h: Option<HeaderType>) -> Option<HeaderSpec> {
    match h {
        Some(h) => Some(header_view(h)),
        None => None,
    }
}

/// The three fields of the main header at `index`: new path, algorithm and
/// validation block.
pub open spec fn main_header_spec(data: Seq<u8>, index: u64) -> Result<Seq<Seq<u8>>, ParseError> {
    if index > max_position() {
        Err(ParseError::SeekOutOfRange)
    } else {
        match content_spec(data, index as int) {
            Ok((c, _)) => {
                let parts = split_into_chunks_spec(c, 10u8, 3);
                if parts.len() != 3 {
                    Err(ParseError::MissingFields)
                } else {
                    Ok(parts)
                }
            },
            Err(e) => Err(e),
        }
    }
}

/// The original path and file hash of the file header at `index`: the first
/// two lines of its trimmed content.
pub open spec fn file_header_spec(data: Seq<u8>, index: u64) -> Result<(Seq<char>, Seq<char>), ParseError> {
    if index > max_position() {
        Err(ParseError::SeekOutOfRange)
    } else {
        match content_spec(data, index as int) {
            Ok((c, _)) => match vec_to_string_spec(c) {
                Some(text) => {
                    let ls = lines_chars(text);
                    if ls.len() < 2 {
                        Err(ParseError::MissingFields)
                    } else {
                        Ok((ls[0], ls[1]))
                    }
                },
                None => Err(ParseError::InvalidUtf8),
            },
            Err(e) => Err(e),
        }
    }
}

/// The content of the chunk record at `index`.
pub open spec fn chunk_spec(data: Seq<u8>, index: u64) -> Result<Seq<u8>, ParseError> {
    if index > max_position() {
        Err(ParseError::SeekOutOfRange)
    } else {
        match content_spec(data, index as int) {
            Ok((c, _)) => Ok(c),
            Err(e) => Err(e),
        }
    }
}

impl HeaderType {
    /// The fields of a main header (new path, algorithm, validation block), read
    /// from the vault data; `None` for a file header.
    pub fn parse_main_header(&self, data: &Vec<u8>) -> (res: Result<Option<Vec<Vec<u8>>>, ParseError>)
        ensures
            match header_view(*self) {
                HeaderSpec::Main(i) => match main_header_spec(data@, i) {
                    Ok(parts) => res matches Ok(Some(v)) && v@.len() == parts.len() && forall|k: int|
                        0 <= k < v@.len() ==> #[trigger] v@[k]@ == parts[k],
                    Err(e) => res == Err::<Option<Vec<Vec<u8>>>, ParseError>(e),
                },
                HeaderSpec::File(_, _) => res == Ok::<Option<Vec<Vec<u8>>>, ParseError>(None),
            },
    {
        match self {
            HeaderType::MainHeader(i) => {
                if *i > 0x7fff_ffff_ffff_ffffu64 {
                    return Err(ParseError::SeekOutOfRange);
                }
                let (content, _) = parse_content(data.as_slice(), *i)?;
                let parts = split_into_chunks(content, 10u8, 3);
                if parts.len() != 3 {
                    return Err(ParseError::MissingFields);
                }
                Ok(Some(parts))
            },
            HeaderType::FileHeader(_) => Ok(None),
        }
    }

    /// The stored file of a file header: its original path, its hash, and its
    /// chunks to read from the vault data; `None` for the main header.
    pub fn parse_file_header(self, data: &Vec<u8>) -> (res: Result<Option<FolderFile>, ParseError>)
        ensures
            match header_view(self) {
                HeaderSpec::File(h, chunks) => match file_header_spec(data@, h) {
                    Ok((path, hash)) => res matches Ok(Some(f)) && f.original_path@ == path
                        && f.file_hash@ == hash && f.data.source() == data@ && f.data.remaining()
                        == chunks,
                    Err(e) => res == Err::<Option<FolderFile>, ParseError>(e),
                },
                HeaderSpec::Main(_) => res == Ok::<Option<FolderFile>, ParseError>(None),
            },
    {
        match self {
            HeaderType::FileHeader(fileheader) => {
                if fileheader.header_index > 0x7fff_ffff_ffff_ffffu64 {
                    return Err(ParseError::SeekOutOfRange);
                }
                let (content, _) = parse_content(data.as_slice(), fileheader.header_index)?;
                let content_str = vec_to_string(content)?;
                let content_lines = lines(content_str.as_str());
                if content_lines.len() < 2 {
                    return Err(ParseError::MissingFields);
                }
                let path_str = content_lines[0].clone();
                let hash = content_lines[1].clone();
                let chunks = FileChunkIterator::new(data.clone(), fileheader.chunk_indexes);
                Ok(Some(FolderFile::new(path_str, hash, chunks)))
            },
            HeaderType::MainHeader(_) => Ok(None),
        }
    }
}

/// Walks the records of a vault file and yields its headers in order.
pub struct VaultwyrFileLinker {
    pub data: Vec<u8>,
    pub pos: u64,
    pub cur_fileheader: Option<FileHeader>,
}

impl VaultwyrFileLinker {
    /// The file header being gathered, as a pair of positions.
    pub open spec fn cur_view(&self) -> Option<(u64, Seq<u64>)> {
        match self.cur_fileheader {
            Some(f) => Some(f.view_pair()),
            None => None,
        }
    }

    /// A linker at the start of the vault file's contents.
    pub fn from_vaultwyr_file(contents: Vec<u8>) -> (res: Self)
        ensures
            res.data@ == contents@,
            res.pos == 0,
            res.cur_view() is None,
    {
        Self { data: contents, pos: 0, cur_fileheader: None }
    }

    /// Reads the length field at the current position and skips the record's
    /// content; gives the position where the field started.
    fn seek_header_end(&mut self) -> (res: Result<u64, ParseError>)
        ensures
            final(self).data@ == old(self).data@,
            final(self).cur_view() == old(self).cur_view(),
            match seek_header_end_spec(old(self).data@, old(self).pos as int) {
                Ok(np) => res == Ok::<u64, ParseError>(old(self).pos) && final(self).pos == np,
                Err(e) => res == Err::<u64, ParseError>(e),
            },
    {
        let header_start_index = self.pos;
        let (header_length, q) = parse_length(self.data.as_slice(), self.pos)?;
        proof {
            let q1 = parser_utils::read_until_end(self.data@, self.pos as int, 32u8);
            parser_utils::lemma_read_until_end_bounds(self.data@, self.pos as int, 32u8);
            parser_utils::lemma_read_until_end_bounds(self.data@, q1, 32u8);
            let (ln, lq) = length_field_spec(self.data@, self.pos as int).unwrap();
            assert(lq == parser_utils::read_until_end(self.data@, q1, 32u8));
            assert(self.data@.len() == self.data.len());
            assert(0 <= lq <= u64::MAX);
            assert(lq == q as int);
            assert(ln == header_length);
        }
        if q > 0x7fff_ffff_ffff_ffffu64 || (header_length as u64) > 0x7fff_ffff_ffff_ffffu64 - q {
            return Err(ParseError::SeekOutOfRange);
        }
        self.pos = q + header_length as u64;
        Ok(header_start_index)
    }

    /// The next header of the vault file, or `None` at its end.
    pub fn next(&mut self) -> (res: Result<Option<HeaderType>, ParseError>)
        ensures
            final(self).data@ == old(self).data@,
            match linker_next_spec(old(self).data@, old(self).pos as int, old(self).cur_view()) {
                Ok((item, np, cur)) => res matches Ok(r) && option_header_view(r) == item
                    && final(self).pos == np && final(self).cur_view() == cur,
                Err(e) => res matches Err(e2) && e2 == e,
            },
    {
        let delimiters: [u8; 3] = [109u8, 104u8, 99u8];
        assert(delimiters@ =~= record_tags());
        loop
            invariant
                self.data@ == old(self).data@,
                linker_next_spec(old(self).data@, old(self).pos as int, old(self).cur_view())
                    == linker_next_spec(self.data@, self.pos as int, self.cur_view()),
                delimiters@ == record_tags(),
            decreases remaining_len(self.data@, self.pos as int),
        {
            let ghost pos0 = self.pos as int;
            let ghost cur0 = self.cur_view();
            proof {
                lemma_find_any_range(self.data@, pos0, record_tags());
            }
            let found = read_until_any(self.data.as_slice(), self.pos, &delimiters);
            let data_len = self.data.len();
            assert(self.data@.len() == data_len);
            let (tag, p) = match found {
                Ok(x) => x,
                Err(_) => {
                    if self.pos < self.data.len() as u64 {
                        self.pos = self.data.len() as u64;
                    }
                    let old_fileheader = self.cur_fileheader.take();
                    return match old_fileheader {
                        Some(f) => Ok(Some(HeaderType::FileHeader(f))),
                        None => Ok(None),
                    };
                },
            };
            let ghost i = p as int - 1;
            assert(find_any(self.data@, pos0, record_tags()) == Some(i));
            assert(tag == self.data@[i]);
            assert(pos0 <= i < self.data@.len());
            self.pos = p;
            let start = self.seek_header_end()?;
            proof {
                lemma_seek_header_end_after(self.data@, p as int);
            }
            assert(start == p);
            assert(seek_header_end_spec(self.data@, p as int) == Ok::<int, ParseError>(self.pos as int));
            if tag == 109u8 {
                return Ok(Some(HeaderType::MainHeader(start)));
            } else if tag == 104u8 {
                let new_fileheader = FileHeader::new(start);
                let old_fileheader = self.cur_fileheader.take();
                self.cur_fileheader = Some(new_fileheader);
                match old_fileheader {
                    Some(f) => {
                        if f.chunk_indexes.len() == 0 {
                            return Err(ParseError::HeaderWithoutChunks);
                        }
                        return Ok(Some(HeaderType::FileHeader(f)));
                    },
                    None => {},
                }
            } else {
                let mut cur = self.cur_fileheader.take();
                match cur {
                    Some(mut fileheader) => {
                        fileheader.add_chunk_index(start);
                        self.cur_fileheader = Some(fileheader);
                    },
                    None => {
                        return Err(ParseError::ChunkWithoutHeader);
                    },
                }
            }
        }
    }
}

/// The chunks of one stored file, read one by one from the vault data.
pub struct FileChunkIterator {
    reader: Vec<u8>,
    chunk_indexes: Vec<u64>,
}

impl FileChunkIterator {
    /// The vault data the chunks are read from.
    pub closed spec fn source(&self) -> Seq<u8> {
        self.reader@
    }

    /// The positions of the chunks still to read, in order.
    pub closed spec fn remaining(&self) -> Seq<u64> {
        Seq::new(self.chunk_indexes@.len(), |i: int| self.chunk_indexes@[self.chunk_indexes@.len() - 1 - i])
    }

    /// The chunks at the given positions of the vault data, in order.
    pub fn new(reader: Vec<u8>, chunk_indexes: Vec<u64>) -> (res: Self)
        ensures
            res.source() == reader@,
            res.remaining() == chunk_indexes@,
    {
        let mut reversed: Vec<u64> = Vec::new();
        let n = chunk_indexes.len();
        let mut i: usize = n;
        while i > 0
            invariant
                i <= n == chunk_indexes@.len(),
                reversed@.len() == n - i,
                forall|k: int| 0 <= k < n - i ==> reversed@[k] == chunk_indexes@[n - 1 - k],
            decreases i,
        {
            i = i - 1;
            reversed.push(chunk_indexes[i]);
        }
        let res = Self { reader, chunk_indexes: reversed };
        assert(res.remaining() =~= chunk_indexes@);
        res
    }

    /// The next chunk's content, or `None` when all were read.
    pub fn next(&mut self) -> (res: Option<Result<Vec<u8>, ParseError>>)
        ensures
            final(self).source() == old(self).source(),
            old(self).remaining().len() == 0 ==> res is None && final(self).remaining()
                == old(self).remaining(),
            old(self).remaining().len() > 0 ==> final(self).remaining() == old(
                self,
            ).remaining().drop_first() && match chunk_spec(old(self).source(), old(self).remaining()[0]) {
                Ok(c) => res matches Some(Ok(v)) && v@ == c,
                Err(e) => res == Some(Err::<Vec<u8>, ParseError>(e)),
            },
    {
        let chunk_index = match self.chunk_indexes.pop() {
            Some(i) => i,
            None => {
                return None;
            },
        };
        assert(self.remaining() =~= old(self).remaining().drop_first());
        if chunk_index > 0x7fff_ffff_ffff_ffffu64 {
            return Some(Err(ParseError::SeekOutOfRange));
        }
        match parse_content(self.reader.as_slice(), chunk_index) {
            Ok((content, _)) => Some(Ok(content)),
            Err(e) => Some(Err(e)),
        }
    }
}

/// Opens a vault file: its path and contents, with a linker over them.
pub struct VaultWyrFileParser {
    pub linker: VaultwyrFileLinker,
    pub reader: Vec<u8>,
    pub path: String,
}

impl VaultWyrFileParser {
    /// A parser for the vault file at `path` whose contents are `contents`.
    pub fn from_path(path: String, contents: Vec<u8>) -> (res: Self)
        ensures
            res.linker.data@ == contents@,
            res.linker.pos == 0,
            res.linker.cur_view() is None,
            res.reader@ == contents@,
            res.path@ == path@,
    {
        let reader = contents.clone();
        assert(reader@ =~= contents@);
        let linker = VaultwyrFileLinker::from_vaultwyr_file(contents);
        Self { linker, reader, path }
    }
}


/// What opening a vault gives: from the first header, which must be the main
/// header, the algorithm (trimmed text) and the validation block, and the
/// linker state after it.
pub open spec fn to_folder_spec(
    data: Seq<u8>,
    reader: Seq<u8>,
    pos: int,
    cur: Option<(u64, Seq<u64>)>,
) -> Result<(Seq<char>, Seq<u8>, int, Option<(u64, Seq<u64>)>), ParseError> {
    match linker_next_spec(data, pos, cur) {
        Err(e) => Err(e),
        Ok((Some(HeaderSpec::Main(i)), np, ncur)) => match main_header_spec(reader, i) {
            Err(e) => Err(e),
            Ok(parts) => match vec_to_string_spec(parts[1]) {
                Some(algo) => Ok((algo, parts[2], np, ncur)),
                None => Err(ParseError::InvalidUtf8),
            },
        },
        Ok(_) => Err(ParseError::MissingMainHeader),
    }
}

impl VaultWyrFileParser {
    /// Reads the main header and gives the opened vault, whose linker stands
    /// after it.
    pub fn to_folder(self) -> (res: Result<VaultwyrFile, ParseError>)
        ensures
            match to_folder_spec(
                self.linker.data@,
                self.reader@,
                self.linker.pos as int,
                self.linker.cur_view(),
            ) {
                Ok((algo, validation, np, cur)) => res matches Ok(f) && f.new_path@ == self.path@
                    && f.algo@ == algo && f.validation@ == validation && f.files.data@
                    == self.linker.data@ && f.files.pos == np && f.files.cur_view() == cur,
                Err(e) => res matches Err(e2) && e2 == e,
            },
    {
        let mut linker = self.linker;
        let header_type = match linker.next()? {
            Some(header) => header,
            None => {
                return Err(ParseError::MissingMainHeader);
            },
        };
        let mut args = match header_type.parse_main_header(&self.reader)? {
            Some(args) => args,
            None => {
                return Err(ParseError::MissingMainHeader);
            },
        };
        let ghost parts = args@;
        let validation = match args.pop() {
            Some(v) => v,
            None => {
                return Err(ParseError::MissingFields);
            },
        };
        let algo_bytes = match args.pop() {
            Some(v) => v,
            None => {
                return Err(ParseError::MissingFields);
            },
        };
        assert(algo_bytes@ == parts[1]@);
        let algo = vec_to_string(algo_bytes)?;
        Ok(VaultwyrFile::new(self.path, algo, validation, linker))
    }
}

} // verus!
