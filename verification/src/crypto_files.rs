//! Vault files: a folder or file encrypted into one file, and its restoration.
use vstd::prelude::*;
use vstd::string::StringExecFns;

use crate::behaviour::{OnErrorBehaviour, VaultwyrError};
use crate::dialog_lib::popup_builders::GenericPopUp;
use crate::dialog_lib::responses::UserResponseClose;
use crate::encryption_utils::{
    aes_decrypt_with_key, aes_encrypt_with_key, key_opens, max_plaintext_len, opened_chunk,
    password_key, password_to_key32, validate_key32, validation_plaintext,
};
use crate::file_traversal::{calculate_file_hash, hex_lower, is_hex_text, sha256};
use crate::parser::parser_utils::{append_bytes, encode_record, record, ParseError};
use crate::parser::{
    chunk_spec, cur_rank, file_header_spec, header_view, lemma_linker_progress, linker_next_spec,
    remaining_len, FileChunkIterator, HeaderSpec, HeaderType, VaultwyrFileLinker,
};
use crate::paths::{is_plain_path, law_set_extension, path_extension_of, path_with_extension, set_extension};
use crate::text::{append_decimal, ascii_chars, decimal_digits};
use crate::vault_roundtrip::{files_bytes, lemma_files_bytes_push, vault_bytes, StoredFile};

verus! {

/// A file stored in a vault: where it was, its hash, and its encrypted chunks.
pub struct FolderFile {
    pub original_path: String,
    pub file_hash: String,
    pub data: FileChunkIterator,
}

impl FolderFile {
    /// A stored file.
    pub fn new(original_path: String, file_hash: String, data: FileChunkIterator) -> (res: Self)
        ensures
            res.original_path@ == original_path@,
            res.file_hash@ == file_hash@,
            res.data == data,
    {
        FolderFile { original_path, file_hash, data }
    }
}

/// An opened vault file: its path, its algorithm, its validation block and
/// the linker over its records.
pub struct VaultwyrFile {
    pub new_path: String,
    pub algo: String,
    pub validation: Vec<u8>,
    pub files: VaultwyrFileLinker,
}

impl VaultwyrFile {
    /// An opened vault file.
    pub fn new(new_path: String, algo: String, validation: Vec<u8>, files: VaultwyrFileLinker) -> (res: Self)
        ensures
            res.new_path@ == new_path@,
            res.algo@ == algo@,
            res.validation@ == validation@,
            res.files == files,
    {
        VaultwyrFile { new_path, algo, validation, files }
    }
}


/// Why restoring a vault stopped.
#[derive(Debug, Clone, Copy, PartialEq, Eq, Structural)]
pub enum VaultError {
    /// The password does not open the vault.
    WrongPassword,
    /// The password is longer than a key.
    PasswordTooLong,
    /// The vault file is malformed.
    Parse(ParseError),
    /// A chunk is shorter than the nonce that starts it.
    ShortChunk,
    /// A chunk does not decrypt under the key.
    ChunkDecryption,
}

/// The decrypted chunks of a file, and why restoring stopped, if it did.
pub struct Restoration {
    pub chunks: Vec<Vec<u8>>,
    pub error: Option<VaultError>,
}

/// The contents of a list of byte vectors.
pub open spec fn vecs_view(v: Seq<Vec<u8>>) -> Seq<Seq<u8>> {
    v.map_values(|x: Vec<u8>| x@)
}

/// Decrypting the chunks at `idxs` of the vault data under `key`: the
/// plaintexts up to the first failure, and that failure.
pub open spec fn restore_spec(key: Seq<u8>, data: Seq<u8>, idxs: Seq<u64>) -> (Seq<Seq<u8>>, Option<VaultError>)
    decreases idxs.len(),
{
    if idxs.len() == 0 {
        (seq![], None)
    } else {
        match chunk_spec(data, idxs[0]) {
            Err(e) => (seq![], Some(VaultError::Parse(e))),
            Ok(c) => if c.len() < 12 {
                (seq![], Some(VaultError::ShortChunk))
            } else {
                match opened_chunk(key, c) {
                    None => (seq![], Some(VaultError::ChunkDecryption)),
                    Some(p) => {
                        let rest = restore_spec(key, data, idxs.drop_first());
                        (seq![p] + rest.0, rest.1)
                    },
                }
            },
        }
    }
}

impl FolderFile {
    /// Decrypts the file's chunks with the key made of `password`, in order,
    /// up to the first that fails.
    pub fn try_restore_with_password(&mut self, password: &str) -> (res: Restoration)
        ensures
            final(self).original_path@ == old(self).original_path@,
            final(self).file_hash@ == old(self).file_hash@,
            match password_key(password@, 32) {
                None => res.chunks@.len() == 0 && res.error == Some(VaultError::PasswordTooLong),
                Some(k) => vecs_view(res.chunks@) == restore_spec(
                    k,
                    old(self).data.source(),
                    old(self).data.remaining(),
                ).0 && res.error == restore_spec(
                    k,
                    old(self).data.source(),
                    old(self).data.remaining(),
                ).1,
            },
    {
        let key = match password_to_key32(password) {
            Ok(k) => k,
            Err(_) => {
                return Restoration { chunks: Vec::new(), error: Some(VaultError::PasswordTooLong) };
            },
        };
        let ghost src = self.data.source();
        let ghost all = restore_spec(key@, src, self.data.remaining());
        let mut chunks: Vec<Vec<u8>> = Vec::new();
        loop
            invariant
                self.data.source() == src,
                src == old(self).data.source(),
                self.original_path@ == old(self).original_path@,
                self.file_hash@ == old(self).file_hash@,
                password_key(password@, 32) == Some(key@),
                all == restore_spec(key@, src, old(self).data.remaining()),
                all.0 == vecs_view(chunks@) + restore_spec(key@, src, self.data.remaining()).0,
                all.1 == restore_spec(key@, src, self.data.remaining()).1,
            decreases self.data.remaining().len(),
        {
            let ghost rem = self.data.remaining();
            let next = self.data.next();
            match next {
                None => {
                    assert(vecs_view(chunks@) + Seq::<Seq<u8>>::empty() =~= vecs_view(chunks@));
                    return Restoration { chunks, error: None };
                },
                Some(Err(e)) => {
                    assert(rem.len() > 0);
                    assert(restore_spec(key@, src, rem).1 == Some(VaultError::Parse(e)));
                    assert(restore_spec(key@, src, rem).0 =~= Seq::<Seq<u8>>::empty());
                    assert(all.0 =~= vecs_view(chunks@));
                    assert(vecs_view(chunks@) + Seq::<Seq<u8>>::empty() =~= vecs_view(chunks@));
                    return Restoration { chunks, error: Some(VaultError::Parse(e)) };
                },
                Some(Ok(chunk)) => {
                    assert(rem.len() > 0);
                    assert(chunk_spec(src, rem[0]) == Ok::<Seq<u8>, ParseError>(chunk@));
                    if chunk.len() < 12 {
                        assert(restore_spec(key@, src, rem).1 == Some(VaultError::ShortChunk));
                        assert(restore_spec(key@, src, rem).0 =~= Seq::<Seq<u8>>::empty());
                        assert(all.0 =~= vecs_view(chunks@));
                        assert(vecs_view(chunks@) + Seq::<Seq<u8>>::empty() =~= vecs_view(chunks@));
                        return Restoration { chunks, error: Some(VaultError::ShortChunk) };
                    }
                    match aes_decrypt_with_key(key, chunk.as_slice()) {
                        Ok(plain) => {
                            let ghost before = vecs_view(chunks@);
                            chunks.push(plain);
                            assert(vecs_view(chunks@) =~= before.push(plain@));
                            assert(rem.drop_first() == self.data.remaining());
                            assert(vecs_view(chunks@) + restore_spec(key@, src, self.data.remaining()).0
                                =~= before + restore_spec(key@, src, rem).0);
                        },
                        Err(_) => {
                            assert(restore_spec(key@, src, rem).1 == Some(VaultError::ChunkDecryption));
                            assert(restore_spec(key@, src, rem).0 =~= Seq::<Seq<u8>>::empty());
                            assert(all.0 =~= vecs_view(chunks@));
                            assert(vecs_view(chunks@) + Seq::<Seq<u8>>::empty() =~= vecs_view(chunks@));
                            return Restoration { chunks, error: Some(VaultError::ChunkDecryption) };
                        },
                    }
                },
            }
        }
    }
}


/// A file restored from a vault: where it goes, its recorded hash, and its
/// decrypted chunks in order.
pub struct RestoredFile {
    pub original_path: String,
    pub file_hash: String,
    pub chunks: Vec<Vec<u8>>,
}

impl RestoredFile {
    /// The file's contents: its decrypted chunks one after another.
    pub fn contents(&self) -> (res: Vec<u8>)
        ensures
            res@ == concat_pieces(vecs_view(self.chunks@)),
    {
        let mut out: Vec<u8> = Vec::new();
        let mut i: usize = 0;
        assert(vecs_view(self.chunks@).skip(0) =~= vecs_view(self.chunks@));
        assert(Seq::<u8>::empty() + concat_pieces(vecs_view(self.chunks@)) =~= concat_pieces(
            vecs_view(self.chunks@),
        ));
        while i < self.chunks.len()
            invariant
                i <= self.chunks@.len(),
                concat_pieces(vecs_view(self.chunks@)) == out@ + concat_pieces(
                    vecs_view(self.chunks@).skip(i as int),
                ),
            decreases self.chunks@.len() - i,
        {
            proof {
                let rest = vecs_view(self.chunks@).skip(i as int);
                assert(rest[0] == self.chunks@[i as int]@);
                assert(rest.drop_first() =~= vecs_view(self.chunks@).skip(i + 1));
            }
            append_bytes(&mut out, self.chunks[i].as_slice());
            i = i + 1;
        }
        proof {
            assert(vecs_view(self.chunks@).skip(i as int) =~= Seq::<Seq<u8>>::empty());
            assert(out@ + Seq::<u8>::empty() =~= out@);
        }
        out
    }
}

/// What decrypting a vault gives: the files to write in order (the last one
/// possibly cut short), and why it stopped early, if it did.
pub struct DecryptionPlan {
    pub files: Vec<RestoredFile>,
    pub failure: Option<VaultError>,
}

/// A restored file as path, hash and chunk contents.
pub open spec fn restored_view(r: RestoredFile) -> (Seq<char>, Seq<char>, Seq<Seq<u8>>) {
    (r.original_path@, r.file_hash@, vecs_view(r.chunks@))
}

/// The restored files as paths, hashes and chunk contents.
pub open spec fn restored_files_view(v: Seq<RestoredFile>) -> Seq<(Seq<char>, Seq<char>, Seq<Seq<u8>>)> {
    v.map_values(|r: RestoredFile| restored_view(r))
}

/// Decrypting every file header the linker yields from `pos` on, under
/// `key`: the restored files, and the first failure. A main header among the
/// files is a failure; so is a file that does not restore fully.
pub open spec fn decrypt_plan_spec(key: Seq<u8>, data: Seq<u8>, pos: int, cur: Option<(u64, Seq<u64>)>) -> (
    Seq<(Seq<char>, Seq<char>, Seq<Seq<u8>>)>,
    Option<VaultError>,
)
    decreases remaining_len(data, pos), cur_rank(cur),
{
    if pos < 0 {
        (seq![], Some(VaultError::Parse(ParseError::UnexpectedEof)))
    } else {
        match linker_next_spec(data, pos, cur) {
            Err(e) => (seq![], Some(VaultError::Parse(e))),
            Ok((None, _, _)) => (seq![], None),
            Ok((Some(HeaderSpec::Main(_)), _, _)) => (
                seq![],
                Some(VaultError::Parse(ParseError::UnexpectedMainHeader)),
            ),
            Ok((Some(HeaderSpec::File(h, chunks)), np, ncur)) => match file_header_spec(data, h) {
                Err(e) => (seq![], Some(VaultError::Parse(e))),
                Ok((path, hash)) => {
                    let restored = restore_spec(key, data, chunks);
                    let this = (path, hash, restored.0);
                    if restored.1 is Some {
                        (seq![this], restored.1)
                    } else {
                        proof {
                            lemma_linker_progress(data, pos, cur);
                        }
                        let rest = decrypt_plan_spec(key, data, np, ncur);
                        (seq![this] + rest.0, rest.1)
                    }
                },
            },
        }
    }
}

/// The password makes a key that opens the validation block.
pub open spec fn password_opens(password: Seq<char>, validation: Seq<u8>) -> bool {
    password_key(password, 32) matches Some(k) && key_opens(k, validation)
}

impl VaultwyrFile {
    /// Whether `key` opens the vault's validation block.
    pub fn validate_key(&self, key: &[u8; 32]) -> (res: bool)
        ensures
            res == key_opens(key@, self.validation@),
    {
        validate_key32(key, self.validation.as_slice())
    }

    /// Whether the key made of `password` opens the vault's validation block.
    pub fn validate_password(&self, password: &str) -> (res: bool)
        ensures
            res == password_opens(password@, self.validation@),
    {
        let key = match password_to_key32(password) {
            Ok(key) => key,
            Err(_) => {
                return false;
            },
        };
        self.validate_key(&key)
    }

    /// Decrypts every file of the vault with `password`: refused when the
    /// password does not open the vault; otherwise the files in order, up to
    /// the first failure.
    pub fn decrypt_all_files(&mut self, password: &str) -> (plan: DecryptionPlan)
        ensures
            !password_opens(password@, old(self).validation@) ==> plan.files@.len() == 0
                && plan.failure == Some(VaultError::WrongPassword) && *final(self) == *old(self),
            password_opens(password@, old(self).validation@) ==> (restored_files_view(
                plan.files@,
            ), plan.failure) == decrypt_plan_spec(
                password_key(password@, 32)->0,
                old(self).files.data@,
                old(self).files.pos as int,
                old(self).files.cur_view(),
            ),
    {
        if !self.validate_password(password) {
            return DecryptionPlan { files: Vec::new(), failure: Some(VaultError::WrongPassword) };
        }
        restore_all_files(&mut self.files, password)
    }
}

/// Restores every file the linker yields with the key made of `password`,
/// in order, up to the first failure.
pub(crate) fn restore_all_files(linker: &mut VaultwyrFileLinker, password: &str) -> (plan: DecryptionPlan)
    requires
        password_key(password@, 32) is Some,
    ensures
        (restored_files_view(plan.files@), plan.failure) == decrypt_plan_spec(
            password_key(password@, 32)->0,
            old(linker).data@,
            old(linker).pos as int,
            old(linker).cur_view(),
        ),
{
    let ghost key = password_key(password@, 32)->0;
    let ghost data = linker.data@;
    let ghost all = decrypt_plan_spec(key, data, linker.pos as int, linker.cur_view());
    let mut files: Vec<RestoredFile> = Vec::new();
    loop
        invariant
            linker.data@ == data,
            data == old(linker).data@,
            password_key(password@, 32) is Some,
            key == password_key(password@, 32)->0,
            all == decrypt_plan_spec(key, data, old(linker).pos as int, old(linker).cur_view()),
            all.0 == restored_files_view(files@) + decrypt_plan_spec(
                key,
                data,
                linker.pos as int,
                linker.cur_view(),
            ).0,
            all.1 == decrypt_plan_spec(key, data, linker.pos as int, linker.cur_view()).1,
        decreases remaining_len(data, linker.pos as int), cur_rank(linker.cur_view()),
    {
        let ghost pos0 = linker.pos as int;
        let ghost cur0 = linker.cur_view();
        let ghost step = decrypt_plan_spec(key, data, pos0, cur0);
        proof {
            lemma_linker_progress(data, pos0, cur0);
        }
        match linker.next() {
            Err(e) => {
                assert(linker_next_spec(data, pos0, cur0) is Err);
                assert(step.1 == Some(VaultError::Parse(e)));
                assert(step.0 =~= Seq::<(Seq<char>, Seq<char>, Seq<Seq<u8>>)>::empty());
                assert(all.0 =~= restored_files_view(files@));
                assert((restored_files_view(files@), Some(VaultError::Parse(e))) == all);
                return DecryptionPlan { files, failure: Some(VaultError::Parse(e)) };
            },
            Ok(None) => {
                assert(linker_next_spec(data, pos0, cur0) matches Ok((None, _, _)));
                assert(step.1 is None);
                assert(step.0 =~= Seq::<(Seq<char>, Seq<char>, Seq<Seq<u8>>)>::empty());
                assert(all.0 =~= restored_files_view(files@));
                assert((restored_files_view(files@), None::<VaultError>) == all);
                return DecryptionPlan { files, failure: None };
            },
            Ok(Some(header)) => {
                let ghost hv = header_view(header);
                let ghost (item, np, ncur) = linker_next_spec(data, pos0, cur0).unwrap();
                assert(item == Some(hv));
                assert(linker.pos == np && linker.cur_view() == ncur);
                let ghost (hh, hc) = match hv {
                    HeaderSpec::File(a, b) => (a, b),
                    HeaderSpec::Main(a) => (a, Seq::<u64>::empty()),
                };
                let parsed = header.parse_file_header(&linker.data);
                match parsed {
                    Err(e) => {
                        assert(step.0 =~= Seq::<(Seq<char>, Seq<char>, Seq<Seq<u8>>)>::empty());
                        assert(all.0 =~= restored_files_view(files@));
                        assert((restored_files_view(files@), Some(VaultError::Parse(e))) == all);
                        return DecryptionPlan { files, failure: Some(VaultError::Parse(e)) };
                    },
                    Ok(None) => {
                        assert(step.0 =~= Seq::<(Seq<char>, Seq<char>, Seq<Seq<u8>>)>::empty());
                        assert(all.0 =~= restored_files_view(files@));
                        return DecryptionPlan {
                            files,
                            failure: Some(VaultError::Parse(ParseError::UnexpectedMainHeader)),
                        };
                    },
                    Ok(Some(mut folder_file)) => {
                        assert(hv == HeaderSpec::File(hh, hc));
                        let ghost (path, hash) = file_header_spec(data, hh).unwrap();
                        assert(folder_file.data.remaining() == hc);
                        assert(folder_file.data.source() == data);
                        let restoration = folder_file.try_restore_with_password(password);
                        let ghost rs = restore_spec(key, data, hc);
                        assert(vecs_view(restoration.chunks@) == rs.0);
                        assert(restoration.error == rs.1);
                        let ghost before = restored_files_view(files@);
                        let restored = RestoredFile {
                            original_path: folder_file.original_path,
                            file_hash: folder_file.file_hash,
                            chunks: restoration.chunks,
                        };
                        files.push(restored);
                        assert(restored_files_view(files@) =~= before.push(
                            restored_view(restored),
                        ));
                        assert(restored_view(restored) == (path, hash, rs.0));
                        if restoration.error.is_some() {
                            assert(step.0 =~= seq![restored_view(restored)]);
                            assert(all.0 =~= restored_files_view(files@));
                            assert((restored_files_view(files@), restoration.error) == all);
                            return DecryptionPlan { files, failure: restoration.error };
                        }
                        assert(all.0 =~= restored_files_view(files@) + decrypt_plan_spec(
                            key,
                            data,
                            linker.pos as int,
                            linker.cur_view(),
                        ).0);
                    },
                }
            },
        }
    }
}


// ---------------------------------------------------------------------------
// Writing a vault
// ---------------------------------------------------------------------------

/// What is encrypted: one file (its path) or a whole folder.
#[derive(Debug)]
pub enum PathType {
    File(String),
    Folder,
}

/// The content of the main header: the vault's path, the algorithm and the
/// validation block, separated by newlines.
pub open spec fn main_header_content(new_path: Seq<char>, algo: Seq<char>, validation: Seq<u8>) -> Seq<u8> {
    vstd::utf8::encode_utf8(new_path) + seq![10u8] + vstd::utf8::encode_utf8(algo) + seq![10u8]
        + validation
}

/// The content of a file header: the original path and the file's hash,
/// separated by a newline.
pub open spec fn file_header_content(original_path: Seq<char>, file_hash: Seq<char>) -> Seq<u8> {
    vstd::utf8::encode_utf8(original_path) + seq![10u8] + vstd::utf8::encode_utf8(file_hash)
}

/// The pieces of at most `size` bytes that a file is read in.
pub open spec fn chunk_pieces(contents: Seq<u8>, size: nat) -> Seq<Seq<u8>>
    decreases contents.len(),
{
    if size == 0 || contents.len() == 0 {
        seq![]
    } else if contents.len() <= size {
        seq![contents]
    } else {
        seq![contents.take(size as int)] + chunk_pieces(contents.skip(size as int), size)
    }
}

/// The chunk records of the encrypted chunks, one after another.
pub open spec fn chunk_records(encrypted: Seq<Seq<u8>>) -> Seq<u8>
    decreases encrypted.len(),
{
    if encrypted.len() == 0 {
        seq![]
    } else {
        record(99u8, encrypted[0]) + chunk_records(encrypted.drop_first())
    }
}

/// Every encrypted chunk decrypts under `key` to the plaintext piece at the same index.
pub open spec fn encrypts_pieces(key: Seq<u8>, encrypted: Seq<Seq<u8>>, pieces: Seq<Seq<u8>>) -> bool {
    &&& encrypted.len() == pieces.len()
    &&& forall|i: int|
        0 <= i < pieces.len() ==> #[trigger] opened_chunk(key, encrypted[i]) == Some(pieces[i])
            && encrypted[i].len() == pieces[i].len() + 28
}

/// The bytes of one encrypted file, and why encrypting it stopped, if it did.
pub struct EncodedFile {
    pub bytes: Vec<u8>,
    pub error: Option<VaultwyrError>,
}

proof fn lemma_chunk_pieces_shape(contents: Seq<u8>, size: nat)
    ensures
        forall|i: int|
            0 <= i < chunk_pieces(contents, size).len() ==> 0 < #[trigger] chunk_pieces(
                contents,
                size,
            )[i].len() <= chunk_pieces(contents, size)[0].len() && chunk_pieces(contents, size)[i].len()
                <= size,
        chunk_pieces(contents, size).len() > 0 ==> chunk_pieces(contents, size)[0].len() == if contents.len()
            < size {
            contents.len()
        } else {
            size
        },
    decreases contents.len(),
{
    if size > 0 && contents.len() > size {
        lemma_chunk_pieces_shape(contents.skip(size as int), size);
    }
}

/// The pieces one after another.
pub open spec fn concat_pieces(ps: Seq<Seq<u8>>) -> Seq<u8>
    decreases ps.len(),
{
    if ps.len() == 0 {
        seq![]
    } else {
        ps[0] + concat_pieces(ps.drop_first())
    }
}

/// Joining the pieces a file is read in gives its contents back.
pub proof fn lemma_chunk_pieces_join(contents: Seq<u8>, size: nat)
    requires
        size > 0,
    ensures
        concat_pieces(chunk_pieces(contents, size)) == contents,
    decreases contents.len(),
{
    let ps = chunk_pieces(contents, size);
    if contents.len() == 0 {
        assert(contents =~= seq![]);
    } else if contents.len() <= size {
        assert(ps.drop_first() =~= Seq::<Seq<u8>>::empty());
        assert(concat_pieces(ps.drop_first()) =~= Seq::<u8>::empty());
        assert(ps[0] == contents);
        assert(contents + Seq::<u8>::empty() =~= contents);
    } else {
        lemma_chunk_pieces_join(contents.skip(size as int), size);
        assert(ps.drop_first() =~= chunk_pieces(contents.skip(size as int), size));
        assert(ps[0] == contents.take(size as int));
        assert(contents.take(size as int) + contents.skip(size as int) =~= contents);
    }
}

proof fn lemma_chunk_records_push(encrypted: Seq<Seq<u8>>, e: Seq<u8>)
    ensures
        chunk_records(encrypted.push(e)) == chunk_records(encrypted) + record(99u8, e),
    decreases encrypted.len(),
{
    if encrypted.len() == 0 {
        assert(encrypted.push(e).drop_first() =~= Seq::<Seq<u8>>::empty());
        assert(chunk_records(encrypted.push(e).drop_first()) =~= Seq::<u8>::empty());
        assert(chunk_records(encrypted.push(e)) =~= record(99u8, e));
        assert(chunk_records(encrypted) =~= Seq::<u8>::empty());
    } else {
        lemma_chunk_records_push(encrypted.drop_first(), e);
        assert(encrypted.push(e).drop_first() =~= encrypted.drop_first().push(e));
        assert(chunk_records(encrypted.push(e)) =~= chunk_records(encrypted) + record(99u8, e));
    }
}

proof fn lemma_chunk_pieces_step(contents: Seq<u8>, size: nat, offset: int)
    requires
        size > 0,
        0 <= offset < contents.len(),
    ensures
        ({
            let rest = contents.skip(offset);
            let end = if contents.len() - offset > size {
                offset + size
            } else {
                contents.len() as int
            };
            chunk_pieces(rest, size) == seq![contents.subrange(offset, end)] + chunk_pieces(
                contents.skip(end),
                size,
            )
        }),
{
    let rest = contents.skip(offset);
    if contents.len() - offset > size {
        assert(rest.take(size as int) =~= contents.subrange(offset, offset + size));
        assert(rest.skip(size as int) =~= contents.skip(offset + size));
    } else {
        assert(rest =~= contents.subrange(offset, contents.len() as int));
        assert(contents.skip(contents.len() as int) =~= Seq::<u8>::empty());
        assert(chunk_pieces(Seq::<u8>::empty(), size) =~= Seq::<Seq<u8>>::empty());
        assert(seq![rest] + Seq::<Seq<u8>>::empty() =~= seq![rest]);
    }
}

/// Whether the text is `aes256`.
pub(crate) fn is_aes256(s: &str) -> (res: bool)
    ensures
        res == (s@ == "aes256"@),
{
    proof {
        reveal_strlit("aes256");
    }
    let cs = crate::text::chars_of(s);
    if cs.len() != 6 {
        return false;
    }
    let res = cs[0] == 'a' && cs[1] == 'e' && cs[2] == 's' && cs[3] == '2' && cs[4] == '5' && cs[5]
        == '6';
    if res {
        assert(cs@ =~= "aes256"@);
    }
    res
}

/// A folder or file being encrypted into a vault file.
pub struct EncryptionPath {
    pub new_path: String,
    pub algo: Option<String>,
    pub chunk_size: Option<usize>,
    pub files: PathType,
    pub validation: Vec<u8>,
    pub max_size: u64,
    pub on_error_behaviour: OnErrorBehaviour,
    pub paths: Vec<String>,
}

impl EncryptionPath {
    /// The validation block: 32 zero bytes until the header is written.
    pub open spec fn validation_view(&self) -> Seq<u8> {
        self.validation@
    }

    /// How errors are handled.
    pub open spec fn behaviour_view(&self) -> OnErrorBehaviour {
        self.on_error_behaviour
    }

    /// The files written into the vault so far, to delete afterwards.
    pub open spec fn paths_view(&self) -> Seq<Seq<char>> {
        self.paths@.map_values(|p: String| p@)
    }

    /// The algorithm's name: the one set, or `aes256`.
    pub open spec fn algo_spec(&self) -> Seq<char> {
        match self.algo {
            Some(a) => a@,
            None => "aes256"@,
        }
    }

    /// The size of the pieces files are read in: the one set, or 2048.
    pub open spec fn chunk_size_spec(&self) -> nat {
        match self.chunk_size {
            Some(n) => n as nat,
            None => 2048,
        }
    }

    /// Encrypting `path` (a folder when `is_dir`): the vault goes next to it
    /// with the extension `fvaultwyr` (folder) or `vaultwyr` (file); pieces of
    /// 2048 bytes, a limit of 50 GB on what is deleted, and the user asked
    /// about errors.
    pub fn new(path: &str, is_dir: bool) -> (res: Self)
        ensures
            is_dir ==> res.files is Folder,
            !is_dir ==> (res.files matches PathType::File(p) && p@ == path@),
            is_plain_path(path@) ==> res.new_path@ == path_with_extension(
                path@,
                if is_dir {
                    "fvaultwyr"@
                } else {
                    "vaultwyr"@
                },
            ),
            res.algo is None,
            res.chunk_size == Some(2048usize),
            res.validation_view() == validation_plaintext(),
            res.max_size == 53_687_091_200u64,
            res.behaviour_view() == OnErrorBehaviour::AskUser,
            res.paths_view() == Seq::<Seq<char>>::empty(),
    {
        let files;
        let new_path;
        proof {
            reveal_strlit("vaultwyr");
            reveal_strlit("fvaultwyr");
        }
        if !is_dir {
            files = PathType::File(String::from_str(path));
            new_path = set_extension(path, "vaultwyr");
        } else {
            files = PathType::Folder;
            new_path = set_extension(path, "fvaultwyr");
        }
        let res = Self {
            new_path,
            algo: None,
            chunk_size: Some(2048),
            files,
            validation: vec![0u8; 32],
            max_size: 53_687_091_200,
            on_error_behaviour: OnErrorBehaviour::AskUser,
            paths: Vec::new(),
        };
        assert(res.validation@ =~= validation_plaintext());
        assert(res.paths_view() =~= Seq::<Seq<char>>::empty());
        res
    }

    /// The same, with errors handled as `behaviour` says.
    pub fn on_error_behaviour(self, behaviour: OnErrorBehaviour) -> (res: Self)
        ensures
            res.behaviour_view() == behaviour,
            res.new_path == self.new_path,
            res.algo == self.algo,
            res.chunk_size == self.chunk_size,
            res.files == self.files,
            res.validation_view() == self.validation_view(),
            res.max_size == self.max_size,
            res.paths_view() == self.paths_view(),
    {
        EncryptionPath { on_error_behaviour: behaviour, ..self }
    }

    /// The algorithm's name: the one set, or `aes256`.
    pub fn algo_name(&self) -> (res: String)
        ensures
            res@ == self.algo_spec(),
    {
        match &self.algo {
            Some(a) => a.clone(),
            None => String::from_str("aes256"),
        }
    }

    /// Encrypts the validation block (32 zero bytes) under `key`.
    fn encrypt_validation(&mut self, key: &[u8; 32])
        requires
            old(self).validation_view() == validation_plaintext(),
        ensures
            key_opens(key@, final(self).validation_view()),
            final(self).validation_view().len() == 60,
            final(self).new_path == old(self).new_path,
            final(self).algo == old(self).algo,
            final(self).chunk_size == old(self).chunk_size,
            final(self).files == old(self).files,
            final(self).max_size == old(self).max_size,
            final(self).behaviour_view() == old(self).behaviour_view(),
            final(self).paths_view() == old(self).paths_view(),
    {
        let encrypted = aes_encrypt_with_key(*key, self.validation.as_slice());
        match encrypted {
            Ok(v) => {
                self.validation = v;
            },
            Err(_) => {},
        }
    }

    /// Encrypts the validation block under `key` and gives the main header
    /// record: the vault's path, the algorithm and the validation block.
    pub fn encode_header(&mut self, key: &[u8; 32]) -> (res: Vec<u8>)
        requires
            old(self).validation_view() == validation_plaintext(),
        ensures
            res@ == record(
                109u8,
                main_header_content(
                    final(self).new_path@,
                    final(self).algo_spec(),
                    final(self).validation_view(),
                ),
            ),
            key_opens(key@, final(self).validation_view()),
            final(self).validation_view().len() == 60,
            final(self).new_path == old(self).new_path,
            final(self).algo == old(self).algo,
            final(self).chunk_size == old(self).chunk_size,
            final(self).files == old(self).files,
            final(self).max_size == old(self).max_size,
            final(self).behaviour_view() == old(self).behaviour_view(),
            final(self).paths_view() == old(self).paths_view(),
    {
        self.encrypt_validation(key);
        let algo = self.algo_name();
        let mut buffer: Vec<u8> = Vec::new();
        append_bytes(&mut buffer, self.new_path.as_str().as_bytes());
        buffer.push(10u8);
        append_bytes(&mut buffer, algo.as_str().as_bytes());
        buffer.push(10u8);
        append_bytes(&mut buffer, self.validation.as_slice());
        assert(buffer@ =~= main_header_content(self.new_path@, self.algo_spec(), self.validation@));
        encode_record(109u8, buffer.as_slice())
    }
}


/// What encoding one file gives: its header record (path and hash), then one
/// chunk record per piece of `size` bytes of its contents, each encrypted
/// under `key`; only the header when the algorithm is not AES (error
/// `NotImplemented`) or the first piece is too long to encrypt (error
/// `EncryptionError`), unless there is no piece.
pub open spec fn file_records_outcome(
    original_path: Seq<char>,
    file_hash: Seq<char>,
    contents: Seq<u8>,
    size: nat,
    aes: bool,
    key: Seq<u8>,
    res: EncodedFile,
) -> bool {
    let header = record(104u8, file_header_content(original_path, file_hash));
    let pieces = chunk_pieces(contents, size);
    &&& pieces.len() == 0 ==> res.error is None && res.bytes@ == header
    &&& pieces.len() > 0 && !aes ==> res.error == Some(VaultwyrError::NotImplemented) && res.bytes@
        == header
    &&& pieces.len() > 0 && aes && pieces[0].len() > max_plaintext_len() ==> res.error == Some(
        VaultwyrError::EncryptionError,
    ) && res.bytes@ == header
    &&& pieces.len() > 0 && aes && pieces[0].len() <= max_plaintext_len() ==> res.error is None
        && exists|encrypted: Seq<Seq<u8>>|
        encrypts_pieces(key, encrypted, pieces) && res.bytes@ == header + chunk_records(encrypted)
}

/// Encodes one file: its header record, then its pieces of `size` bytes,
/// each encrypted under `key` when `aes`.
pub(crate) fn encode_file_records(
    original_path: &str,
    file_hash: &str,
    contents: &[u8],
    size: usize,
    aes: bool,
    key: &[u8; 32],
) -> (res: EncodedFile)
    ensures
        file_records_outcome(original_path@, file_hash@, contents@, size as nat, aes, key@, res),
{
    let mut header: Vec<u8> = Vec::new();
    append_bytes(&mut header, original_path.as_bytes());
    header.push(10u8);
    append_bytes(&mut header, file_hash.as_bytes());
    assert(header@ =~= file_header_content(original_path@, file_hash@));
    let mut bytes = encode_record(104u8, header.as_slice());
    let ghost header_record = bytes@;
    let ghost pieces = chunk_pieces(contents@, size as nat);
    if size == 0 {
        return EncodedFile { bytes, error: None };
    }
    let n = contents.len();
    if n == 0 {
        assert(contents@ =~= Seq::<u8>::empty());
        return EncodedFile { bytes, error: None };
    }
    if !aes {
        return EncodedFile { bytes, error: Some(VaultwyrError::NotImplemented) };
    }
    let mut offset: usize = 0;
    let ghost mut done: Seq<Seq<u8>> = seq![];
    let ghost mut encrypted: Seq<Seq<u8>> = seq![];
    proof {
        lemma_chunk_pieces_shape(contents@, size as nat);
        assert(contents@.skip(0) =~= contents@);
        assert(chunk_records(encrypted) =~= Seq::<u8>::empty());
        assert(bytes@ =~= header_record + chunk_records(encrypted));
    }
    while offset < n
        invariant
            offset <= n == contents@.len(),
            size > 0,
            aes,
            pieces == chunk_pieces(contents@, size as nat),
            pieces == done + chunk_pieces(contents@.skip(offset as int), size as nat),
            encrypts_pieces(key@, encrypted, done),
            bytes@ == header_record + chunk_records(encrypted),
            header_record == record(104u8, file_header_content(original_path@, file_hash@)),
            offset > 0 ==> pieces[0].len() <= max_plaintext_len(),
            offset > 0 ==> done.len() > 0,
            offset == 0 ==> done.len() == 0,
            forall|i: int| 0 <= i < pieces.len() ==> #[trigger] pieces[i].len() <= pieces[0].len(),
        decreases n - offset,
    {
        let end: usize = if n - offset > size {
            offset + size
        } else {
            n
        };
        proof {
            lemma_chunk_pieces_step(contents@, size as nat, offset as int);
        }
        let piece = &contents[offset..end];
        assert(pieces[done.len() as int] == piece@);
        match aes_encrypt_with_key(*key, piece) {
            Ok(enc) => {
                let record_bytes = encode_record(99u8, enc.as_slice());
                append_bytes(&mut bytes, record_bytes.as_slice());
                proof {
                    lemma_chunk_records_push(encrypted, enc@);
                    encrypted = encrypted.push(enc@);
                    done = done.push(piece@);
                    assert(pieces =~= done + chunk_pieces(contents@.skip(end as int), size as nat));
                }
                offset = end;
            },
            Err(_) => {
                assert(chunk_records(encrypted) =~= Seq::<u8>::empty());
                assert(bytes@ =~= header_record);
                return EncodedFile { bytes, error: Some(VaultwyrError::EncryptionError) };
            },
        }
    }
    proof {
        assert(contents@.skip(n as int) =~= Seq::<u8>::empty());
        assert(done =~= pieces);
    }
    EncodedFile { bytes, error: None }
}

impl EncryptionPath {
    /// Gives the bytes of one file in the vault: its header record (original
    /// path and hash), then one chunk record per piece of its contents, each
    /// piece encrypted under `key`. The path is added to those to delete.
    /// Stops at the first piece when the algorithm is not `aes256`, or when the
    /// piece is too long to encrypt.
    pub fn encode_file(&mut self, original_path: &str, file_hash: &str, contents: &[u8], key: &[u8; 32]) -> (res:
        EncodedFile)
        ensures
            final(self).paths_view() == old(self).paths_view().push(original_path@),
            final(self).new_path == old(self).new_path,
            final(self).algo == old(self).algo,
            final(self).chunk_size == old(self).chunk_size,
            final(self).files == old(self).files,
            final(self).validation == old(self).validation,
            final(self).max_size == old(self).max_size,
            final(self).on_error_behaviour == old(self).on_error_behaviour,
            file_records_outcome(
                original_path@,
                file_hash@,
                contents@,
                old(self).chunk_size_spec(),
                old(self).algo_spec() == "aes256"@,
                key@,
                res,
            ),
    {
        let ghost old_paths = self.paths_view();
        self.paths.push(String::from_str(original_path));
        assert(self.paths_view() =~= old_paths.push(original_path@));
        let size: usize = match self.chunk_size {
            Some(n) => n,
            None => 2048,
        };
        let algo = self.algo_name();
        let aes = is_aes256(algo.as_str());
        encode_file_records(original_path, file_hash, contents, size, aes, key)
    }
}


// ---------------------------------------------------------------------------
// After the vault is written
// ---------------------------------------------------------------------------

/// The notice given when what would be deleted is larger than the limit.
pub open spec fn size_limit_message(path_size: u64, max_size: u64) -> Seq<char> {
    "The path that you provided for deletion is too large!\n"@ + ascii_chars(
        decimal_digits(path_size as nat),
    ) + ">"@ + ascii_chars(decimal_digits(max_size as nat))
        + "If you want to be able to encrypt larger files please update the settings"@
}

impl EncryptionPath {
    /// The same, with `max_size` as the limit on what is deleted.
    pub fn max_size(self, max_size: u64) -> (res: Self)
        ensures
            res.max_size == max_size,
            res.behaviour_view() == self.behaviour_view(),
            res.new_path == self.new_path,
            res.algo == self.algo,
            res.chunk_size == self.chunk_size,
            res.files == self.files,
            res.validation_view() == self.validation_view(),
            res.paths_view() == self.paths_view(),
    {
        EncryptionPath { max_size, ..self }
    }

    /// What goes once the vault is written: the encrypted file itself, or for
    /// a folder the vault's path with its extension removed.
    pub fn deletion_target(&self) -> (res: String)
        ensures
            self.files matches PathType::File(p) ==> res@ == p@,
            self.files is Folder && is_plain_path(self.new_path@) ==> res@ == path_with_extension(
                self.new_path@,
                ""@,
            ),
    {
        match &self.files {
            PathType::File(p) => String::from_str(p.as_str()),
            PathType::Folder => {
                proof {
                    reveal_strlit("");
                }
                set_extension(self.new_path.as_str(), "")
            },
        }
    }

    /// Checks the size of what would be deleted against the limit: refused
    /// with `PathSizeError` when it is larger, with a notice when the user is
    /// to be told.
    pub fn check_deletion_size(&self, path_size: u64) -> (res: Option<
        (VaultwyrError, Option<GenericPopUp<UserResponseClose>>),
    >)
        ensures
            res is None <==> path_size <= self.max_size,
            res matches Some(r) ==> {
                &&& r.0 == VaultwyrError::PathSizeError
                &&& r.1 is Some <==> self.on_error_behaviour == OnErrorBehaviour::AskUser
                &&& r.1 matches Some(w) ==> w.title@ == "The path is too large"@ && w.heading@
                    == size_limit_message(path_size, self.max_size) && w.is_fresh()
            },
    {
        if path_size <= self.max_size {
            return None;
        }
        let mut message = String::from_str("The path that you provided for deletion is too large!\n");
        append_decimal(&mut message, path_size);
        message.append(">");
        append_decimal(&mut message, self.max_size);
        message.append("If you want to be able to encrypt larger files please update the settings");
        Some(
            VaultwyrError::handle_generic_error(
                &self.on_error_behaviour,
                "The path is too large",
                message.as_str(),
                VaultwyrError::PathSizeError,
            ),
        )
    }
}

/// The vault goes next to what is encrypted, under its path with the
/// extension replaced (`fvaultwyr` for a folder, `vaultwyr` for a file):
/// everything before the path's extension stays and the new extension
/// follows it, where the path had an extension or not. The vault's path is
/// plain again and has that extension. What is deleted after a folder is
/// encrypted, the vault's path with its extension removed, is the folder's
/// path with its extension removed: the folder's own path when its name has
/// no extension, never the vault.
pub proof fn law_vault_path_and_deletion_target(path: Seq<char>, is_dir: bool)
    requires
        is_plain_path(path),
    ensures
        ({
            let ext = if is_dir {
                "fvaultwyr"@
            } else {
                "vaultwyr"@
            };
            let base = path_with_extension(path, ""@);
            let vault = path_with_extension(path, ext);
            &&& vault == base + seq!['.'] + ext
            &&& match path_extension_of(path) {
                Some(x) => path == base + seq!['.'] + x,
                None => base == path,
            }
            &&& is_plain_path(vault)
            &&& path_extension_of(vault) == Some(ext)
            &&& path_with_extension(vault, ""@) == base
            &&& path_extension_of(path) is None ==> path_with_extension(vault, ""@) == path
            &&& path_with_extension(vault, ""@) != vault
        }),
{
    reveal_strlit("");
    reveal_strlit("fvaultwyr");
    reveal_strlit("vaultwyr");
    assert(""@ =~= Seq::<char>::empty());
    let ext = if is_dir {
        "fvaultwyr"@
    } else {
        "vaultwyr"@
    };
    assert forall|i: int| 0 <= i < ext.len() implies ext[i] != '.' && !crate::paths::is_sep(ext[i])
        && ext[i] != ':' by {}
    law_set_extension(path, ext);
    let base = path_with_extension(path, ""@);
    assert(path_with_extension(path, ext).len() == base.len() + 1 + ext.len());
}

// ---------------------------------------------------------------------------
// A whole vault at once
// ---------------------------------------------------------------------------

/// A file to encrypt: its path and its contents.
pub struct PlainFile {
    pub path: String,
    pub contents: Vec<u8>,
}

/// The files as paths and contents.
pub open spec fn plain_files_view(v: Seq<PlainFile>) -> Seq<(Seq<char>, Seq<u8>)> {
    v.map_values(|f: PlainFile| (f.path@, f.contents@))
}

/// A file that cannot be encrypted in pieces of `size` bytes with `algo`:
/// it has a piece, and the algorithm is not `aes256` or the piece is longer
/// than AES-GCM takes.
pub open spec fn cannot_encrypt(contents: Seq<u8>, size: nat, algo: Seq<char>) -> bool {
    let pieces = chunk_pieces(contents, size);
    pieces.len() > 0 && (algo != "aes256"@ || pieces[0].len() > max_plaintext_len())
}

/// `stored` holds the files as a vault stores them: for each, its path, the
/// hex SHA-256 digest of its contents, and its pieces of `size` bytes
/// encrypted under `key`.
pub open spec fn sealed_files(
    key: Seq<u8>,
    files: Seq<(Seq<char>, Seq<u8>)>,
    size: nat,
    stored: Seq<StoredFile>,
) -> bool {
    &&& stored.len() == files.len()
    &&& forall|i: int|
        0 <= i < files.len() ==> {
            &&& (#[trigger] stored[i]).0 == files[i].0
            &&& stored[i].1 == hex_lower(sha256(files[i].1))
            &&& stored[i].1.len() == 64
            &&& is_hex_text(stored[i].1)
            &&& encrypts_pieces(key, stored[i].2, chunk_pieces(files[i].1, size))
        }
}

/// The paths of the files.
pub open spec fn plain_paths(files: Seq<(Seq<char>, Seq<u8>)>) -> Seq<Seq<char>> {
    files.map_values(|f: (Seq<char>, Seq<u8>)| f.0)
}

impl EncryptionPath {
    /// Encrypts `files` into a whole vault with the key made of `password`:
    /// the main header, then each file's header and encrypted pieces, and
    /// the files added to those to delete. Refused with `BadPassword` when
    /// the password is too long, and with the error of the first file that
    /// cannot be encrypted.
    pub fn encrypt_files(&mut self, password: &str, files: &Vec<PlainFile>) -> (res: Result<
        Vec<u8>,
        VaultwyrError,
    >)
        requires
            old(self).validation_view() == validation_plaintext(),
        ensures
            final(self).new_path == old(self).new_path,
            final(self).algo == old(self).algo,
            final(self).chunk_size == old(self).chunk_size,
            final(self).files == old(self).files,
            final(self).max_size == old(self).max_size,
            final(self).behaviour_view() == old(self).behaviour_view(),
            password_key(password@, 32) is None ==> res == Err::<Vec<u8>, VaultwyrError>(
                VaultwyrError::BadPassword,
            ) && final(self).validation_view() == old(self).validation_view()
                && final(self).paths_view() == old(self).paths_view(),
            password_key(password@, 32) matches Some(k) ==> key_opens(k, final(self).validation_view())
                && final(self).validation_view().len() == 60,
            password_key(password@, 32) is Some ==> (res is Err <==> exists|i: int|
                0 <= i < files@.len() && #[trigger] cannot_encrypt(
                    plain_files_view(files@)[i].1,
                    old(self).chunk_size_spec(),
                    old(self).algo_spec(),
                )),
            res matches Err(e) ==> e == if password_key(password@, 32) is None {
                VaultwyrError::BadPassword
            } else if old(self).algo_spec() != "aes256"@ {
                VaultwyrError::NotImplemented
            } else {
                VaultwyrError::EncryptionError
            },
            password_key(password@, 32) is Some && res is Err ==> exists|m: int|
                0 < m <= files@.len() && final(self).paths_view() == old(self).paths_view()
                    + plain_paths(plain_files_view(files@)).take(m),
            res is Ok ==> final(self).paths_view() == old(self).paths_view() + plain_paths(
                plain_files_view(files@),
            ),
            password_key(password@, 32) matches Some(k) ==> (res matches Ok(bytes) ==> exists|
                stored: Seq<StoredFile>,
            |
                sealed_files(k, plain_files_view(files@), old(self).chunk_size_spec(), stored)
                    && bytes@ == vault_bytes(
                    final(self).new_path@,
                    final(self).algo_spec(),
                    final(self).validation_view(),
                    stored,
                )),
    {
        let key = match password_to_key32(password) {
            Ok(k) => k,
            Err(_) => {
                return Err(VaultwyrError::BadPassword);
            },
        };
        let mut out = self.encode_header(&key);
        let ghost fs = plain_files_view(files@);
        let ghost size = old(self).chunk_size_spec();
        let ghost start = *self;
        let ghost mut stored: Seq<StoredFile> = seq![];
        proof {
            assert(files_bytes(stored) =~= Seq::<u8>::empty());
            assert(out@ =~= vault_bytes(self.new_path@, self.algo_spec(), self.validation_view(), stored));
            assert(plain_paths(fs).take(0) =~= Seq::<Seq<char>>::empty());
            assert(self.paths_view() =~= start.paths_view() + plain_paths(fs).take(0));
        }
        let mut i: usize = 0;
        while i < files.len()
            invariant
                i <= files@.len() == fs.len(),
                fs == plain_files_view(files@),
                password_key(password@, 32) == Some(key@),
                size == old(self).chunk_size_spec(),
                start.chunk_size_spec() == size,
                self.new_path == start.new_path,
                self.algo == start.algo,
                self.chunk_size == start.chunk_size,
                self.files == start.files,
                self.validation == start.validation,
                self.max_size == start.max_size,
                self.on_error_behaviour == start.on_error_behaviour,
                start.new_path == old(self).new_path,
                start.algo == old(self).algo,
                start.chunk_size == old(self).chunk_size,
                start.files == old(self).files,
                start.max_size == old(self).max_size,
                start.behaviour_view() == old(self).behaviour_view(),
                start.paths_view() == old(self).paths_view(),
                key_opens(key@, start.validation_view()),
                start.validation_view().len() == 60,
                self.paths_view() == start.paths_view() + plain_paths(fs).take(i as int),
                sealed_files(key@, fs.take(i as int), size, stored),
                out@ == vault_bytes(start.new_path@, start.algo_spec(), start.validation_view(), stored),
                forall|j: int| 0 <= j < i ==> !cannot_encrypt(#[trigger] fs[j].1, size, start.algo_spec()),
            decreases files@.len() - i,
        {
            let f = &files[i];
            let hash = calculate_file_hash(f.contents.as_slice());
            let ghost before_paths = self.paths_view();
            let enc = self.encode_file(f.path.as_str(), hash.as_str(), f.contents.as_slice(), &key);
            proof {
                assert(fs[i as int] == (f.path@, f.contents@));
                assert(plain_paths(fs).take(i + 1) =~= plain_paths(fs).take(i as int).push(f.path@));
                assert(self.paths_view() =~= start.paths_view() + plain_paths(fs).take(i + 1));
            }
            match enc.error {
                Some(e) => {
                    proof {
                        assert(cannot_encrypt(fs[i as int].1, size, start.algo_spec()));
                        assert(0 < i + 1 <= fs.len());
                        assert(self.paths_view() == old(self).paths_view() + plain_paths(fs).take(i + 1));
                        assert(e == if old(self).algo_spec() != "aes256"@ {
                            VaultwyrError::NotImplemented
                        } else {
                            VaultwyrError::EncryptionError
                        });
                    }
                    return Err(e);
                },
                None => {},
            }
            let ghost encrypted = choose|encrypted: Seq<Seq<u8>>|
                encrypts_pieces(key@, encrypted, chunk_pieces(f.contents@, size))
                    && enc.bytes@ == record(104u8, file_header_content(f.path@, hash@))
                    + chunk_records(encrypted);
            proof {
                if chunk_pieces(f.contents@, size).len() == 0 {
                    assert(encrypts_pieces(key@, seq![], chunk_pieces(f.contents@, size)));
                    assert(chunk_records(Seq::<Seq<u8>>::empty()) =~= Seq::<u8>::empty());
                    assert(enc.bytes@ =~= record(104u8, file_header_content(f.path@, hash@))
                        + chunk_records(Seq::<Seq<u8>>::empty()));
                }
            }
            let ghost entry: StoredFile = (f.path@, hash@, encrypted);
            append_bytes(&mut out, enc.bytes.as_slice());
            proof {
                lemma_files_bytes_push(stored, entry);
                let old_stored = stored;
                stored = stored.push(entry);
                assert(fs.take(i + 1) =~= fs.take(i as int).push(fs[i as int]));
                assert forall|j: int| 0 <= j < i + 1 implies {
                    &&& (#[trigger] stored[j]).0 == fs.take(i + 1)[j].0
                    &&& stored[j].1 == hex_lower(sha256(fs.take(i + 1)[j].1))
                    &&& stored[j].1.len() == 64
                    &&& is_hex_text(stored[j].1)
                    &&& encrypts_pieces(key@, stored[j].2, chunk_pieces(fs.take(i + 1)[j].1, size))
                } by {
                    if j < i {
                        assert(stored[j] == old_stored[j]);
                        assert(fs.take(i + 1)[j] == fs.take(i as int)[j]);
                    }
                }
                assert(out@ =~= vault_bytes(start.new_path@, start.algo_spec(), start.validation_view(), stored));
            }
            i = i + 1;
        }
        proof {
            assert(fs.take(fs.len() as int) =~= fs);
            assert(plain_paths(fs).take(fs.len() as int) =~= plain_paths(fs));
            assert(sealed_files(key@, fs, size, stored));
            assert(out@ == vault_bytes(self.new_path@, self.algo_spec(), self.validation_view(), stored));
            assert(exists|st: Seq<StoredFile>|
                sealed_files(key@, fs, size, st) && out@ == vault_bytes(
                    self.new_path@,
                    self.algo_spec(),
                    self.validation_view(),
                    st,
                ));
            assert(self.paths_view() == old(self).paths_view() + plain_paths(fs));
            assert(sealed_files(
                password_key(password@, 32)->0,
                plain_files_view(files@),
                old(self).chunk_size_spec(),
                stored,
            ));
            assert(out@ =~= vault_bytes(self.new_path@, self.algo_spec(), self.validation_view(), stored));
            assert(key_opens(key@, self.validation_view()));
            assert(self.validation_view().len() == 60);
            assert(!exists|j: int|
                0 <= j < fs.len() && #[trigger] cannot_encrypt(fs[j].1, size, old(self).algo_spec()));
        }
        Ok(out)
    }
}

} // verus!
