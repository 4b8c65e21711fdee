//! One file locked on its own: its description, its encrypted validation
//! block and its encrypted contents, kept together in a `vaultwyr` file.
use vstd::prelude::*;
use vstd::string::StringExecFns;

use crate::encryption_utils::{
    aes_decrypt_with_key, aes_encrypt_with_key, max_plaintext_len, nonce_len, opened_chunk,
    password_key, password_to_key32, sealed_output, tag_len, validation_plaintext,
};
use crate::file_traversal::{calculate_file_hash, hex_lower, sha256};
use crate::paths::{
    is_plain_path, is_sep, law_set_extension, path_extension, path_extension_of, path_with_extension,
    set_extension,
};
use crate::text::{str_equals, string_from_utf8};

verus! {

/// A file locked on its own.
pub struct EncryptionOptions {
    /// Where the locked file goes.
    pub new_path: String,
    /// Where the file was, and goes back to.
    pub original_path: String,
    pub chunk_size: i128,
    pub algo: String,
    /// 32 zero bytes while unlocked; encrypted while locked.
    pub validation: Vec<u8>,
    /// The lowercase hex SHA-256 digest of the file's contents.
    pub file_hash: String,
    /// The encrypted contents while locked; the contents once unlocked.
    pub data: Vec<u8>,
}

/// Why a file could not be described, locked or unlocked.
#[derive(Debug, Clone, Copy, PartialEq, Eq, Structural)]
pub enum OptionsError {
    /// The file's path has no extension.
    MissingExtension,
    /// The validation block is already encrypted.
    AlreadyEncrypted,
    /// The validation block is not encrypted.
    AlreadyDecrypted,
    /// The locked file's path does not end in `vaultwyr`.
    WrongExtension,
    /// The password is longer than a key.
    PasswordTooLong,
    /// The contents are too long to encrypt.
    EncryptionFailed,
    /// An encrypted block is shorter than its nonce.
    Malformed,
    /// The validation block does not decrypt under the key.
    ValidationDecryption,
    /// The contents do not decrypt under the key.
    DataDecryption,
    /// The contents are not UTF-8.
    InvalidUtf8,
}

/// `out` is `plaintext` encrypted under `key`: a nonce, then the ciphertext,
/// which decrypts back to `plaintext`.
pub open spec fn sealed(key: Seq<u8>, plaintext: Seq<u8>, out: Seq<u8>) -> bool {
    &&& sealed_output(key, plaintext, out)
    &&& out.len() == plaintext.len() + nonce_len() + tag_len()
    &&& opened_chunk(key, out) == Some(plaintext)
}

/// The two values describe the same file: paths, chunk size, algorithm and
/// hash are equal.
pub open spec fn same_description(a: EncryptionOptions, b: EncryptionOptions) -> bool {
    &&& a.new_path@ == b.new_path@
    &&& a.original_path@ == b.original_path@
    &&& a.chunk_size == b.chunk_size
    &&& a.algo@ == b.algo@
    &&& a.file_hash@ == b.file_hash@
}

/// Nothing changed.
pub open spec fn unchanged(a: EncryptionOptions, b: EncryptionOptions) -> bool {
    &&& same_description(a, b)
    &&& a.validation@ == b.validation@
    &&& a.data@ == b.data@
}

/// Whether the locked file's path is refused for its extension: for a plain
/// path, exactly when its extension is not `vaultwyr`; for another path,
/// whose extension depends on the platform, when that is the error given.
pub open spec fn extension_refused(new_path: Seq<char>, res: Result<(), OptionsError>) -> bool {
    if is_plain_path(new_path) {
        path_extension_of(new_path) != Some("vaultwyr"@)
    } else {
        res == Err::<(), OptionsError>(OptionsError::WrongExtension)
    }
}

/// What locking `before` with `password` over the file's `text` (its UTF-8
/// bytes) may give. Refused when the validation block is already encrypted,
/// or (leaving everything as it was) when the locked file's path does not end
/// in `vaultwyr` (as `extension_refused` says); otherwise the validation block is encrypted under the
/// password's key and then the text, which is refused when it is too long.
pub open spec fn lock_outcome(
    before: EncryptionOptions,
    password: Seq<char>,
    text: Seq<u8>,
    res: Result<(), OptionsError>,
    after: EncryptionOptions,
) -> bool {
    &&& same_description(before, after)
    &&& if before.validation@ != validation_plaintext() {
        res == Err::<(), OptionsError>(OptionsError::AlreadyEncrypted) && unchanged(before, after)
    } else if extension_refused(before.new_path@, res) {
        res == Err::<(), OptionsError>(OptionsError::WrongExtension) && unchanged(before, after)
    } else {
        match password_key(password, 32) {
            None => res == Err::<(), OptionsError>(OptionsError::PasswordTooLong) && unchanged(
                before,
                after,
            ),
            Some(k) => sealed(k, validation_plaintext(), after.validation@) && if text.len()
                > max_plaintext_len() {
                res == Err::<(), OptionsError>(OptionsError::EncryptionFailed) && after.data@
                    == before.data@
            } else {
                res == Ok::<(), OptionsError>(()) && sealed(k, text, after.data@)
            },
        }
    }
}

/// What unlocking `before` with `password` may give. Refused when the
/// validation block is not encrypted, or (leaving everything as it was) when
/// the locked file's path does not end in `vaultwyr` (as `extension_refused`
/// says); otherwise the
/// validation block is decrypted under the password's key, then the
/// contents, each step refused when its block is too short or does not
/// decrypt.
pub open spec fn unlock_outcome(
    before: EncryptionOptions,
    password: Seq<char>,
    res: Result<(), OptionsError>,
    after: EncryptionOptions,
) -> bool {
    &&& same_description(before, after)
    &&& if before.validation@ == validation_plaintext() {
        res == Err::<(), OptionsError>(OptionsError::AlreadyDecrypted) && unchanged(before, after)
    } else if extension_refused(before.new_path@, res) {
        res == Err::<(), OptionsError>(OptionsError::WrongExtension) && unchanged(before, after)
    } else {
        match password_key(password, 32) {
            None => res == Err::<(), OptionsError>(OptionsError::PasswordTooLong) && unchanged(
                before,
                after,
            ),
            Some(k) => if before.validation@.len() < nonce_len() {
                res == Err::<(), OptionsError>(OptionsError::Malformed) && unchanged(before, after)
            } else {
                match opened_chunk(k, before.validation@) {
                    None => res == Err::<(), OptionsError>(OptionsError::ValidationDecryption)
                        && unchanged(before, after),
                    Some(v) => after.validation@ == v && if before.data@.len() < nonce_len() {
                        res == Err::<(), OptionsError>(OptionsError::Malformed) && after.data@
                            == before.data@
                    } else {
                        match opened_chunk(k, before.data@) {
                            None => res == Err::<(), OptionsError>(OptionsError::DataDecryption)
                                && after.data@ == before.data@,
                            Some(d) => res == Ok::<(), OptionsError>(()) && after.data@ == d,
                        }
                    },
                }
            },
        }
    }
}

impl EncryptionOptions {
    /// Describes the file at `original_path` with the given `contents`: its
    /// hash, 4096-byte chunks and `aes256` unless given, an unencrypted
    /// validation block, no data yet, and the locked file next to it with the
    /// extension `vaultwyr`. Refused when the path has no extension.
    pub fn new(original_path: String, contents: &[u8], chunk_size: Option<i128>, algo: Option<String>) -> (res:
        Result<EncryptionOptions, OptionsError>)
        ensures
            res matches Err(e) ==> e == OptionsError::MissingExtension,
            is_plain_path(original_path@) ==> (res is Ok <==> path_extension_of(original_path@) is Some),
            res matches Ok(o) ==> {
                &&& is_plain_path(original_path@) ==> o.new_path@ == path_with_extension(
                    original_path@,
                    "vaultwyr"@,
                )
                &&& o.original_path@ == original_path@
                &&& o.chunk_size == match chunk_size {
                    Some(n) => n,
                    None => 4096i128,
                }
                &&& o.algo@ == match algo {
                    Some(a) => a@,
                    None => "aes256"@,
                }
                &&& o.validation@ == validation_plaintext()
                &&& o.file_hash@ == hex_lower(sha256(contents@))
                &&& o.data@.len() == 0
            },
    {
        if path_extension(original_path.as_str()).is_none() {
            return Err(OptionsError::MissingExtension);
        }
        let chunk_size = match chunk_size {
            Some(n) => n,
            None => 4096,
        };
        let algo = match algo {
            Some(a) => a,
            None => String::from_str("aes256"),
        };
        let file_hash = calculate_file_hash(contents);
        proof {
            reveal_strlit("vaultwyr");
        }
        let new_path = set_extension(original_path.as_str(), "vaultwyr");
        let res = EncryptionOptions {
            new_path,
            original_path,
            chunk_size,
            algo,
            validation: vec![0u8; 32],
            file_hash,
            data: Vec::new(),
        };
        assert(res.validation@ =~= validation_plaintext());
        Ok(res)
    }

    /// The data as UTF-8 text; refused when it is not UTF-8.
    pub fn get_data_as_utf(&self) -> (res: Result<String, OptionsError>)
        ensures
            res is Ok <==> vstd::utf8::valid_utf8(self.data@),
            res matches Ok(s) ==> s@ == vstd::utf8::decode_utf8(self.data@),
            res matches Err(e) ==> e == OptionsError::InvalidUtf8,
    {
        match string_from_utf8(self.data.clone()) {
            Some(s) => Ok(s),
            None => Err(OptionsError::InvalidUtf8),
        }
    }

    /// Whether the locked file's path ends in `vaultwyr`.
    fn has_vault_extension(&self) -> (res: bool)
        ensures
            is_plain_path(self.new_path@) ==> res == (path_extension_of(self.new_path@) == Some(
                "vaultwyr"@,
            )),
    {
        match path_extension(self.new_path.as_str()) {
            Some(e) => str_equals(e.as_str(), "vaultwyr"),
            None => false,
        }
    }

    /// Locks the file with `password`, given its text: encrypts the
    /// validation block, then the text into the data.
    pub fn lock_file_with_password(&mut self, password: &str, contents: &str) -> (res: Result<(), OptionsError>)
        ensures
            lock_outcome(*old(self), password@, vstd::utf8::encode_utf8(contents@), res, *final(self)),
    {
        if self.validation.len() != 32 || !all_zero(self.validation.as_slice()) {
            assert(self.validation@ != validation_plaintext());
            return Err(OptionsError::AlreadyEncrypted);
        }
        assert(self.validation@ =~= validation_plaintext());
        if !self.has_vault_extension() {
            return Err(OptionsError::WrongExtension);
        }
        let key = match password_to_key32(password) {
            Ok(k) => k,
            Err(_) => {
                return Err(OptionsError::PasswordTooLong);
            },
        };
        match aes_encrypt_with_key(key, self.validation.as_slice()) {
            Ok(v) => {
                self.validation = v;
            },
            Err(_) => {
                return Err(OptionsError::EncryptionFailed);
            },
        }
        match aes_encrypt_with_key(key, contents.as_bytes()) {
            Ok(d) => {
                self.data = d;
                Ok(())
            },
            Err(_) => Err(OptionsError::EncryptionFailed),
        }
    }

    /// Unlocks the file with `password`: decrypts the validation block, then
    /// the data.
    pub fn unlock_file_with_password(&mut self, password: &str) -> (res: Result<(), OptionsError>)
        ensures
            unlock_outcome(*old(self), password@, res, *final(self)),
    {
        if self.validation.len() == 32 && all_zero(self.validation.as_slice()) {
            assert(self.validation@ =~= validation_plaintext());
            return Err(OptionsError::AlreadyDecrypted);
        }
        assert(self.validation@ != validation_plaintext());
        if !self.has_vault_extension() {
            return Err(OptionsError::WrongExtension);
        }
        let key = match password_to_key32(password) {
            Ok(k) => k,
            Err(_) => {
                return Err(OptionsError::PasswordTooLong);
            },
        };
        if self.validation.len() < 12 {
            return Err(OptionsError::Malformed);
        }
        match aes_decrypt_with_key(key, self.validation.as_slice()) {
            Ok(v) => {
                self.validation = v;
            },
            Err(_) => {
                return Err(OptionsError::ValidationDecryption);
            },
        }
        if self.data.len() < 12 {
            return Err(OptionsError::Malformed);
        }
        match aes_decrypt_with_key(key, self.data.as_slice()) {
            Ok(d) => {
                self.data = d;
                Ok(())
            },
            Err(_) => Err(OptionsError::DataDecryption),
        }
    }
}

/// Whether every byte is zero.
fn all_zero(bytes: &[u8]) -> (res: bool)
    ensures
        res == (forall|i: int| 0 <= i < bytes@.len() ==> bytes@[i] == 0u8),
{
    let mut i: usize = 0;
    while i < bytes.len()
        invariant
            i <= bytes@.len(),
            forall|k: int| 0 <= k < i ==> bytes@[k] == 0u8,
        decreases bytes@.len() - i,
    {
        if bytes[i] != 0u8 {
            return false;
        }
        i = i + 1;
    }
    true
}

/// Locking a file and then unlocking it with the same password gives its
/// text back: once locking succeeded, unlocking with that password succeeds,
/// leaving the text in the data and an unencrypted validation block, when
/// the locked file's path is plain; for another path it may instead be
/// refused for the path's extension, changing nothing.
pub proof fn law_lock_unlock_roundtrip(
    before: EncryptionOptions,
    password: Seq<char>,
    text: Seq<u8>,
    locked: EncryptionOptions,
    res: Result<(), OptionsError>,
    after: EncryptionOptions,
)
    requires
        lock_outcome(before, password, text, Ok(()), locked),
        unlock_outcome(locked, password, res, after),
    ensures
        res == Ok::<(), OptionsError>(()) || res == Err::<(), OptionsError>(
            OptionsError::WrongExtension,
        ),
        is_plain_path(before.new_path@) ==> res == Ok::<(), OptionsError>(()),
        res is Ok ==> after.data@ == text && after.validation@ == validation_plaintext(),
        res is Err ==> unchanged(locked, after),
        same_description(before, after),
{
    let k = password_key(password, 32)->0;
    assert(locked.validation@.len() == 60);
    assert(validation_plaintext().len() == 32);
}


/// A file described by `new` is never refused for its extension when it is
/// locked or unlocked: its locked file's path, the file's path with its
/// extension replaced by `vaultwyr`, is plain and has the extension
/// `vaultwyr`.
pub proof fn law_described_file_extension_accepted(original_path: Seq<char>, res: Result<(), OptionsError>)
    requires
        is_plain_path(original_path),
    ensures
        is_plain_path(path_with_extension(original_path, "vaultwyr"@)),
        path_extension_of(path_with_extension(original_path, "vaultwyr"@)) == Some("vaultwyr"@),
        !extension_refused(path_with_extension(original_path, "vaultwyr"@), res),
{
    reveal_strlit("vaultwyr");
    let e = "vaultwyr"@;
    assert forall|i: int| 0 <= i < e.len() implies e[i] != '.' && !is_sep(e[i]) && e[i] != ':' by {}
    law_set_extension(original_path, e);
}

} // verus!
