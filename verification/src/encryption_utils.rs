//! AES-256-GCM encryption of byte chunks, and keys made from passwords.
//!
//! An encrypted chunk is the 12-byte nonce followed by the AES-256-GCM
//! ciphertext (the encrypted bytes and a 16-byte tag).
use aes_gcm::aead::{Aead, AeadCore, KeyInit, OsRng};
use aes_gcm::{Aes256Gcm, Key, Nonce};
use vstd::prelude::*;

verus! {

#[verifier::external_type_specification]
#[verifier::external_body]
pub struct ExAeadError(aes_gcm::Error);

/// The longest plaintext that AES-GCM encrypts, in bytes (`aes_gcm::P_MAX`).
pub open spec fn max_plaintext_len() -> int {
    0x10_0000_0000
}

/// Length of the nonce that starts an encrypted chunk.
pub open spec fn nonce_len() -> int {
    12
}

/// Length of the authentication tag that AES-GCM appends.
pub open spec fn tag_len() -> int {
    16
}

/// The ciphertext and tag that AES-256-GCM makes of `plaintext` under `key`
/// and `nonce`, with no associated data.
pub uninterp spec fn aes256gcm_seal(key: Seq<u8>, nonce: Seq<u8>, plaintext: Seq<u8>) -> Seq<u8>;

/// The plaintext that AES-256-GCM recovers from `ciphertext` (tag included)
/// under `key` and `nonce`, or `None` when the tag does not authenticate it.
pub uninterp spec fn aes256gcm_open(key: Seq<u8>, nonce: Seq<u8>, ciphertext: Seq<u8>) -> Option<Seq<u8>>;

/// `Aead::encrypt` of `aes_gcm::Aes256Gcm` (aes-gcm 0.10), with no associated
/// data. The source fails only for a plaintext longer than `P_MAX` bytes, and
/// returns the encrypted bytes followed by the 16-byte tag; decryption of those
/// bytes under the same key and nonce recomputes the same tag and removes the
/// same keystream, giving the plaintext back. What the bytes are is named, not
/// stated.
#[verifier::external_body]
fn aes256gcm_encrypt(key: &[u8; 32], nonce: &[u8; 12], plaintext: &[u8]) -> (res: Result<Vec<u8>, aes_gcm::Error>)
    ensures
        res is Ok <==> plaintext@.len() <= max_plaintext_len(),
        res matches Ok(c) ==> c@ == aes256gcm_seal(key@, nonce@, plaintext@),
        res matches Ok(c) ==> c@.len() == plaintext@.len() + tag_len(),
        res matches Ok(c) ==> aes256gcm_open(key@, nonce@, c@) == Some(plaintext@),
{
    let cipher = Aes256Gcm::new(Key::<Aes256Gcm>::from_slice(key));
    cipher.encrypt(Nonce::from_slice(nonce), plaintext)
}

/// `Aead::decrypt` of `aes_gcm::Aes256Gcm` (aes-gcm 0.10), with no associated
/// data. The source checks the trailing 16-byte tag and then removes the
/// keystream; input shorter than a tag fails. What it gives is named.
#[verifier::external_body]
fn aes256gcm_decrypt(key: &[u8; 32], nonce: &[u8; 12], ciphertext: &[u8]) -> (res: Result<Vec<u8>, aes_gcm::Error>)
    ensures
        res is Ok <==> aes256gcm_open(key@, nonce@, ciphertext@) is Some,
        res matches Ok(p) ==> aes256gcm_open(key@, nonce@, ciphertext@) == Some(p@),
        ciphertext@.len() < tag_len() ==> res is Err,
{
    let cipher = Aes256Gcm::new(Key::<Aes256Gcm>::from_slice(key));
    cipher.decrypt(Nonce::from_slice(nonce), ciphertext)
}

/// A fresh nonce from `Aes256Gcm::generate_nonce` with the operating system's
/// random generator (`OsRng`). Nothing is promised of its value.
#[verifier::external_body]
fn random_nonce() -> (res: [u8; 12]) {
    let nonce = Aes256Gcm::generate_nonce(&mut OsRng);
    let mut out = [0u8; 12];
    out.copy_from_slice(nonce.as_slice());
    out
}

/// Encryption or decryption was refused.
#[derive(Debug, Clone, Copy, PartialEq, Eq, Structural)]
pub enum CipherError {
    /// The plaintext is longer than AES-GCM accepts.
    PlaintextTooLong,
    /// The ciphertext does not authenticate under the key.
    AuthenticationFailed,
}

/// `out` is the nonce at its start followed by the encryption of `plaintext`
/// under `key` and that nonce.
pub open spec fn sealed_output(key: Seq<u8>, plaintext: Seq<u8>, out: Seq<u8>) -> bool {
    &&& out.len() >= nonce_len()
    &&& out.skip(nonce_len()) == aes256gcm_seal(key, out.take(nonce_len()), plaintext)
}

/// What decrypting `chunk` (nonce, then ciphertext) under `key` gives.
pub open spec fn opened_chunk(key: Seq<u8>, chunk: Seq<u8>) -> Option<Seq<u8>> {
    aes256gcm_open(key, chunk.take(nonce_len()), chunk.skip(nonce_len()))
}

/// Encrypts `chunk` with the given nonce; the output is the nonce followed by
/// the ciphertext.
pub fn aes_encrypt_with_nonce(key: [u8; 32], nonce: [u8; 12], chunk: &[u8]) -> (res: Result<Vec<u8>, CipherError>)
    ensures
        res is Ok <==> chunk@.len() <= max_plaintext_len(),
        res matches Err(e) ==> e == CipherError::PlaintextTooLong,
        res matches Ok(out) ==> out@ == nonce@ + aes256gcm_seal(key@, nonce@, chunk@),
        res matches Ok(out) ==> out@.len() == chunk@.len() + nonce_len() + tag_len(),
        res matches Ok(out) ==> opened_chunk(key@, out@) == Some(chunk@),
{
    match aes256gcm_encrypt(&key, &nonce, chunk) {
        Ok(ciphertext) => {
            let mut output: Vec<u8> = Vec::new();
            let mut i: usize = 0;
            while i < 12
                invariant
                    i <= 12,
                    output@ == nonce@.take(i as int),
                decreases 12 - i,
            {
                output.push(nonce[i]);
                i = i + 1;
                assert(output@ =~= nonce@.take(i as int));
            }
            let mut j: usize = 0;
            while j < ciphertext.len()
                invariant
                    j <= ciphertext@.len(),
                    output@ == nonce@ + ciphertext@.take(j as int),
                decreases ciphertext@.len() - j,
            {
                output.push(ciphertext[j]);
                j = j + 1;
                assert(output@ =~= nonce@ + ciphertext@.take(j as int));
            }
            assert(ciphertext@.take(ciphertext@.len() as int) =~= ciphertext@);
            assert(output@.take(nonce_len()) =~= nonce@);
            assert(output@.skip(nonce_len()) =~= ciphertext@);
            Ok(output)
        },
        Err(_) => Err(CipherError::PlaintextTooLong),
    }
}

/// Encrypts `chunk` under `key` with a fresh random nonce; the output is the
/// nonce followed by the ciphertext.
pub fn aes_encrypt_with_key(key: [u8; 32], chunk: &[u8]) -> (res: Result<Vec<u8>, CipherError>)
    ensures
        res is Ok <==> chunk@.len() <= max_plaintext_len(),
        res matches Err(e) ==> e == CipherError::PlaintextTooLong,
        res matches Ok(out) ==> sealed_output(key@, chunk@, out@),
        res matches Ok(out) ==> out@.len() == chunk@.len() + nonce_len() + tag_len(),
        res matches Ok(out) ==> opened_chunk(key@, out@) == Some(chunk@),
{
    let nonce = random_nonce();
    let res = aes_encrypt_with_nonce(key, nonce, chunk);
    if let Ok(out) = &res {
        assert(out@.take(nonce_len()) =~= nonce@);
        assert(out@.skip(nonce_len()) =~= aes256gcm_seal(key@, nonce@, chunk@));
    }
    res
}

/// Decrypts a chunk made by `aes_encrypt_with_key`: the first 12 bytes are the
/// nonce, the rest the ciphertext.
pub fn aes_decrypt_with_key(key: [u8; 32], chunk: &[u8]) -> (res: Result<Vec<u8>, CipherError>)
    requires
        chunk@.len() >= nonce_len(),
    ensures
        res is Ok <==> opened_chunk(key@, chunk@) is Some,
        res matches Ok(p) ==> opened_chunk(key@, chunk@) == Some(p@),
        res matches Err(e) ==> e == CipherError::AuthenticationFailed,
{
    let (nonce_bytes, ciphertext) = chunk.split_at(12);
    let mut nonce = [0u8; 12];
    let mut i: usize = 0;
    while i < 12
        invariant
            i <= 12,
            nonce_bytes@.len() == 12,
            forall|k: int| 0 <= k < i ==> nonce@[k] == nonce_bytes@[k],
        decreases 12 - i,
    {
        nonce[i] = nonce_bytes[i];
        i = i + 1;
    }
    assert(nonce@ =~= chunk@.take(nonce_len()));
    assert(ciphertext@ =~= chunk@.skip(nonce_len()));
    match aes256gcm_decrypt(&key, &nonce, ciphertext) {
        Ok(p) => Ok(p),
        Err(_) => Err(CipherError::AuthenticationFailed),
    }
}

/// What `password_to_key` makes of a password: its UTF-8 bytes padded with
/// zeros to `n` bytes, or `None` when they are longer than `n`.
pub open spec fn password_key(password: Seq<char>, n: nat) -> Option<Seq<u8>> {
    let bytes = vstd::utf8::encode_utf8(password);
    if bytes.len() > n {
        None
    } else {
        Some(bytes + Seq::new((n - bytes.len()) as nat, |i: int| 0u8))
    }
}

/// The password is too long to be a key.
#[derive(Debug, Clone, Copy, PartialEq, Eq, Structural)]
pub enum KeyError {
    /// The password's UTF-8 bytes are more than the key holds.
    PasswordTooLong,
}

/// The key made of a password: its UTF-8 bytes, padded with zeros to `N`
/// bytes; refused when the password is longer than `N` bytes.
pub fn password_to_key<const N: usize>(password: &str) -> (res: Result<[u8; N], KeyError>)
    ensures
        res is Ok <==> password_key(password@, N as nat) is Some,
        res matches Ok(k) ==> password_key(password@, N as nat) == Some(k@),
        res matches Err(e) ==> e == KeyError::PasswordTooLong,
{
    let mut buf = [0u8; N];
    let bytes = password.as_bytes();
    if bytes.len() > N {
        return Err(KeyError::PasswordTooLong);
    }
    let mut i: usize = 0;
    while i < bytes.len()
        invariant
            i <= bytes@.len() <= N,
            buf@.len() == N,
            forall|k: int| 0 <= k < i ==> buf@[k] == bytes@[k],
            forall|k: int| bytes@.len() <= k < N ==> buf@[k] == 0u8,
        decreases bytes@.len() - i,
    {
        buf[i] = bytes[i];
        i = i + 1;
    }
    assert(buf@ =~= password_key(password@, N as nat).unwrap());
    Ok(buf)
}

/// The 32-byte key made of a password.
pub fn password_to_key32(password: &str) -> (res: Result<[u8; 32], KeyError>)
    ensures
        res is Ok <==> password_key(password@, 32) is Some,
        res matches Ok(k) ==> password_key(password@, 32) == Some(k@),
        res matches Err(e) ==> e == KeyError::PasswordTooLong,
{
    password_to_key::<32>(password)
}

/// The validation block that a vault stores: 32 zero bytes, encrypted.
pub open spec fn validation_plaintext() -> Seq<u8> {
    Seq::new(32, |i: int| 0u8)
}

/// Whether `key` opens `validation`: it decrypts to 32 zero bytes.
pub open spec fn key_opens(key: Seq<u8>, validation: Seq<u8>) -> bool {
    &&& validation.len() >= nonce_len()
    &&& opened_chunk(key, validation) == Some(validation_plaintext())
}

/// Whether `key` decrypts the validation block to the 32 zero bytes it was
/// made from.
pub fn validate_key32(key: &[u8; 32], validation: &[u8]) -> (res: bool)
    ensures
        res == key_opens(key@, validation@),
{
    if validation.len() < 12 {
        return false;
    }
    match aes_decrypt_with_key(*key, validation) {
        Ok(p) => {
            if p.len() != 32 {
                return false;
            }
            let mut i: usize = 0;
            while i < 32
                invariant
                    i <= 32 == p@.len(),
                    validation@.len() >= nonce_len(),
                    opened_chunk(key@, validation@) == Some(p@),
                    forall|k: int| 0 <= k < i ==> p@[k] == 0u8,
                decreases 32 - i,
            {
                if p[i] != 0u8 {
                    assert(p@ != validation_plaintext());
                    return false;
                }
                i = i + 1;
            }
            assert(p@ =~= validation_plaintext());
            true
        },
        Err(_) => false,
    }
}

} // verus!
