//! File hashes: the SHA-256 digest of a file's contents, in lowercase hex.
use sha2::{Digest, Sha256};
use vstd::prelude::*;

use crate::text::push_char;

verus! {

/// The SHA-256 digest of `data`.
pub uninterp spec fn sha256(data: Seq<u8>) -> Seq<u8>;

/// `Digest::digest` of `sha2::Sha256` (sha2 0.10): the 32-byte SHA-256 digest
/// of the data. What the bytes are is named, not stated.
#[verifier::external_body]
fn sha256_digest(data: &[u8]) -> (res: [u8; 32])
    ensures
        res@ == sha256(data@),
{
    let digest = Sha256::digest(data);
    let mut out = [0u8; 32];
    out.copy_from_slice(digest.as_slice());
    out
}

/// Every character is a lowercase hex digit.
pub open spec fn is_hex_text(s: Seq<char>) -> bool {
    forall|i: int| 0 <= i < s.len() ==> (48 <= (#[trigger] s[i]) as u32 <= 57 || 97 <= (s[i] as u32) <= 102)
}

/// The lowercase hex digit of a value below 16.
pub open spec fn hex_digit(n: u8) -> char {
    if n < 10 {
        (48 + n) as char
    } else {
        (87 + n) as char
    }
}

/// Each byte as two lowercase hex digits, as `format!("{:x}", digest)` writes a digest.
pub open spec fn hex_lower(bytes: Seq<u8>) -> Seq<char>
    decreases bytes.len(),
{
    if bytes.len() == 0 {
        seq![]
    } else {
        seq![hex_digit(bytes[0] / 16), hex_digit(bytes[0] % 16)] + hex_lower(bytes.drop_first())
    }
}

fn hex_digit_exec(n: u8) -> (res: char)
    requires
        n < 16,
    ensures
        res == hex_digit(n),
{
    if n < 10 {
        (48 + n) as char
    } else {
        (87 + n) as char
    }
}

proof fn lemma_hex_lower_push(bytes: Seq<u8>, b: u8)
    ensures
        hex_lower(bytes.push(b)) == hex_lower(bytes) + seq![hex_digit(b / 16), hex_digit(b % 16)],
    decreases bytes.len(),
{
    if bytes.len() == 0 {
        assert(bytes.push(b).drop_first() =~= Seq::<u8>::empty());
        assert(hex_lower(Seq::<u8>::empty()) =~= Seq::<char>::empty());
        assert(bytes.push(b)[0] == b);
        assert(hex_lower(bytes.push(b)) =~= hex_lower(bytes) + seq![hex_digit(b / 16), hex_digit(b % 16)]);
    } else {
        lemma_hex_lower_push(bytes.drop_first(), b);
        assert(bytes.push(b).drop_first() =~= bytes.drop_first().push(b));
        assert(hex_lower(bytes.push(b)) =~= hex_lower(bytes) + seq![hex_digit(b / 16), hex_digit(b % 16)]);
    }
}

proof fn lemma_hex_lower_shape(bytes: Seq<u8>)
    ensures
        hex_lower(bytes).len() == 2 * bytes.len(),
        forall|i: int|
            0 <= i < hex_lower(bytes).len() ==> (48 <= (#[trigger] hex_lower(bytes)[i]) as u32 <= 57
                || 97 <= (hex_lower(bytes)[i] as u32) <= 102),
    decreases bytes.len(),
{
    if bytes.len() > 0 {
        lemma_hex_lower_shape(bytes.drop_first());
        let h = hex_lower(bytes);
        let t = hex_lower(bytes.drop_first());
        assert forall|i: int| 0 <= i < h.len() implies (48 <= (#[trigger] h[i]) as u32 <= 57 || 97 <= (
        h[i] as u32) <= 102) by {
            if i >= 2 {
                assert(h[i] == t[i - 2]);
            }
        }
    }
}

/// The lowercase hex SHA-256 digest of a file's contents.
pub fn calculate_file_hash(contents: &[u8]) -> (res: String)
    ensures
        res@ == hex_lower(sha256(contents@)),
        res@.len() == 64,
        is_hex_text(res@),
{
    let digest = sha256_digest(contents);
    let mut out = String::new();
    let mut i: usize = 0;
    assert(digest@.take(0) =~= Seq::<u8>::empty());
    while i < 32
        invariant
            i <= 32 == digest@.len(),
            out@ == hex_lower(digest@.take(i as int)),
        decreases 32 - i,
    {
        let b = digest[i];
        push_char(&mut out, hex_digit_exec(b / 16));
        push_char(&mut out, hex_digit_exec(b % 16));
        proof {
            lemma_hex_lower_push(digest@.take(i as int), b);
            assert(digest@.take(i + 1) =~= digest@.take(i as int).push(b));
            assert(out@ =~= hex_lower(digest@.take(i + 1)));
        }
        i = i + 1;
    }
    assert(digest@.take(32) =~= digest@);
    proof {
        lemma_hex_lower_shape(digest@);
    }
    out
}

} // verus!
