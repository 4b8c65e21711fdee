//! Text helpers of the vault format: UTF-8 decoding, whitespace trimming,
//! line splitting and decimal numbers.
use vstd::prelude::*;
use vstd::utf8::*;

verus! {

broadcast use vstd::utf8::group_utf8_lib;

// ---------------------------------------------------------------------------
// Characters and whitespace
// ---------------------------------------------------------------------------

/// Unicode `White_Space`, the property that `str::trim` removes.
pub open spec fn is_unicode_whitespace(c: char) -> bool {
    let u = c as u32;
    ||| 0x9 <= u <= 0xd
    ||| u == 0x20
    ||| u == 0x85
    ||| u == 0xa0
    ||| u == 0x1680
    ||| 0x2000 <= u <= 0x200a
    ||| u == 0x2028
    ||| u == 0x2029
    ||| u == 0x202f
    ||| u == 0x205f
    ||| u == 0x3000
}

/// Whether `c` is Unicode whitespace.
pub fn char_is_whitespace(c: char) -> (res: bool)
    ensures
        res == is_unicode_whitespace(c),
{
    let u = c as u32;
    (0x9 <= u && u <= 0xd) || u == 0x20 || u == 0x85 || u == 0xa0 || u == 0x1680 || (0x2000 <= u
        && u <= 0x200a) || u == 0x2028 || u == 0x2029 || u == 0x202f || u == 0x205f || u == 0x3000
}

/// The text with leading whitespace removed.
pub open spec fn trim_start_chars(s: Seq<char>) -> Seq<char>
    decreases s.len(),
{
    if s.len() > 0 && is_unicode_whitespace(s[0]) {
        trim_start_chars(s.drop_first())
    } else {
        s
    }
}

/// The text with trailing whitespace removed.
pub open spec fn trim_end_chars(s: Seq<char>) -> Seq<char>
    decreases s.len(),
{
    if s.len() > 0 && is_unicode_whitespace(s.last()) {
        trim_end_chars(s.drop_last())
    } else {
        s
    }
}

/// The text with leading and trailing whitespace removed, as `str::trim` does.
pub open spec fn trim_chars(s: Seq<char>) -> Seq<char> {
    trim_end_chars(trim_start_chars(s))
}

/// The ASCII characters with the given codes.
pub open spec fn ascii_chars(b: Seq<u8>) -> Seq<char> {
    Seq::new(b.len(), |i: int| b[i] as char)
}

/// Every byte is an ASCII code.
pub open spec fn all_ascii(b: Seq<u8>) -> bool {
    forall|i: int| 0 <= i < b.len() ==> b[i] < 128
}

/// `String::push` from std: appends one character to a string, as its
/// documentation says.
#[verifier::external_body]
pub(crate) fn push_char(s: &mut String, c: char)
    ensures
        final(s)@ == old(s)@.push(c),
{
    s.push(c);
}

/// `String::from_utf8` from std: the text the bytes encode when they are
/// valid UTF-8, and nothing otherwise, as its documentation says.
#[verifier::external_body]
pub(crate) fn string_from_utf8(bytes: Vec<u8>) -> (res: Option<String>)
    ensures
        res is Some <==> valid_utf8(bytes@),
        res matches Some(s) ==> s@ == decode_utf8(bytes@),
{
    String::from_utf8(bytes).ok()
}

/// The characters of a string slice, in order.
pub fn chars_of(s: &str) -> (res: Vec<char>)
    ensures
        res@ == s@,
{
    let mut res: Vec<char> = Vec::new();
    for c in it: s.chars()
        invariant
            res@ == it.seq().take(it.index() as int),
    {
        res.push(c);
    }
    res
}

/// The string made of `cs[start..end]`.
pub fn string_from_chars(cs: &Vec<char>, start: usize, end: usize) -> (res: String)
    requires
        start <= end <= cs.len(),
    ensures
        res@ == cs@.subrange(start as int, end as int),
{
    let mut res = String::new();
    let mut i = start;
    while i < end
        invariant
            start <= i <= end <= cs.len(),
            res@ == cs@.subrange(start as int, i as int),
        decreases end - i,
    {
        push_char(&mut res, cs[i]);
        i = i + 1;
        assert(res@ =~= cs@.subrange(start as int, i as int));
    }
    res
}

/// Whether two strings hold the same characters.
pub fn str_equals(a: &str, b: &str) -> (res: bool)
    ensures
        res == (a@ == b@),
{
    let x = chars_of(a);
    let y = chars_of(b);
    if x.len() != y.len() {
        return false;
    }
    let mut i: usize = 0;
    while i < x.len()
        invariant
            i <= x@.len() == y@.len(),
            x@ == a@,
            y@ == b@,
            forall|k: int| 0 <= k < i ==> x@[k] == y@[k],
        decreases x@.len() - i,
    {
        if x[i] != y[i] {
            return false;
        }
        i = i + 1;
    }
    assert(x@ =~= y@);
    true
}

proof fn lemma_trim_start_skip(s: Seq<char>, i: int)
    requires
        0 <= i < s.len(),
        is_unicode_whitespace(s[i]),
    ensures
        trim_start_chars(s.skip(i)) == trim_start_chars(s.skip(i + 1)),
{
    assert(s.skip(i).drop_first() =~= s.skip(i + 1));
}

proof fn lemma_trim_end_take(s: Seq<char>, j: int)
    requires
        0 < j <= s.len(),
        is_unicode_whitespace(s[j - 1]),
    ensures
        trim_end_chars(s.take(j)) == trim_end_chars(s.take(j - 1)),
{
    assert(s.take(j).drop_last() =~= s.take(j - 1));
}

/// The string with leading and trailing Unicode whitespace removed.
pub fn trim(s: &str) -> (res: String)
    ensures
        res@ == trim_chars(s@),
{
    let cs = chars_of(s);
    let n = cs.len();
    let mut i: usize = 0;
    assert(cs@.skip(0) =~= cs@);
    while i < n && char_is_whitespace(cs[i])
        invariant
            i <= n == cs.len(),
            trim_start_chars(cs@) == trim_start_chars(cs@.skip(i as int)),
        decreases n - i,
    {
        proof {
            lemma_trim_start_skip(cs@, i as int);
        }
        i = i + 1;
    }
    let ghost rest = cs@.skip(i as int);
    assert(trim_start_chars(rest) == rest);
    let mut j: usize = n;
    assert(rest.take(rest.len() as int) =~= rest);
    while j > i && char_is_whitespace(cs[j - 1])
        invariant
            i <= j <= n == cs.len(),
            rest == cs@.skip(i as int),
            trim_end_chars(rest) == trim_end_chars(rest.take(j - i)),
        decreases j - i,
    {
        proof {
            lemma_trim_end_take(rest, (j - i) as int);
        }
        j = j - 1;
    }
    assert(trim_end_chars(rest.take(j - i)) == rest.take(j - i));
    assert(rest.take(j - i) =~= cs@.subrange(i as int, j as int));
    string_from_chars(&cs, i, j)
}

// ---------------------------------------------------------------------------
// Decimal numbers
// ---------------------------------------------------------------------------

/// A character among `0` to `9`.
pub open spec fn is_ascii_digit(c: char) -> bool {
    48 <= (c as u32) <= 57
}

/// Every character is an ASCII digit.
pub open spec fn all_digits(s: Seq<char>) -> bool {
    forall|i: int| 0 <= i < s.len() ==> is_ascii_digit(#[trigger] s[i])
}

/// The number that a string of decimal digits denotes.
pub open spec fn digits_value(s: Seq<char>) -> nat
    decreases s.len(),
{
    if s.len() == 0 {
        0
    } else {
        digits_value(s.drop_last()) * 10 + ((s.last() as u32) - 48) as nat
    }
}

/// What `str::parse::<usize>` gives: an optional `+`, then one or more
/// decimal digits, whose value fits in a `usize`.
pub open spec fn parse_usize_chars(s: Seq<char>) -> Option<usize> {
    let body = if s.len() > 0 && s[0] == '+' {
        s.drop_first()
    } else {
        s
    };
    if body.len() == 0 || !all_digits(body) || digits_value(body) > usize::MAX {
        None
    } else {
        Some(digits_value(body) as usize)
    }
}

proof fn lemma_digits_value_prefix(s: Seq<char>, k: int)
    requires
        0 <= k <= s.len(),
        all_digits(s),
    ensures
        digits_value(s.take(k)) <= digits_value(s),
    decreases s.len() - k,
{
    if k < s.len() {
        lemma_digits_value_prefix(s, k + 1);
        assert(s.take(k + 1).drop_last() =~= s.take(k));
        assert(is_ascii_digit(s[k]));
    } else {
        assert(s.take(k) =~= s);
    }
}

/// Parses the characters as `str::parse::<usize>` does.
pub fn parse_usize(s: &str) -> (res: Option<usize>)
    ensures
        res == parse_usize_chars(s@),
{
    let cs = chars_of(s);
    let n = cs.len();
    let start: usize = if n > 0 && cs[0] == '+' {
        1
    } else {
        0
    };
    let ghost body = if cs@.len() > 0 && cs@[0] == '+' {
        cs@.drop_first()
    } else {
        cs@
    };
    assert(body =~= cs@.subrange(start as int, n as int));
    if start == n {
        return None;
    }
    let mut value: usize = 0;
    let mut i = start;
    assert(body.take(0) =~= Seq::<char>::empty());
    while i < n
        invariant
            start <= i <= n == cs.len(),
            cs@ == s@,
            body == (if cs@.len() > 0 && cs@[0] == '+' {
                cs@.drop_first()
            } else {
                cs@
            }),
            body.len() > 0,
            body =~= cs@.subrange(start as int, n as int),
            all_digits(body.take(i - start)),
            value == digits_value(body.take(i - start)),
        decreases n - i,
    {
        let c = cs[i];
        let u = c as u32;
        if u < 48 || u > 57 {
            assert(body[i - start] == c);
            assert(!is_ascii_digit(body[i - start]));
            return None;
        }
        let d = (u - 48) as usize;
        let ghost k = (i - start) as int;
        assert(body.take(k + 1).drop_last() =~= body.take(k));
        assert(body.take(k + 1).last() == c);
        if value > (usize::MAX - d) / 10 {
            proof {
                assert(value * 10 + d > usize::MAX) by (nonlinear_arith)
                    requires
                        value > (usize::MAX - d) / 10,
                        d <= 9,
                ;
                assert(all_digits(body.take(k + 1)));
                if all_digits(body) {
                    lemma_digits_value_prefix(body, k + 1);
                    assert(body.take(k + 1).take(k + 1) =~= body.take(k + 1));
                }
            }
            return None;
        }
        assert(value * 10 + d <= usize::MAX) by (nonlinear_arith)
            requires
                value <= (usize::MAX - d) / 10,
                d <= 9,
        ;
        value = value * 10 + d;
        i = i + 1;
        assert(all_digits(body.take(i - start)));
    }
    assert(body.take(n - start) =~= body);
    Some(value)
}

/// The decimal digits of `n`, with no leading zero, as `usize::to_string` writes them.
pub open spec fn decimal_digits(n: nat) -> Seq<u8>
    decreases n,
{
    if n < 10 {
        seq![(48 + n) as u8]
    } else {
        decimal_digits(n / 10).push((48 + n % 10) as u8)
    }
}

/// Appends the decimal digits of `n`.
fn push_decimal(n: u64, out: &mut Vec<u8>)
    ensures
        final(out)@ == old(out)@ + decimal_digits(n as nat),
    decreases n,
{
    if n >= 10 {
        push_decimal(n / 10, out);
    }
    out.push((48 + n % 10) as u8);
    assert(final(out)@ =~= old(out)@ + decimal_digits(n as nat));
}

/// The decimal digits of `n`, as `n.to_string().as_bytes()` gives them.
pub fn u64_to_decimal(n: u64) -> (res: Vec<u8>)
    ensures
        res@ == decimal_digits(n as nat),
{
    let mut out: Vec<u8> = Vec::new();
    push_decimal(n, &mut out);
    assert(out@ =~= decimal_digits(n as nat));
    out
}

/// The decimal digits of `n`, as `n.to_string().as_bytes()` gives them.
pub fn usize_to_decimal(n: usize) -> (res: Vec<u8>)
    ensures
        res@ == decimal_digits(n as nat),
{
    u64_to_decimal(n as u64)
}

/// Appends the decimal digits of `n` to a string, as `format!` writes them.
pub fn append_decimal(s: &mut String, n: u64)
    ensures
        final(s)@ == old(s)@ + ascii_chars(decimal_digits(n as nat)),
{
    let digits = u64_to_decimal(n);
    let ghost start = s@;
    let mut i: usize = 0;
    while i < digits.len()
        invariant
            i <= digits@.len(),
            digits@ == decimal_digits(n as nat),
            s@ == start + ascii_chars(digits@.take(i as int)),
        decreases digits@.len() - i,
    {
        push_char(s, digits[i] as char);
        assert(ascii_chars(digits@.take(i + 1)) =~= ascii_chars(digits@.take(i as int)).push(
            digits@[i as int] as char,
        ));
        i = i + 1;
    }
    assert(digits@.take(digits@.len() as int) =~= digits@);
}

// ---------------------------------------------------------------------------
// Byte vectors as text
// ---------------------------------------------------------------------------

/// The text that `vec_to_string` makes of `bytes`: its UTF-8 decoding, trimmed.
pub open spec fn vec_to_string_spec(bytes: Seq<u8>) -> Option<Seq<char>> {
    if valid_utf8(bytes) {
        Some(trim_chars(decode_utf8(bytes)))
    } else {
        None
    }
}

/// The number that `vec_to_usize` reads from `bytes`.
pub open spec fn vec_to_usize_spec(bytes: Seq<u8>) -> Option<usize> {
    match vec_to_string_spec(bytes) {
        Some(s) => parse_usize_chars(s),
        None => None,
    }
}

// ---------------------------------------------------------------------------
// Lines
// ---------------------------------------------------------------------------

/// Index of the first `'\n'`, or the length when there is none.
pub open spec fn newline_index(s: Seq<char>) -> nat
    decreases s.len(),
{
    if s.len() == 0 {
        0
    } else if s[0] == '\n' {
        0
    } else {
        1 + newline_index(s.drop_first())
    }
}

/// The line without one trailing `'\r'`.
pub open spec fn strip_cr(line: Seq<char>) -> Seq<char> {
    if line.len() > 0 && line.last() == '\r' {
        line.drop_last()
    } else {
        line
    }
}

/// The lines of a text, as `str::lines` yields them: split at `'\n'`, a
/// `'\r'` before it dropped, and no empty line after a final `'\n'`.
pub open spec fn lines_chars(s: Seq<char>) -> Seq<Seq<char>>
    decreases s.len(),
{
    if s.len() == 0 {
        seq![]
    } else {
        let i = newline_index(s) as int;
        if i >= s.len() {
            seq![s]
        } else {
            seq![strip_cr(s.take(i))] + lines_chars(s.skip(i + 1))
        }
    }
}

pub proof fn lemma_newline_index(s: Seq<char>, k: int)
    requires
        0 <= k <= s.len(),
        forall|j: int| 0 <= j < k ==> s[j] != '\n',
        k == s.len() || s[k] == '\n',
    ensures
        newline_index(s) == k,
    decreases k,
{
    if k > 0 {
        lemma_newline_index(s.drop_first(), k - 1);
    }
}

/// The lines of the text, as `str::lines` yields them.
pub fn lines(s: &str) -> (res: Vec<String>)
    ensures
        res@.len() == lines_chars(s@).len(),
        forall|i: int| 0 <= i < res@.len() ==> #[trigger] res@[i]@ == lines_chars(s@)[i],
{
    let cs = chars_of(s);
    let n = cs.len();
    let mut res: Vec<String> = Vec::new();
    let mut start: usize = 0;
    let mut i: usize = 0;
    let ghost done: Seq<Seq<char>> = seq![];
    assert(cs@.skip(0) =~= cs@);
    while i < n
        invariant
            start <= i <= n == cs.len(),
            cs@ == s@,
            res@.len() == done.len(),
            forall|k: int| 0 <= k < res@.len() ==> #[trigger] res@[k]@ == done[k],
            lines_chars(cs@) == done + lines_chars(cs@.skip(start as int)),
            forall|j: int| start <= j < i ==> cs@[j] != '\n',
        decreases n - i,
    {
        if cs[i] == '\n' {
            let ghost rest = cs@.skip(start as int);
            proof {
                lemma_newline_index(rest, (i - start) as int);
                assert(rest.take(i - start) =~= cs@.subrange(start as int, i as int));
                assert(rest.skip(i - start + 1) =~= cs@.skip(i + 1));
            }
            let end = if i > start && cs[i - 1] == '\r' {
                i - 1
            } else {
                i
            };
            assert(cs@.subrange(start as int, end as int) =~= strip_cr(rest.take(i - start)));
            let line = string_from_chars(&cs, start, end);
            res.push(line);
            proof {
                done = done.push(strip_cr(rest.take(i - start)));
                assert(seq![strip_cr(rest.take(i - start))] + lines_chars(cs@.skip(i + 1))
                    == lines_chars(rest));
                assert(done + lines_chars(cs@.skip(i + 1)) =~= done.drop_last() + (seq![
                    strip_cr(rest.take(i - start)),
                ] + lines_chars(cs@.skip(i + 1))));
            }
            start = i + 1;
        }
        i = i + 1;
    }
    if start < n {
        let ghost rest = cs@.skip(start as int);
        proof {
            lemma_newline_index(rest, (n - start) as int);
            assert(rest =~= cs@.subrange(start as int, n as int));
        }
        let line = string_from_chars(&cs, start, n);
        res.push(line);
        proof {
            done = done.push(rest);
        }
    } else {
        assert(cs@.skip(start as int) =~= Seq::<char>::empty());
    }
    assert(lines_chars(cs@) =~= done);
    res
}

// ---------------------------------------------------------------------------
// Facts about ASCII text
// ---------------------------------------------------------------------------

/// ASCII bytes are valid UTF-8 and decode to the characters with those codes.
pub proof fn lemma_ascii_decode(b: Seq<u8>)
    requires
        all_ascii(b),
    ensures
        valid_utf8(b),
        decode_utf8(b) == ascii_chars(b),
        encode_utf8(ascii_chars(b)) == b,
{
    let cs = ascii_chars(b);
    assert(is_ascii_chars(cs)) by {
        assert forall|i: int| 0 <= i < cs.len() implies '\0' <= #[trigger] cs[i] <= '\u{7f}' by {
            assert(b[i] < 128);
        }
    }
    is_ascii_chars_encode_utf8(cs);
    assert forall|i: int| 0 <= i < b.len() implies encode_utf8(cs)[i] == b[i] by {
        assert(cs[i] as u8 == encode_utf8(cs)[i]);
        assert((b[i] as char) as u8 == b[i]);
    }
    assert(encode_utf8(cs) =~= b);
    encode_utf8_valid_utf8(cs);
    encode_utf8_decode_utf8(cs);
}

/// The UTF-8 encoding of a concatenation is the concatenation of the encodings.
pub proof fn lemma_encode_utf8_concat(a: Seq<char>, b: Seq<char>)
    ensures
        encode_utf8(a + b) == encode_utf8(a) + encode_utf8(b),
    decreases a.len(),
{
    if a.len() == 0 {
        assert(a + b =~= b);
        assert(encode_utf8(a) + encode_utf8(b) =~= encode_utf8(b));
    } else {
        assert((a + b).drop_first() =~= a.drop_first() + b);
        lemma_encode_utf8_concat(a.drop_first(), b);
        assert(encode_utf8(a + b) =~= encode_utf8(a) + encode_utf8(b));
    }
}

/// The bytes of `decimal_digits` are ASCII digits.
pub proof fn lemma_decimal_digits_shape(n: nat)
    ensures
        decimal_digits(n).len() >= 1,
        forall|i: int|
            0 <= i < decimal_digits(n).len() ==> 48 <= #[trigger] decimal_digits(n)[i] <= 57,
    decreases n,
{
    if n >= 10 {
        lemma_decimal_digits_shape(n / 10);
    }
}

/// The decimal digits of `n`, as characters, are digits that denote `n`.
pub proof fn lemma_decimal_digits_value(n: nat)
    ensures
        digits_value(ascii_chars(decimal_digits(n))) == n,
        all_digits(ascii_chars(decimal_digits(n))),
    decreases n,
{
    lemma_decimal_digits_shape(n);
    let cs = ascii_chars(decimal_digits(n));
    if n >= 10 {
        lemma_decimal_digits_value(n / 10);
        assert(cs.drop_last() =~= ascii_chars(decimal_digits(n / 10)));
        assert(decimal_digits(n).last() == (48 + n % 10) as u8);
        assert((cs.last() as u32) == 48 + n % 10);
        assert(digits_value(cs) == (n / 10) * 10 + n % 10);
        assert((n / 10) * 10 + n % 10 == n) by (nonlinear_arith);
        assert(digits_value(cs) == n);
    } else {
        assert(cs.drop_last() =~= Seq::<char>::empty());
        assert((cs.last() as u32) == 48 + n);
        assert(digits_value(cs.drop_last()) == 0);
        assert(digits_value(cs) == n);
    }
    assert forall|i: int| 0 <= i < cs.len() implies is_ascii_digit(#[trigger] cs[i]) by {
        assert(48 <= decimal_digits(n)[i] <= 57);
    }
}

/// A length field, the decimal digits followed by a space, reads back as the number.
pub proof fn lemma_decimal_field_roundtrip(n: usize)
    ensures
        vec_to_usize_spec(decimal_digits(n as nat).push(32u8)) == Some(n),
{
    let d = decimal_digits(n as nat);
    let b = d.push(32u8);
    lemma_decimal_digits_shape(n as nat);
    lemma_decimal_digits_value(n as nat);
    assert(all_ascii(b)) by {
        assert forall|i: int| 0 <= i < b.len() implies b[i] < 128 by {
            if i < d.len() {
                assert(d[i] <= 57);
            }
        }
    }
    lemma_ascii_decode(b);
    let cs = ascii_chars(b);
    let ds = ascii_chars(d);
    assert(!is_unicode_whitespace(cs[0])) by {
        assert(48 <= d[0] <= 57);
    }
    assert(trim_start_chars(cs) == cs);
    assert(cs.drop_last() =~= ds);
    assert(is_unicode_whitespace(cs.last()));
    assert(!is_unicode_whitespace(ds.last())) by {
        assert(48 <= d[d.len() - 1] <= 57);
    }
    assert(trim_end_chars(ds) == ds);
    assert(trim_chars(cs) == ds);
    assert(ds[0] != '+') by {
        assert(48 <= d[0] <= 57);
    }
}

} // verus!
