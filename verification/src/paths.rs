//! Paths given as text, and their extensions.
use vstd::prelude::*;

verus! {

/// The index of the last `/` in `p`, or -1 when there is none.
pub open spec fn last_slash(p: Seq<char>) -> int
    decreases p.len(),
{
    if p.len() == 0 {
        -1
    } else if p.last() == '/' {
        p.len() - 1
    } else {
        last_slash(p.drop_last())
    }
}

/// A separator of path components on some platform: `/`, or `\` on Windows.
pub open spec fn is_sep(c: char) -> bool {
    c == '/' || c == '\\'
}

/// The index of the last separator (`/` or `\`) in `p`, or -1 when there is
/// none.
pub open spec fn last_sep(p: Seq<char>) -> int
    decreases p.len(),
{
    if p.len() == 0 {
        -1
    } else if is_sep(p.last()) {
        p.len() - 1
    } else {
        last_sep(p.drop_last())
    }
}

/// What follows the last separator of a path: its file name when the path is
/// plain.
pub open spec fn final_segment(p: Seq<char>) -> Seq<char> {
    p.skip(last_sep(p) + 1)
}

/// The path up to and including its last separator.
pub open spec fn dir_part(p: Seq<char>) -> Seq<char> {
    p.take(last_sep(p) + 1)
}

/// A path whose file name, stem and extension are the same on every
/// platform, whether `\` separates components (Windows) or not (Unix):
/// - it does not start with two separators (a Windows network or device
///   prefix);
/// - its final segment, after the last `/` or `\`, is not empty, `.` or
///   `..`, and has no `:` (so it is not, or does not hold, a drive prefix);
///   it is then the file name on Windows;
/// - on Unix, where only `/` separates, the file name is what follows the
///   last `/`; its last `.` is the same as in the final segment: either no
///   `\` follows the last `/`, or the last `.` of the path lies inside the
///   final segment after its first character, or it lies before the last `/`.
pub open spec fn is_plain_path(p: Seq<char>) -> bool {
    let q = last_sep(p);
    let d = last_dot(p);
    &&& !(p.len() >= 2 && is_sep(p[0]) && is_sep(p[1]))
    &&& final_segment(p).len() > 0
    &&& final_segment(p) != seq!['.']
    &&& final_segment(p) != seq!['.', '.']
    &&& forall|i: int| 0 <= i < final_segment(p).len() ==> final_segment(p)[i] != ':'
    &&& (q == last_slash(p) || d > q + 1 || d <= last_slash(p))
}

/// The index of the last `.` in `f`, or -1 when there is none.
pub open spec fn last_dot(f: Seq<char>) -> int
    decreases f.len(),
{
    if f.len() == 0 {
        -1
    } else if f.last() == '.' {
        f.len() - 1
    } else {
        last_dot(f.drop_last())
    }
}

/// The extension of a file name, as `Path::extension` documents it: none
/// when there is no `.`, or the only `.` starts the name; otherwise what
/// follows the last `.`.
pub open spec fn name_extension(f: Seq<char>) -> Option<Seq<char>> {
    if last_dot(f) >= 1 {
        Some(f.skip(last_dot(f) + 1))
    } else {
        None
    }
}

/// The stem of a file name, as `Path::file_stem` documents it: the whole
/// name when it has no extension, otherwise what comes before the last `.`.
pub open spec fn name_stem(f: Seq<char>) -> Seq<char> {
    if last_dot(f) >= 1 {
        f.take(last_dot(f))
    } else {
        f
    }
}

/// A file name with its extension set to `e`: the stem, then `.` and `e`
/// unless `e` is empty.
pub open spec fn with_extension(f: Seq<char>, e: Seq<char>) -> Seq<char> {
    if e.len() == 0 {
        name_stem(f)
    } else {
        name_stem(f) + seq!['.'] + e
    }
}

/// The extension of a path: that of its file name.
pub open spec fn path_extension_of(p: Seq<char>) -> Option<Seq<char>> {
    name_extension(final_segment(p))
}

/// A path with the extension of its file name set to `e`.
pub open spec fn path_with_extension(p: Seq<char>, e: Seq<char>) -> Seq<char> {
    dir_part(p) + with_extension(final_segment(p), e)
}

/// `PathBuf::set_extension` from std, on a path given as text: the path with
/// its extension replaced by `extension` (added where it has none, removed
/// where `extension` is empty). Its documentation makes the path up to the
/// file stem, then `.` and the extension; stated for a plain path, whose file
/// name, stem and extension are the same on Unix and on Windows. Of other
/// paths, where they differ between platforms, nothing is stated. An
/// extension with a separator in it is refused (the call panics on it).
#[verifier::external_body]
pub(crate) fn set_extension(path: &str, extension: &str) -> (res: String)
    requires
        forall|i: int| 0 <= i < extension@.len() ==> extension@[i] != '/' && extension@[i] != '\\',
    ensures
        is_plain_path(path@) ==> res@ == path_with_extension(path@, extension@),
{
    let mut p = std::path::PathBuf::from(path);
    p.set_extension(extension);
    p.to_string_lossy().into_owned()
}

/// `Path::extension` from std, on a path given as text: the part of the last
/// component after its last dot, if there is one, as its documentation
/// describes it; stated for a plain path, whose file name and extension are
/// the same on Unix and on Windows. Of other paths, where they differ between
/// platforms, nothing is stated.
#[verifier::external_body]
pub(crate) fn path_extension(path: &str) -> (res: Option<String>)
    ensures
        is_plain_path(path@) ==> match res {
            Some(e) => path_extension_of(path@) == Some(e@),
            None => path_extension_of(path@) is None,
        },
{
    match std::path::Path::new(path).extension() {
        Some(e) => Some(e.to_string_lossy().into_owned()),
        None => None,
    }
}


// ---------------------------------------------------------------------------
// Setting an extension
// ---------------------------------------------------------------------------

proof fn lemma_last_sep_bounds(p: Seq<char>)
    ensures
        -1 <= last_sep(p) < p.len(),
        last_sep(p) >= 0 ==> is_sep(p[last_sep(p)]),
        forall|j: int| last_sep(p) < j < p.len() ==> !is_sep(#[trigger] p[j]),
    decreases p.len(),
{
    if p.len() > 0 && !is_sep(p.last()) {
        lemma_last_sep_bounds(p.drop_last());
        assert forall|j: int| last_sep(p) < j < p.len() implies !is_sep(#[trigger] p[j]) by {
            if j < p.len() - 1 {
                assert(p[j] == p.drop_last()[j]);
            }
        }
    }
}

proof fn lemma_last_sep_at(p: Seq<char>, k: int)
    requires
        -1 <= k < p.len(),
        k >= 0 ==> is_sep(p[k]),
        forall|j: int| k < j < p.len() ==> !is_sep(#[trigger] p[j]),
    ensures
        last_sep(p) == k,
    decreases p.len(),
{
    if p.len() > 0 && k < p.len() - 1 {
        assert(!is_sep(p[p.len() - 1]));
        assert forall|j: int| k < j < p.drop_last().len() implies !is_sep(#[trigger] p.drop_last()[j]) by {
            assert(p.drop_last()[j] == p[j]);
        }
        if k >= 0 {
            assert(p.drop_last()[k] == p[k]);
        }
        lemma_last_sep_at(p.drop_last(), k);
    }
}

proof fn lemma_last_dot_bounds(p: Seq<char>)
    ensures
        -1 <= last_dot(p) < p.len(),
        last_dot(p) >= 0 ==> p[last_dot(p)] == '.',
        forall|j: int| last_dot(p) < j < p.len() ==> #[trigger] p[j] != '.',
    decreases p.len(),
{
    if p.len() > 0 && p.last() != '.' {
        lemma_last_dot_bounds(p.drop_last());
        assert forall|j: int| last_dot(p) < j < p.len() implies #[trigger] p[j] != '.' by {
            if j < p.len() - 1 {
                assert(p[j] == p.drop_last()[j]);
            }
        }
    }
}

proof fn lemma_last_dot_at(p: Seq<char>, k: int)
    requires
        -1 <= k < p.len(),
        k >= 0 ==> p[k] == '.',
        forall|j: int| k < j < p.len() ==> #[trigger] p[j] != '.',
    ensures
        last_dot(p) == k,
    decreases p.len(),
{
    if p.len() > 0 && k < p.len() - 1 {
        assert(p[p.len() - 1] != '.');
        assert forall|j: int| k < j < p.drop_last().len() implies #[trigger] p.drop_last()[j] != '.' by {
            assert(p.drop_last()[j] == p[j]);
        }
        if k >= 0 {
            assert(p.drop_last()[k] == p[k]);
        }
        lemma_last_dot_at(p.drop_last(), k);
    }
}

/// Setting the extension of a plain path to `e` (not empty, with no `.`,
/// separator or `:`) keeps everything before the path's extension and puts
/// `.` and `e` after it: where the path had an extension `x` it was that same
/// base followed by `.` and `x`, and where it had none the base is the path
/// itself. The result is again a plain path; its extension reads back as
/// `e`, and removing it gives the base back.
pub proof fn law_set_extension(p: Seq<char>, e: Seq<char>)
    requires
        is_plain_path(p),
        e.len() > 0,
        forall|i: int| 0 <= i < e.len() ==> e[i] != '.' && !is_sep(e[i]) && e[i] != ':',
    ensures
        ({
            let base = path_with_extension(p, Seq::<char>::empty());
            let r = path_with_extension(p, e);
            &&& r == base + seq!['.'] + e
            &&& match path_extension_of(p) {
                Some(x) => p == base + seq!['.'] + x,
                None => base == p,
            }
            &&& is_plain_path(r)
            &&& path_extension_of(r) == Some(e)
            &&& path_with_extension(r, Seq::<char>::empty()) == base
        }),
{
    let q = last_sep(p);
    lemma_last_sep_bounds(p);
    let d = dir_part(p);
    let s = final_segment(p);
    assert(p =~= d + s);
    assert forall|i: int| 0 <= i < s.len() implies !is_sep(#[trigger] s[i]) by {
        assert(s[i] == p[q + 1 + i]);
    }
    lemma_last_dot_bounds(s);
    let ds = last_dot(s);
    let stem = name_stem(s);
    assert(stem.len() >= 1);
    assert forall|i: int| 0 <= i < stem.len() implies #[trigger] stem[i] == s[i] by {}
    let t = with_extension(s, e);
    assert(t =~= stem + seq!['.'] + e);
    let base = path_with_extension(p, Seq::<char>::empty());
    assert(base =~= d + stem);
    let r = path_with_extension(p, e);
    assert(r =~= base + seq!['.'] + e);
    assert(r =~= d + t);
    // what the path was
    if ds >= 1 {
        assert(s =~= s.take(ds) + seq!['.'] + s.skip(ds + 1));
        assert(p =~= base + seq!['.'] + s.skip(ds + 1));
    } else {
        assert(base =~= p);
    }
    // the characters of the new file name
    assert forall|i: int| 0 <= i < t.len() implies !is_sep(#[trigger] t[i]) && t[i] != ':' by {
        if i < stem.len() {
            assert(t[i] == s[i]);
        } else if i > stem.len() {
            assert(t[i] == e[i - stem.len() - 1]);
        }
    }
    // the result's last separator, file name and directory
    assert forall|j: int| q < j < r.len() implies !is_sep(#[trigger] r[j]) by {
        assert(r[j] == t[j - q - 1]);
    }
    if q >= 0 {
        assert(r[q] == p[q]);
    }
    lemma_last_sep_at(r, q);
    assert(final_segment(r) =~= t);
    assert(dir_part(r) =~= d);
    // the result's extension
    assert forall|j: int| stem.len() < j < t.len() implies #[trigger] t[j] != '.' by {
        assert(t[j] == e[j - stem.len() - 1]);
    }
    lemma_last_dot_at(t, stem.len() as int);
    assert(t.skip(stem.len() + 1int) =~= e);
    assert(t.take(stem.len() as int) =~= stem);
    assert(with_extension(t, Seq::<char>::empty()) =~= stem);
    // the result is plain
    let k = q + 1 + stem.len();
    assert forall|j: int| k < j < r.len() implies #[trigger] r[j] != '.' by {
        assert(r[j] == e[j - k - 1]);
    }
    assert(r[k] == '.');
    lemma_last_dot_at(r, k);
    if r.len() >= 2 && is_sep(r[0]) && is_sep(r[1]) {
        if q >= 1 {
            assert(r[0] == p[0] && r[1] == p[1]);
        } else if q == 0 {
            assert(r[1] == t[0]);
        } else {
            assert(r[0] == t[0]);
        }
    }
    assert(t.len() >= 3);
    assert(t != seq!['.']);
    assert(t != seq!['.', '.']);
}

} // verus!
