//! Text helpers: the file-name slug used in object keys, and the
//! case-insensitive substring match behind the name filter.

use vstd::prelude::*;

verus! {

/// Whether a character passes into an object-key slug unchanged: ASCII
/// letters, digits, dot, dash and underscore.
pub open spec fn slug_keeps(c: char) -> bool {
    ('a' <= c && c <= 'z') || ('A' <= c && c <= 'Z') || ('0' <= c && c <= '9') || c == '.' || c
        == '-' || c == '_'
}

/// One character of the slug: kept, or replaced by an underscore.
pub open spec fn slug_char(c: char) -> char {
    if slug_keeps(c) {
        c
    } else {
        '_'
    }
}

/// The slug of a file name: the same length, every character either kept or
/// replaced by an underscore. It never contains a path separator.
pub open spec fn slug_of(name: Seq<char>) -> Seq<char> {
    name.map_values(|c: char| slug_char(c))
}

/// Build the slug of a file name.
pub fn slug(name: &str) -> (r: String)
    ensures
        r@ == slug_of(name@),
{
    let n = name.unicode_len();
    let mut out = String::new();
    proof {
        reveal_strlit("_");
        assert(out@ =~= slug_of(name@.take(0)));
    }
    let mut i: usize = 0;
    while i < n
        invariant
            n == name@.len(),
            i <= n,
            out@ == slug_of(name@.take(i as int)),
        decreases n - i,
    {
        let c = name.get_char(i);
        if ('a' <= c && c <= 'z') || ('A' <= c && c <= 'Z') || ('0' <= c && c <= '9') || c == '.'
            || c == '-' || c == '_' {
            let piece = name.substring_char(i, i + 1);
            out.append(piece);
        } else {
            out.append("_");
            proof {
                reveal_strlit("_");
            }
        }
        proof {
            assert(name@.take(i + 1) =~= name@.take(i as int).push(name@[i as int]));
            assert(slug_of(name@.take(i + 1)) =~= slug_of(name@.take(i as int)).push(
                slug_char(name@[i as int])));
            if slug_keeps(name@[i as int]) {
                assert(name@.subrange(i as int, i + 1) =~= seq![name@[i as int]]);
                assert(out@ =~= slug_of(name@.take(i + 1)));
            } else {
                assert("_"@ =~= seq!['_']);
                assert(out@ =~= slug_of(name@.take(i + 1)));
            }
        }
        i = i + 1;
    }
    proof {
        assert(name@.take(n as int) =~= name@);
    }
    out
}

/// Whether `p` is a prefix of `s`.
pub open spec fn starts_with(s: Seq<char>, p: Seq<char>) -> bool {
    p.len() <= s.len() && s.subrange(0, p.len() as int) == p
}

/// Prefix test on strings.
pub fn str_starts_with(s: &str, p: &str) -> (r: bool)
    ensures
        r == starts_with(s@, p@),
{
    let n = s.unicode_len();
    let m = p.unicode_len();
    if m > n {
        return false;
    }
    let mut i: usize = 0;
    while i < m
        invariant
            n == s@.len(),
            m == p@.len(),
            m <= n,
            i <= m,
            forall|k: int| 0 <= k < i ==> s@[k] == p@[k],
        decreases m - i,
    {
        if s.get_char(i) != p.get_char(i) {
            assert(s@.subrange(0, p@.len() as int)[i as int] != p@[i as int]);
            return false;
        }
        i = i + 1;
    }
    proof {
        assert(s@.subrange(0, p@.len() as int) =~= p@);
    }
    true
}

/// ASCII case folding of one character.
pub open spec fn lower_char(c: char) -> char {
    if 'A' <= c && c <= 'Z' {
        ((c as u32) + 32) as char
    } else {
        c
    }
}

/// Whether two characters are equal up to ASCII case.
fn char_eq_ci(a: char, b: char) -> (r: bool)
    ensures
        r == (lower_char(a) == lower_char(b)),
{
    let la: u32 = if 'A' <= a && a <= 'Z' {
        (a as u32) + 32
    } else {
        a as u32
    };
    let lb: u32 = if 'A' <= b && b <= 'Z' {
        (b as u32) + 32
    } else {
        b as u32
    };
    la == lb
}

/// Whether `needle` occurs at position `i` of `hay`, up to ASCII case.
pub open spec fn matches_at(hay: Seq<char>, needle: Seq<char>, i: int) -> bool {
    forall|j: int|
        0 <= j < needle.len() ==> lower_char(hay[i + j]) == lower_char(#[trigger] needle[j])
}

/// Whether `needle` occurs anywhere in `hay`, up to ASCII case: the meaning
/// of the name filter.
pub open spec fn spec_contains_ci(hay: Seq<char>, needle: Seq<char>) -> bool {
    exists|i: int| 0 <= i && i + needle.len() <= hay.len() && matches_at(hay, needle, i)
}

fn match_at(hay: &str, needle: &str, i: usize, n: usize, m: usize) -> (r: bool)
    requires
        n == hay@.len(),
        m == needle@.len(),
        i + m <= n,
    ensures
        r == matches_at(hay@, needle@, i as int),
{
    let mut j: usize = 0;
    while j < m
        invariant
            n == hay@.len(),
            m == needle@.len(),
            i + m <= n,
            j <= m,
            forall|k: int|
                0 <= k < j ==> lower_char(hay@[i + k]) == lower_char(#[trigger] needle@[k]),
        decreases m - j,
    {
        let hc = hay.get_char(i + j);
        let nc = needle.get_char(j);
        if !char_eq_ci(hc, nc) {
            return false;
        }
        j = j + 1;
    }
    true
}

/// Case-insensitive substring test.
pub fn contains_ci(hay: &str, needle: &str) -> (r: bool)
    ensures
        r == spec_contains_ci(hay@, needle@),
{
    let n = hay.unicode_len();
    let m = needle.unicode_len();
    if m > n {
        return false;
    }
    let mut i: usize = 0;
    while i <= n - m
        invariant
            n == hay@.len(),
            m == needle@.len(),
            m <= n,
            i <= n - m + 1,
            forall|k: int| 0 <= k < i ==> !matches_at(hay@, needle@, k),
        decreases n - m + 1 - i,
    {
        if match_at(hay, needle, i, n, m) {
            return true;
        }
        i = i + 1;
    }
    false
}

} // verus!
