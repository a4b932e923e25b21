//! Small verified helpers on strings: equality, code-point order, blank checks.
use vstd::prelude::*;

verus! {

/// Whether `c` is a white-space character in the sense of Unicode's `White_Space` property.
pub open spec fn is_space(c: char) -> bool {
    ||| c == ' '
    ||| c == '\t'
    ||| c == '\n'
    ||| c == '\u{0B}'
    ||| c == '\u{0C}'
    ||| c == '\r'
    ||| c == '\u{85}'
    ||| c == '\u{A0}'
    ||| c == '\u{1680}'
    ||| ('\u{2000}' <= c && c <= '\u{200A}')
    ||| c == '\u{2028}'
    ||| c == '\u{2029}'
    ||| c == '\u{202F}'
    ||| c == '\u{205F}'
    ||| c == '\u{3000}'
}

/// A name is blank when nothing but white space is left after trimming it.
pub open spec fn is_blank(s: Seq<char>) -> bool {
    forall|i: int| 0 <= i < s.len() ==> is_space(#[trigger] s[i])
}

/// Whether `s` holds a path separator.
pub open spec fn has_separator(s: Seq<char>) -> bool {
    exists|i: int| 0 <= i < s.len() && (s[i] == '/' || s[i] == '\\')
}

/// A name that may stand as one segment of a path: not blank, no separator,
/// and neither of the names `.` and `..` that every directory holds.
pub open spec fn is_path_segment(s: Seq<char>) -> bool {
    !is_blank(s) && !has_separator(s) && s != "."@ && s != ".."@
}

/// Strict lexicographic order on strings, by code point.
pub open spec fn lex_lt(a: Seq<char>, b: Seq<char>) -> bool
    decreases a.len(),
{
    if a.len() == 0 {
        b.len() > 0
    } else if b.len() == 0 {
        false
    } else if a[0] != b[0] {
        a[0] < b[0]
    } else {
        lex_lt(a.drop_first(), b.drop_first())
    }
}

pub fn char_is_space(c: char) -> (r: bool)
    ensures
        r == is_space(c),
{
    c == ' ' || c == '\t' || c == '\n' || c == '\u{0B}' || c == '\u{0C}' || c == '\r' || c
        == '\u{85}' || c == '\u{A0}' || c == '\u{1680}' || ('\u{2000}' <= c && c <= '\u{200A}')
        || c == '\u{2028}' || c == '\u{2029}' || c == '\u{202F}' || c == '\u{205F}' || c
        == '\u{3000}'
}

/// Character-wise equality of two string slices.
pub fn str_eq(a: &str, b: &str) -> (r: bool)
    ensures
        r == (a@ == b@),
{
    let n = a.unicode_len();
    if n != b.unicode_len() {
        return false;
    }
    let mut i: usize = 0;
    while i < n
        invariant
            n == a@.len(),
            n == b@.len(),
            i <= n,
            forall|k: int| 0 <= k < i ==> a@[k] == b@[k],
        decreases n - i,
    {
        if a.get_char(i) != b.get_char(i) {
            return false;
        }
        i = i + 1;
    }
    assert(a@ =~= b@);
    true
}

/// Whether `s` may stand as one segment of a path: not blank, no separator.
pub fn check_path_segment(s: &str) -> (r: bool)
    ensures
        r == is_path_segment(s@),
{
    let n = s.unicode_len();
    let mut blank = true;
    let mut separator = false;
    let mut i: usize = 0;
    while i < n
        invariant
            n == s@.len(),
            i <= n,
            blank == (forall|k: int| 0 <= k < i ==> is_space(#[trigger] s@[k])),
            separator == (exists|k: int| 0 <= k < i && (s@[k] == '/' || s@[k] == '\\')),
        decreases n - i,
    {
        let c = s.get_char(i);
        if !char_is_space(c) {
            blank = false;
        }
        if c == '/' || c == '\\' {
            separator = true;
        }
        i = i + 1;
    }
    !blank && !separator && !str_eq(s, ".") && !str_eq(s, "..")
}

/// Code-point order on strings.
pub fn string_lt(a: &str, b: &str) -> (r: bool)
    ensures
        r == lex_lt(a@, b@),
{
    let na = a.unicode_len();
    let nb = b.unicode_len();
    let mut i: usize = 0;
    proof {
        assert(a@.skip(0) =~= a@);
        assert(b@.skip(0) =~= b@);
    }
    while i < na && i < nb
        invariant
            na == a@.len(),
            nb == b@.len(),
            i <= na,
            i <= nb,
            forall|k: int| 0 <= k < i ==> a@[k] == b@[k],
            lex_lt(a@, b@) == lex_lt(a@.skip(i as int), b@.skip(i as int)),
        decreases na - i,
    {
        let ca = a.get_char(i);
        let cb = b.get_char(i);
        if ca != cb {
            return ca < cb;
        }
        proof {
            assert(a@.skip(i as int).drop_first() =~= a@.skip(i as int + 1));
            assert(b@.skip(i as int).drop_first() =~= b@.skip(i as int + 1));
        }
        i = i + 1;
    }
    i < nb && i >= na
}

} // verus!
