//! String primitives shared by the URL rules: prefix and substring tests,
//! lowercasing and trimming, each with its meaning over `Seq<char>`.

use vstd::prelude::*;

verus! {

/// `pat` occurs in `s` starting at position `i`.
pub open spec fn occurs_at(s: Seq<char>, pat: Seq<char>, i: int) -> bool {
    &&& 0 <= i
    &&& i + pat.len() <= s.len()
    &&& s.subrange(i, i + pat.len()) == pat
}

/// `pat` occurs somewhere in `s`.
pub open spec fn has_substring(s: Seq<char>, pat: Seq<char>) -> bool {
    exists|i: int| occurs_at(s, pat, i)
}

/// `s` begins with `pat`.
pub open spec fn has_prefix(s: Seq<char>, pat: Seq<char>) -> bool {
    occurs_at(s, pat, 0)
}

/// What `str::to_lowercase` returns for a string with these characters: its
/// lowercase equivalent under the Unicode case mappings.
pub uninterp spec fn lowercase_of(s: Seq<char>) -> Seq<char>;

/// The characters with the Unicode property `White_Space`, which are those
/// that `char::is_whitespace` accepts.
pub open spec fn is_whitespace(c: char) -> bool {
    ||| '\u{9}' <= c <= '\u{d}'
    ||| c == ' '
    ||| c == '\u{85}'
    ||| c == '\u{a0}'
    ||| c == '\u{1680}'
    ||| '\u{2000}' <= c <= '\u{200a}'
    ||| c == '\u{2028}'
    ||| c == '\u{2029}'
    ||| c == '\u{202f}'
    ||| c == '\u{205f}'
    ||| c == '\u{3000}'
}

/// A control character of the set C0, or a space: what a URL parser ignores
/// at the front of a reference.
pub open spec fn is_blank(c: char) -> bool {
    c <= ' '
}

/// Number of blank characters at the front of `s`.
pub open spec fn leading_blanks(s: Seq<char>) -> nat
    decreases s.len(),
{
    if s.len() > 0 && is_blank(s[0]) {
        1 + leading_blanks(s.subrange(1, s.len() as int))
    } else {
        0
    }
}

/// `s` without the blank characters at its front.
pub open spec fn without_leading_blanks(s: Seq<char>) -> Seq<char> {
    s.subrange(leading_blanks(s) as int, s.len() as int)
}

/// Number of whitespace characters at the front of `s`.
pub open spec fn leading_whitespace(s: Seq<char>) -> nat
    decreases s.len(),
{
    if s.len() > 0 && is_whitespace(s[0]) {
        1 + leading_whitespace(s.subrange(1, s.len() as int))
    } else {
        0
    }
}

/// Number of whitespace characters at the back of `s`.
pub open spec fn trailing_whitespace(s: Seq<char>) -> nat
    decreases s.len(),
{
    if s.len() > 0 && is_whitespace(s[s.len() - 1]) {
        1 + trailing_whitespace(s.subrange(0, s.len() - 1))
    } else {
        0
    }
}

/// `s` without its leading and trailing whitespace.
pub open spec fn trimmed(s: Seq<char>) -> Seq<char> {
    let front = s.subrange(leading_whitespace(s) as int, s.len() as int);
    front.subrange(0, front.len() - trailing_whitespace(front))
}

/// `str::to_lowercase`: the result is the lowercase equivalent of the input,
/// a function of the input's characters alone.
pub assume_specification[ str::to_lowercase ](s: &str) -> (out: String)
    ensures
        out@ == lowercase_of(s@),
;

/// `str::trim`: the result is the input without leading and trailing
/// whitespace, where whitespace is the Unicode property `White_Space`.
pub assume_specification[ str::trim ](s: &str) -> (out: &str)
    ensures
        out@ == trimmed(s@),
;

/// `str::starts_with` with a string pattern: whether `s` begins with `prefix`.
#[verifier::external_body]
pub(crate) fn starts_with(s: &str, prefix: &str) -> (found: bool)
    ensures
        found == has_prefix(s@, prefix@),
{
    s.starts_with(prefix)
}

/// `str::contains` with a string pattern: whether `pat` matches a sub-slice
/// of `s`.
#[verifier::external_body]
pub(crate) fn contains(s: &str, pat: &str) -> (found: bool)
    ensures
        found == has_substring(s@, pat@),
{
    s.contains(pat)
}

/// `==` on string slices: whether both hold the same characters.
#[verifier::external_body]
pub(crate) fn same_text(a: &str, b: &str) -> (same: bool)
    ensures
        same == (a@ == b@),
{
    a == b
}

/// The part of `s` that follows its leading blank characters.
pub fn skip_leading_blanks(s: &str) -> (rest: &str)
    ensures
        rest@ == without_leading_blanks(s@),
{
    let n = s.unicode_len();
    let mut i: usize = 0;
    assert(s@.subrange(0, n as int) =~= s@);
    while i < n
        invariant_except_break
            leading_blanks(s@) == i + leading_blanks(s@.subrange(i as int, n as int)),
        invariant
            i <= n == s@.len(),
        ensures
            leading_blanks(s@) == i,
        decreases n - i,
    {
        let ghost rest = s@.subrange(i as int, n as int);
        let c = s.get_char(i);
        assert(rest[0] == c);
        if c > ' ' {
            break ;
        }
        assert(rest.subrange(1, rest.len() as int) =~= s@.subrange(i + 1, n as int));
        i += 1;
    }
    s.substring_char(i, n)
}

} // verus!
