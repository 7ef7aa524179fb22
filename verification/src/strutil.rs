//! Small verified helpers over `String` and `&str`.

use vstd::prelude::*;

verus! {

/// Equality of two string slices, specified over their views.
pub fn str_eq(a: &str, b: &str) -> (r: bool)
    ensures
        r == (a@ == b@),
{
    let sa: String = a.to_owned();
    let sb: String = b.to_owned();
    sa == sb
}

/// Equality of a `String` against a string slice.
pub fn string_eq_str(a: &String, b: &str) -> (r: bool)
    ensures
        r == (a@ == b@),
{
    str_eq(a.as_str(), b)
}

/// Concatenation of two string slices into a fresh `String`.
pub fn concat2(a: &str, b: &str) -> (r: String)
    ensures
        r@ == a@ + b@,
{
    let mut s: String = a.to_owned();
    s.append(b);
    s
}

/// Concatenation of three string slices into a fresh `String`.
pub fn concat3(a: &str, b: &str, c: &str) -> (r: String)
    ensures
        r@ == a@ + b@ + c@,
{
    let mut s: String = a.to_owned();
    s.append(b);
    s.append(c);
    s
}

/// True when `s` begins with the characters of `prefix`.
pub open spec fn spec_starts_with(s: Seq<char>, prefix: Seq<char>) -> bool {
    s.len() >= prefix.len() && s.subrange(0, prefix.len() as int) == prefix
}

/// True when `s` ends with the characters of `suffix`.
pub open spec fn spec_ends_with(s: Seq<char>, suffix: Seq<char>) -> bool {
    s.len() >= suffix.len() && s.subrange(s.len() - suffix.len(), s.len() as int) == suffix
}

/// Whether `s` starts with `prefix`, specified over views.
pub fn starts_with(s: &str, prefix: &str) -> (r: bool)
    ensures
        r == spec_starts_with(s@, prefix@),
{
    let n = s.unicode_len();
    let p = prefix.unicode_len();
    if n < p {
        assert(!spec_starts_with(s@, prefix@));
        false
    } else {
        let head = s.substring_char(0, p);
        let r = str_eq(head, prefix);
        assert(head@ == s@.subrange(0, prefix@.len() as int));
        r
    }
}

/// Whether `s` ends with `suffix`, specified over views.
pub fn ends_with(s: &str, suffix: &str) -> (r: bool)
    ensures
        r == spec_ends_with(s@, suffix@),
{
    let n = s.unicode_len();
    let p = suffix.unicode_len();
    if n < p {
        assert(!spec_ends_with(s@, suffix@));
        false
    } else {
        let tail = s.substring_char(n - p, n);
        let r = str_eq(tail, suffix);
        assert(tail@ == s@.subrange(s@.len() - suffix@.len(), s@.len() as int));
        r
    }
}

} // verus!
