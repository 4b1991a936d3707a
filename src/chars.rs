//! Character classification and conversions between `str`, `String` and
//! character buffers.

use vstd::prelude::*;

verus! {

/// Whether `c` is one of the ASCII decimal digits.
pub open spec fn is_digit(c: char) -> bool {
    '0' <= c && c <= '9'
}

/// Whether `c` is an ASCII character.
pub open spec fn is_ascii(c: char) -> bool {
    c <= '\x7f'
}

/// Unicode's `White_Space` property, for characters beyond ASCII.
pub uninterp spec fn unicode_white_space(c: char) -> bool;

/// Unicode's `Alphabetic` property, for characters beyond ASCII.
pub uninterp spec fn unicode_alphabetic(c: char) -> bool;

/// Unicode's `Alphabetic` property or a numeric general category, for
/// characters beyond ASCII.
pub uninterp spec fn unicode_alphanumeric(c: char) -> bool;

/// What `char::is_whitespace` answers: space and `\t` through `\r` in
/// ASCII, the `White_Space` property elsewhere.
pub open spec fn whitespace(c: char) -> bool {
    if is_ascii(c) {
        c == ' ' || ('\t' <= c && c <= '\r')
    } else {
        unicode_white_space(c)
    }
}

/// What `char::is_alphabetic` answers: the ASCII letters in ASCII, the
/// `Alphabetic` property elsewhere.
pub open spec fn alphabetic(c: char) -> bool {
    if is_ascii(c) {
        ('a' <= c && c <= 'z') || ('A' <= c && c <= 'Z')
    } else {
        unicode_alphabetic(c)
    }
}

/// What `char::is_alphanumeric` answers: ASCII letters and digits in ASCII,
/// alphabetic or numeric characters elsewhere.
pub open spec fn alphanumeric(c: char) -> bool {
    if is_ascii(c) {
        alphabetic(c) || is_digit(c)
    } else {
        unicode_alphanumeric(c)
    }
}

/// Relies on `char::is_whitespace`, whose ASCII cases are a space and
/// `'\t'..='\r'` and which consults the `White_Space` table above ASCII.
#[verifier::external_body]
pub(crate) fn is_whitespace(c: char) -> (r: bool)
    ensures
        r == whitespace(c),
        !is_ascii(c) ==> r == unicode_white_space(c),
{
    c.is_whitespace()
}

/// Relies on `char::is_alphabetic`, whose ASCII cases are the letters
/// `a..=z` and `A..=Z` and which consults the `Alphabetic` table above ASCII.
#[verifier::external_body]
pub(crate) fn is_alphabetic(c: char) -> (r: bool)
    ensures
        r == alphabetic(c),
        !is_ascii(c) ==> r == unicode_alphabetic(c),
{
    c.is_alphabetic()
}

/// Relies on `char::is_alphanumeric`, whose ASCII cases are the letters and
/// the digits `0..=9` and which consults Unicode's tables above ASCII.
#[verifier::external_body]
pub(crate) fn is_alphanumeric(c: char) -> (r: bool)
    ensures
        r == alphanumeric(c),
        !is_ascii(c) ==> r == unicode_alphanumeric(c),
{
    c.is_alphanumeric()
}

/// Whether `c` is an ASCII decimal digit.
pub(crate) fn is_ascii_digit(c: char) -> (r: bool)
    ensures
        r == is_digit(c),
{
    '0' <= c && c <= '9'
}

/// Relies on `String::from_iter` over `char`s, which keeps them in order.
#[verifier::external_body]
pub(crate) fn string_from_chars(cs: &[char]) -> (r: String)
    ensures
        r@ == cs@,
{
    String::from_iter(cs)
}

/// The characters of `s`, in order.
pub(crate) fn chars_of(s: &str) -> (r: Vec<char>)
    ensures
        r@ == s@,
{
    let mut v: Vec<char> = Vec::new();
    for c in it: s.chars()
        invariant
            v@ == it.seq().take(it.index() as int),
    {
        v.push(c);
    }
    v
}

} // verus!
