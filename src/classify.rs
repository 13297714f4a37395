//! Character classification and string building, as std provides them.
//!
//! The Unicode classes are given names: what each std predicate answers
//! depends on the character alone, and the tables behind it are not restated.
use vstd::prelude::*;

verus! {

/// Whether `char::is_alphanumeric` holds of `c`.
pub uninterp spec fn alnum_of(c: char) -> bool;

/// Whether `char::is_whitespace` holds of `c`, for a character other than the
/// space.
pub uninterp spec fn whitespace_of(c: char) -> bool;

/// Whitespace as `char::is_whitespace` classifies it: the space, and whatever
/// else the Unicode `White_Space` property holds of.
pub open spec fn is_space(c: char) -> bool {
    c == ' ' || whitespace_of(c)
}

/// Whether `char::is_alphabetic` holds of `c`.
pub uninterp spec fn alphabetic_of(c: char) -> bool;

/// Whether `char::is_uppercase` holds of `c`.
pub uninterp spec fn uppercase_of(c: char) -> bool;

/// Relies on `char::is_alphanumeric`: the answer depends on the character alone.
#[verifier::external_body]
pub(crate) fn is_alphanumeric(c: char) -> (r: bool)
    ensures
        r == alnum_of(c),
{
    c.is_alphanumeric()
}

/// Relies on `char::is_whitespace`: the answer depends on the character
/// alone, and the space character is whitespace.
#[verifier::external_body]
pub(crate) fn is_whitespace(c: char) -> (r: bool)
    ensures
        r == (c == ' ' || whitespace_of(c)),
{
    c.is_whitespace()
}

/// Relies on `char::is_alphabetic`: the answer depends on the character alone.
#[verifier::external_body]
pub(crate) fn is_alphabetic(c: char) -> (r: bool)
    ensures
        r == alphabetic_of(c),
{
    c.is_alphabetic()
}

/// Relies on `char::is_uppercase`: the answer depends on the character alone.
#[verifier::external_body]
pub(crate) fn is_uppercase(c: char) -> (r: bool)
    ensures
        r == uppercase_of(c),
{
    c.is_uppercase()
}

/// Relies on `String::push`: the character is appended at the end.
#[verifier::external_body]
pub(crate) fn push_char(s: &mut String, c: char)
    ensures
        final(s)@ == old(s)@.push(c),
{
    s.push(c);
}

/// The ASCII uppercase form of `c`: `'a'..='z'` map to `'A'..='Z'`, every
/// other character is left as it is.
pub open spec fn ascii_upper(c: char) -> char {
    if 'a' <= c && c <= 'z' {
        ((c as u32) - 32) as char
    } else {
        c
    }
}

/// Maps ASCII lowercase letters to uppercase and leaves every other character.
pub fn ascii_uppercase(c: char) -> (r: char)
    ensures
        r == ascii_upper(c),
{
    if 'a' <= c && c <= 'z' {
        ((c as u8) - 32) as char
    } else {
        c
    }
}

} // verus!
