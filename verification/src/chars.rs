//! Character classification.
//!
//! Directive names are runs of alphanumeric characters and underscores, and
//! several stages trim surrounding whitespace. Both classes are the Unicode
//! ones of the standard library; their full definitions are character tables,
//! so they are given names here and the library's contracts are stated over
//! those names.

use vstd::prelude::*;

verus! {

/// What `char::is_alphanumeric` returns: a function of the character alone.
pub uninterp spec fn uni_alnum(c: char) -> bool;

/// What `char::is_whitespace` returns: a function of the character alone.
pub uninterp spec fn uni_ws(c: char) -> bool;

/// A character that may appear in a directive name.
pub open spec fn is_word_char(c: char) -> bool {
    uni_alnum(c) || c == '_'
}

/// Relies on `char::is_alphanumeric`: the result depends on the character
/// alone. Its documentation defines the class as Unicode `Alphabetic` plus
/// the number categories, which on ASCII is exactly the letters and digits.
#[verifier::external_body]
pub(crate) fn char_is_alnum(c: char) -> (r: bool)
    ensures
        r == uni_alnum(c),
        ('a' <= c <= 'z' || 'A' <= c <= 'Z' || '0' <= c <= '9') ==> r,
        (' ' <= c <= '~' && !('a' <= c <= 'z' || 'A' <= c <= 'Z' || '0' <= c <= '9')) ==> !r,
{
    c.is_alphanumeric()
}

/// Relies on `char::is_whitespace`: the result depends on the character
/// alone. Its documentation defines the class by the Unicode `White_Space`
/// property, which holds of space, tab, newline and carriage return and of
/// no printable ASCII character but the space.
#[verifier::external_body]
pub(crate) fn char_is_ws(c: char) -> (r: bool)
    ensures
        r == uni_ws(c),
        (c == ' ' || c == '\t' || c == '\n' || c == '\r') ==> r,
        ('!' <= c <= '~') ==> !r,
{
    c.is_whitespace()
}

} // verus!
