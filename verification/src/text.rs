//! Code points of a text: conversion between strings and character vectors,
//! and the Unicode properties the search relies on.

use vstd::prelude::*;

verus! {

/// Whether a character has the Unicode property `Uppercase`.
pub uninterp spec fn is_upper(c: char) -> bool;

/// Whether a character has the Unicode property `Alphabetic` or is a number.
pub uninterp spec fn is_alnum(c: char) -> bool;

/// Whether a character has the Unicode property `White_Space`.
pub uninterp spec fn is_space(c: char) -> bool;

/// The lowercase form of a text under the Unicode lowercase mapping.
pub uninterp spec fn lowercase(s: Seq<char>) -> Seq<char>;

/// `char::is_uppercase` decides the Unicode property `Uppercase`; the
/// contract only gives that answer its name.
pub assume_specification[ char::is_uppercase ](c: char) -> (b: bool)
    ensures
        b == is_upper(c),
;

/// `char::is_alphanumeric` decides whether the character is alphabetic or
/// numeric; the contract only gives that answer its name.
pub assume_specification[ char::is_alphanumeric ](c: char) -> (b: bool)
    ensures
        b == is_alnum(c),
;

/// `char::is_whitespace` decides the Unicode property `White_Space`; the
/// contract only gives that answer its name.
pub assume_specification[ char::is_whitespace ](c: char) -> (b: bool)
    ensures
        b == is_space(c),
;

/// `str::to_lowercase` returns the lowercase form of the text; the contract
/// only gives that text its name.
pub assume_specification[ str::to_lowercase ](s: &str) -> (lower: String)
    ensures
        lower@ == lowercase(s@),
;

/// The code points of a text, in order.
pub fn chars_of(s: &str) -> (chars: Vec<char>)
    ensures
        chars@ == s@,
{
    let mut chars: Vec<char> = Vec::new();
    for c in iter: s.chars()
        invariant
            iter.seq() == s@,
            chars@ == s@.take(iter.index()),
    {
        chars.push(c);
    }
    chars
}

/// `String::from_iter` over a slice of characters builds the text that holds
/// exactly those code points, in order.
#[verifier::external_body]
pub(crate) fn string_of(chars: &[char]) -> (s: String)
    ensures
        s@ == chars@,
{
    String::from_iter(chars)
}

} // verus!
