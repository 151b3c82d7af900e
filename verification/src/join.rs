//! Joining of text pieces with a separator.

use vstd::prelude::*;
use itertools::Itertools;

verus! {

/// The texts of a sequence of strings.
pub open spec fn texts(parts: Seq<String>) -> Seq<Seq<char>> {
    parts.map_values(|part: String| part@)
}

/// The pieces in order, with the separator between each two neighbours.
pub open spec fn joined(parts: Seq<Seq<char>>, sep: Seq<char>) -> Seq<char>
    decreases parts.len(),
{
    if parts.len() == 0 {
        Seq::empty()
    } else if parts.len() == 1 {
        parts[0]
    } else {
        joined(parts.drop_last(), sep) + sep + parts.last()
    }
}

/// `Itertools::join` writes the first piece and then, for each further piece,
/// the separator followed by the piece; of no pieces it makes the empty
/// string.
#[verifier::external_body]
pub(crate) fn join(parts: &[String], sep: &str) -> (text: String)
    ensures
        text@ == joined(texts(parts@), sep@),
{
    parts.iter().join(sep)
}

} // verus!
