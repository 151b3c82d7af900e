//! The edit distance that scores a candidate against a query.

use vstd::prelude::*;

verus! {

/// The Damerau-Levenshtein distance of two texts: the least number of
/// insertions, deletions, substitutions and transpositions of adjacent code
/// points that turn one into the other.
pub uninterp spec fn damerau_levenshtein(a: Seq<char>, b: Seq<char>) -> nat;

/// `strsim::damerau_levenshtein` computes the distance over code points. The
/// contract gives the result its name, and states of it that no edit is
/// needed exactly between equal texts.
#[verifier::external_body]
pub(crate) fn edit_distance(a: &str, b: &str) -> (d: usize)
    ensures
        d == damerau_levenshtein(a@, b@),
        d == 0 <==> a@ == b@,
{
    strsim::damerau_levenshtein(a, b)
}

} // verus!
