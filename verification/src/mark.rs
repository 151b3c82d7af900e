//! Highlighting of the tokens that lie in a span matching the query.

use vstd::prelude::*;
use crate::search::window_count;
use crate::span::{span_flags, span_len, span_matches, span_size};
use crate::join::texts;
use crate::word::{Word, WordType};

verus! {

/// The texts of a sequence of exclusively borrowed tokens.
pub open spec fn token_texts(tokens: Seq<&mut Word>) -> Seq<Seq<char>> {
    tokens.map_values(|word: &mut Word| word.text())
}

/// Whether token `j` lies in a window of `n` tokens that starts before
/// `end` and whose flag is set.
pub open spec fn flagged(flags: Seq<bool>, n: nat, end: int, j: int) -> bool {
    exists|k: int| 0 <= k < end && k < flags.len() && #[trigger] flags[k] && k <= j < k + n
}

/// Whether token `j` lies in a span that matches the query.
pub open spec fn covered(query: Seq<char>, tokens: Seq<Seq<char>>, j: int) -> bool {
    exists|k: int|
        0 <= k < window_count(tokens.len(), span_len(query)) && #[trigger] span_matches(query, tokens, k)
            && k <= j < k + span_len(query)
}

/// Visits the windows of `n` tokens from left to right and selects every
/// token of each window whose flag is set. Texts and all other styles stay
/// as they are. Only whole windows are visited: there is none, and nothing
/// changes, when `n` is zero or exceeds the number of tokens.
pub fn windows_mut_for_each<'a>(v: &mut Vec<&'a mut Word>, n: usize, flags: &Vec<bool>)
    requires
        flags@.len() == window_count(old(v)@.len(), n as nat),
    ensures
        final(v)@.len() == old(v)@.len(),
        forall|j: int| 0 <= j < old(v)@.len() ==> *final(#[trigger] final(v)@[j]) == *final(old(v)@[j]),
        forall|j: int| 0 <= j < old(v)@.len() ==> #[trigger] final(v)@[j].text() == old(v)@[j].text(),
        forall|j: int| 0 <= j < old(v)@.len() ==> #[trigger] final(v)@[j].style() == if flagged(flags@, n as nat, flags@.len() as int, j) {
            WordType::Selected
        } else {
            old(v)@[j].style()
        },
{
    let len = v.len();
    let mut start: usize = 0;
    while start < flags.len()
        invariant
            start <= flags.len(),
            v@.len() == len,
            flags@.len() == window_count(v@.len(), n as nat),
            v@.len() == old(v)@.len(),
            forall|j: int| 0 <= j < v@.len() ==> *final(#[trigger] v@[j]) == *final(old(v)@[j]),
            forall|j: int| 0 <= j < v@.len() ==> #[trigger] v@[j].text() == old(v)@[j].text(),
            forall|j: int| 0 <= j < v@.len() ==> #[trigger] v@[j].style() == if flagged(flags@, n as nat, start as int, j) {
                WordType::Selected
            } else {
                old(v)@[j].style()
            },
        decreases flags.len() - start,
    {
        if flags[start] {
            let mut m: usize = 0;
            while m < n
                invariant
                    m <= n,
                    start < flags.len(),
                    flags@[start as int],
                    v@.len() == len,
                    flags@.len() == window_count(v@.len(), n as nat),
                    v@.len() == old(v)@.len(),
                    forall|j: int| 0 <= j < v@.len() ==> *final(#[trigger] v@[j]) == *final(old(v)@[j]),
                    forall|j: int| 0 <= j < v@.len() ==> #[trigger] v@[j].text() == old(v)@[j].text(),
                    forall|j: int| 0 <= j < v@.len() ==> #[trigger] v@[j].style() == if flagged(flags@, n as nat, start as int, j) || start <= j < start + m {
                        WordType::Selected
                    } else {
                        old(v)@[j].style()
                    },
                decreases n - m,
            {
                v[start + m].set_kind(WordType::Selected);
                m += 1;
            }
        }
        proof {
            assert forall|j: int| 0 <= j < v@.len() implies flagged(flags@, n as nat, start + 1, j) == (flagged(
                flags@,
                n as nat,
                start as int,
                j,
            ) || (flags@[start as int] && start <= j < start + n)) by {
                if flagged(flags@, n as nat, start + 1, j) {
                    let k = choose|k: int| 0 <= k < start + 1 && k < flags@.len() && #[trigger] flags@[k] && k <= j < k + n;
                    if k < start {
                        assert(flagged(flags@, n as nat, start as int, j));
                    }
                }
                if flagged(flags@, n as nat, start as int, j) {
                    let k = choose|k: int| 0 <= k < start && k < flags@.len() && #[trigger] flags@[k] && k <= j < k + n;
                    assert(flagged(flags@, n as nat, start + 1, j));
                }
            }
        }
        start += 1;
    }
}

/// Copies the texts out of a sequence of exclusively borrowed tokens.
fn contents_of(tokens: &Vec<&mut Word>) -> (contents: Vec<String>)
    ensures
        contents@.len() == tokens@.len(),
        texts(contents@) == token_texts(tokens@),
{
    let mut contents: Vec<String> = Vec::new();
    let mut i: usize = 0;
    while i < tokens.len()
        invariant
            i <= tokens.len(),
            contents@.len() == i,
            forall|k: int| 0 <= k < i ==> (#[trigger] contents@[k])@ == tokens@[k].text(),
        decreases tokens.len() - i,
    {
        contents.push(tokens[i].content().to_owned());
        i += 1;
    }
    proof {
        assert(texts(contents@) =~= token_texts(tokens@));
    }
    contents
}

/// Searches a token sequence for spans whose concatenated text is exactly
/// the query, under the query's case rule, and selects every token of every
/// such span in place. The texts of the tokens and the styles of the tokens
/// outside the matching spans stay as they are; a query without words
/// changes nothing.
pub fn find_and_mark<'a>(query: &str, text: &mut Vec<&'a mut Word>)
    ensures
        final(text)@.len() == old(text)@.len(),
        forall|j: int| 0 <= j < old(text)@.len() ==> *final(#[trigger] final(text)@[j]) == *final(old(text)@[j]),
        forall|j: int| 0 <= j < old(text)@.len() ==> #[trigger] final(text)@[j].text() == old(text)@[j].text(),
        forall|j: int| 0 <= j < old(text)@.len() ==> #[trigger] final(text)@[j].style() == if covered(query@, token_texts(old(text)@), j) {
            WordType::Selected
        } else {
            old(text)@[j].style()
        },
{
    let n = match span_size(query, text.len()) {
        Some(n) => n,
        None => {
            return;
        },
    };
    let contents = contents_of(text);
    let flags = span_flags(query, &contents, n);
    proof {
        let tokens = token_texts(old(text)@);
        assert(tokens.len() == old(text)@.len());
        assert forall|j: int| 0 <= j < old(text)@.len() implies covered(query@, tokens, j) == flagged(
            flags@,
            n as nat,
            flags@.len() as int,
            j,
        ) by {
            if covered(query@, tokens, j) {
                let k = choose|k: int|
                    0 <= k < window_count(tokens.len(), span_len(query@)) && #[trigger] span_matches(query@, tokens, k)
                        && k <= j < k + span_len(query@);
                assert(flags@[k]);
            }
            if flagged(flags@, n as nat, flags@.len() as int, j) {
                let k = choose|k: int| 0 <= k < flags@.len() && k < flags@.len() && #[trigger] flags@[k] && k <= j < k + n;
                assert(span_matches(query@, tokens, k));
            }
        }
    }
    windows_mut_for_each(text, n, &flags);
}

} // verus!
