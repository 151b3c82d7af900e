//! Search of a query in a sequence of word tokens. A query of `w` words is
//! compared with spans of `2w - 1` tokens, since words and separators
//! alternate in a token sequence.

use vstd::prelude::*;
use vstd::slice::slice_subrange;
use crate::distance::edit_distance;
use crate::join::{join, joined, texts};
use crate::search::{case_sensitive, is_case_sensitive, normalize, normalized, window_count};
use crate::text::{chars_of, is_space};
use crate::word::Word;

verus! {

/// Whether a word begins at position `i`: a character that is no whitespace
/// and stands first or after whitespace.
pub open spec fn starts_word(s: Seq<char>, i: int) -> bool {
    !is_space(s[i]) && (i == 0 || is_space(s[i - 1]))
}

/// The number of words in a text: of its maximal runs without whitespace.
pub open spec fn word_count(s: Seq<char>) -> nat
    decreases s.len(),
{
    if s.len() == 0 {
        0
    } else {
        word_count(s.drop_last()) + if starts_word(s, s.len() - 1) {
            1nat
        } else {
            0nat
        }
    }
}

/// The number of tokens in the spans that a query is compared with; zero
/// for a query without words.
pub open spec fn span_len(query: Seq<char>) -> nat {
    if word_count(query) == 0 {
        0
    } else {
        (2 * word_count(query) - 1) as nat
    }
}

/// The text of the span of `n` tokens that starts at token `i`.
pub open spec fn span_text(tokens: Seq<Seq<char>>, i: int, n: nat) -> Seq<char> {
    joined(tokens.subrange(i, i + n), Seq::empty())
}

/// Whether the span of `n` tokens at token `i` is, after normalization by
/// the query's case rule, equal to the normalized query.
pub open spec fn span_equals(query: Seq<char>, tokens: Seq<Seq<char>>, i: int, n: nat) -> bool {
    let sensitive = case_sensitive(query);
    normalized(sensitive, span_text(tokens, i, n)) == normalized(sensitive, query)
}

/// Whether the span of the query's span length at token `i` matches the
/// query.
pub open spec fn span_matches(query: Seq<char>, tokens: Seq<Seq<char>>, i: int) -> bool {
    span_equals(query, tokens, i, span_len(query))
}

/// Counts the words of a text.
pub fn count_words(s: &str) -> (count: usize)
    ensures
        count == word_count(s@),
{
    let chars = chars_of(s);
    let mut count: usize = 0;
    let mut gap = true;
    let mut i: usize = 0;
    while i < chars.len()
        invariant
            i <= chars.len(),
            chars@ == s@,
            count <= i,
            count == word_count(s@.take(i as int)),
            gap == (i == 0 || is_space(s@[i - 1])),
        decreases chars.len() - i,
    {
        let space = chars[i].is_whitespace();
        proof {
            let next = s@.take(i + 1);
            assert(next.drop_last() =~= s@.take(i as int));
            assert(starts_word(next, i as int) == (!space && gap));
        }
        if !space && gap {
            count += 1;
        }
        gap = space;
        i += 1;
    }
    proof {
        assert(s@.take(s@.len() as int) =~= s@);
    }
    count
}

/// The span length of a query over a sequence of `len` tokens; `None` when
/// the query has no words or its spans are longer than the sequence.
pub fn span_size(query: &str, len: usize) -> (size: Option<usize>)
    ensures
        size is Some <==> 0 < span_len(query@) <= len,
        size is Some ==> size->0 == span_len(query@),
{
    let words = count_words(query);
    if words == 0 || words > len || words - 1 > len - words {
        None
    } else {
        Some(words + (words - 1))
    }
}

/// The texts of a sequence of tokens.
pub open spec fn word_texts(tokens: Seq<&Word>) -> Seq<Seq<char>> {
    tokens.map_values(|word: &Word| word.text())
}

/// Copies the texts out of a sequence of tokens.
fn contents_of(tokens: &Vec<&Word>) -> (contents: Vec<String>)
    ensures
        contents@.len() == tokens@.len(),
        texts(contents@) == word_texts(tokens@),
{
    let mut contents: Vec<String> = Vec::new();
    let mut i: usize = 0;
    while i < tokens.len()
        invariant
            i <= tokens.len(),
            contents@.len() == i,
            forall|k: int| 0 <= k < i ==> (#[trigger] contents@[k])@ == tokens@[k].text(),
        decreases tokens.len() - i,
    {
        contents.push(tokens[i].content().to_owned());
        i += 1;
    }
    proof {
        assert(texts(contents@) =~= word_texts(tokens@));
    }
    contents
}

/// Decides whether the span of `n` tokens at token `i` is accepted: whether
/// its normalized text is at distance zero from the normalized query.
fn span_accepted(sensitive: bool, needle: &str, contents: &Vec<String>, i: usize, n: usize) -> (accepted: bool)
    requires
        i + n <= contents.len(),
    ensures
        accepted == (normalized(sensitive, span_text(texts(contents@), i as int, n as nat)) == needle@),
{
    let parts = slice_subrange(contents.as_slice(), i, i + n);
    proof {
        reveal_strlit("");
        assert(""@ =~= Seq::<char>::empty());
        assert(texts(parts@) =~= texts(contents@).subrange(i as int, i + n));
    }
    let text = join(parts, "");
    let candidate = normalize(sensitive, text.as_str());
    edit_distance(needle, candidate.as_str()) == 0
}

/// Compares every span of `n` tokens with the query: flag `i` tells whether
/// the span at token `i` is accepted. There is no span, and so no flag, when
/// `n` is zero or exceeds the number of tokens.
pub fn span_flags(query: &str, contents: &Vec<String>, n: usize) -> (flags: Vec<bool>)
    ensures
        flags@.len() == window_count(contents@.len(), n as nat),
        forall|i: int| 0 <= i < flags@.len() ==> #[trigger] flags@[i] == span_equals(query@, texts(contents@), i, n as nat),
{
    let mut flags: Vec<bool> = Vec::new();
    if n == 0 || contents.len() < n {
        return flags;
    }
    let sensitive = is_case_sensitive(query);
    let needle = normalize(sensitive, query);
    let count: usize = contents.len() - n + 1;
    let mut i: usize = 0;
    while i < count
        invariant
            i <= count,
            count == contents.len() - n + 1,
            0 < n <= contents.len(),
            sensitive == case_sensitive(query@),
            needle@ == normalized(sensitive, query@),
            flags@.len() == i,
            forall|k: int| 0 <= k < i ==> #[trigger] flags@[k] == span_equals(query@, texts(contents@), k, n as nat),
        decreases count - i,
    {
        flags.push(span_accepted(sensitive, needle.as_str(), &contents, i, n));
        i += 1;
    }
    flags
}

/// For each start position, the window of `n` tokens there if its flag is
/// set, and no tokens otherwise.
pub open spec fn flagged_window<T>(tokens: Seq<T>, n: nat, flags: Seq<bool>) -> spec_fn(int) -> Seq<T> {
    |i: int|
        if flags[i] {
            tokens.subrange(i, i + n)
        } else {
            Seq::empty()
        }
}

/// The tokens of all flagged windows, window after window.
pub open spec fn flagged_tokens<T>(tokens: Seq<T>, n: nat, flags: Seq<bool>) -> Seq<T> {
    Seq::new(flags.len(), flagged_window(tokens, n, flags)).flatten()
}

/// Visits the windows of `n` tokens from left to right and collects the
/// tokens of each window whose flag is set. A token that lies in several
/// such windows is collected once for each. Only whole windows are visited:
/// there is none when `n` is zero or exceeds the number of tokens.
pub fn windows_collect<'a>(v: &Vec<&'a Word>, n: usize, flags: &Vec<bool>) -> (result: Vec<&'a Word>)
    requires
        flags@.len() == window_count(v@.len(), n as nat),
    ensures
        result@ == flagged_tokens(v@, n as nat, flags@),
{
    let mut result: Vec<&'a Word> = Vec::new();
    let ghost at = flagged_window(v@, n as nat, flags@);
    let len = v.len();
    let mut i: usize = 0;
    while i < flags.len()
        invariant
            i <= flags.len(),
            len == v@.len(),
            flags@.len() == window_count(v@.len(), n as nat),
            at == flagged_window(v@, n as nat, flags@),
            result@ == Seq::new(i as nat, at).flatten(),
        decreases flags.len() - i,
    {
        let ghost before = result@;
        if flags[i] {
            let mut j: usize = 0;
            while j < n
                invariant
                    j <= n,
                    i + n <= len,
                    len == v@.len(),
                    result@ == before + v@.subrange(i as int, i + j),
                decreases n - j,
            {
                result.push(v[i + j]);
                proof {
                    assert(v@.subrange(i as int, i + j + 1) =~= v@.subrange(i as int, i + j).push(v@[i + j]));
                }
                j += 1;
            }
        }
        proof {
            let rows = Seq::new(i as nat, at);
            rows.lemma_flatten_push(at(i as int));
            assert(rows.push(at(i as int)) =~= Seq::new((i + 1) as nat, at));
            assert(result@ =~= before + at(i as int));
        }
        i += 1;
    }
    result
}

/// For each start position, the tokens of the span there if the span
/// matches the query, and no tokens otherwise.
pub open spec fn span_at(query: Seq<char>, tokens: Seq<&Word>) -> spec_fn(int) -> Seq<&Word> {
    |i: int|
        if span_matches(query, word_texts(tokens), i) {
            tokens.subrange(i, i + span_len(query))
        } else {
            Seq::empty()
        }
}

/// The tokens of all matching spans, span after span by start position. A
/// token that lies in several matching spans occurs once for each.
pub open spec fn find_with_ref_spec(query: Seq<char>, tokens: Seq<&Word>) -> Seq<&Word> {
    Seq::new(window_count(tokens.len(), span_len(query)), span_at(query, tokens)).flatten()
}

/// Searches a token sequence for spans whose concatenated text is exactly
/// the query, under the query's case rule, and returns the tokens of all
/// such spans in the order of the sequence. Spans that would reach past the end
/// of the sequence are not compared; a query without words matches nothing.
pub fn find_with_ref<'a>(query: &str, text: Vec<&'a Word>) -> (result: Vec<&'a Word>)
    ensures
        result@ == find_with_ref_spec(query@, text@),
{
    let n = match span_size(query, text.len()) {
        Some(n) => n,
        None => {
            return Vec::new();
        },
    };
    let contents = contents_of(&text);
    let flags = span_flags(query, &contents, n);
    proof {
        assert(Seq::new(flags@.len(), flagged_window(text@, n as nat, flags@)) =~= Seq::new(
            window_count(text@.len(), span_len(query@)),
            span_at(query@, text@),
        ));
    }
    windows_collect(&text, n, &flags)
}

} // verus!
