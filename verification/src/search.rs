//! Approximate search of a query in a text: every window of the query's
//! length is scored against the query, and the offsets of the windows within
//! the tolerated distance are reported.

use vstd::prelude::*;
use vstd::slice::slice_subrange;
use crate::distance::{damerau_levenshtein, edit_distance};
use crate::text::{chars_of, is_upper, lowercase, string_of};

verus! {

/// A query asks for a case-sensitive search when one of its characters is
/// uppercase.
pub open spec fn case_sensitive(query: Seq<char>) -> bool {
    exists|i: int| 0 <= i < query.len() && is_upper(#[trigger] query[i])
}

/// A text as it enters a comparison: as it stands in a case-sensitive
/// search, in lowercase otherwise.
pub open spec fn normalized(sensitive: bool, s: Seq<char>) -> Seq<char> {
    if sensitive {
        s
    } else {
        lowercase(s)
    }
}

/// The number of code points of the windows that a query is compared with:
/// the length of the query in its UTF-8 encoding.
pub open spec fn window_len(query: Seq<char>) -> nat {
    vstd::utf8::encode_utf8(query).len()
}

/// The number of windows of `win` code points in a text of `len` code points.
pub open spec fn window_count(len: nat, win: nat) -> nat {
    if win == 0 || len < win {
        0
    } else {
        (len - win + 1) as nat
    }
}

/// The window of `win` code points that starts at offset `i`.
pub open spec fn window(text: Seq<char>, i: int, win: nat) -> Seq<char> {
    text.subrange(i, i + win)
}

/// The distance between the query and the window at offset `i`, both
/// normalized by the query's case rule.
pub open spec fn score(query: Seq<char>, text: Seq<char>, i: int) -> nat {
    let sensitive = case_sensitive(query);
    damerau_levenshtein(
        normalized(sensitive, query),
        normalized(sensitive, window(text, i, window_len(query))),
    )
}

/// The offsets at which a window is within `precision` of the query.
pub open spec fn is_hit(query: Seq<char>, text: Seq<char>, precision: nat) -> spec_fn(usize) -> bool {
    |i: usize| score(query, text, i as int) <= precision
}

/// The first `n` offsets of a text.
pub open spec fn offsets(n: nat) -> Seq<usize> {
    Seq::new(n, |i: int| i as usize)
}

/// The offsets of all windows of a text that are within `precision` of the
/// query, in ascending order.
pub open spec fn find_spec(query: Seq<char>, text: Seq<char>, precision: nat) -> Seq<usize> {
    offsets(window_count(text.len(), window_len(query))).filter(is_hit(query, text, precision))
}

/// Decides whether a query asks for a case-sensitive search.
pub fn is_case_sensitive(query: &str) -> (sensitive: bool)
    ensures
        sensitive == case_sensitive(query@),
{
    let chars = chars_of(query);
    let mut i: usize = 0;
    while i < chars.len()
        invariant
            i <= chars.len(),
            chars@ == query@,
            forall|k: int| 0 <= k < i ==> !is_upper(#[trigger] query@[k]),
        decreases chars.len() - i,
    {
        if chars[i].is_uppercase() {
            return true;
        }
        i += 1;
    }
    false
}

/// Brings a text into the form in which it is compared.
pub fn normalize(sensitive: bool, s: &str) -> (out: String)
    ensures
        out@ == normalized(sensitive, s@),
{
    if sensitive {
        s.to_owned()
    } else {
        s.to_lowercase()
    }
}

/// All windows of `win_size` code points of a text, by ascending start
/// offset. A window never splits a code point; there is none when `win_size`
/// is zero or exceeds the length of the text.
pub fn char_windows(src: &str, win_size: usize) -> (windows: Vec<String>)
    ensures
        windows@.len() == window_count(src@.len(), win_size as nat),
        forall|i: int| 0 <= i < windows@.len() ==> (#[trigger] windows@[i])@ == window(src@, i, win_size as nat),
        forall|i: int| 0 <= i < windows@.len() ==> (#[trigger] windows@[i])@.len() == win_size,
{
    let chars = chars_of(src);
    let mut windows: Vec<String> = Vec::new();
    if win_size == 0 || chars.len() < win_size {
        return windows;
    }
    let count: usize = chars.len() - win_size + 1;
    let mut i: usize = 0;
    while i < count
        invariant
            i <= count,
            count == chars.len() - win_size + 1,
            win_size <= chars.len(),
            chars@ == src@,
            windows@.len() == i,
            forall|k: int| 0 <= k < i ==> (#[trigger] windows@[k])@ == window(src@, k, win_size as nat),
            forall|k: int| 0 <= k < i ==> (#[trigger] windows@[k])@.len() == win_size,
        decreases count - i,
    {
        let piece = slice_subrange(chars.as_slice(), i, i + win_size);
        windows.push(string_of(piece));
        i += 1;
    }
    windows
}

/// The hits among the first `n` offsets are what the hits among the first
/// `n - 1` are, followed by offset `n - 1` where that is a hit.
proof fn lemma_hits_step(hit: spec_fn(usize) -> bool, n: nat)
    requires
        n > 0,
    ensures
        offsets(n).filter(hit) == if hit((n - 1) as usize) {
            offsets((n - 1) as nat).filter(hit).push((n - 1) as usize)
        } else {
            offsets((n - 1) as nat).filter(hit)
        },
{
    reveal(Seq::filter);
    assert(offsets(n).drop_last() =~= offsets((n - 1) as nat));
}

/// The hits among the first `n` offsets are below `n`, strictly ascending,
/// and each of them is a hit.
proof fn lemma_hits_sorted(hit: spec_fn(usize) -> bool, n: nat)
    requires
        n <= usize::MAX,
    ensures
        forall|k: int| 0 <= k < offsets(n).filter(hit).len() ==> (#[trigger] offsets(n).filter(hit)[k]) < n,
        forall|k: int| 0 <= k < offsets(n).filter(hit).len() ==> hit(#[trigger] offsets(n).filter(hit)[k]),
        forall|j: int, k: int| 0 <= j < k < offsets(n).filter(hit).len()
            ==> offsets(n).filter(hit)[j] < offsets(n).filter(hit)[k],
    decreases n,
{
    if n == 0 {
        reveal(Seq::filter);
    } else {
        lemma_hits_sorted(hit, (n - 1) as nat);
        lemma_hits_step(hit, n);
    }
}

/// Every hit among the first `n` offsets occurs in the filtered sequence.
proof fn lemma_hits_complete(hit: spec_fn(usize) -> bool, n: nat, i: usize)
    requires
        i < n,
        hit(i),
    ensures
        offsets(n).filter(hit).contains(i),
    decreases n,
{
    lemma_hits_step(hit, n);
    let prev = offsets((n - 1) as nat).filter(hit);
    if i == n - 1 {
        assert(prev.push(i)[prev.len() as int] == i);
    } else {
        lemma_hits_complete(hit, (n - 1) as nat, i);
        let k = choose|k: int| 0 <= k < prev.len() && prev[k] == i;
        assert(offsets(n).filter(hit)[k] == i);
    }
}

/// Two predicates that agree on the first `n` offsets select the same ones.
proof fn lemma_hits_agree(a: spec_fn(usize) -> bool, b: spec_fn(usize) -> bool, n: nat)
    requires
        n <= usize::MAX,
        forall|i: usize| i < n ==> #[trigger] a(i) == b(i),
    ensures
        offsets(n).filter(a) == offsets(n).filter(b),
    decreases n,
{
    if n == 0 {
        reveal(Seq::filter);
    } else {
        lemma_hits_agree(a, b, (n - 1) as nat);
        lemma_hits_step(a, n);
        lemma_hits_step(b, n);
    }
}

/// The scores that are at most `precision`.
pub open spec fn is_within(scores: Seq<usize>, precision: nat) -> spec_fn(usize) -> bool {
    |i: usize| scores[i as int] <= precision
}

/// The positions of the scores that are at most `precision`, ascending.
pub open spec fn within(scores: Seq<usize>, precision: nat) -> Seq<usize> {
    offsets(scores.len()).filter(is_within(scores, precision))
}

/// Scores every window of the text against the query: entry `i` is the
/// distance between the normalized query and the normalized window at offset
/// `i`. It is zero exactly where the two are equal.
pub fn window_scores(query: &str, text: &str) -> (scores: Vec<usize>)
    ensures
        scores@.len() == window_count(text@.len(), window_len(query@)),
        forall|i: int| 0 <= i < scores@.len() ==> #[trigger] scores@[i] == score(query@, text@, i),
        forall|i: int| 0 <= i < scores@.len() ==> (#[trigger] scores@[i] == 0 <==> normalized(
            case_sensitive(query@),
            window(text@, i, window_len(query@)),
        ) == normalized(case_sensitive(query@), query@)),
{
    let sensitive = is_case_sensitive(query);
    let needle = normalize(sensitive, query);
    let windows = char_windows(text, query.as_bytes().len());
    let mut scores: Vec<usize> = Vec::new();
    let mut i: usize = 0;
    while i < windows.len()
        invariant
            i <= windows.len(),
            sensitive == case_sensitive(query@),
            needle@ == normalized(sensitive, query@),
            windows@.len() == window_count(text@.len(), window_len(query@)),
            forall|k: int| 0 <= k < windows@.len() ==> (#[trigger] windows@[k])@ == window(text@, k, window_len(query@)),
            scores@.len() == i,
            forall|k: int| 0 <= k < i ==> #[trigger] scores@[k] == score(query@, text@, k),
            forall|k: int| 0 <= k < i ==> (#[trigger] scores@[k] == 0 <==> normalized(
                sensitive,
                window(text@, k, window_len(query@)),
            ) == needle@),
        decreases windows.len() - i,
    {
        let candidate = normalize(sensitive, windows[i].as_str());
        scores.push(edit_distance(needle.as_str(), candidate.as_str()));
        i += 1;
    }
    scores
}

/// The positions, ascending, of the scores that are at most `precision`.
pub fn offsets_within(scores: &Vec<usize>, precision: usize) -> (result: Vec<usize>)
    ensures
        result@ == within(scores@, precision as nat),
        forall|j: int, k: int| 0 <= j < k < result@.len() ==> result@[j] < result@[k],
        forall|k: int| 0 <= k < result@.len() ==> result@[k] < scores@.len() && scores@[#[trigger] result@[k] as int] <= precision,
{
    let ghost hit = is_within(scores@, precision as nat);
    let mut result: Vec<usize> = Vec::new();
    let mut i: usize = 0;
    proof {
        reveal(Seq::filter);
    }
    while i < scores.len()
        invariant
            i <= scores.len(),
            hit == is_within(scores@, precision as nat),
            result@ == offsets(i as nat).filter(hit),
        decreases scores.len() - i,
    {
        proof {
            lemma_hits_step(hit, (i + 1) as nat);
        }
        if scores[i] <= precision {
            result.push(i);
        }
        i += 1;
    }
    proof {
        lemma_hits_sorted(hit, scores@.len());
    }
    result
}

/// Searches `text` for `query`: the start offsets, counted in code points
/// and ascending, of all windows whose distance from the query is at most
/// `precision`. An uppercase character in the query makes the comparison
/// case-sensitive; otherwise query and windows are compared in lowercase.
/// At precision zero every reported window is, once normalized, equal to the
/// normalized query; that is the query as it was typed when it has an
/// uppercase character or is its own lowercase form.
pub fn find(query: &str, text: &str, precision: usize) -> (result: Vec<usize>)
    ensures
        result@ == find_spec(query@, text@, precision as nat),
        forall|j: int, k: int| 0 <= j < k < result@.len() ==> result@[j] < result@[k],
        forall|k: int| 0 <= k < result@.len() ==> result@[k] + window_len(query@) <= text@.len(),
        forall|k: int| 0 <= k < result@.len() ==> score(query@, text@, #[trigger] result@[k] as int) <= precision,
        precision == 0 ==> forall|k: int| 0 <= k < result@.len() ==> normalized(
            case_sensitive(query@),
            window(text@, #[trigger] result@[k] as int, window_len(query@)),
        ) == normalized(case_sensitive(query@), query@),
        precision == 0 && (case_sensitive(query@) || lowercase(query@) == query@) ==> forall|k: int|
            0 <= k < result@.len() ==> normalized(
                case_sensitive(query@),
                window(text@, #[trigger] result@[k] as int, window_len(query@)),
            ) == query@,
{
    let scores = window_scores(query, text);
    let result = offsets_within(&scores, precision);
    let count = scores.len();
    proof {
        lemma_hits_agree(
            is_within(scores@, precision as nat),
            is_hit(query@, text@, precision as nat),
            count as nat,
        );
    }
    result
}

/// Every offset whose window is within `precision` of the query is reported.
pub proof fn lemma_find_complete(query: Seq<char>, text: Seq<char>, precision: nat, i: usize)
    requires
        i < window_count(text.len(), window_len(query)),
        score(query, text, i as int) <= precision,
    ensures
        find_spec(query, text, precision).contains(i),
{
    lemma_hits_complete(
        is_hit(query, text, precision),
        window_count(text.len(), window_len(query)),
        i,
    );
}

/// What is reported are offsets of windows of the text, each within
/// `precision` of the query, in strictly ascending order.
pub proof fn lemma_find_sorted(query: Seq<char>, text: Seq<char>, precision: nat)
    requires
        text.len() <= usize::MAX,
    ensures
        forall|k: int| 0 <= k < find_spec(query, text, precision).len() ==> (#[trigger] find_spec(query, text, precision)[k])
            < window_count(text.len(), window_len(query)),
        forall|k: int| 0 <= k < find_spec(query, text, precision).len() ==> score(
            query,
            text,
            #[trigger] find_spec(query, text, precision)[k] as int,
        ) <= precision,
        forall|j: int, k: int| 0 <= j < k < find_spec(query, text, precision).len() ==> find_spec(query, text, precision)[j]
            < find_spec(query, text, precision)[k],
{
    lemma_hits_sorted(is_hit(query, text, precision), window_count(text.len(), window_len(query)));
}

/// A wider tolerance loses no hit: what is reported at one precision is
/// reported at every greater one.
pub proof fn lemma_find_monotone(query: Seq<char>, text: Seq<char>, low: nat, high: nat, i: usize)
    requires
        text.len() <= usize::MAX,
        low <= high,
        find_spec(query, text, low).contains(i),
    ensures
        find_spec(query, text, high).contains(i),
{
    lemma_find_sorted(query, text, low);
    let k = choose|k: int| 0 <= k < find_spec(query, text, low).len() && find_spec(query, text, low)[k] == i;
    assert(find_spec(query, text, low)[k] < window_count(text.len(), window_len(query)));
    lemma_find_complete(query, text, high, i);
}

/// What the search with backoff reports: the exact hits where there are
/// any, else the hits within one edit.
pub open spec fn backoff_spec(query: Seq<char>, text: Seq<char>) -> Seq<usize> {
    if find_spec(query, text, 0).len() > 0 {
        find_spec(query, text, 0)
    } else {
        find_spec(query, text, 1)
    }
}

/// Searches exactly first, and within one edit only when the exact search
/// finds nothing. The two results are never merged.
pub fn find_with_backoff(query: &str, text: &str) -> (result: Vec<usize>)
    ensures
        result@ == backoff_spec(query@, text@),
        find_spec(query@, text@, 0).len() > 0 ==> result@ == find_spec(query@, text@, 0),
        find_spec(query@, text@, 0).len() == 0 ==> result@ == find_spec(query@, text@, 1),
        forall|j: int, k: int| 0 <= j < k < result@.len() ==> result@[j] < result@[k],
{
    let exact = find(query, text, 0);
    if exact.is_empty() {
        find(query, text, 1)
    } else {
        exact
    }
}

/// The lines in which the query has a hit.
pub open spec fn has_hit(query: Seq<char>, lines: Seq<&str>, precision: nat) -> spec_fn(usize) -> bool {
    |i: usize| find_spec(query, lines[i as int]@, precision).len() > 0
}

/// The indices of the lines in which the query has at least one hit, in
/// ascending order.
pub open spec fn line_match_spec(query: Seq<char>, lines: Seq<&str>, precision: nat) -> Seq<usize> {
    offsets(lines.len()).filter(has_hit(query, lines, precision))
}

/// Returns the numbers of the lines that match the query with the given
/// precision, counted from zero and ascending.
pub fn line_match(query: &str, text: Vec<&str>, precision: usize) -> (result: Vec<usize>)
    ensures
        result@ == line_match_spec(query@, text@, precision as nat),
        forall|j: int, k: int| 0 <= j < k < result@.len() ==> result@[j] < result@[k],
        forall|k: int| 0 <= k < result@.len() ==> result@[k] < text@.len() && find_spec(
            query@,
            text@[#[trigger] result@[k] as int]@,
            precision as nat,
        ).len() > 0,
{
    let ghost hit = has_hit(query@, text@, precision as nat);
    let mut result: Vec<usize> = Vec::new();
    let mut i: usize = 0;
    proof {
        reveal(Seq::filter);
    }
    while i < text.len()
        invariant
            i <= text.len(),
            hit == has_hit(query@, text@, precision as nat),
            result@ == offsets(i as nat).filter(hit),
        decreases text.len() - i,
    {
        let hits = find(query, text[i], precision);
        proof {
            lemma_hits_step(hit, (i + 1) as nat);
        }
        if !hits.is_empty() {
            result.push(i);
        }
        i += 1;
    }
    proof {
        lemma_hits_sorted(hit, text@.len());
    }
    result
}

/// The hits of one line, each paired with the line's index.
pub open spec fn line_hits(query: Seq<char>, lines: Seq<&str>, precision: nat, i: int) -> Seq<(usize, usize)> {
    find_spec(query, lines[i]@, precision).map_values(|j: usize| (i as usize, j))
}

/// The hits of all lines as pairs of line index and offset, by line and,
/// within a line, by offset.
pub open spec fn line_match_and_index_spec(query: Seq<char>, lines: Seq<&str>, precision: nat) -> Seq<(usize, usize)> {
    Seq::new(lines.len(), |i: int| line_hits(query, lines, precision, i)).flatten()
}

/// Returns every hit of the query in every line as a pair of line index and
/// offset within the line, in line order and then in offset order.
pub fn line_match_and_index(query: &str, lines: Vec<&str>, precision: usize) -> (result: Vec<(usize, usize)>)
    ensures
        result@ == line_match_and_index_spec(query@, lines@, precision as nat),
{
    let mut result: Vec<(usize, usize)> = Vec::new();
    let ghost per_line = |i: int| line_hits(query@, lines@, precision as nat, i);
    let mut i: usize = 0;
    while i < lines.len()
        invariant
            i <= lines.len(),
            per_line == |i: int| line_hits(query@, lines@, precision as nat, i),
            result@ == Seq::new(i as nat, per_line).flatten(),
        decreases lines.len() - i,
    {
        let hits = find(query, lines[i], precision);
        let ghost before = result@;
        let mut j: usize = 0;
        while j < hits.len()
            invariant
                j <= hits.len(),
                i < lines.len(),
                hits@ == find_spec(query@, lines@[i as int]@, precision as nat),
                result@ == before + line_hits(query@, lines@, precision as nat, i as int).take(j as int),
            decreases hits.len() - j,
        {
            result.push((i, hits[j]));
            proof {
                let row = line_hits(query@, lines@, precision as nat, i as int);
                assert(row.take(j + 1) =~= row.take(j as int).push(row[j as int]));
            }
            j += 1;
        }
        proof {
            let row = line_hits(query@, lines@, precision as nat, i as int);
            assert(row.take(j as int) =~= row);
            let rows = Seq::new(i as nat, per_line);
            rows.lemma_flatten_push(row);
            assert(rows.push(row) =~= Seq::new((i + 1) as nat, per_line));
        }
        i += 1;
    }
    result
}

} // verus!
