//! Resolution of a heading anchor: the tokens of a heading are turned into a
//! slug, which is compared with the anchor.

use vstd::prelude::*;
use itertools::Itertools;
use crate::join::{join, joined, texts};
use crate::text::{chars_of, is_alnum, lowercase};
use crate::word::Word;

verus! {

/// The text without its leading hyphens.
pub open spec fn strip_hyphens(s: Seq<char>) -> Seq<char>
    decreases s.len(),
{
    if s.len() > 0 && s[0] == '-' {
        strip_hyphens(s.drop_first())
    } else {
        s
    }
}

/// The characters that a slug keeps: letters, digits and hyphens.
pub open spec fn slug_char() -> spec_fn(char) -> bool {
    |c: char| is_alnum(c) || c == '-'
}

/// The text with each run of hyphens reduced to one hyphen.
pub open spec fn collapsed(s: Seq<char>) -> Seq<char>
    decreases s.len(),
{
    if s.len() == 0 {
        s
    } else if s.len() >= 2 && s[s.len() - 1] == '-' && s[s.len() - 2] == '-' {
        collapsed(s.drop_last())
    } else {
        collapsed(s.drop_last()).push(s.last())
    }
}

/// The lowercase texts of the tokens of one heading row.
pub open spec fn row_texts(row: Vec<Word>) -> Seq<Seq<char>> {
    row@.map_values(|word: Word| lowercase(word.text()))
}

/// The lowercase texts of all tokens of a heading, row after row.
pub open spec fn heading_texts(rows: Seq<Vec<Word>>) -> Seq<Seq<char>> {
    rows.map_values(|row: Vec<Word>| row_texts(row)).flatten()
}

/// The slug of a heading: the lowercase token texts joined by hyphens,
/// without leading hyphens, reduced to letters, digits and hyphens, with runs
/// of hyphens collapsed and, again, without leading hyphens.
pub open spec fn slug(rows: Seq<Vec<Word>>) -> Seq<char> {
    strip_hyphens(
        collapsed(strip_hyphens(joined(heading_texts(rows), seq!['-'])).filter(slug_char())),
    )
}

/// Headings whose tokens agree up to case have the same slug.
pub proof fn lemma_slug_ignores_case(a: Seq<Vec<Word>>, b: Seq<Vec<Word>>)
    requires
        a.len() == b.len(),
        forall|r: int| 0 <= r < a.len() ==> (#[trigger] a[r])@.len() == b[r]@.len(),
        forall|r: int, c: int|
            0 <= r < a.len() && 0 <= c < a[r]@.len() ==> lowercase(#[trigger] a[r]@[c].text()) == lowercase(
                b[r]@[c].text(),
            ),
    ensures
        slug(a) == slug(b),
{
    let rows_a = a.map_values(|row: Vec<Word>| row_texts(row));
    let rows_b = b.map_values(|row: Vec<Word>| row_texts(row));
    assert forall|r: int| 0 <= r < a.len() implies rows_a[r] == rows_b[r] by {
        assert forall|c: int| 0 <= c < a[r]@.len() implies row_texts(a[r])[c] == row_texts(b[r])[c] by {
            assert(lowercase(a[r]@[c].text()) == lowercase(b[r]@[c].text()));
        }
        assert(row_texts(a[r]) =~= row_texts(b[r]));
    }
    assert(rows_a =~= rows_b);
}

/// A text has the form of a slug when it holds only letters, digits and
/// hyphens, and no two hyphens stand side by side.
pub open spec fn slug_form(s: Seq<char>) -> bool {
    &&& forall|i: int| 0 <= i < s.len() ==> is_alnum(#[trigger] s[i]) || s[i] == '-'
    &&& forall|i: int| 0 <= i < s.len() - 1 ==> !(#[trigger] s[i] == '-' && s[i + 1] == '-')
}

/// Collapsing keeps the last character of a text, keeps only characters of
/// the text, and leaves no two hyphens side by side.
pub proof fn lemma_collapsed(s: Seq<char>)
    ensures
        collapsed(s).len() <= s.len(),
        s.len() > 0 ==> collapsed(s).len() > 0 && collapsed(s).last() == s.last() && collapsed(s)[0] == s[0],
        forall|i: int| 0 <= i < collapsed(s).len() ==> s.contains(#[trigger] collapsed(s)[i]),
        forall|i: int| 0 <= i < collapsed(s).len() - 1 ==> !(#[trigger] collapsed(s)[i] == '-' && collapsed(s)[i + 1] == '-'),
    decreases s.len(),
{
    if s.len() > 0 {
        let front = s.drop_last();
        lemma_collapsed(front);
        assert forall|i: int| 0 <= i < collapsed(s).len() implies s.contains(#[trigger] collapsed(s)[i]) by {
            if i < collapsed(front).len() {
                let k = choose|k: int| 0 <= k < front.len() && front[k] == collapsed(front)[i];
                assert(s[k] == collapsed(s)[i]);
            } else {
                assert(s[s.len() - 1] == collapsed(s)[i]);
            }
        }
    }
}

/// A text in which no two hyphens stand side by side is left as it is.
pub proof fn lemma_collapsed_fixed(s: Seq<char>)
    requires
        forall|i: int| 0 <= i < s.len() - 1 ==> !(#[trigger] s[i] == '-' && s[i + 1] == '-'),
    ensures
        collapsed(s) == s,
    decreases s.len(),
{
    if s.len() > 0 {
        let front = s.drop_last();
        assert forall|i: int| 0 <= i < front.len() - 1 implies !(#[trigger] front[i] == '-' && front[i + 1] == '-') by {
            assert(!(s[i] == '-' && s[i + 1] == '-'));
        }
        lemma_collapsed_fixed(front);
        if s.len() >= 2 {
            assert(!(s[s.len() - 2] == '-' && s[s.len() - 2 + 1] == '-'));
        }
        assert(front.push(s.last()) =~= s);
    }
}

/// Collapsing a second time changes nothing.
pub proof fn lemma_collapsed_idempotent(s: Seq<char>)
    ensures
        collapsed(collapsed(s)) == collapsed(s),
{
    lemma_collapsed(s);
    lemma_collapsed_fixed(collapsed(s));
}

/// A hyphen repeated next to itself does not show after collapsing.
pub proof fn lemma_collapsed_repeated_hyphen(a: Seq<char>, b: Seq<char>)
    ensures
        collapsed(a + seq!['-', '-'] + b) == collapsed(a + seq!['-'] + b),
    decreases b.len(),
{
    let twice = a + seq!['-', '-'] + b;
    let once = a + seq!['-'] + b;
    if b.len() == 0 {
        assert(twice.drop_last() =~= once);
    } else {
        let front = b.drop_last();
        lemma_collapsed_repeated_hyphen(a, front);
        assert(twice.drop_last() =~= a + seq!['-', '-'] + front);
        assert(once.drop_last() =~= a + seq!['-'] + front);
        assert(twice.last() == once.last());
        assert(twice[twice.len() - 2] == once[once.len() - 2]);
    }
}

/// Stripping yields a tail of the text that does not begin with a hyphen.
pub proof fn lemma_strip_hyphens(s: Seq<char>)
    ensures
        exists|k: int| 0 <= k <= s.len() && #[trigger] s.skip(k) == strip_hyphens(s),
        strip_hyphens(s).len() > 0 ==> strip_hyphens(s)[0] != '-',
    decreases s.len(),
{
    if s.len() > 0 && s[0] == '-' {
        lemma_strip_hyphens(s.drop_first());
        let k = choose|k: int| 0 <= k <= s.len() - 1 && #[trigger] s.drop_first().skip(k) == strip_hyphens(s.drop_first());
        assert(s.skip(k + 1) =~= s.drop_first().skip(k));
    } else {
        assert(s.skip(0) =~= s);
    }
}

/// Every slug has the form of a slug and does not begin with a hyphen.
pub proof fn lemma_slug_form(rows: Seq<Vec<Word>>)
    ensures
        slug_form(slug(rows)),
        slug(rows).len() > 0 ==> slug(rows)[0] != '-',
{
    let kept = strip_hyphens(joined(heading_texts(rows), seq!['-'])).filter(slug_char());
    let squeezed = collapsed(kept);
    let out = slug(rows);
    lemma_collapsed(kept);
    lemma_strip_hyphens(squeezed);
    let k = choose|k: int| 0 <= k <= squeezed.len() && #[trigger] squeezed.skip(k) == strip_hyphens(squeezed);
    assert forall|i: int| 0 <= i < out.len() implies is_alnum(#[trigger] out[i]) || out[i] == '-' by {
        assert(out[i] == squeezed[k + i]);
        assert(kept.contains(squeezed[k + i]));
        let m = choose|m: int| 0 <= m < kept.len() && kept[m] == squeezed[k + i];
        strip_hyphens(joined(heading_texts(rows), seq!['-'])).lemma_filter_pred(slug_char(), m);
    }
    assert forall|i: int| 0 <= i < out.len() - 1 implies !(#[trigger] out[i] == '-' && out[i + 1] == '-') by {
        assert(out[i] == squeezed[k + i]);
        assert(out[i + 1] == squeezed[k + i + 1]);
    }
}

/// Whether two neighbours are both hyphens.
fn both_hyphens(a: &char, b: &char) -> (both: bool)
    ensures
        both == (*a == '-' && *b == '-'),
{
    *a == '-' && *b == '-'
}

/// `Itertools::dedup_by` drops an element when the predicate holds of the
/// last element kept and of it. With the predicate that both are hyphens,
/// this drops exactly the hyphens that follow a hyphen.
#[verifier::external_body]
fn dedup_hyphens(chars: Vec<char>) -> (out: Vec<char>)
    ensures
        out@ == collapsed(chars@),
{
    chars.into_iter().dedup_by(|a, b| both_hyphens(a, b)).collect()
}

/// Drops the leading hyphens of a text.
fn strip_leading_hyphens(chars: &Vec<char>) -> (out: Vec<char>)
    ensures
        out@ == strip_hyphens(chars@),
{
    let mut start: usize = 0;
    proof {
        assert(chars@.skip(0) =~= chars@);
    }
    while start < chars.len() && chars[start] == '-'
        invariant
            start <= chars.len(),
            strip_hyphens(chars@) == strip_hyphens(chars@.skip(start as int)),
        decreases chars.len() - start,
    {
        proof {
            assert(chars@.skip(start as int).drop_first() =~= chars@.skip(start + 1));
        }
        start += 1;
    }
    let mut out: Vec<char> = Vec::new();
    let mut i: usize = start;
    while i < chars.len()
        invariant
            start <= i <= chars.len(),
            out@ == chars@.subrange(start as int, i as int),
        decreases chars.len() - i,
    {
        out.push(chars[i]);
        proof {
            assert(chars@.subrange(start as int, i + 1) =~= chars@.subrange(start as int, i as int).push(
                chars@[i as int],
            ));
        }
        i += 1;
    }
    proof {
        assert(chars@.subrange(start as int, chars@.len() as int) =~= chars@.skip(start as int));
    }
    out
}

/// Keeps the letters, digits and hyphens of a text.
fn keep_slug_chars(chars: &Vec<char>) -> (out: Vec<char>)
    ensures
        out@ == chars@.filter(slug_char()),
{
    let mut out: Vec<char> = Vec::new();
    let mut i: usize = 0;
    proof {
        reveal(Seq::filter);
    }
    while i < chars.len()
        invariant
            i <= chars.len(),
            out@ == chars@.take(i as int).filter(slug_char()),
        decreases chars.len() - i,
    {
        proof {
            assert(chars@.take(i + 1) =~= chars@.take(i as int).push(chars@[i as int]));
            chars@.take(i as int).lemma_filter_push(chars@[i as int], slug_char());
        }
        let c = chars[i];
        if c.is_alphanumeric() || c == '-' {
            out.push(c);
        }
        i += 1;
    }
    proof {
        assert(chars@.take(chars@.len() as int) =~= chars@);
    }
    out
}

/// The lowercase texts of all tokens of a heading, row after row.
fn lowered_contents(header: &[Vec<Word>]) -> (out: Vec<String>)
    ensures
        texts(out@) == heading_texts(header@),
{
    let mut out: Vec<String> = Vec::new();
    let ghost rows = header@.map_values(|row: Vec<Word>| row_texts(row));
    let mut r: usize = 0;
    proof {
        assert(texts(out@) =~= rows.take(0).flatten());
    }
    while r < header.len()
        invariant
            r <= header.len(),
            rows == header@.map_values(|row: Vec<Word>| row_texts(row)),
            texts(out@) == rows.take(r as int).flatten(),
        decreases header.len() - r,
    {
        let row = &header[r];
        let ghost before = texts(out@);
        let mut c: usize = 0;
        proof {
            assert(texts(out@) =~= before + row_texts(*row).take(0));
        }
        while c < row.len()
            invariant
                c <= row.len(),
                texts(out@) == before + row_texts(*row).take(c as int),
            decreases row.len() - c,
        {
            let ghost prev = out@;
            out.push(row[c].content().to_lowercase());
            proof {
                assert(texts(out@) =~= texts(prev).push(lowercase(row@[c as int].text())));
                assert(row_texts(*row).take(c + 1) =~= row_texts(*row).take(c as int).push(
                    lowercase(row@[c as int].text()),
                ));
                assert(texts(out@) =~= before + row_texts(*row).take(c + 1));
            }
            c += 1;
        }
        proof {
            assert(row_texts(*row).take(row@.len() as int) =~= row_texts(*row));
            rows.take(r as int).lemma_flatten_push(rows[r as int]);
            assert(rows.take(r + 1) =~= rows.take(r as int).push(rows[r as int]));
        }
        r += 1;
    }
    proof {
        assert(rows.take(rows.len() as int) =~= rows);
    }
    out
}

/// Whether two texts hold the same code points.
fn same_chars(a: &Vec<char>, b: &Vec<char>) -> (same: bool)
    ensures
        same == (a@ == b@),
{
    if a.len() != b.len() {
        return false;
    }
    let mut i: usize = 0;
    while i < a.len()
        invariant
            i <= a.len(),
            a.len() == b.len(),
            forall|k: int| 0 <= k < i ==> a@[k] == b@[k],
        decreases a.len() - i,
    {
        if a[i] != b[i] {
            return false;
        }
        i += 1;
    }
    proof {
        assert(a@ =~= b@);
    }
    true
}

/// Decides whether a heading resolves to an anchor: whether the slug of the
/// heading's tokens is exactly the anchor.
pub fn compare_heading(link_header: &str, header: &[Vec<Word>]) -> (same: bool)
    ensures
        same == (link_header@ == slug(header@)),
{
    let lowered = lowered_contents(header);
    proof {
        reveal_strlit("-");
        assert("-"@ =~= seq!['-']);
    }
    let text = join(lowered.as_slice(), "-");
    let chars = chars_of(text.as_str());
    let stripped = strip_leading_hyphens(&chars);
    let kept = keep_slug_chars(&stripped);
    let deduped = dedup_hyphens(kept);
    let slug = strip_leading_hyphens(&deduped);
    let anchor = chars_of(link_header);
    same_chars(&anchor, &slug)
}

} // verus!
