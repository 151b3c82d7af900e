//! Filtering of a list of document files by a query typed against their
//! paths.

use vstd::prelude::*;
use crate::distance::edit_distance;
use crate::search::{
    case_sensitive, char_windows, find, find_spec, is_case_sensitive, normalize, normalized,
    window, window_count, window_len,
};
use crate::text::{chars_of, lowercase};

verus! {

/// A document file: its full path and its bare name.
#[derive(Debug, PartialEq, Eq)]
pub struct MdFile {
    pub path: String,
    pub name: String,
}

impl MdFile {
    pub fn new(path: String, name: String) -> (file: MdFile)
        ensures
            file.path == path,
            file.name == name,
    {
        MdFile { path, name }
    }
}

impl Clone for MdFile {
    fn clone(&self) -> (copy: Self)
        ensures
            copy == *self,
    {
        MdFile { path: self.path.clone(), name: self.name.clone() }
    }
}

/// Whether some window of the path, taken after the path was normalized by
/// the query's case rule, is equal to the normalized query.
pub open spec fn path_matches(query: Seq<char>, path: Seq<char>) -> bool {
    let sensitive = case_sensitive(query);
    let hay = normalized(sensitive, path);
    exists|i: int|
        0 <= i < window_count(hay.len(), window_len(query)) && #[trigger] window(
            hay,
            i,
            window_len(query),
        ) == normalized(sensitive, query)
}

/// The files that a query keeps.
pub open spec fn keeps(query: Seq<char>) -> spec_fn(MdFile) -> bool {
    |file: MdFile| path_matches(query, file.path@)
}

/// The files whose path holds the query, in the order in which they were
/// given; all of them when the query is empty.
pub open spec fn find_files_spec(files: Seq<MdFile>, query: Seq<char>) -> Seq<MdFile> {
    if query.len() == 0 {
        files
    } else {
        files.filter(keeps(query))
    }
}

/// Whether `needle` stands in `hay` as a run of neighbouring code points.
pub open spec fn occurs_in(needle: Seq<char>, hay: Seq<char>) -> bool {
    exists|i: int| 0 <= i && i + needle.len() <= hay.len() && #[trigger] hay.subrange(i, i + needle.len()) == needle
}

/// The normalized query stands in the normalized path of every file that the
/// query keeps.
pub proof fn lemma_match_occurs(query: Seq<char>, path: Seq<char>)
    requires
        path_matches(query, path),
    ensures
        occurs_in(normalized(case_sensitive(query), query), normalized(case_sensitive(query), path)),
{
    let sensitive = case_sensitive(query);
    let hay = normalized(sensitive, path);
    let needle = normalized(sensitive, query);
    let i = choose|i: int|
        0 <= i < window_count(hay.len(), window_len(query)) && #[trigger] window(hay, i, window_len(query)) == needle;
    assert(window(hay, i, window_len(query)).len() == window_len(query));
    assert(hay.subrange(i, i + needle.len()) == needle);
}

/// A filter that no element passes keeps nothing.
proof fn lemma_none_kept(files: Seq<MdFile>, keep: spec_fn(MdFile) -> bool)
    requires
        forall|k: int| 0 <= k < files.len() ==> !keep(#[trigger] files[k]),
    ensures
        files.filter(keep).len() == 0,
    decreases files.len(),
{
    reveal(Seq::filter);
    if files.len() > 0 {
        let front = files.drop_last();
        assert forall|k: int| 0 <= k < front.len() implies !keep(#[trigger] front[k]) by {
            assert(!keep(files[k]));
        }
        lemma_none_kept(front, keep);
        assert(!keep(files[files.len() - 1]));
    }
}

/// A query that is not empty keeps no file when the normalized query stands
/// in none of the normalized paths.
pub proof fn lemma_find_files_none(files: Seq<MdFile>, query: Seq<char>)
    requires
        query.len() > 0,
        forall|k: int|
            0 <= k < files.len() ==> !occurs_in(
                normalized(case_sensitive(query), query),
                normalized(case_sensitive(query), (#[trigger] files[k]).path@),
            ),
    ensures
        find_files_spec(files, query).len() == 0,
{
    assert forall|k: int| 0 <= k < files.len() implies !keeps(query)(#[trigger] files[k]) by {
        if path_matches(query, files[k].path@) {
            lemma_match_occurs(query, files[k].path@);
        }
    }
    lemma_none_kept(files, keeps(query));
}

/// A query that normalization leaves as it was typed keeps no file when it
/// stands in none of the normalized paths. This is so for every query with
/// an uppercase character, and for every other query that is its own
/// lowercase form.
pub proof fn lemma_find_files_none_as_typed(files: Seq<MdFile>, query: Seq<char>)
    requires
        query.len() > 0,
        case_sensitive(query) || lowercase(query) == query,
        forall|k: int|
            0 <= k < files.len() ==> !occurs_in(query, normalized(case_sensitive(query), (#[trigger] files[k]).path@)),
    ensures
        find_files_spec(files, query).len() == 0,
{
    lemma_find_files_none(files, query);
}

/// Decides whether a path holds the query: whether one of its windows is at
/// distance zero from it.
pub fn path_holds(query: &str, path: &str) -> (holds: bool)
    ensures
        holds == path_matches(query@, path@),
{
    let sensitive = is_case_sensitive(query);
    let needle = normalize(sensitive, query);
    let hay = normalize(sensitive, path);
    let windows = char_windows(hay.as_str(), query.as_bytes().len());
    let mut i: usize = 0;
    while i < windows.len()
        invariant
            i <= windows.len(),
            sensitive == case_sensitive(query@),
            needle@ == normalized(sensitive, query@),
            hay@ == normalized(sensitive, path@),
            windows@.len() == window_count(hay@.len(), window_len(query@)),
            forall|k: int| 0 <= k < windows@.len() ==> (#[trigger] windows@[k])@ == window(hay@, k, window_len(query@)),
            forall|k: int| 0 <= k < i ==> window(hay@, k, window_len(query@)) != needle@,
        decreases windows.len() - i,
    {
        if edit_distance(windows[i].as_str(), needle.as_str()) == 0 {
            assert(window(hay@, i as int, window_len(query@)) == needle@);
            return true;
        }
        i += 1;
    }
    false
}

/// Keeps the files whose path holds the query, without any tolerance for
/// typos and without reordering. An empty query keeps every file.
pub fn find_files(files: &[MdFile], query: &str) -> (result: Vec<MdFile>)
    ensures
        result@ == find_files_spec(files@, query@),
{
    let mut result: Vec<MdFile> = Vec::new();
    let empty = query.is_empty();
    let ghost keep = keeps(query@);
    let mut i: usize = 0;
    proof {
        reveal(Seq::filter);
    }
    while i < files.len()
        invariant
            i <= files.len(),
            empty == (query@.len() == 0),
            keep == keeps(query@),
            empty ==> result@ == files@.take(i as int),
            !empty ==> result@ == files@.take(i as int).filter(keep),
        decreases files.len() - i,
    {
        proof {
            assert(files@.take(i + 1) =~= files@.take(i as int).push(files@[i as int]));
            files@.take(i as int).lemma_filter_push(files@[i as int], keep);
        }
        if empty || path_holds(query, files[i].path.as_str()) {
            result.push(files[i].clone());
        }
        i += 1;
    }
    proof {
        assert(files@.take(files@.len() as int) =~= files@);
    }
    result
}

/// Whether a line of an ignore file holds a pattern: it is not empty and is
/// no comment.
pub open spec fn holds_pattern(line: Seq<char>) -> bool {
    line.len() > 0 && line[0] != '#'
}

/// Decides whether a line of an ignore file holds a pattern.
pub fn is_pattern_line(line: &str) -> (pattern: bool)
    ensures
        pattern == holds_pattern(line@),
{
    let chars = chars_of(line);
    chars.len() > 0 && chars[0] != '#'
}

/// Whether one of the patterns occurs exactly in the path.
pub open spec fn ignored(patterns: Seq<String>, path: Seq<char>) -> bool {
    exists|i: int| 0 <= i < patterns.len() && find_spec((#[trigger] patterns[i])@, path, 0).len() > 0
}

/// Decides whether a path is ignored: whether the exact search finds one of
/// the ignore patterns in it.
pub fn is_ignored(patterns: &Vec<String>, path: &str) -> (hit: bool)
    ensures
        hit == ignored(patterns@, path@),
{
    let mut i: usize = 0;
    while i < patterns.len()
        invariant
            i <= patterns.len(),
            forall|k: int| 0 <= k < i ==> find_spec((#[trigger] patterns@[k])@, path@, 0).len() == 0,
        decreases patterns.len() - i,
    {
        if !find(patterns[i].as_str(), path, 0).is_empty() {
            return true;
        }
        i += 1;
    }
    false
}

} // verus!
