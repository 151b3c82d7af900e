use fuzzy_search::heading::compare_heading;
use fuzzy_search::word::{Word, WordType};

fn row(contents: &[&str]) -> Vec<Word> {
    contents.iter().map(|content| Word::new(content.to_string(), WordType::Normal)).collect()
}

#[test]
fn test_alphanumeric() {
    let s = "#Hello, world!";
    let filtered = s
        .chars()
        .filter(|c| c.is_alphanumeric() || *c == '-')
        .collect::<String>();

    assert_eq!(filtered, "Helloworld");
    assert!(compare_heading("helloworld", &[row(&[s])]));
}

#[test]
fn heading_slug_ignores_case_and_repeated_separators() {
    assert!(compare_heading("hello-world", &[row(&["Hello", " ", " ", "World"])]));
    assert!(compare_heading("hello-world", &[row(&["hello-world"])]));
    assert!(compare_heading("hello-world", &[row(&["HELLO", " ", "WORLD"])]));
    assert!(compare_heading("hello-world", &[row(&["hello", "-", "-", "-", "world"])]));
}

#[test]
fn heading_slug_joins_tokens_with_hyphens() {
    assert!(compare_heading("a-b-c", &[row(&["a", "b", "c"])]));
    assert!(!compare_heading("abc", &[row(&["a", "b", "c"])]));
    assert!(compare_heading("abc", &[row(&["abc"])]));
}

#[test]
fn heading_slug_runs_over_all_rows() {
    assert!(compare_heading("getting-started-now", &[row(&["Getting", " ", "started"]), row(&["now"])]));
    assert!(compare_heading("now", &[row(&[]), row(&["now"]), row(&[])]));
}

#[test]
fn heading_slug_has_no_leading_hyphen() {
    assert!(compare_heading("title", &[row(&["-", "-", "Title"])]));
    assert!(compare_heading("title", &[row(&["#", " ", "Title"])]));
    assert!(compare_heading("title", &[row(&["!-", "title"])]));
    assert!(!compare_heading("-title", &[row(&["-", "Title"])]));
}

#[test]
fn heading_slug_keeps_a_trailing_hyphen() {
    assert!(compare_heading("title-", &[row(&["Title", "!"])]));
    assert!(!compare_heading("title", &[row(&["Title", "!"])]));
}

#[test]
fn heading_slug_drops_punctuation_and_keeps_digits() {
    assert!(compare_heading("version-2-0", &[row(&["Version", " ", "2", ".", "0"])]));
    assert!(compare_heading("whats-new", &[row(&["What's", " ", "new?"])]));
}

#[test]
fn heading_comparison_is_exact() {
    assert!(!compare_heading("Hello-World", &[row(&["Hello", " ", "World"])]));
    assert!(!compare_heading("hello-worl", &[row(&["Hello", " ", "World"])]));
    assert!(compare_heading("", &[]));
    assert!(compare_heading("", &[row(&["?", "!"])]));
    assert!(!compare_heading("x", &[]));
}
