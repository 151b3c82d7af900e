use fuzzy_search::mark::{find_and_mark, windows_mut_for_each};
use fuzzy_search::span::{count_words, find_with_ref, span_flags, span_size, windows_collect};
use fuzzy_search::word::{Word, WordType};

fn tokenize(text: &str) -> Vec<Word> {
    let mut words = Vec::new();
    for piece in text.split_whitespace() {
        if !words.is_empty() {
            words.push(Word::new(" ".to_string(), WordType::White));
        }
        words.push(Word::new(piece.to_string(), WordType::Normal));
    }
    words
}

#[test]
fn test_word_by_ref() {
    let text = vec![
        Word::new("Hello".to_string(), WordType::Bold),
        Word::new("hello".to_string(), WordType::White),
        Word::new("world".to_string(), WordType::Normal),
        Word::new("World".to_string(), WordType::BoldItalic),
    ];

    let words: Vec<&Word> = text.iter().collect();
    let query = "world";
    let result = find_with_ref(query, words);
    assert_eq!(result.len(), 2);
}

#[test]
fn test_word_by_ref_span_multiple_words() {
    let text = vec![
        Word::new("Hello".to_string(), WordType::Bold),
        Word::new("hello".to_string(), WordType::White),
        Word::new(" ".to_string(), WordType::White),
        Word::new("world".to_string(), WordType::Normal),
        Word::new("World".to_string(), WordType::BoldItalic),
    ];

    let words: Vec<&Word> = text.iter().collect();
    let query = "hello world";
    let result = find_with_ref(query, words);
    assert_eq!(result.len(), 3);
}

#[test]
fn test_word_by_ref_span_multiple_words_using_reference() {
    let text = vec![
        Word::new("Hello".to_string(), WordType::Bold),
        Word::new("hello".to_string(), WordType::White),
        Word::new(" ".to_string(), WordType::White),
        Word::new("world".to_string(), WordType::Normal),
        Word::new("World".to_string(), WordType::BoldItalic),
    ];

    let words: Vec<&Word> = text.iter().collect();
    let query = "hello world";
    let result = find_with_ref(query, words.clone());

    assert_ne!(result[0], words[0]);
    assert_eq!(result[0], words[1]);
    assert_eq!(result[1], words[2]);
    assert_eq!(result[2], words[3]);
    assert!(std::ptr::eq(result[0], &text[1]));
    assert!(std::ptr::eq(result[1], &text[2]));
    assert!(std::ptr::eq(result[2], &text[3]));
}

#[test]
fn test_long_match() {
    let text = "`MD-TUI` is a TUI application for viewing markdown files directly in your
terminal. I created it because I wasn't happy with how alternatives handled
links in their applications. While the full markdown specification is not yet
supported, it will slowly get there. It's a good solution for quickly viewing
your markdown notes, or opening external links from someones README.
";

    let markdown = tokenize(text);

    let result = find_with_ref("in", markdown.iter().collect());
    assert_eq!(result.len(), 2);

    let result = find_with_ref("markdown notes,", markdown.iter().collect());
    assert_eq!(result.len(), 3);
}

fn sample() -> Vec<Word> {
    vec![
        Word::new("Hello".to_string(), WordType::Bold),
        Word::new("hello".to_string(), WordType::White),
        Word::new(" ".to_string(), WordType::White),
        Word::new("world".to_string(), WordType::Normal),
        Word::new("World".to_string(), WordType::BoldItalic),
    ]
}

#[test]
fn a_lowercase_query_matches_tokens_of_either_case() {
    let text = sample();
    let result = find_with_ref("world", text.iter().collect());
    assert_eq!(result.len(), 2);
    assert!(std::ptr::eq(result[0], &text[3]));
    assert!(std::ptr::eq(result[1], &text[4]));
}

#[test]
fn a_query_with_an_uppercase_letter_matches_by_case() {
    let text = sample();
    let result = find_with_ref("Hello", text.iter().collect());
    assert_eq!(result.len(), 1);
    assert!(std::ptr::eq(result[0], &text[0]));
}

#[test]
fn a_query_without_words_matches_no_token() {
    let text = sample();
    assert!(find_with_ref("", text.iter().collect()).is_empty());
    assert!(find_with_ref("  \t ", text.iter().collect()).is_empty());
}

#[test]
fn a_span_longer_than_the_sequence_is_not_compared() {
    let text = vec![Word::new("hello".to_string(), WordType::Normal), Word::new(" ".to_string(), WordType::White)];
    assert!(find_with_ref("hello world", text.iter().collect()).is_empty());
    assert!(find_with_ref("hello", Vec::new()).is_empty());
}

#[test]
fn overlapping_spans_return_a_token_once_for_each() {
    let text = vec![
        Word::new("a".to_string(), WordType::Normal),
        Word::new(" ".to_string(), WordType::White),
        Word::new("a".to_string(), WordType::Normal),
        Word::new(" ".to_string(), WordType::White),
        Word::new("a".to_string(), WordType::Normal),
    ];
    let result = find_with_ref("a a", text.iter().collect());
    assert_eq!(result.len(), 6);
    let expected = [0usize, 1, 2, 2, 3, 4];
    for (found, index) in result.iter().zip(expected.iter()) {
        assert!(std::ptr::eq(*found, &text[*index]));
    }
}

#[test]
fn span_text_is_the_concatenation_of_the_token_texts() {
    // The three tokens together read "foobar baz"; none of them alone does.
    let text = vec![
        Word::new("foo".to_string(), WordType::Normal),
        Word::new("bar ".to_string(), WordType::Bold),
        Word::new("baz".to_string(), WordType::Normal),
    ];
    assert_eq!(find_with_ref("foobar baz", text.iter().collect()).len(), 3);
    assert!(find_with_ref("foo baz", text.iter().collect()).is_empty());
}

#[test]
fn words_are_counted_by_runs_of_whitespace() {
    assert_eq!(count_words(""), 0);
    assert_eq!(count_words("   "), 0);
    assert_eq!(count_words("hello"), 1);
    assert_eq!(count_words("  hello \t world\n"), 2);
    assert_eq!(count_words("a b c"), 3);
}

#[test]
fn span_size_is_twice_the_words_less_one() {
    assert_eq!(span_size("hello", 4), Some(1));
    assert_eq!(span_size("hello world", 4), Some(3));
    assert_eq!(span_size("a b c", 5), Some(5));
    assert_eq!(span_size("a b c", 4), None);
    assert_eq!(span_size("", 4), None);
    assert_eq!(span_size("hello", 0), None);
}

#[test]
fn find_and_mark_selects_the_tokens_of_matching_spans() {
    let mut text = sample();
    {
        let mut words: Vec<&mut Word> = text.iter_mut().collect();
        find_and_mark("hello world", &mut words);
    }
    assert_eq!(text[0].kind(), WordType::Bold);
    assert_eq!(text[1].kind(), WordType::Selected);
    assert_eq!(text[2].kind(), WordType::Selected);
    assert_eq!(text[3].kind(), WordType::Selected);
    assert_eq!(text[4].kind(), WordType::BoldItalic);
    let contents: Vec<&str> = text.iter().map(|word| word.content()).collect();
    assert_eq!(contents, vec!["Hello", "hello", " ", "world", "World"]);
}

#[test]
fn find_and_mark_selects_every_match() {
    let mut text = sample();
    {
        let mut words: Vec<&mut Word> = text.iter_mut().collect();
        find_and_mark("world", &mut words);
    }
    let kinds: Vec<WordType> = text.iter().map(|word| word.kind()).collect();
    assert_eq!(
        kinds,
        vec![WordType::Bold, WordType::White, WordType::White, WordType::Selected, WordType::Selected]
    );
}

#[test]
fn find_and_mark_without_a_match_changes_nothing() {
    let mut text = sample();
    let before = text.clone();
    {
        let mut words: Vec<&mut Word> = text.iter_mut().collect();
        find_and_mark("absent", &mut words);
        find_and_mark("", &mut words);
        find_and_mark("one two three four", &mut words);
    }
    assert_eq!(text, before);
}

#[test]
fn find_and_mark_marks_what_find_with_ref_returns() {
    let mut text = tokenize("to be or not to be");
    let found = find_with_ref("to be", text.iter().collect()).len();
    assert_eq!(found, 6);
    {
        let mut words: Vec<&mut Word> = text.iter_mut().collect();
        find_and_mark("to be", &mut words);
    }
    let selected: Vec<usize> =
        text.iter().enumerate().filter(|(_, word)| word.kind() == WordType::Selected).map(|(i, _)| i).collect();
    assert_eq!(selected, vec![0, 1, 2, 8, 9, 10]);
}

#[test]
fn word_accessors_return_what_was_set() {
    let mut word = Word::new("text".to_string(), WordType::Italic);
    assert_eq!(word.content(), "text");
    assert_eq!(word.kind(), WordType::Italic);
    word.set_kind(WordType::Selected);
    assert_eq!(word.kind(), WordType::Selected);
    assert_eq!(word.content(), "text");
}

#[test]
fn span_flags_tell_which_spans_equal_the_query() {
    let contents = vec!["Hello".to_string(), "hello".to_string(), " ".to_string(), "world".to_string()];
    assert_eq!(span_flags("hello", &contents, 1), vec![true, true, false, false]);
    assert_eq!(span_flags("Hello", &contents, 1), vec![true, false, false, false]);
    assert_eq!(span_flags("hello world", &contents, 3), vec![false, true]);
    assert_eq!(span_flags("hello world", &contents, 4), vec![false]);
}

#[test]
fn windows_collect_gathers_the_flagged_windows() {
    let text = sample();
    let words: Vec<&Word> = text.iter().collect();
    let result = windows_collect(&words, 2, &vec![true, false, false, true]);
    assert_eq!(result.len(), 4);
    let expected = [0usize, 1, 3, 4];
    for (found, index) in result.iter().zip(expected.iter()) {
        assert!(std::ptr::eq(*found, &text[*index]));
    }
    assert!(windows_collect(&words, 5, &vec![false]).is_empty());
}

#[test]
fn windows_mut_for_each_selects_the_flagged_windows() {
    let mut text = sample();
    {
        let mut words: Vec<&mut Word> = text.iter_mut().collect();
        windows_mut_for_each(&mut words, 2, &vec![false, true, true, false]);
    }
    let kinds: Vec<WordType> = text.iter().map(|word| word.kind()).collect();
    assert_eq!(
        kinds,
        vec![WordType::Bold, WordType::Selected, WordType::Selected, WordType::Selected, WordType::BoldItalic]
    );
}

#[test]
fn a_window_longer_than_the_sequence_is_never_visited() {
    let mut text = sample();
    let before = text.clone();
    {
        let words: Vec<&Word> = text.iter().collect();
        assert!(windows_collect(&words, 6, &Vec::new()).is_empty());
        assert!(windows_collect(&words, 0, &Vec::new()).is_empty());
        assert!(windows_collect(&Vec::new(), 1, &Vec::new()).is_empty());
    }
    {
        let mut words: Vec<&mut Word> = text.iter_mut().collect();
        windows_mut_for_each(&mut words, 6, &Vec::new());
        windows_mut_for_each(&mut words, 0, &Vec::new());
        assert_eq!(words.len(), 5);
    }
    assert_eq!(text, before);
    let mut none: Vec<&mut Word> = Vec::new();
    windows_mut_for_each(&mut none, 1, &Vec::new());
    assert!(none.is_empty());
}

#[test]
fn span_flags_of_a_span_that_does_not_fit_are_none() {
    let contents = vec!["hello".to_string(), " ".to_string()];
    assert_eq!(span_flags("hello world", &contents, 3), Vec::<bool>::new());
    assert_eq!(span_flags("hello", &contents, 0), Vec::<bool>::new());
    assert_eq!(span_flags("hello", &Vec::new(), 1), Vec::<bool>::new());
    assert_eq!(span_flags("hello ", &contents, 2), vec![true]);
}
