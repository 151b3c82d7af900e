use fuzzy_search::files::{find_files, is_ignored, is_pattern_line, path_holds, MdFile};

fn files() -> Vec<MdFile> {
    vec![
        MdFile::new("./README.md".to_string(), "README.md".to_string()),
        MdFile::new("./docs/guide.md".to_string(), "guide.md".to_string()),
        MdFile::new("./docs/Readme-old.md".to_string(), "Readme-old.md".to_string()),
    ]
}

#[test]
fn find_files_with_an_empty_query_returns_the_input() {
    assert_eq!(find_files(&[], ""), Vec::<MdFile>::new());
    assert_eq!(find_files(&files(), ""), files());
}

#[test]
fn find_files_without_a_match_returns_nothing() {
    assert_eq!(find_files(&files(), "xyz"), Vec::<MdFile>::new());
    assert_eq!(find_files(&[], "xyz"), Vec::<MdFile>::new());
}

#[test]
fn find_files_keeps_matching_files_in_order() {
    let all = files();
    let found = find_files(&all, "readme");
    assert_eq!(found.len(), 2);
    assert_eq!(found[0], all[0]);
    assert_eq!(found[1], all[2]);
    let found = find_files(&all, "docs/");
    assert_eq!(found.len(), 2);
    assert_eq!(found[0], all[1]);
    assert_eq!(found[1], all[2]);
}

#[test]
fn find_files_is_case_sensitive_for_a_query_with_an_uppercase_letter() {
    let all = files();
    let found = find_files(&all, "README");
    assert_eq!(found.len(), 1);
    assert_eq!(found[0], all[0]);
    let found = find_files(&all, "Readme");
    assert_eq!(found.len(), 1);
    assert_eq!(found[0], all[2]);
}

#[test]
fn find_files_tolerates_no_typo() {
    assert_eq!(find_files(&files(), "raedme"), Vec::<MdFile>::new());
    assert_eq!(find_files(&files(), "guide.mdx"), Vec::<MdFile>::new());
}

#[test]
fn path_holds_a_query_that_is_one_of_its_windows() {
    assert!(path_holds("guide", "./docs/guide.md"));
    assert!(path_holds("guide", "./docs/GUIDE.md"));
    assert!(!path_holds("Guide", "./docs/guide.md"));
    assert!(!path_holds("guide", "gui"));
    assert!(!path_holds("", "./docs/guide.md"));
}

#[test]
fn pattern_lines_are_neither_empty_nor_comments() {
    assert!(is_pattern_line("target"));
    assert!(is_pattern_line(" # indented"));
    assert!(!is_pattern_line(""));
    assert!(!is_pattern_line("# comment"));
    assert!(!is_pattern_line("#"));
}

#[test]
fn a_path_is_ignored_when_a_pattern_occurs_in_it() {
    let patterns = vec!["target".to_string(), "node_modules".to_string()];
    assert!(is_ignored(&patterns, "./target/doc/index.md"));
    assert!(is_ignored(&patterns, "./web/node_modules/pkg/README.md"));
    assert!(is_ignored(&patterns, "./TARGET/doc/index.md"));
    assert!(!is_ignored(&patterns, "./docs/guide.md"));
    assert!(!is_ignored(&Vec::new(), "./docs/guide.md"));
}

#[test]
fn find_files_keeps_nothing_when_no_lowercased_path_holds_the_query() {
    let all = files();
    for file in &all {
        assert!(!file.path.to_lowercase().contains("xyz"));
    }
    assert!(find_files(&all, "xyz").is_empty());
}
