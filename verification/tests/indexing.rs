use code_ref_mcp::indexer::{
    detect_language, extract_snippet, is_hidden, language_for_extension, symbols_matching,
    IndexStats,
};

#[test]
fn languages_follow_the_extension() {
    assert_eq!(detect_language("src/main.rs"), Some("rust"));
    assert_eq!(detect_language("pkg/mod.py"), Some("python"));
    assert_eq!(detect_language("web/app.js"), Some("javascript"));
    assert_eq!(detect_language("web/view.jsx"), Some("javascript"));
    assert_eq!(detect_language("x.RS"), None);
    assert_eq!(detect_language("Makefile"), None);
    assert_eq!(detect_language(".rs"), None);
    assert_eq!(detect_language("archive.tar.py"), Some("python"));
    assert_eq!(language_for_extension("jsx"), Some("javascript"));
    assert_eq!(language_for_extension("ts"), None);
}

#[test]
fn hidden_entries() {
    assert!(is_hidden(".git"));
    assert!(is_hidden(".env"));
    assert!(is_hidden("node_modules"));
    assert!(is_hidden("target"));
    assert!(is_hidden("__pycache__"));
    assert!(!is_hidden("src"));
    assert!(!is_hidden("targets"));
    assert!(!is_hidden("a.rs"));
}

#[test]
fn snippet_shows_context_around_first_match() {
    let content = "a\nb\nc\nd\nFOO\ne\nf\ng\nh";
    assert_eq!(extract_snippet(content, "foo", 3), "b\nc\nd\nFOO\ne\nf\ng");
    assert_eq!(extract_snippet(content, "Foo", 1), "d\nFOO\ne");
    assert_eq!(extract_snippet(content, "a", 3), "a\nb\nc\nd");
    assert_eq!(extract_snippet(content, "h", 3), "e\nf\ng\nh");
    assert_eq!(extract_snippet(content, "h", usize::MAX), content);
}

#[test]
fn snippet_without_match_shows_first_five_lines() {
    assert_eq!(extract_snippet("a\nb\nc\nd\ne\nf", "zzz", 3), "a\nb\nc\nd\ne");
    assert_eq!(extract_snippet("one\r\ntwo", "zzz", 3), "one\ntwo");
    assert_eq!(extract_snippet("", "zzz", 3), "");
}

#[test]
fn stats_count_files_and_symbols() {
    let mut stats = IndexStats::new();
    assert_eq!((stats.files_indexed, stats.symbols_found), (0, 0));
    stats.record_file(3);
    stats.record_file(0);
    assert_eq!((stats.files_indexed, stats.symbols_found), (2, 3));
}

#[test]
fn matching_symbols_contain_the_name() {
    let content = "fn find_user() {}\nfn user_id() {}\nfn other() {}\nstruct User;\n";
    let found = symbols_matching(content, "rust", "db.rs", "user");
    let names: Vec<(&str, usize)> = found.iter().map(|s| (s.name.as_str(), s.line)).collect();
    assert_eq!(names, vec![("find_user", 1), ("user_id", 2)]);
    assert!(symbols_matching(content, "python", "db.rs", "user").is_empty());
}

#[test]
fn extensions_follow_the_file_name() {
    assert_eq!(detect_language("./src/a.rs"), Some("rust"));
    assert_eq!(detect_language("src/b.py/"), Some("python"));
    assert_eq!(detect_language("src/c.js/."), Some("javascript"));
    assert_eq!(detect_language("x..rs"), Some("rust"));
    assert_eq!(detect_language("conf/.rs"), None);
    assert_eq!(detect_language("lib.rs/.."), None);
    assert_eq!(detect_language("archive.tar.js"), Some("javascript"));
    assert_eq!(detect_language("Makefile"), None);
}
