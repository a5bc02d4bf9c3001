use code_ref_mcp::symbols::{extract_symbols, Symbol};

fn summary(symbols: &[Symbol]) -> Vec<(String, String, String, usize)> {
    symbols
        .iter()
        .map(|s| (s.name.clone(), s.kind.clone(), s.path.clone(), s.line))
        .collect()
}

fn entry(name: &str, kind: &str, path: &str, line: usize) -> (String, String, String, usize) {
    (name.to_string(), kind.to_string(), path.to_string(), line)
}

#[test]
fn rust_definitions_are_found_line_by_line() {
    let content = "pub fn hello(x: i32) {}\nstruct Point {\n    x: i32,\n}\npub enum Color { Red }\ntrait Shape: Clone {\nasync fn fetch() {}\n    pub async fn nested(&self) -> u8 { 1 }\n";
    let found = extract_symbols(content, "rust", "src/lib.rs");
    assert_eq!(
        summary(&found),
        vec![
            entry("hello", "function", "src/lib.rs", 1),
            entry("Point", "struct", "src/lib.rs", 2),
            entry("Color", "enum", "src/lib.rs", 5),
            entry("Shape", "trait", "src/lib.rs", 6),
            entry("fetch", "function", "src/lib.rs", 7),
            entry("nested", "function", "src/lib.rs", 8),
        ]
    );
}

#[test]
fn rust_declarations_without_terminator_are_skipped() {
    let found = extract_symbols("pub struct Foo\nenum Bar\ntrait Baz\nfn no_paren\n", "rust", "a.rs");
    assert!(found.is_empty());
}

#[test]
fn function_names_run_to_the_parameters() {
    let found = extract_symbols(
        "pub fn parse<T: FromStr>(s: &str) -> T {\nfn  spaced (x: u8) {}\nlet f = fn_ptr(x);\n",
        "rust",
        "g.rs",
    );
    assert_eq!(
        summary(&found),
        vec![entry("parse<T: FromStr>", "function", "g.rs", 1), entry("spaced", "function", "g.rs", 2)]
    );
}

#[test]
fn rust_generic_struct_and_tuple_struct() {
    let found = extract_symbols("pub struct Wrapper<T>(T);\nstruct Unit;\npub trait Render<T> {}\n", "rust", "a.rs");
    assert_eq!(
        summary(&found),
        vec![
            entry("Wrapper", "struct", "a.rs", 1),
            entry("Unit", "struct", "a.rs", 2),
            entry("Render", "trait", "a.rs", 3),
        ]
    );
}

#[test]
fn crlf_line_endings_keep_line_numbers() {
    let found = extract_symbols("fn a() {}\r\n\r\nfn b() {}", "rust", "x.rs");
    assert_eq!(
        summary(&found),
        vec![entry("a", "function", "x.rs", 1), entry("b", "function", "x.rs", 3)]
    );
}

#[test]
fn python_functions_and_classes() {
    let content = "def foo(a):\n    pass\nclass Bar(Base):\n    def method(self):\n        return 1\nclass Plain:\ndef (x):\n";
    let found = extract_symbols(content, "python", "m.py");
    assert_eq!(
        summary(&found),
        vec![
            entry("foo", "function", "m.py", 1),
            entry("Bar", "class", "m.py", 3),
            entry("method", "function", "m.py", 4),
            entry("Plain", "class", "m.py", 6),
        ]
    );
}

#[test]
fn javascript_functions_classes_and_const_functions() {
    let content = "function greet(name) {\n}\nclass Widget extends Base {\nconst add = (a, b) => a + b;\nconst x = 5;\nconst f = function() {}\nclass Box{\n";
    let found = extract_symbols(content, "javascript", "w.js");
    assert_eq!(
        summary(&found),
        vec![
            entry("greet", "function", "w.js", 1),
            entry("Widget", "class", "w.js", 3),
            entry("add", "function", "w.js", 4),
            entry("f", "function", "w.js", 6),
            entry("Box", "class", "w.js", 7),
        ]
    );
}

#[test]
fn unknown_language_gives_nothing() {
    assert!(extract_symbols("fn main() {}", "go", "main.go").is_empty());
    assert!(extract_symbols("fn main() {}", "Rust", "main.rs").is_empty());
}

#[test]
fn empty_content_gives_nothing() {
    assert!(extract_symbols("", "rust", "e.rs").is_empty());
    assert!(extract_symbols("\n\n", "python", "e.py").is_empty());
}

#[test]
fn names_are_trimmed_and_unicode_lines_are_counted_by_characters() {
    let found = extract_symbols("// é\u{a0}\n\u{3000}fn  grüße ( ) {}\n", "rust", "u.rs");
    assert_eq!(summary(&found), vec![entry("grüße", "function", "u.rs", 2)]);
}
