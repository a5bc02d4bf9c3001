use code_ref_mcp::server::SymbolInfo;
use code_ref_mcp::syntax::{extract_symbols, node_symbol};

fn rows(found: &[SymbolInfo]) -> Vec<(String, String, usize, String)> {
    found
        .iter()
        .map(|s| (s.name.clone(), s.path.clone(), s.line, s.kind.clone()))
        .collect()
}

fn row(name: &str, path: &str, line: usize, kind: &str) -> (String, String, usize, String) {
    (name.to_string(), path.to_string(), line, kind.to_string())
}

#[test]
fn rust_tree_definitions_in_stack_order() {
    let source = "fn alpha() {}\nstruct Beta;\nenum Gamma { A }\ntrait Delta {}\n";
    let found = extract_symbols("lib.rs", "rust", source);
    assert_eq!(
        rows(&found),
        vec![
            row("Delta", "lib.rs", 4, "trait"),
            row("Gamma", "lib.rs", 3, "enum"),
            row("Beta", "lib.rs", 2, "struct"),
            row("alpha", "lib.rs", 1, "function"),
        ]
    );
}

#[test]
fn methods_of_an_impl_are_found() {
    let found = extract_symbols("a.rs", "rust", "impl A {\n    fn m() {}\n}");
    assert_eq!(rows(&found), vec![row("m", "a.rs", 2, "function")]);
}

#[test]
fn generic_and_nested_rust_items() {
    let source = "pub fn parse<T: FromStr>(s: &str) -> T {\n    fn inner() {}\n    todo()\n}\n";
    let found = extract_symbols("p.rs", "rust", source);
    assert_eq!(
        rows(&found),
        vec![row("parse", "p.rs", 1, "function"), row("inner", "p.rs", 2, "function")]
    );
}

#[test]
fn nested_definitions_are_found() {
    let source = "class Outer:\n    def method(self):\n        pass\n";
    let found = extract_symbols("m.py", "python", source);
    assert_eq!(
        rows(&found),
        vec![row("Outer", "m.py", 1, "class"), row("method", "m.py", 2, "function")]
    );
}

#[test]
fn javascript_tree_definitions() {
    let source = "function run() {}\nclass Shape {}\nconst f = () => 1;\n";
    let found = extract_symbols("a.js", "javascript", source);
    assert_eq!(
        rows(&found),
        vec![row("Shape", "a.js", 2, "class"), row("run", "a.js", 1, "function")]
    );
}

#[test]
fn other_languages_give_no_tree_symbols() {
    assert!(extract_symbols("a.go", "go", "func main() {}").is_empty());
}

#[test]
fn node_symbol_needs_definition_kind_and_name() {
    let s = node_symbol("a.rs", "rust", "struct_item", Some("Point"), 9).unwrap();
    assert_eq!((s.name.as_str(), s.path.as_str(), s.line, s.kind.as_str()), ("Point", "a.rs", 10, "struct"));
    assert!(node_symbol("a.rs", "rust", "struct_item", None, 9).is_none());
    assert!(node_symbol("a.rs", "rust", "impl_item", Some("X"), 9).is_none());
    assert!(node_symbol("a.py", "python", "struct_item", Some("X"), 0).is_none());
}

#[test]
fn later_methods_come_first() {
    let found = extract_symbols("a.rs", "rust", "impl A {\n    fn a() {}\n    fn b() {}\n}\n");
    assert_eq!(rows(&found), vec![row("b", "a.rs", 3, "function"), row("a", "a.rs", 2, "function")]);
}
