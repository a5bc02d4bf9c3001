use std::sync::Arc;

use code_ref_mcp::server::{
    check_limit, check_query, default_limit, CACHE_CAPACITY, language_for, route_method, route_tool, search_summary,
    snippet_for_query, symbol_kind, symbol_summary, Method, SearchResult, SnippetCache,
    SymbolInfo, SymbolTable, Tool, ToolError,
};

fn info(name: &str, path: &str, line: usize, kind: &str) -> SymbolInfo {
    SymbolInfo { name: name.to_string(), path: path.to_string(), line, kind: kind.to_string() }
}

#[test]
fn server_languages_ignore_case() {
    assert_eq!(language_for("a/B.RS"), Some("rust"));
    assert_eq!(language_for("y.Py"), Some("python"));
    assert_eq!(language_for("z.js"), Some("javascript"));
    assert_eq!(language_for("x.jsx"), None);
    assert_eq!(language_for("README"), None);
}

#[test]
fn definition_node_kinds() {
    assert_eq!(symbol_kind("rust", "function_item"), Some("function"));
    assert_eq!(symbol_kind("rust", "struct_item"), Some("struct"));
    assert_eq!(symbol_kind("rust", "enum_item"), Some("enum"));
    assert_eq!(symbol_kind("rust", "trait_item"), Some("trait"));
    assert_eq!(symbol_kind("python", "function_definition"), Some("function"));
    assert_eq!(symbol_kind("python", "class_definition"), Some("class"));
    assert_eq!(symbol_kind("javascript", "function_declaration"), Some("function"));
    assert_eq!(symbol_kind("javascript", "class_declaration"), Some("class"));
    assert_eq!(symbol_kind("python", "function_item"), None);
    assert_eq!(symbol_kind("rust", "impl_item"), None);
}

#[test]
fn hit_line_is_first_match_trimmed() {
    assert_eq!(
        snippet_for_query("line one\n  Hello World  \nthird hello", "HELLO"),
        (2, "Hello World".to_string())
    );
    assert_eq!(snippet_for_query("  first  \nsecond", "zzz"), (1, "first".to_string()));
    assert_eq!(snippet_for_query("", "q"), (1, "No matching line found".to_string()));
    assert_eq!(snippet_for_query("   \nx", "q"), (1, "No matching line found".to_string()));
}

#[test]
fn cache_evicts_the_oldest_entry() {
    let mut cache = SnippetCache::new(2);
    cache.insert("a".to_string(), Arc::new("A".to_string()));
    cache.insert("b".to_string(), Arc::new("B".to_string()));
    assert_eq!(cache.get("a").as_deref().map(|s| s.as_str()), Some("A"));
    cache.insert("c".to_string(), Arc::new("C".to_string()));
    assert_eq!(cache.len(), 2);
    assert!(cache.get("a").is_none());
    assert_eq!(cache.get("b").as_deref().map(|s| s.as_str()), Some("B"));
    assert_eq!(cache.get("c").as_deref().map(|s| s.as_str()), Some("C"));
}

#[test]
fn cache_keeps_the_first_contents_of_a_path() {
    let mut cache = SnippetCache::new(4);
    cache.insert("a".to_string(), Arc::new("old".to_string()));
    cache.insert("a".to_string(), Arc::new("new".to_string()));
    assert_eq!(cache.len(), 1);
    assert_eq!(cache.get("a").as_deref().map(|s| s.as_str()), Some("old"));
}

#[test]
fn cache_of_capacity_zero_holds_nothing() {
    let mut cache = SnippetCache::new(0);
    cache.insert("a".to_string(), Arc::new("A".to_string()));
    assert_eq!(cache.len(), 0);
    assert!(cache.get("a").is_none());
}

#[test]
fn symbol_table_groups_by_exact_name() {
    let mut table = SymbolTable::new();
    table.insert(info("run", "a.rs", 3, "function"));
    table.insert(info("Runner", "b.rs", 1, "struct"));
    table.insert(info("run", "c.py", 7, "function"));
    let runs: Vec<(String, usize)> = table.symbols("run").iter().map(|s| (s.path.clone(), s.line)).collect();
    assert_eq!(runs, vec![("a.rs".to_string(), 3), ("c.py".to_string(), 7)]);
    assert_eq!(table.symbols("Runner").len(), 1);
    assert!(table.symbols("ru").is_empty());
    assert!(table.symbols("missing").is_empty());
}

#[test]
fn empty_queries_are_refused() {
    assert_eq!(check_query("  \t\n"), Err(ToolError::InvalidParams("query cannot be empty".to_string())));
    assert_eq!(check_query(""), Err(ToolError::InvalidParams("query cannot be empty".to_string())));
    assert_eq!(check_query(" fn "), Ok(()));
}

#[test]
fn limits_are_checked_against_the_tool_schema() {
    let refused = Err(ToolError::InvalidParams("limit must be between 1 and 50".to_string()));
    assert_eq!(check_limit(0), refused);
    assert_eq!(check_limit(51), refused);
    assert_eq!(check_limit(1), Ok(()));
    assert_eq!(check_limit(50), Ok(()));
    assert_eq!(CACHE_CAPACITY, 64);
}

#[test]
fn requests_are_routed_by_name() {
    assert_eq!(route_method("tools/list"), Ok(Method::ToolsList));
    assert_eq!(route_method("tools/call"), Ok(Method::ToolsCall));
    assert_eq!(route_method("search_code"), Ok(Method::SearchCode));
    assert_eq!(route_method("get_symbol"), Ok(Method::GetSymbol));
    assert_eq!(route_method("ping"), Err(ToolError::MethodNotFound("Unknown method: ping".to_string())));
    assert_eq!(route_tool("search_code"), Ok(Tool::SearchCode));
    assert_eq!(route_tool("get_symbol"), Ok(Tool::GetSymbol));
    assert_eq!(route_tool("x"), Err(ToolError::MethodNotFound("Unknown tool: x".to_string())));
}

#[test]
fn summaries_list_one_line_per_result() {
    let hits = vec![
        SearchResult { path: "a.rs".to_string(), line: 12, snippet: "fn x".to_string() },
        SearchResult { path: "b.py".to_string(), line: 1, snippet: "def y".to_string() },
    ];
    assert_eq!(search_summary(&hits), "a.rs:12 fn x\nb.py:1 def y");
    assert_eq!(search_summary(&[]), "");
    let defs = vec![info("x", "a.rs", 3, "function"), info("Y", "b.rs", 120, "struct")];
    assert_eq!(symbol_summary(&defs), "a.rs:3 [function]\nb.rs:120 [struct]");
    assert_eq!(default_limit(), 5);
}
