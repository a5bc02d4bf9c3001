use code_ref_mcp::search::{
    build_index, index_schema, prepare_file, search_result, writer_budget, writer_threads,
    PreparedFile,
};
use code_ref_mcp::search::parse_content_query;
use code_ref_mcp::server::ToolError;
use tantivy::schema::{Schema, STORED, STRING, TEXT};
use tantivy::Index;

fn files() -> Vec<PreparedFile> {
    let schema = index_schema();
    let fields = schema.fields();
    vec![
        prepare_file(fields, "src/a.rs", "rust", "fn parse_config() {}\nfn helper() {}\n"),
        prepare_file(fields, "src/b.py", "python", "def parse_config():\n    pass\n"),
        prepare_file(fields, "src/c.js", "javascript", "function render() {}\n"),
    ]
}

#[test]
fn built_table_holds_every_definition_by_name() {
    let schema = index_schema();
    let fields = schema.fields();
    let prepared = vec![
        prepare_file(fields, "src/a.rs", "rust", "fn parse_config() {}\nfn helper() {}\n"),
        prepare_file(fields, "src/b.py", "python", "def parse_config():\n    pass\n"),
    ];
    let (_index, table) = build_index(schema, prepared, 2).unwrap();
    let found: Vec<(String, usize)> =
        table.symbols("parse_config").iter().map(|s| (s.path.clone(), s.line)).collect();
    assert_eq!(found, vec![("src/a.rs".to_string(), 1), ("src/b.py".to_string(), 1)]);
    assert_eq!(table.symbols("helper").len(), 1);
    assert!(table.symbols("render").is_empty());
    let _ = files();
}

#[test]
fn search_finds_the_files_holding_a_word() {
    let schema = index_schema();
    let fields = schema.fields();
    let prepared = vec![
        prepare_file(fields, "src/a.rs", "rust", "fn parse_config() {}\nlet widget = 1;\n"),
        prepare_file(fields, "src/b.py", "python", "def other():\n    pass\n"),
    ];
    let (index, _table) = build_index(schema, prepared, 2).unwrap();
    let paths = index.search_paths("widget", 5).unwrap();
    assert_eq!(paths, vec!["src/a.rs".to_string()]);
    assert!(index.search_paths("nothingmatches", 5).unwrap().is_empty());
    let limited = index.search_paths("pass OR widget", 1).unwrap();
    assert_eq!(limited.len(), 1);
}

#[test]
fn blank_queries_are_refused_by_the_index() {
    let schema = index_schema();
    let (index, _table) = build_index(schema, Vec::new(), 2).unwrap();
    assert_eq!(
        index.search_paths("   ", 3),
        Err(ToolError::InvalidParams("query cannot be empty".to_string()))
    );
    assert!(matches!(index.search_paths("title:(", 3), Err(ToolError::Other(_))));
}

#[test]
fn hits_show_the_first_matching_line() {
    let hit = search_result("src/a.rs".to_string(), "// header\n  let Widget = 1;\n", "widget");
    assert_eq!((hit.path.as_str(), hit.line, hit.snippet.as_str()), ("src/a.rs", 2, "let Widget = 1;"));
}

#[test]
fn indexing_uses_at_least_two_threads() {
    assert_eq!(writer_threads(None), 2);
    assert_eq!(writer_threads(Some(1)), 2);
    assert_eq!(writer_threads(Some(8)), 8);
    assert_eq!(writer_threads(Some(5)), 5);
    assert_eq!(writer_threads(Some(64)), 8);
}

#[test]
fn every_indexing_thread_gets_its_share_of_memory() {
    assert_eq!(writer_budget(1), 30_000_000);
    assert_eq!(writer_budget(2), 30_000_000);
    assert_eq!(writer_budget(3), 45_000_000);
    assert_eq!(writer_budget(8), 120_000_000);
}

#[test]
fn the_index_builds_with_many_threads() {
    let schema = index_schema();
    let prepared = vec![prepare_file(schema.fields(), "src/a.rs", "rust", "fn widget() {}\n")];
    let (index, table) = build_index(schema, prepared, writer_threads(Some(16))).unwrap();
    assert_eq!(index.search_paths("widget", 5).unwrap(), vec!["src/a.rs".to_string()]);
    assert_eq!(table.symbols("widget").len(), 1);
}

#[test]
fn limits_outside_the_advertised_range_are_refused() {
    let schema = index_schema();
    let (index, _table) = build_index(schema, Vec::new(), 2).unwrap();
    let refused = Err(ToolError::InvalidParams("limit must be between 1 and 50".to_string()));
    assert_eq!(index.search_paths("fn", 0), refused);
    assert_eq!(index.search_paths("fn", 51), refused);
    assert_eq!(index.search_paths("fn", 50), Ok(Vec::new()));
    assert_eq!(
        index.search_paths("  ", 0),
        Err(ToolError::InvalidParams("query cannot be empty".to_string()))
    );
}

#[test]
fn prepared_files_hold_their_tree_definitions() {
    let schema = index_schema();
    let file = prepare_file(schema.fields(), "a.rs", "rust", "impl A {\n    fn m() {}\n}");
    let found: Vec<(String, usize)> = file.symbols().iter().map(|s| (s.name.clone(), s.line)).collect();
    assert_eq!(found, vec![("m".to_string(), 2)]);
}

#[test]
fn unknown_language_files_hold_no_definitions() {
    let schema = index_schema();
    let file = prepare_file(schema.fields(), "notes.txt", "text", "fn looks_like_rust() {}");
    assert!(file.symbols().is_empty());
}

#[test]
fn schema_numbers_path_then_body() {
    let fields = index_schema().fields();
    assert_eq!((fields.path(), fields.body()), (0, 1));
}

#[test]
fn content_queries_are_parsed_against_the_schema() {
    let mut builder = Schema::builder();
    builder.add_text_field("path", STRING | STORED);
    builder.add_text_field("content", TEXT);
    let index = Index::create_in_ram(builder.build());
    assert!(parse_content_query(&index, 1, "widget AND gadget").is_ok());
    assert!(matches!(
        parse_content_query(&index, 2, "widget"),
        Err(ToolError::Other(m)) if m == "the default search field is not in the schema"
    ));
    assert!(matches!(parse_content_query(&index, 1, "title:("), Err(ToolError::Other(_))));
}

#[test]
fn search_returns_each_matching_file_once() {
    let schema = index_schema();
    let fields = schema.fields();
    let prepared = vec![
        prepare_file(fields, "a.rs", "rust", "fn widget() {}\nfn widget_two() { widget() }\n"),
        prepare_file(fields, "b.rs", "rust", "// widget\n"),
        prepare_file(fields, "c.rs", "rust", "fn other() {}\n"),
    ];
    let (index, _table) = build_index(schema, prepared, 3).unwrap();
    let mut paths = index.search_paths("widget", 10).unwrap();
    paths.sort();
    assert_eq!(paths, vec!["a.rs".to_string(), "b.rs".to_string()]);
}
