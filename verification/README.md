# code_ref_mcp

A code-reference server for Rust, Python and JavaScript sources: it indexes
a directory tree for full-text search and locates definitions by name.

The library under `src/` is verified with Verus:

- `text` — characters, white space, trimming, searching, lines, joining and
  decimal numerals, each specified over `Seq<char>`.
- `symbols` — line-by-line recognition of definitions (`fn`, `struct`,
  `enum`, `trait`, `def`, `class`, `function`, `const f = ... =>`).
- `indexer` — which files are indexed and in which language, skipped
  directory entries, indexing statistics, hit snippets, name matching.
- `server` — the server's decisions: languages, definition node kinds, hit
  lines, the contents cache, the definition table, request checks and
  routing, and the text summaries of tool results.
- `syntax` — definitions read from Tree-sitter syntax trees.
- `search` — the in-memory Tantivy index and the definition table built
  beside it.
- `laws` — properties of the library as a whole, proved.

`app/` holds the program: file-system walking and reading, the MCP
transport and its JSON, locks and threads, and the on-disk indexer.
