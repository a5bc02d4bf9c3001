//! The decisions of the code-reference server: which files it indexes and
//! in which language, which syntax nodes are definitions, the line shown
//! for a search hit, the checks on requests, how requests are routed, and
//! the text summaries of tool results.
use std::collections::VecDeque;
use std::sync::Arc;
use vstd::prelude::*;

use crate::indexer::{extension_of, path_extension};
use crate::text::{
    decimal, decimal_string, join_lines, lemma_join_push, chars_of, first_match, first_matching_line, line_ranges, lines, lowercase_of,
    same_text, string_of, to_lowercase, trim, trim_bounds,
};

verus! {

/// A definition located in an indexed file.
#[derive(Debug)]
pub struct SymbolInfo {
    pub name: String,
    pub path: String,
    /// The 1-based number of the line where the definition starts.
    pub line: usize,
    pub kind: String,
}

/// A definition as plain values: name, path, line and kind.
pub type SymbolInfoModel = (Seq<char>, Seq<char>, int, Seq<char>);

impl View for SymbolInfo {
    type V = SymbolInfoModel;

    open spec fn view(&self) -> SymbolInfoModel {
        (self.name@, self.path@, self.line as int, self.kind@)
    }
}

impl Clone for SymbolInfo {
    fn clone(&self) -> (r: Self)
        ensures
            r == *self,
    {
        SymbolInfo {
            name: self.name.clone(),
            path: self.path.clone(),
            line: self.line,
            kind: self.kind.clone(),
        }
    }
}

/// The plain values of a sequence of definitions.
pub open spec fn info_models(v: Seq<SymbolInfo>) -> Seq<SymbolInfoModel> {
    v.map_values(|s: SymbolInfo| s@)
}

/// A search hit: the file, the 1-based line shown, and that line.
#[derive(Debug)]
pub struct SearchResult {
    pub path: String,
    pub line: usize,
    pub snippet: String,
}

/// A search hit as plain values: path, line and snippet.
pub type SearchResultModel = (Seq<char>, int, Seq<char>);

impl View for SearchResult {
    type V = SearchResultModel;

    open spec fn view(&self) -> SearchResultModel {
        (self.path@, self.line as int, self.snippet@)
    }
}

/// The language that a lower-cased file extension marks: `rs` Rust, `py`
/// Python, `js` JavaScript.
pub open spec fn server_language(ext: Seq<char>) -> Option<Seq<char>> {
    if ext == "rs"@ {
        Some("rust"@)
    } else if ext == "py"@ {
        Some("python"@)
    } else if ext == "js"@ {
        Some("javascript"@)
    } else {
        None
    }
}

/// The language a lower-cased file extension marks, if the server indexes
/// it.
pub fn server_language_for(ext: &str) -> (r: Option<&'static str>)
    ensures
        r.deep_view() == server_language(ext@),
{
    if same_text(ext, "rs") {
        Some("rust")
    } else if same_text(ext, "py") {
        Some("python")
    } else if same_text(ext, "js") {
        Some("javascript")
    } else {
        None
    }
}

/// The language of the file at `path`, from its extension compared without
/// regard to case; `None` for files the server does not index.
pub fn language_for(path: &str) -> (r: Option<&'static str>)
    ensures
        r.deep_view() == match path_extension(path@) {
            Some(ext) => server_language(lowercase_of(ext)),
            None => None,
        },
{
    match extension_of(path) {
        Some(ext) => {
            let lower = to_lowercase(ext.as_str());
            server_language_for(lower.as_str())
        },
        None => None,
    }
}

/// The kind of definition that a syntax node of kind `node_kind` is in
/// `language`, if it is one.
pub open spec fn spec_symbol_kind(language: Seq<char>, node_kind: Seq<char>) -> Option<Seq<char>> {
    if language == "rust"@ && node_kind == "function_item"@ {
        Some("function"@)
    } else if language == "rust"@ && node_kind == "struct_item"@ {
        Some("struct"@)
    } else if language == "rust"@ && node_kind == "enum_item"@ {
        Some("enum"@)
    } else if language == "rust"@ && node_kind == "trait_item"@ {
        Some("trait"@)
    } else if language == "python"@ && node_kind == "function_definition"@ {
        Some("function"@)
    } else if language == "python"@ && node_kind == "class_definition"@ {
        Some("class"@)
    } else if language == "javascript"@ && node_kind == "function_declaration"@ {
        Some("function"@)
    } else if language == "javascript"@ && node_kind == "class_declaration"@ {
        Some("class"@)
    } else {
        None
    }
}

/// The kind of definition a syntax node is, if it is one.
pub fn symbol_kind(language: &str, node_kind: &str) -> (r: Option<&'static str>)
    ensures
        r.deep_view() == spec_symbol_kind(language@, node_kind@),
{
    let rust = same_text(language, "rust");
    let python = same_text(language, "python");
    let javascript = same_text(language, "javascript");
    if rust && same_text(node_kind, "function_item") {
        Some("function")
    } else if rust && same_text(node_kind, "struct_item") {
        Some("struct")
    } else if rust && same_text(node_kind, "enum_item") {
        Some("enum")
    } else if rust && same_text(node_kind, "trait_item") {
        Some("trait")
    } else if python && same_text(node_kind, "function_definition") {
        Some("function")
    } else if python && same_text(node_kind, "class_definition") {
        Some("class")
    } else if javascript && same_text(node_kind, "function_declaration") {
        Some("function")
    } else if javascript && same_text(node_kind, "class_declaration") {
        Some("class")
    } else {
        None
    }
}

/// The line number used when no line matches.
pub const DEFAULT_LINE_NUMBER: usize = 1;

/// The line shown for a hit on `query` in a file: the number and trimmed
/// text of the first line that matches (case-insensitively); else line 1
/// with the trimmed first line, or a fixed message when that is empty.
pub open spec fn spec_snippet_for_query(contents: Seq<char>, query: Seq<char>) -> (int, Seq<char>) {
    let ls = lines(contents);
    match first_match(ls, query) {
        Some(i) => (i + 1, trim(ls[i])),
        None => {
            let fallback = if ls.len() > 0 {
                trim(ls[0])
            } else {
                Seq::empty()
            };
            if fallback.len() == 0 {
                (1, "No matching line found"@)
            } else {
                (1, fallback)
            }
        },
    }
}

/// The line to show for a hit on `query` in `contents`.
pub fn snippet_for_query(contents: &str, query: &str) -> (r: (usize, String))
    ensures
        (r.0 as int, r.1@) == spec_snippet_for_query(contents@, query@),
{
    let text = chars_of(contents);
    let ranges = line_ranges(text.as_slice());
    match first_matching_line(text.as_slice(), ranges.as_slice(), query) {
        Some(idx) => {
            let (lo, hi) = ranges[idx];
            assert(ranges@[idx as int].0 <= ranges@[idx as int].1 <= text@.len());
            let line = &text[lo..hi];
            let (a, b) = trim_bounds(line);
            (idx + 1, string_of(&line[a..b]))
        },
        None => {
            let fallback = if ranges.len() > 0 {
                let (lo, hi) = ranges[0];
                assert(ranges@[0].0 <= ranges@[0].1 <= text@.len());
                let line = &text[lo..hi];
                let (a, b) = trim_bounds(line);
                string_of(&line[a..b])
            } else {
                String::new()
            };
            if fallback.as_str().is_empty() {
                (DEFAULT_LINE_NUMBER, "No matching line found".to_owned())
            } else {
                (DEFAULT_LINE_NUMBER, fallback)
            }
        },
    }
}

/// The number of results a search returns when the request gives none.
pub fn default_limit() -> (r: usize)
    ensures
        r == 5,
{
    5
}

/// The errors a request can be answered with.
#[derive(Debug, PartialEq, Eq)]
pub enum ToolError {
    /// The request's parameters are not acceptable.
    InvalidParams(String),
    /// The request names a method or tool that does not exist.
    MethodNotFound(String),
    /// Any other failure, with its message.
    Other(String),
}

/// The most results a search may ask for, as the `search_code` tool's
/// input schema advertises.
pub const MAX_LIMIT: usize = 50;

/// A search limit is accepted from 1 to [`MAX_LIMIT`], the range the
/// `search_code` tool's input schema advertises.
pub fn check_limit(limit: usize) -> (r: Result<(), ToolError>)
    ensures
        r is Err <==> !(1 <= limit <= MAX_LIMIT),
        r matches Err(e) ==> e matches ToolError::InvalidParams(m) && m@
            == "limit must be between 1 and 50"@,
{
    if limit < 1 || limit > MAX_LIMIT {
        Err(ToolError::InvalidParams("limit must be between 1 and 50".to_owned()))
    } else {
        Ok(())
    }
}

/// A search query is refused when it is empty or only white space.
pub fn check_query(query: &str) -> (r: Result<(), ToolError>)
    ensures
        r is Err <==> trim(query@).len() == 0,
        r matches Err(e) ==> e matches ToolError::InvalidParams(m) && m@
            == "query cannot be empty"@,
{
    let q = chars_of(query);
    let (a, b) = trim_bounds(q.as_slice());
    if a == b {
        Err(ToolError::InvalidParams("query cannot be empty".to_owned()))
    } else {
        Ok(())
    }
}


/// Another handle to the contents an `Arc` shares.
///
/// Wraps `<Arc<String> as Clone>::clone`, which returns a pointer to the
/// same allocation: the value seen through it is the same.
#[verifier::external_body]
fn share(contents: &Arc<String>) -> (r: Arc<String>)
    ensures
        r == *contents,
{
    contents.clone()
}

/// Cached file contents as plain values, oldest first: path and contents.
pub type CacheModel = Seq<(Seq<char>, Seq<char>)>;

/// Some entry of `es` is stored under `key`.
pub open spec fn cache_has(es: CacheModel, key: Seq<char>) -> bool {
    exists|i: int| 0 <= i < es.len() && #[trigger] es[i].0 == key
}

/// The contents stored under `key`, if any.
pub open spec fn cache_lookup(es: CacheModel, key: Seq<char>) -> Option<Seq<char>> {
    if cache_has(es, key) {
        Some(es[choose|i: int| 0 <= i < es.len() && #[trigger] es[i].0 == key].1)
    } else {
        None
    }
}

/// No two entries share a key.
pub open spec fn distinct_keys(es: CacheModel) -> bool {
    forall|i: int, j: int| 0 <= i < es.len() && 0 <= j < es.len() && i != j ==> #[trigger] es[i].0
        != #[trigger] es[j].0
}

/// The entries after storing `value` under `key` in a cache holding at
/// most `capacity` entries: a key already present keeps its entry;
/// otherwise the new entry goes last, and when that makes one entry too
/// many, the oldest one leaves.
pub open spec fn cache_insert(es: CacheModel, capacity: int, key: Seq<char>, value: Seq<char>) -> CacheModel {
    if cache_has(es, key) {
        es
    } else {
        let added = es.push((key, value));
        if added.len() > capacity {
            added.drop_first()
        } else {
            added
        }
    }
}

/// How many files the server's snippet cache holds.
pub const CACHE_CAPACITY: usize = 64;

/// A bounded cache of file contents, evicting the entry stored first.
pub struct SnippetCache {
    entries: VecDeque<(String, Arc<String>)>,
    capacity: usize,
}

impl SnippetCache {
    /// The cached entries, oldest first.
    pub closed spec fn entries(&self) -> CacheModel {
        self.entries@.map_values(|e: (String, Arc<String>)| (e.0@, e.1@))
    }

    /// The most entries the cache holds.
    pub closed spec fn capacity(&self) -> nat {
        self.capacity as nat
    }

    /// The cache's invariant: no key twice, and no more entries than its
    /// capacity.
    pub open spec fn wf(&self) -> bool {
        &&& distinct_keys(self.entries())
        &&& self.entries().len() <= self.capacity()
    }

    /// An empty cache that holds at most `capacity` entries.
    pub fn new(capacity: usize) -> (r: Self)
        ensures
            r.wf(),
            r.entries() == Seq::<(Seq<char>, Seq<char>)>::empty(),
            r.capacity() == capacity,
    {
        let r = SnippetCache { entries: VecDeque::new(), capacity };
        assert(r.entries() =~= Seq::<(Seq<char>, Seq<char>)>::empty());
        r
    }

    /// The number of cached entries.
    pub fn len(&self) -> (r: usize)
        ensures
            r == self.entries().len(),
    {
        self.entries.len()
    }

    /// The contents cached for `path`, if any.
    pub fn get(&self, path: &str) -> (r: Option<Arc<String>>)
        requires
            self.wf(),
        ensures
            match r {
                Some(c) => cache_lookup(self.entries(), path@) == Some(c@),
                None => cache_lookup(self.entries(), path@) is None,
            },
    {
        let ghost es = self.entries();
        let mut i: usize = 0;
        while i < self.entries.len()
            invariant
                i <= self.entries@.len(),
                es == self.entries(),
                self.wf(),
                forall|j: int| 0 <= j < i ==> #[trigger] es[j].0 != path@,
            decreases self.entries@.len() - i,
        {
            let entry = &self.entries[i];
            assert(es[i as int] == (entry.0@, entry.1@));
            if same_text(entry.0.as_str(), path) {
                proof {
                    assert(es[i as int].0 == path@);
                    assert(cache_has(es, path@));
                    let c = choose|c: int| 0 <= c < es.len() && #[trigger] es[c].0 == path@;
                    if c != i {
                        assert(es[c].0 != es[i as int].0);
                    }
                }
                return Some(share(&entry.1));
            }
            i = i + 1;
        }
        None
    }

    /// Stores `contents` under `path`: a path already cached keeps its
    /// entry; otherwise the entry is added, and the oldest one leaves when
    /// the cache would hold more than its capacity.
    pub fn insert(&mut self, path: String, contents: Arc<String>)
        requires
            old(self).wf(),
        ensures
            final(self).wf(),
            final(self).capacity() == old(self).capacity(),
            final(self).entries() == cache_insert(
                old(self).entries(),
                old(self).capacity() as int,
                path@,
                contents@,
            ),
    {
        let ghost es = self.entries();
        let mut i: usize = 0;
        while i < self.entries.len()
            invariant
                i <= self.entries@.len(),
                es == self.entries(),
                es == old(self).entries(),
                self.wf(),
                self.capacity() == old(self).capacity(),
                forall|j: int| 0 <= j < i ==> #[trigger] es[j].0 != path@,
            decreases self.entries@.len() - i,
        {
            assert(es[i as int] == (self.entries@[i as int].0@, self.entries@[i as int].1@));
            if same_text(self.entries[i].0.as_str(), path.as_str()) {
                assert(es[i as int].0 == path@);
                assert(cache_has(es, path@));
                return;
            }
            i = i + 1;
        }
        assert(!cache_has(es, path@));
        let ghost added = es.push((path@, contents@));
        self.entries.push_back((path, contents));
        assert(self.entries() =~= added);
        if self.entries.len() > self.capacity {
            let _oldest = self.entries.pop_front();
            assert(self.entries() =~= added.drop_first());
        }
    }
}


/// Definitions grouped by name, as plain values.
pub type GroupsModel = Seq<(Seq<char>, Seq<SymbolInfoModel>)>;

/// The definitions listed under `name` in `gs`, none when it has no group.
pub open spec fn group_of(gs: GroupsModel, name: Seq<char>) -> Seq<SymbolInfoModel> {
    if exists|i: int| 0 <= i < gs.len() && #[trigger] gs[i].0 == name {
        gs[choose|i: int| 0 <= i < gs.len() && #[trigger] gs[i].0 == name].1
    } else {
        Seq::empty()
    }
}

/// The definitions of the indexed files, looked up by exact name.
pub struct SymbolTable {
    groups: Vec<(String, Vec<SymbolInfo>)>,
}

impl SymbolTable {
    /// The groups of definitions, one per name.
    pub closed spec fn groups(&self) -> GroupsModel {
        self.groups@.map_values(|g: (String, Vec<SymbolInfo>)| (g.0@, info_models(g.1@)))
    }

    /// The definitions named `name`, in the order they were added.
    pub open spec fn named(&self, name: Seq<char>) -> Seq<SymbolInfoModel> {
        group_of(self.groups(), name)
    }

    /// The table's invariant: one group per name, no group empty, and each
    /// group lists only definitions of that name.
    pub open spec fn wf(&self) -> bool {
        let gs = self.groups();
        &&& forall|i: int| 0 <= i < gs.len() ==> (#[trigger] gs[i]).1.len() > 0
        &&& forall|i: int, j: int|
            0 <= i < gs.len() && 0 <= j < gs.len() && i != j ==> #[trigger] gs[i].0
                != #[trigger] gs[j].0
        &&& forall|i: int, k: int|
            0 <= i < gs.len() && 0 <= k < gs[i].1.len() ==> (#[trigger] gs[i].1[k]).0 == gs[i].0
    }

    /// A table without definitions.
    pub fn new() -> (r: Self)
        ensures
            r.wf(),
            forall|name: Seq<char>| r.named(name) == Seq::<SymbolInfoModel>::empty(),
    {
        let r = SymbolTable { groups: Vec::new() };
        assert(r.groups() =~= Seq::<(Seq<char>, Seq<SymbolInfoModel>)>::empty());
        r
    }

    /// The position of the group of `name`, if there is one.
    fn group_index(&self, name: &str) -> (r: Option<usize>)
        requires
            self.wf(),
        ensures
            match r {
                Some(i) => i < self.groups@.len() && self.groups()[i as int].0 == name@,
                None => forall|i: int|
                    0 <= i < self.groups().len() ==> #[trigger] self.groups()[i].0 != name@,
            },
    {
        let mut i: usize = 0;
        while i < self.groups.len()
            invariant
                i <= self.groups@.len(),
                forall|j: int| 0 <= j < i ==> #[trigger] self.groups()[j].0 != name@,
            decreases self.groups@.len() - i,
        {
            assert(self.groups()[i as int].0 == self.groups@[i as int].0@);
            if same_text(self.groups[i].0.as_str(), name) {
                return Some(i);
            }
            i = i + 1;
        }
        None
    }

    /// Adds a definition under its name, after those already there.
    pub fn insert(&mut self, symbol: SymbolInfo)
        requires
            old(self).wf(),
        ensures
            final(self).wf(),
            forall|name: Seq<char>|
                #[trigger] final(self).named(name) == if name == symbol.name@ {
                    old(self).named(name).push(symbol@)
                } else {
                    old(self).named(name)
                },
    {
        let ghost gs = self.groups();
        match self.group_index(symbol.name.as_str()) {
            Some(i) => {
                let ghost g = gs[i as int];
                let ghost sm = symbol@;
                let ghost old_groups = self.groups@;
                let (name, mut members) = self.groups.remove(i);
                let ghost old_members = members@;
                assert(g == (name@, info_models(old_members)));
                members.push(symbol);
                assert(info_models(members@) =~= info_models(old_members).push(sm));
                self.groups.insert(i, (name, members));
                proof {
                    assert(self.groups@ =~= old_groups.update(i as int, (name, members)));
                    let ng = self.groups();
                    assert(ng =~= gs.update(i as int, (g.0, g.1.push(sm))));
                    assert forall|n: Seq<char>|
                        #[trigger] group_of(ng, n) == if n == symbol.name@ {
                            group_of(gs, n).push(symbol@)
                        } else {
                            group_of(gs, n)
                        } by {
                        if exists|j: int| 0 <= j < gs.len() && #[trigger] gs[j].0 == n {
                            let j = choose|j: int| 0 <= j < gs.len() && #[trigger] gs[j].0 == n;
                            assert(ng[j].0 == n);
                            let k = choose|k: int| 0 <= k < ng.len() && #[trigger] ng[k].0 == n;
                            if k != j {
                                assert(ng[k].0 == gs[k].0);
                                assert(ng[j].0 == gs[j].0);
                            }
                        } else {
                            if exists|k: int| 0 <= k < ng.len() && #[trigger] ng[k].0 == n {
                                let k = choose|k: int| 0 <= k < ng.len() && #[trigger] ng[k].0 == n;
                                assert(gs[k].0 == n);
                            }
                        }
                    }
                    assert forall|a: int, k: int|
                        0 <= a < ng.len() && 0 <= k < ng[a].1.len() implies (
                        #[trigger] ng[a].1[k]).0 == ng[a].0 by {
                        if a == i {
                            if k < g.1.len() {
                                assert(ng[a].1[k] == gs[a].1[k]);
                            }
                        } else {
                            assert(ng[a] == gs[a]);
                        }
                    }
                }
            },
            None => {
                let name = symbol.name.clone();
                let ghost model = symbol@;
                let mut members: Vec<SymbolInfo> = Vec::new();
                members.push(symbol);
                self.groups.push((name, members));
                proof {
                    let ng = self.groups();
                    assert(info_models(members@) =~= seq![model]);
                    assert(ng =~= gs.push((model.0, seq![model])));
                    assert forall|n: Seq<char>|
                        #[trigger] group_of(ng, n) == if n == model.0 {
                            group_of(gs, n).push(model)
                        } else {
                            group_of(gs, n)
                        } by {
                        if n == model.0 {
                            assert(ng[gs.len() as int].0 == n);
                            let k = choose|k: int| 0 <= k < ng.len() && #[trigger] ng[k].0 == n;
                            if k < gs.len() {
                                assert(gs[k].0 == n);
                            }
                            assert(group_of(gs, n) =~= Seq::<SymbolInfoModel>::empty());
                        } else {
                            if exists|j: int| 0 <= j < gs.len() && #[trigger] gs[j].0 == n {
                                let j = choose|j: int| 0 <= j < gs.len() && #[trigger] gs[j].0 == n;
                                assert(ng[j].0 == n);
                                let k = choose|k: int| 0 <= k < ng.len() && #[trigger] ng[k].0 == n;
                                if k != j {
                                    assert(ng[k].0 == gs[k].0);
                                }
                            } else {
                                if exists|k: int| 0 <= k < ng.len() && #[trigger] ng[k].0 == n {
                                    let k = choose|k: int|
                                        0 <= k < ng.len() && #[trigger] ng[k].0 == n;
                                    assert(gs[k].0 == n);
                                }
                            }
                        }
                    }
                }
            },
        }
    }

    /// The definitions named `name`, in the order they were added; none
    /// when there are none.
    pub fn symbols(&self, name: &str) -> (r: Vec<SymbolInfo>)
        requires
            self.wf(),
        ensures
            info_models(r@) == self.named(name@),
    {
        match self.group_index(name) {
            Some(i) => {
                let members = &self.groups[i].1;
                let mut r: Vec<SymbolInfo> = Vec::new();
                let mut k: usize = 0;
                while k < members.len()
                    invariant
                        k <= members@.len(),
                        info_models(r@) == info_models(members@).take(k as int),
                    decreases members@.len() - k,
                {
                    let ghost before = r@;
                    let c = members[k].clone();
                    r.push(c);
                    assert(info_models(r@) =~= info_models(before).push(members@[k as int]@));
                    assert(info_models(r@) =~= info_models(members@).take(k + 1));
                    k = k + 1;
                }
                proof {
                    let gs = self.groups();
                    assert(gs[i as int].0 == name@);
                    let c = choose|c: int| 0 <= c < gs.len() && #[trigger] gs[c].0 == name@;
                    if c != i {
                        assert(gs[c].0 != gs[i as int].0);
                    }
                    assert(info_models(members@).take(k as int) =~= info_models(members@));
                }
                r
            },
            None => {
                assert(self.named(name@) =~= Seq::<SymbolInfoModel>::empty());
                Vec::new()
            },
        }
    }
}


/// The requests the server answers.
#[derive(Debug, Clone, Copy, PartialEq, Eq)]
pub enum Method {
    /// `tools/list`: the tools on offer.
    ToolsList,
    /// `tools/call`: a call of one of the tools.
    ToolsCall,
    /// `search_code`, called directly.
    SearchCode,
    /// `get_symbol`, called directly.
    GetSymbol,
}

/// The tools on offer.
#[derive(Debug, Clone, Copy, PartialEq, Eq)]
pub enum Tool {
    /// Full-text search over the indexed files.
    SearchCode,
    /// Lookup of definitions by name.
    GetSymbol,
}

/// The method a request names, if the server has it.
pub open spec fn spec_method(method: Seq<char>) -> Option<Method> {
    if method == "tools/list"@ {
        Some(Method::ToolsList)
    } else if method == "tools/call"@ {
        Some(Method::ToolsCall)
    } else if method == "search_code"@ {
        Some(Method::SearchCode)
    } else if method == "get_symbol"@ {
        Some(Method::GetSymbol)
    } else {
        None
    }
}

/// The method a request names; a name the server does not have is
/// answered with "Unknown method: " and the name.
pub fn route_method(method: &str) -> (r: Result<Method, ToolError>)
    ensures
        match spec_method(method@) {
            Some(m) => r == Ok::<Method, ToolError>(m),
            None => r matches Err(ToolError::MethodNotFound(msg)) && msg@ == "Unknown method: "@
                + method@,
        },
{
    if same_text(method, "tools/list") {
        Ok(Method::ToolsList)
    } else if same_text(method, "tools/call") {
        Ok(Method::ToolsCall)
    } else if same_text(method, "search_code") {
        Ok(Method::SearchCode)
    } else if same_text(method, "get_symbol") {
        Ok(Method::GetSymbol)
    } else {
        let mut msg = "Unknown method: ".to_owned();
        msg.append(method);
        Err(ToolError::MethodNotFound(msg))
    }
}

/// The tool a `tools/call` request names, if the server has it.
pub open spec fn spec_tool(name: Seq<char>) -> Option<Tool> {
    if name == "search_code"@ {
        Some(Tool::SearchCode)
    } else if name == "get_symbol"@ {
        Some(Tool::GetSymbol)
    } else {
        None
    }
}

/// The tool a call names; a name the server does not have is answered with
/// "Unknown tool: " and the name.
pub fn route_tool(name: &str) -> (r: Result<Tool, ToolError>)
    ensures
        match spec_tool(name@) {
            Some(t) => r == Ok::<Tool, ToolError>(t),
            None => r matches Err(ToolError::MethodNotFound(msg)) && msg@ == "Unknown tool: "@
                + name@,
        },
{
    if same_text(name, "search_code") {
        Ok(Tool::SearchCode)
    } else if same_text(name, "get_symbol") {
        Ok(Tool::GetSymbol)
    } else {
        let mut msg = "Unknown tool: ".to_owned();
        msg.append(name);
        Err(ToolError::MethodNotFound(msg))
    }
}

/// The summary line of a search hit: `path:line snippet`.
pub open spec fn hit_line(r: SearchResultModel) -> Seq<char> {
    r.0 + ":"@ + decimal(r.1 as nat) + " "@ + r.2
}

/// The summary line of a definition: `path:line [kind]`.
pub open spec fn definition_line(m: SymbolInfoModel) -> Seq<char> {
    m.1 + ":"@ + decimal(m.2 as nat) + " ["@ + m.3 + "]"@
}

/// The text answer to a search: one summary line per hit, joined with
/// `'\n'`.
pub fn search_summary(results: &[SearchResult]) -> (r: String)
    ensures
        r@ == join_lines(results@.map_values(|x: SearchResult| hit_line(x@))),
{
    let ghost all = results@.map_values(|x: SearchResult| hit_line(x@));
    let mut r = String::new();
    let mut k: usize = 0;
    assert(all.take(0) =~= Seq::<Seq<char>>::empty());
    while k < results.len()
        invariant
            k <= results@.len(),
            all == results@.map_values(|x: SearchResult| hit_line(x@)),
            r@ == join_lines(all.take(k as int)),
        decreases results@.len() - k,
    {
        let hit = &results[k];
        proof {
            lemma_join_push(all.take(k as int), all[k as int]);
            assert(all.take(k + 1) =~= all.take(k as int).push(all[k as int]));
        }
        if k > 0 {
            r.append("\n");
        }
        r.append(hit.path.as_str());
        r.append(":");
        let line = decimal_string(hit.line);
        r.append(line.as_str());
        r.append(" ");
        r.append(hit.snippet.as_str());
        proof {
            if k == 0 {
                assert(r@ =~= all[0]);
            } else {
                assert(r@ =~= join_lines(all.take(k as int)) + "\n"@ + all[k as int]);
            }
        }
        k = k + 1;
    }
    assert(all.take(k as int) =~= all);
    r
}

/// The text answer to a definition lookup: one summary line per
/// definition, joined with `'\n'`.
pub fn symbol_summary(matches: &[SymbolInfo]) -> (r: String)
    ensures
        r@ == join_lines(matches@.map_values(|m: SymbolInfo| definition_line(m@))),
{
    let ghost all = matches@.map_values(|m: SymbolInfo| definition_line(m@));
    let mut r = String::new();
    let mut k: usize = 0;
    assert(all.take(0) =~= Seq::<Seq<char>>::empty());
    while k < matches.len()
        invariant
            k <= matches@.len(),
            all == matches@.map_values(|m: SymbolInfo| definition_line(m@)),
            r@ == join_lines(all.take(k as int)),
        decreases matches@.len() - k,
    {
        let m = &matches[k];
        proof {
            lemma_join_push(all.take(k as int), all[k as int]);
            assert(all.take(k + 1) =~= all.take(k as int).push(all[k as int]));
        }
        if k > 0 {
            r.append("\n");
        }
        r.append(m.path.as_str());
        r.append(":");
        let line = decimal_string(m.line);
        r.append(line.as_str());
        r.append(" [");
        r.append(m.kind.as_str());
        r.append("]");
        proof {
            if k == 0 {
                assert(r@ =~= all[0]);
            } else {
                assert(r@ =~= join_lines(all.take(k as int)) + "\n"@ + all[k as int]);
            }
        }
        k = k + 1;
    }
    assert(all.take(k as int) =~= all);
    r
}

} // verus!
