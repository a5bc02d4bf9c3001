//! The computations of directory indexing: which files are indexed and in
//! which language, which directory entries are skipped, the statistics of
//! a run, the snippet shown for a search hit, and the symbols of a
//! document that match a searched name.
use vstd::prelude::*;

use crate::symbols::{extract_symbols, models, spec_extract_symbols, Symbol, SymbolModel};
use crate::text::{
    chars_of, contains_in, contains_text, first_match, first_matching_line, join_line_ranges,
    join_lines, line_ranges, lines, ranges_text, same_text, starts_with,
};

verus! {

/// The position of the last `c` in `s`, or -1 when it has none.
pub open spec fn last_index(s: Seq<char>, c: char) -> int
    decreases s.len(),
{
    if s.len() == 0 {
        -1
    } else if s.last() == c {
        s.len() - 1
    } else {
        last_index(s.drop_last(), c)
    }
}

/// The last position of a character lies inside the text.
pub proof fn lemma_last_index_bound(s: Seq<char>, c: char)
    ensures
        -1 <= last_index(s, c) < s.len(),
    decreases s.len(),
{
    if s.len() > 0 && s.last() != c {
        lemma_last_index_bound(s.drop_last(), c);
    }
}

/// The final name of a path, as `Path::file_name` gives it on Unix: the
/// last component, where repeated and trailing `/` and `.` components
/// after the start are ignored; none for a path without one or ending in
/// `..`.
pub open spec fn final_name(path: Seq<char>) -> Option<Seq<char>>
    decreases path.len(),
{
    if path.len() == 0 {
        None
    } else if path.last() == '/' {
        final_name(path.drop_last())
    } else {
        let sep = last_index(path, '/');
        let name = path.skip(sep + 1);
        if name == "."@ {
            if sep < 0 {
                None
            } else {
                proof {
                    lemma_last_index_bound(path, '/');
                }
                final_name(path.take(sep))
            }
        } else if name == ".."@ {
            None
        } else {
            Some(name)
        }
    }
}

/// What `Path::extension` gives for a path, as its documentation says: none
/// when there is no file name, when the name has no `.`, or when it begins
/// with `.` and has no other; otherwise the part of the name after the final
/// `.`.
pub open spec fn path_extension(path: Seq<char>) -> Option<Seq<char>> {
    match final_name(path) {
        Some(name) => {
            let dot = last_index(name, '.');
            if dot <= 0 {
                None
            } else {
                Some(name.skip(dot + 1))
            }
        },
        None => None,
    }
}

/// Wraps `Path::extension` on the path `path` names (and `OsStr::to_str`,
/// which gives the text back, the path being text); its result is
/// [`path_extension`] of the path.
#[verifier::external_body]
pub(crate) fn extension_of(path: &str) -> (r: Option<String>)
    ensures
        r.deep_view() == path_extension(path@),
{
    std::path::Path::new(path).extension().and_then(|e| e.to_str()).map(|e| e.to_owned())
}

/// The language a file extension marks: `rs` Rust, `py` Python, `js` and
/// `jsx` JavaScript.
pub open spec fn extension_language(ext: Seq<char>) -> Option<Seq<char>> {
    if ext == "rs"@ {
        Some("rust"@)
    } else if ext == "py"@ {
        Some("python"@)
    } else if ext == "js"@ || ext == "jsx"@ {
        Some("javascript"@)
    } else {
        None
    }
}

/// The language of a file with extension `ext`.
pub fn language_for_extension(ext: &str) -> (r: Option<&'static str>)
    ensures
        r.deep_view() == extension_language(ext@),
{
    if same_text(ext, "rs") {
        Some("rust")
    } else if same_text(ext, "py") {
        Some("python")
    } else if same_text(ext, "js") || same_text(ext, "jsx") {
        Some("javascript")
    } else {
        None
    }
}

/// The language of the file at `path`, from its extension; `None` for
/// files that are not indexed.
pub fn detect_language(path: &str) -> (r: Option<&'static str>)
    ensures
        r.deep_view() == match path_extension(path@) {
            Some(ext) => extension_language(ext),
            None => None,
        },
{
    match extension_of(path) {
        Some(ext) => language_for_extension(ext.as_str()),
        None => None,
    }
}

/// Directory entries that indexing skips: hidden ones (their name starts
/// with `.`) and the usual dependency and build directories.
pub open spec fn hidden_name(name: Seq<char>) -> bool {
    ||| starts_with(name, "."@)
    ||| name == "node_modules"@
    ||| name == "target"@
    ||| name == "__pycache__"@
}

/// Whether the directory entry named `file_name` is skipped.
pub fn is_hidden(file_name: &str) -> (r: bool)
    ensures
        r == hidden_name(file_name@),
{
    let name = chars_of(file_name);
    let dot = chars_of(".");
    crate::text::begins_with(name.as_slice(), dot.as_slice()) || same_text(file_name, "node_modules")
        || same_text(file_name, "target") || same_text(file_name, "__pycache__")
}


/// The lines around a hit: up to `context` lines before and after line
/// `i`, as far as the text goes.
pub open spec fn context_window(ls: Seq<Seq<char>>, i: int, context: int) -> Seq<Seq<char>> {
    let start = if i >= context {
        i - context
    } else {
        0
    };
    let end = if i + context + 1 <= ls.len() {
        i + context + 1
    } else {
        ls.len() as int
    };
    ls.subrange(start, end)
}

/// What [`extract_snippet`] gives: the first line that matches the query
/// (case-insensitively) with `context` lines on each side, joined with
/// `'\n'`; when no line matches, the first five lines.
pub open spec fn spec_extract_snippet(content: Seq<char>, query: Seq<char>, context: int) -> Seq<
    char,
> {
    let ls = lines(content);
    match first_match(ls, query) {
        Some(i) => join_lines(context_window(ls, i, context)),
        None => join_lines(
            ls.take(
                if ls.len() < 5 {
                    ls.len() as int
                } else {
                    5
                },
            ),
        ),
    }
}

/// The part of `content` to show for a hit on `query`: the first matching
/// line with `context_lines` lines around it, or the first five lines.
pub fn extract_snippet(content: &str, query: &str, context_lines: usize) -> (r: String)
    ensures
        r@ == spec_extract_snippet(content@, query@, context_lines as int),
{
    let text = chars_of(content);
    let ranges = line_ranges(text.as_slice());
    let n = ranges.len();
    match first_matching_line(text.as_slice(), ranges.as_slice(), query) {
        Some(i) => {
            let start = if i >= context_lines {
                i - context_lines
            } else {
                0
            };
            let end = if context_lines >= n - i {
                n
            } else {
                i + context_lines + 1
            };
            join_line_ranges(text.as_slice(), ranges.as_slice(), start, end)
        },
        None => {
            let end = if n < 5 {
                n
            } else {
                5
            };
            let r = join_line_ranges(text.as_slice(), ranges.as_slice(), 0, end);
            assert(ranges_text(text@, ranges@).subrange(0, end as int) == ranges_text(
                text@,
                ranges@,
            ).take(end as int));
            r
        },
    }
}

/// Counts of one indexing run.
pub struct IndexStats {
    pub files_indexed: usize,
    pub symbols_found: usize,
}

impl IndexStats {
    /// The counts before any file is indexed.
    pub fn new() -> (r: Self)
        ensures
            r.files_indexed == 0,
            r.symbols_found == 0,
    {
        IndexStats { files_indexed: 0, symbols_found: 0 }
    }

    /// Counts one more indexed file, which defines `symbol_count` symbols.
    pub fn record_file(&mut self, symbol_count: usize)
        requires
            old(self).files_indexed < usize::MAX,
            old(self).symbols_found + symbol_count <= usize::MAX,
        ensures
            final(self).files_indexed == old(self).files_indexed + 1,
            final(self).symbols_found == old(self).symbols_found + symbol_count,
    {
        self.files_indexed = self.files_indexed + 1;
        self.symbols_found = self.symbols_found + symbol_count;
    }
}

/// The symbols of `ms` whose name contains `query`, in order.
pub open spec fn names_containing(ms: Seq<SymbolModel>, query: Seq<char>) -> Seq<SymbolModel>
    decreases ms.len(),
{
    if ms.len() == 0 {
        Seq::empty()
    } else {
        let before = names_containing(ms.drop_last(), query);
        if contains_text(ms.last().0, query) {
            before.push(ms.last())
        } else {
            before
        }
    }
}

/// The symbols that a stored document (`content`, in `language`, at
/// `path`) defines and whose name contains `symbol_name`, in line order.
pub fn symbols_matching(content: &str, language: &str, path: &str, symbol_name: &str) -> (r: Vec<
    Symbol,
>)
    ensures
        models(r@) == names_containing(
            spec_extract_symbols(content@, language@, path@),
            symbol_name@,
        ),
{
    let file_symbols = extract_symbols(content, language, path);
    let ghost all = models(file_symbols@);
    let needle = chars_of(symbol_name);
    let mut found: Vec<Symbol> = Vec::new();
    let mut k: usize = 0;
    while k < file_symbols.len()
        invariant
            k <= file_symbols@.len(),
            all == models(file_symbols@),
            needle@ == symbol_name@,
            models(found@) == names_containing(all.take(k as int), symbol_name@),
        decreases file_symbols@.len() - k,
    {
        let sym = &file_symbols[k];
        let name = chars_of(sym.name.as_str());
        let ghost before = found@;
        proof {
            assert(all.take(k + 1).drop_last() =~= all.take(k as int));
            assert(all.take(k + 1).last() == sym@);
        }
        if contains_in(name.as_slice(), needle.as_slice()) {
            found.push(sym.clone());
            assert(models(found@) =~= models(before).push(sym@));
        }
        k = k + 1;
    }
    assert(all.take(k as int) =~= all);
    found
}

} // verus!
