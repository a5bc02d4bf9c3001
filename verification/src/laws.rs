//! What holds of the library as a whole, stated over the models its
//! functions' contracts use, and proved.
use vstd::prelude::*;

use crate::symbols::{
    lang_named, line_symbol, spec_extract_symbols, symbols_of_lines, Lang, SymbolModel,
};
use crate::indexer::{context_window, names_containing, spec_extract_snippet};
use crate::symbols::{
    first_stop, is_first_stop, name_after_marker, rust_enum_name, rust_function_name, rust_struct_name,
    rust_trait_name, stops, Stop, before_stop, name_after, python_line_symbol, javascript_line_symbol,
};
use crate::server::spec_symbol_kind;
use crate::text::{find_text, is_first_occurrence, join_lines, lemma_find_text_some, occurs_at, starts_with};
use crate::search::named_in;
use crate::server::{
    cache_has, cache_insert, cache_lookup, distinct_keys, spec_snippet_for_query,
    CacheModel, SymbolInfoModel, SymbolTable,
};
use crate::text::{contains_text, first_match, is_first_match, is_white_space, line_matches, lines, trim, trim_end, trim_start};

verus! {

/// The kinds of definition a language has.
pub open spec fn lang_kind(lang: Lang, kind: Seq<char>) -> bool {
    match lang {
        Lang::Rust => kind == "function"@ || kind == "struct"@ || kind == "enum"@ || kind == "trait"@,
        _ => kind == "function"@ || kind == "class"@,
    }
}

proof fn lemma_line_symbol_kind(lang: Lang, line: Seq<char>)
    ensures
        line_symbol(lang, line) matches Some((n, k)) ==> lang_kind(lang, k),
{
}

proof fn lemma_symbols_of_lines(lang: Lang, ls: Seq<Seq<char>>, path: Seq<char>, n: nat)
    requires
        n <= ls.len(),
    ensures
        ({
            let ms = symbols_of_lines(lang, ls, path, n);
            &&& forall|i: int| 0 <= i < ms.len() ==> (#[trigger] ms[i]).2 == path
            &&& forall|i: int| 0 <= i < ms.len() ==> 1 <= (#[trigger] ms[i]).3 <= n
            &&& forall|i: int, j: int| 0 <= i < j < ms.len() ==> (#[trigger] ms[i]).3 < (#[trigger] ms[j]).3
            &&& forall|i: int| 0 <= i < ms.len() ==> lang_kind(lang, (#[trigger] ms[i]).1)
        }),
    decreases n,
{
    if n > 0 {
        lemma_symbols_of_lines(lang, ls, path, (n - 1) as nat);
        lemma_line_symbol_kind(lang, ls[n - 1]);
        let before = symbols_of_lines(lang, ls, path, (n - 1) as nat);
        match line_symbol(lang, ls[n - 1]) {
            Some((name, kind)) => {
                let ms = before.push((name, kind, path, n as int));
                assert(symbols_of_lines(lang, ls, path, n) == ms);
                assert forall|i: int| 0 <= i < ms.len() implies (#[trigger] ms[i]).2 == path && 1
                    <= ms[i].3 <= n && lang_kind(lang, ms[i].1) by {
                    if i < before.len() {
                        assert(ms[i] == before[i]);
                    }
                }
                assert forall|i: int, j: int| 0 <= i < j < ms.len() implies (
                #[trigger] ms[i]).3 < (#[trigger] ms[j]).3 by {
                    assert(ms[i] == before[i]);
                    if j < before.len() {
                        assert(ms[j] == before[j]);
                    }
                }
            },
            None => {},
        }
    }
}

/// The symbols of a source text come one per line at most, in line order,
/// each with the file's path, a line number between 1 and the number of
/// lines, and a kind of definition the language has; a language that is
/// not recognised gives none.
pub proof fn law_symbols_in_line_order(content: Seq<char>, language: Seq<char>, path: Seq<char>)
    ensures
        ({
            let ms = spec_extract_symbols(content, language, path);
            &&& lang_named(language) is None ==> ms.len() == 0
            &&& forall|i: int| 0 <= i < ms.len() ==> (#[trigger] ms[i]).2 == path
            &&& forall|i: int|
                0 <= i < ms.len() ==> 1 <= (#[trigger] ms[i]).3 <= lines(content).len()
            &&& forall|i: int, j: int| 0 <= i < j < ms.len() ==> (#[trigger] ms[i]).3 < (#[trigger] ms[j]).3
            &&& forall|i: int|
                0 <= i < ms.len() ==> lang_kind(lang_named(language)->0, (#[trigger] ms[i]).1)
        }),
{
    match lang_named(language) {
        Some(lang) => {
            lemma_symbols_of_lines(lang, lines(content), path, lines(content).len());
        },
        None => {},
    }
}


/// A text without white space at either end.
pub open spec fn is_trimmed(s: Seq<char>) -> bool {
    s.len() == 0 || (!is_white_space(s[0]) && !is_white_space(s.last()))
}

proof fn lemma_trim_start_first(s: Seq<char>)
    ensures
        trim_start(s).len() == 0 || !is_white_space(trim_start(s)[0]),
    decreases s.len(),
{
    if s.len() > 0 && is_white_space(s[0]) {
        lemma_trim_start_first(s.drop_first());
    }
}

proof fn lemma_trim_end_shape(t: Seq<char>)
    ensures
        trim_end(t).len() <= t.len(),
        trim_end(t).len() > 0 ==> trim_end(t)[0] == t[0] && !is_white_space(trim_end(t).last()),
    decreases t.len(),
{
    if t.len() > 0 && is_white_space(t.last()) {
        lemma_trim_end_shape(t.drop_last());
    }
}

/// `trim` leaves no white space at either end.
pub proof fn law_trim_is_trimmed(s: Seq<char>)
    ensures
        is_trimmed(trim(s)),
{
    lemma_trim_start_first(s);
    lemma_trim_end_shape(trim_start(s));
}

proof fn lemma_line_symbol_trimmed(lang: Lang, line: Seq<char>)
    ensures
        line_symbol(lang, line) matches Some((n, k)) ==> is_trimmed(n),
{
    assert forall|s: Seq<char>| #[trigger] is_trimmed(trim(s)) by {
        law_trim_is_trimmed(s);
    }
}

proof fn lemma_symbols_trimmed(lang: Lang, ls: Seq<Seq<char>>, path: Seq<char>, n: nat)
    ensures
        forall|i: int|
            0 <= i < symbols_of_lines(lang, ls, path, n).len() ==> is_trimmed(
                (#[trigger] symbols_of_lines(lang, ls, path, n)[i]).0,
            ),
    decreases n,
{
    if n > 0 {
        lemma_symbols_trimmed(lang, ls, path, (n - 1) as nat);
        lemma_line_symbol_trimmed(lang, ls[n - 1]);
        let before = symbols_of_lines(lang, ls, path, (n - 1) as nat);
        match line_symbol(lang, ls[n - 1]) {
            Some((name, kind)) => {
                let ms = before.push((name, kind, path, n as int));
                assert forall|i: int| 0 <= i < ms.len() implies is_trimmed((#[trigger] ms[i]).0) by {
                    if i < before.len() {
                        assert(ms[i] == before[i]);
                    }
                }
            },
            None => {},
        }
    }
}

/// The name of every symbol found has no white space at either end.
pub proof fn law_symbol_names_trimmed(content: Seq<char>, language: Seq<char>, path: Seq<char>)
    ensures
        forall|i: int|
            0 <= i < spec_extract_symbols(content, language, path).len() ==> is_trimmed(
                (#[trigger] spec_extract_symbols(content, language, path)[i]).0,
            ),
{
    match lang_named(language) {
        Some(lang) => {
            lemma_symbols_trimmed(lang, lines(content), path, lines(content).len());
        },
        None => {},
    }
}


/// The symbols matching a searched name all contain it, and are symbols
/// of the document, in the document's order.
pub proof fn law_matches_contain_name(ms: Seq<SymbolModel>, query: Seq<char>)
    ensures
        names_containing(ms, query).len() <= ms.len(),
        forall|i: int|
            0 <= i < names_containing(ms, query).len() ==> contains_text(
                (#[trigger] names_containing(ms, query)[i]).0,
                query,
            ) && ms.contains(names_containing(ms, query)[i]),
    decreases ms.len(),
{
    if ms.len() > 0 {
        let rest = ms.drop_last();
        law_matches_contain_name(rest, query);
        let before = names_containing(rest, query);
        let r = names_containing(ms, query);
        assert forall|i: int| 0 <= i < r.len() implies contains_text((#[trigger] r[i]).0, query)
            && ms.contains(r[i]) by {
            if i < before.len() {
                assert(r[i] == before[i]);
                let k = choose|k: int| 0 <= k < rest.len() && rest[k] == before[i];
                assert(ms[k] == rest[k]);
            } else {
                assert(r[i] == ms.last());
                assert(ms[ms.len() - 1] == ms.last());
            }
        }
    }
}

/// A snippet holds the matching line, with at most `context` lines on
/// each side of it, taken in order from the text.
pub proof fn law_snippet_holds_hit(ls: Seq<Seq<char>>, i: int, context: int)
    requires
        0 <= i < ls.len(),
        context >= 0,
    ensures
        ({
            let start = if i >= context {
                i - context
            } else {
                0
            };
            let w = context_window(ls, i, context);
            &&& w.len() <= 2 * context + 1
            &&& w[i - start] == ls[i]
            &&& forall|k: int| 0 <= k < w.len() ==> #[trigger] w[k] == ls[start + k]
        }),
{
}

/// The line shown for a hit is numbered from 1; when some line matches the
/// query, it is the first such line, trimmed.
pub proof fn law_hit_is_first_matching_line(contents: Seq<char>, query: Seq<char>)
    ensures
        spec_snippet_for_query(contents, query).0 >= 1,
        first_match(lines(contents), query) is Some ==> ({
            let (line, text) = spec_snippet_for_query(contents, query);
            &&& line <= lines(contents).len()
            &&& line_matches(lines(contents)[line - 1], query)
            &&& forall|j: int| 0 <= j < line - 1 ==> !line_matches(#[trigger] lines(contents)[j], query)
            &&& text == trim(lines(contents)[line - 1])
        }),
{
    let ls = lines(contents);
    if first_match(ls, query) is Some {
        let i = choose|i: int| is_first_match(ls, query, i);
        assert(is_first_match(ls, query, i));
    }
}

proof fn lemma_lookup_at(es: CacheModel, key: Seq<char>, i: int)
    requires
        distinct_keys(es),
        0 <= i < es.len(),
        es[i].0 == key,
    ensures
        cache_lookup(es, key) == Some(es[i].1),
{
    assert(cache_has(es, key));
    let c = choose|c: int| 0 <= c < es.len() && #[trigger] es[c].0 == key;
    if c != i {
        assert(es[c].0 != es[i].0);
    }
}

/// Reading a path just stored in a cache that can hold an entry gives the
/// stored contents.
pub proof fn law_cache_read_after_write(es: CacheModel, capacity: int, key: Seq<char>, value: Seq<char>)
    requires
        distinct_keys(es),
        es.len() <= capacity,
        capacity >= 1,
        !cache_has(es, key),
    ensures
        cache_lookup(cache_insert(es, capacity, key, value), key) == Some(value),
        distinct_keys(cache_insert(es, capacity, key, value)),
        cache_insert(es, capacity, key, value).len() <= capacity,
{
    let added = es.push((key, value));
    assert forall|i: int, j: int| 0 <= i < added.len() && 0 <= j < added.len() && i != j
        implies #[trigger] added[i].0 != #[trigger] added[j].0 by {
        if i < es.len() && j < es.len() {
            assert(added[i] == es[i] && added[j] == es[j]);
        } else if i < es.len() {
            assert(added[i] == es[i]);
        } else {
            assert(added[j] == es[j]);
        }
    }
    if added.len() > capacity {
        let r = added.drop_first();
        assert(r[r.len() - 1] == (key, value));
        assert forall|i: int, j: int| 0 <= i < r.len() && 0 <= j < r.len() && i != j
            implies #[trigger] r[i].0 != #[trigger] r[j].0 by {
            assert(r[i] == added[i + 1] && r[j] == added[j + 1]);
        }
        lemma_lookup_at(r, key, r.len() - 1);
    } else {
        lemma_lookup_at(added, key, added.len() - 1);
    }
}

/// Storing a path that is already cached changes nothing: the contents
/// first stored stay.
pub proof fn law_cache_first_write_stays(es: CacheModel, capacity: int, key: Seq<char>, value: Seq<char>)
    requires
        cache_has(es, key),
    ensures
        cache_insert(es, capacity, key, value) == es,
{
}

/// Storing a new path in a full cache evicts the entry stored first and
/// keeps every other one.
pub proof fn law_cache_evicts_oldest(es: CacheModel, capacity: int, key: Seq<char>, value: Seq<char>)
    requires
        distinct_keys(es),
        es.len() == capacity,
        capacity >= 1,
        !cache_has(es, key),
    ensures
        !cache_has(cache_insert(es, capacity, key, value), es[0].0),
        cache_insert(es, capacity, key, value).len() == capacity,
        forall|i: int|
            1 <= i < es.len() ==> cache_lookup(cache_insert(es, capacity, key, value), #[trigger] es[i].0)
                == Some(es[i].1),
{
    law_cache_read_after_write(es, capacity, key, value);
    let r = cache_insert(es, capacity, key, value);
    let added = es.push((key, value));
    assert(r == added.drop_first());
    if cache_has(r, es[0].0) {
        let c = choose|c: int| 0 <= c < r.len() && #[trigger] r[c].0 == es[0].0;
        assert(r[c] == added[c + 1]);
        if c + 1 < es.len() {
            assert(added[c + 1] == es[c + 1]);
            assert(es[c + 1].0 != es[0].0);
        } else {
            assert(added[c + 1] == (key, value));
            assert(es[0].0 == key);
        }
    }
    assert forall|i: int| 1 <= i < es.len() implies cache_lookup(r, #[trigger] es[i].0) == Some(es[i].1) by {
        assert(r[i - 1] == added[i]);
        assert(added[i] == es[i]);
        lemma_lookup_at(r, es[i].0, i - 1);
    }
}

/// The definitions a table lists under a name all have that name.
pub proof fn law_table_lists_only_the_name(table: SymbolTable, name: Seq<char>)
    requires
        table.wf(),
    ensures
        forall|k: int| 0 <= k < table.named(name).len() ==> (#[trigger] table.named(name)[k]).0 == name,
{
    let gs = table.groups();
    if exists|i: int| 0 <= i < gs.len() && #[trigger] gs[i].0 == name {
        let i = choose|i: int| 0 <= i < gs.len() && #[trigger] gs[i].0 == name;
        assert forall|k: int| 0 <= k < table.named(name).len() implies (#[trigger] table.named(name)[k]).0 == name by {
            assert(table.named(name)[k] == gs[i].1[k]);
        }
    }
}

/// The definitions of a sequence named `name` are exactly those with that
/// name, in their order.
pub proof fn law_named_in_selects_the_name(ms: Seq<SymbolInfoModel>, name: Seq<char>)
    ensures
        forall|k: int| 0 <= k < named_in(ms, name).len() ==> (#[trigger] named_in(ms, name)[k]).0 == name,
        named_in(ms, name) == ms.filter(|m: SymbolInfoModel| m.0 == name),
    decreases ms.len(),
{
    reveal_with_fuel(Seq::filter, 1);
    if ms.len() > 0 {
        law_named_in_selects_the_name(ms.drop_last(), name);
        let before = named_in(ms.drop_last(), name);
        let r = named_in(ms, name);
        assert forall|k: int| 0 <= k < r.len() implies (#[trigger] r[k]).0 == name by {
            if k < before.len() {
                assert(r[k] == before[k]);
            }
        }
    }
}

/// Every character of `trim(s)` is a character of `s`.
proof fn lemma_trim_chars(s: Seq<char>)
    ensures
        forall|i: int| 0 <= i < trim(s).len() ==> exists|j: int| 0 <= j < s.len() && s[j] == #[trigger] trim(s)[i],
{
    lemma_trim_start_chars(s);
    lemma_trim_end_prefix(trim_start(s));
    let t = trim_start(s);
    assert forall|i: int| 0 <= i < trim(s).len() implies exists|j: int| 0 <= j < s.len() && s[j] == #[trigger] trim(s)[i] by {
        assert(trim(s)[i] == t[i]);
        let j = choose|j: int| 0 <= j < s.len() && s[j] == #[trigger] t[i];
    }
}

proof fn lemma_trim_start_chars(s: Seq<char>)
    ensures
        forall|i: int| 0 <= i < trim_start(s).len() ==> exists|j: int| 0 <= j < s.len() && s[j] == #[trigger] trim_start(s)[i],
    decreases s.len(),
{
    if s.len() > 0 && is_white_space(s[0]) {
        let d = s.drop_first();
        lemma_trim_start_chars(d);
        assert forall|i: int| 0 <= i < trim_start(s).len() implies exists|j: int| 0 <= j < s.len() && s[j] == #[trigger] trim_start(s)[i] by {
            let j = choose|j: int| 0 <= j < d.len() && d[j] == #[trigger] trim_start(d)[i];
            assert(s[j + 1] == d[j]);
        }
    } else {
        assert forall|i: int| 0 <= i < trim_start(s).len() implies exists|j: int| 0 <= j < s.len() && s[j] == #[trigger] trim_start(s)[i] by {
            assert(s[i] == trim_start(s)[i]);
        }
    }
}

proof fn lemma_trim_end_prefix(t: Seq<char>)
    ensures
        trim_end(t).len() <= t.len(),
        forall|i: int| 0 <= i < trim_end(t).len() ==> #[trigger] trim_end(t)[i] == t[i],
    decreases t.len(),
{
    if t.len() > 0 && is_white_space(t.last()) {
        lemma_trim_end_prefix(t.drop_last());
    }
}

/// A name read after a marker holds none of the characters that end it.
proof fn lemma_marker_name_has_no_stop(t: Seq<char>, marker: Seq<char>, stop: Stop)
    ensures
        name_after_marker(t, marker, stop) matches Some(n) ==> forall|i: int| 0 <= i < n.len() ==> !stops(stop, #[trigger] n[i]),
{
    match find_text(t, marker) {
        None => {},
        Some(k) => {
            let rest = t.skip(k + marker.len());
            match first_stop(rest, stop) {
                Some(e) => {
                    assert(is_first_stop(rest, stop, e));
                    let piece = rest.take(e);
                    lemma_trim_chars(piece);
                    let n = trim(piece);
                    assert forall|i: int| 0 <= i < n.len() implies !stops(stop, #[trigger] n[i]) by {
                        let j = choose|j: int| 0 <= j < piece.len() && piece[j] == #[trigger] n[i];
                        assert(piece[j] == rest[j]);
                    }
                },
                None => {},
            }
        },
    }
}

/// When the text starts with `marker`, and `n` (free of stop characters
/// and white space) is followed by a stop character, the name read is `n`.
proof fn lemma_marker_name_is(marker: Seq<char>, n: Seq<char>, c: char, rest: Seq<char>, stop: Stop)
    requires
        marker.len() > 0,
        stops(stop, c),
        forall|i: int| 0 <= i < n.len() ==> !stops(stop, #[trigger] n[i]) && !is_white_space(n[i]),
    ensures
        name_after_marker(marker + n + seq![c] + rest, marker, stop) == Some(n),
{
    let t = marker + n + seq![c] + rest;
    assert(t.subrange(0, marker.len() as int) =~= marker);
    assert(is_first_occurrence(t, marker, 0));
    lemma_find_text_some(t, marker, 0);
    let r = t.skip(marker.len() as int);
    assert(r =~= n + seq![c] + rest);
    assert(r[n.len() as int] == c);
    assert forall|j: int| 0 <= j < n.len() implies !stops(stop, #[trigger] r[j]) by {
        assert(r[j] == n[j]);
    }
    assert(is_first_stop(r, stop, n.len() as int));
    let e = choose|e: int| is_first_stop(r, stop, e);
    assert(is_first_stop(r, stop, e));
    if e < n.len() {
        assert(!stops(stop, r[e]));
    }
    if n.len() < e {
        assert(!stops(stop, r[n.len() as int]));
    }
    assert(first_stop(r, stop) == Some(n.len() as int));
    assert(r.take(n.len() as int) =~= n);
    if n.len() > 0 {
        assert(!is_white_space(n[0]));
        assert(!is_white_space(n.last()));
    }
    assert(trim_start(n) == n);
    assert(trim_end(n) == n);
}

/// A Rust enum's name is the text after `enum ` up to the first `<`, `{`,
/// `;` or white space: it holds none of these, and `enum N<...` (or
/// `enum N {`, `enum N;`, `enum N ...`) is named `N`.
pub proof fn law_rust_enum_name(t: Seq<char>, n: Seq<char>, c: char, rest: Seq<char>)
    ensures
        rust_enum_name(t) matches Some(name) ==> forall|i: int|
            0 <= i < name.len() ==> #[trigger] name[i] != '<' && name[i] != '{' && name[i] != ';'
                && !is_white_space(name[i]),
        (c == '<' || c == '{' || c == ';' || is_white_space(c)) && (forall|i: int|
            0 <= i < n.len() ==> #[trigger] n[i] != '<' && n[i] != '{' && n[i] != ';'
                && !is_white_space(n[i])) ==> rust_enum_name("enum "@ + n + seq![c] + rest) == Some(n),
{
    lemma_marker_name_has_no_stop(t, "enum "@, Stop::EnumName);
    if (c == '<' || c == '{' || c == ';' || is_white_space(c)) && (forall|i: int|
        0 <= i < n.len() ==> #[trigger] n[i] != '<' && n[i] != '{' && n[i] != ';' && !is_white_space(n[i])) {
        reveal_strlit("enum ");
        let u = "enum "@ + n + seq![c] + rest;
        lemma_marker_name_is("enum "@, n, c, rest, Stop::EnumName);
        assert(u.take("enum "@.len() as int) =~= "enum "@);
    }
}

/// A Rust struct's name is the text after `struct ` up to the first `<`,
/// `{`, `;`, `(` or white space: it holds none of these, and
/// `struct N<...` (or `struct N(`, `struct N {`, `struct N;`) is named `N`.
pub proof fn law_rust_struct_name(t: Seq<char>, n: Seq<char>, c: char, rest: Seq<char>)
    ensures
        rust_struct_name(t) matches Some(name) ==> forall|i: int|
            0 <= i < name.len() ==> #[trigger] name[i] != '<' && name[i] != '{' && name[i] != ';'
                && name[i] != '(' && !is_white_space(name[i]),
        (c == '<' || c == '{' || c == ';' || c == '(' || is_white_space(c)) && (forall|i: int|
            0 <= i < n.len() ==> #[trigger] n[i] != '<' && n[i] != '{' && n[i] != ';' && n[i] != '('
                && !is_white_space(n[i])) ==> rust_struct_name("struct "@ + n + seq![c] + rest)
            == Some(n),
{
    lemma_marker_name_has_no_stop(t, "struct "@, Stop::StructName);
    if (c == '<' || c == '{' || c == ';' || c == '(' || is_white_space(c)) && (forall|i: int|
        0 <= i < n.len() ==> #[trigger] n[i] != '<' && n[i] != '{' && n[i] != ';' && n[i] != '('
            && !is_white_space(n[i])) {
        reveal_strlit("struct ");
        let u = "struct "@ + n + seq![c] + rest;
        lemma_marker_name_is("struct "@, n, c, rest, Stop::StructName);
        assert(u.take("struct "@.len() as int) =~= "struct "@);
    }
}

/// A Rust trait's name is the text after `trait ` up to the first `<`,
/// `{`, `:` or white space: it holds none of these, and `trait N<...` (or
/// `trait N: Base`, `trait N {`) is named `N`.
pub proof fn law_rust_trait_name(t: Seq<char>, n: Seq<char>, c: char, rest: Seq<char>)
    ensures
        rust_trait_name(t) matches Some(name) ==> forall|i: int|
            0 <= i < name.len() ==> #[trigger] name[i] != '<' && name[i] != '{' && name[i] != ':'
                && !is_white_space(name[i]),
        (c == '<' || c == '{' || c == ':' || is_white_space(c)) && (forall|i: int|
            0 <= i < n.len() ==> #[trigger] n[i] != '<' && n[i] != '{' && n[i] != ':'
                && !is_white_space(n[i])) ==> rust_trait_name("trait "@ + n + seq![c] + rest) == Some(n),
{
    lemma_marker_name_has_no_stop(t, "trait "@, Stop::TraitName);
    if (c == '<' || c == '{' || c == ':' || is_white_space(c)) && (forall|i: int|
        0 <= i < n.len() ==> #[trigger] n[i] != '<' && n[i] != '{' && n[i] != ':' && !is_white_space(n[i])) {
        reveal_strlit("trait ");
        let u = "trait "@ + n + seq![c] + rest;
        lemma_marker_name_is("trait "@, n, c, rest, Stop::TraitName);
        assert(u.take("trait "@.len() as int) =~= "trait "@);
    }
}

/// A Rust function's name is the text after `fn ` up to the first `(`:
/// it holds no `(`, and `fn N(...` is named `N` (for a name without white
/// space or `(`).
pub proof fn law_rust_function_name(t: Seq<char>, n: Seq<char>, rest: Seq<char>)
    ensures
        rust_function_name(t) matches Some(name) ==> forall|i: int| 0 <= i < name.len() ==> #[trigger] name[i] != '(',
        (forall|i: int| 0 <= i < n.len() ==> #[trigger] n[i] != '(' && !is_white_space(n[i]))
            ==> rust_function_name("fn "@ + n + seq!['('] + rest) == Some(n),
{
    lemma_marker_name_has_no_stop(t, "fn "@, Stop::Char('('));
    if forall|i: int| 0 <= i < n.len() ==> #[trigger] n[i] != '(' && !is_white_space(n[i]) {
        reveal_strlit("fn ");
        let u = "fn "@ + n + seq!['('] + rest;
        lemma_marker_name_is("fn "@, n, '(', rest, Stop::Char('('));
        assert(u.take("fn "@.len() as int) =~= "fn "@);
    }
}

/// A snippet's window runs from `context` lines before the hit (or the
/// first line) to `context` lines after it (or the last line): it has
/// `min(i + context + 1, n) - max(i - context, 0)` lines, and every line of
/// the text within `context` lines of the hit is in it, in place.
pub proof fn law_snippet_window(ls: Seq<Seq<char>>, i: int, context: int)
    requires
        0 <= i < ls.len(),
        context >= 0,
    ensures
        ({
            let lo = if i - context > 0 { i - context } else { 0 };
            let hi = if i + context + 1 < ls.len() { i + context + 1 } else { ls.len() as int };
            let w = context_window(ls, i, context);
            &&& w.len() == hi - lo
            &&& forall|j: int| 0 <= j < ls.len() && i - context <= j <= i + context ==> w[j - lo] == #[trigger] ls[j]
        }),
{
}

/// The snippet of a text with a line matching the query is that line's
/// window, joined; without one, it is the text's first five lines (or all
/// of them, when it has fewer).
pub proof fn law_snippet_of_a_hit(content: Seq<char>, query: Seq<char>, context: int)
    requires
        context >= 0,
    ensures
        first_match(lines(content), query) matches Some(i) ==> spec_extract_snippet(content, query, context)
            == join_lines(context_window(lines(content), i, context)),
        first_match(lines(content), query) is None ==> spec_extract_snippet(content, query, context)
            == join_lines(lines(content).subrange(0, if lines(content).len() < 5 { lines(content).len() as int } else { 5 })),
{
    assert(lines(content).take(if lines(content).len() < 5 { lines(content).len() as int } else { 5 })
        =~= lines(content).subrange(0, if lines(content).len() < 5 { lines(content).len() as int } else { 5 }));
}

/// The symbols found for a searched name are exactly the symbols of the
/// document whose name contains it, in order: none is left out.
pub proof fn law_matches_are_complete(ms: Seq<SymbolModel>, query: Seq<char>)
    ensures
        names_containing(ms, query) == ms.filter(|m: SymbolModel| contains_text(m.0, query)),
        forall|k: int| 0 <= k < ms.len() && contains_text(ms[k].0, query) ==> names_containing(ms, query).contains(#[trigger] ms[k]),
    decreases ms.len(),
{
    reveal_with_fuel(Seq::filter, 1);
    if ms.len() > 0 {
        law_matches_are_complete(ms.drop_last(), query);
        let before = names_containing(ms.drop_last(), query);
        let r = names_containing(ms, query);
        assert forall|k: int| 0 <= k < ms.len() && contains_text(ms[k].0, query) implies r.contains(#[trigger] ms[k]) by {
            if k < ms.len() - 1 {
                assert(ms[k] == ms.drop_last()[k]);
                let j = choose|j: int| 0 <= j < before.len() && before[j] == ms.drop_last()[k];
                assert(r[j] == before[j]);
            } else {
                assert(r[r.len() - 1] == ms.last());
            }
        }
    }
}

/// Only the definition node kinds give a symbol, each with its own kind:
/// Rust `function_item`, `struct_item`, `enum_item`, `trait_item`; Python
/// `function_definition`, `class_definition`; JavaScript
/// `function_declaration`, `class_declaration`.
pub proof fn law_symbol_kinds(language: Seq<char>, node_kind: Seq<char>)
    ensures
        spec_symbol_kind(language, node_kind) is Some <==> {
            ||| language == "rust"@ && (node_kind == "function_item"@ || node_kind == "struct_item"@
                || node_kind == "enum_item"@ || node_kind == "trait_item"@)
            ||| language == "python"@ && (node_kind == "function_definition"@ || node_kind
                == "class_definition"@)
            ||| language == "javascript"@ && (node_kind == "function_declaration"@ || node_kind
                == "class_declaration"@)
        },
        spec_symbol_kind(language, node_kind) == Some("struct"@) ==> language == "rust"@ && node_kind
            == "struct_item"@,
        spec_symbol_kind(language, node_kind) == Some("enum"@) ==> language == "rust"@ && node_kind
            == "enum_item"@,
        spec_symbol_kind(language, node_kind) == Some("trait"@) ==> language == "rust"@ && node_kind
            == "trait_item"@,
        spec_symbol_kind(language, node_kind) == Some("class"@) ==> (language == "python"@ && node_kind
            == "class_definition"@) || (language == "javascript"@ && node_kind == "class_declaration"@),
        spec_symbol_kind(language, node_kind) == Some("function"@) ==> (language == "rust"@ && node_kind
            == "function_item"@) || (language == "python"@ && node_kind == "function_definition"@) || (
        language == "javascript"@ && node_kind == "function_declaration"@),
{
    reveal_strlit("rust");
    reveal_strlit("python");
    reveal_strlit("javascript");
    reveal_strlit("function");
    reveal_strlit("struct");
    reveal_strlit("enum");
    reveal_strlit("trait");
    reveal_strlit("class");
    let kinds = seq!["function"@, "struct"@, "enum"@, "trait"@, "class"@];
    assert(kinds[0].len() == 8 && kinds[1].len() == 6 && kinds[2].len() == 4);
    assert(kinds[3].len() == 5 && kinds[4].len() == 5 && kinds[3][0] != kinds[4][0]);
    assert("function"@ != "struct"@ && "function"@ != "enum"@ && "function"@ != "trait"@ && "function"@ != "class"@);
    assert("struct"@ != "enum"@ && "struct"@ != "trait"@ && "struct"@ != "class"@);
    assert("enum"@ != "trait"@ && "enum"@ != "class"@ && "trait"@ != "class"@);
}

/// When some character of `s` ends a name, a first one does.
proof fn lemma_first_stop_exists(s: Seq<char>, stop: Stop, j: int)
    requires
        0 <= j < s.len(),
        stops(stop, s[j]),
    ensures
        exists|i: int| is_first_stop(s, stop, i),
    decreases j,
{
    if exists|k: int| 0 <= k < j && stops(stop, #[trigger] s[k]) {
        let k = choose|k: int| 0 <= k < j && stops(stop, #[trigger] s[k]);
        lemma_first_stop_exists(s, stop, k);
    } else {
        assert(is_first_stop(s, stop, j));
    }
}

/// The text before the first stop character holds none, and only
/// characters of `s`.
proof fn lemma_before_stop_clean(s: Seq<char>, stop: Stop)
    ensures
        before_stop(s, stop).len() <= s.len(),
        forall|i: int| 0 <= i < before_stop(s, stop).len() ==> !stops(stop, #[trigger] before_stop(s, stop)[i]) && before_stop(s, stop)[i] == s[i],
{
    match first_stop(s, stop) {
        Some(e) => {
            assert(is_first_stop(s, stop, e));
        },
        None => {
            assert forall|i: int| 0 <= i < s.len() implies !stops(stop, #[trigger] s[i]) by {
                if stops(stop, s[i]) {
                    lemma_first_stop_exists(s, stop, i);
                }
            }
        },
    }
}

/// A name read after `prefix` up to `delimiter` holds no `delimiter`.
proof fn lemma_name_after_clean(line: Seq<char>, prefix: Seq<char>, delimiter: char)
    ensures
        name_after(line, prefix, delimiter) matches Some(n) ==> n.len() > 0 && forall|i: int| 0 <= i < n.len() ==> #[trigger] n[i] != delimiter,
{
    match find_text(line, prefix) {
        None => {},
        Some(k) => {
            let rest = line.skip(k + prefix.len());
            let piece = before_stop(rest, Stop::Char(delimiter));
            lemma_before_stop_clean(rest, Stop::Char(delimiter));
            lemma_trim_chars(piece);
            let n = trim(piece);
            assert forall|i: int| 0 <= i < n.len() implies #[trigger] n[i] != delimiter by {
                let j = choose|j: int| 0 <= j < piece.len() && piece[j] == #[trigger] n[i];
                assert(!stops(Stop::Char(delimiter), piece[j]));
            }
        },
    }
}

/// Python names: a function's name holds no `(`, a class's name holds no
/// `(` and no `:`; neither is empty for a function.
pub proof fn law_python_names(t: Seq<char>)
    ensures
        python_line_symbol(t) matches Some((n, k)) ==> forall|i: int| 0 <= i < n.len() ==> #[trigger] n[i] != '(',
        python_line_symbol(t) matches Some((n, k)) ==> forall|i: int| 0 <= i < n.len() ==> (k == "class"@ ==> #[trigger] n[i] != ':'),
{
    lemma_name_after_clean(t, "def "@, '(');
    lemma_name_after_clean(t, "class "@, ':');
    reveal_strlit("function");
    reveal_strlit("class");
    assert("function"@.len() != "class"@.len());
    if !starts_with(t, "def "@) && starts_with(t, "class "@) {
        match name_after(t, "class "@, ':') {
            Some(m) => {
                let piece = before_stop(m, Stop::Char('('));
                lemma_before_stop_clean(m, Stop::Char('('));
                lemma_trim_chars(piece);
                let n = trim(piece);
                assert forall|i: int| 0 <= i < n.len() implies #[trigger] n[i] != '(' && n[i] != ':' by {
                    let j = choose|j: int| 0 <= j < piece.len() && piece[j] == #[trigger] n[i];
                    assert(piece[j] == m[j]);
                }
            },
            None => {},
        }
    }
}

/// JavaScript names: a `function` name holds no `(`; a class's name holds
/// no `{` and no space.
pub proof fn law_javascript_names(t: Seq<char>)
    ensures
        starts_with(t, "function "@) ==> (javascript_line_symbol(t) matches Some((n, k)) ==> forall|i: int| 0 <= i < n.len() ==> #[trigger] n[i] != '('),
        !starts_with(t, "function "@) && starts_with(t, "class "@) ==> (javascript_line_symbol(t) matches Some((n, k))
            ==> forall|i: int| 0 <= i < n.len() ==> #[trigger] n[i] != '{' && n[i] != ' '),
{
    lemma_name_after_clean(t, "function "@, '(');
    lemma_name_after_clean(t, "class "@, '{');
    if !starts_with(t, "function "@) && starts_with(t, "class "@) {
        match name_after(t, "class "@, '{') {
            Some(m) => {
                let piece = before_stop(m, Stop::ClassName);
                lemma_before_stop_clean(m, Stop::ClassName);
                lemma_trim_chars(piece);
                let n = trim(piece);
                assert forall|i: int| 0 <= i < n.len() implies #[trigger] n[i] != '{' && n[i] != ' ' by {
                    let j = choose|j: int| 0 <= j < piece.len() && piece[j] == #[trigger] n[i];
                    assert(piece[j] == m[j]);
                    assert(!stops(Stop::ClassName, piece[j]));
                }
            },
            None => {},
        }
    }
}

} // verus!
