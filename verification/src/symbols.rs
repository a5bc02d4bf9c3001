//! Pattern-based symbol extraction: definitions of functions, structs,
//! enums, traits and classes found line by line in Rust, Python and
//! JavaScript sources.
use vstd::prelude::*;

use crate::text::{
    begins_with, chars_of, contains_in, contains_text, find_in, find_text,
    is_white_space, line_ranges, lines, ranges_in, ranges_text, same_text, starts_with,
    string_of, trim, trim_bounds, white_space,
};

verus! {

/// A definition found in a source file.
#[derive(Debug)]
pub struct Symbol {
    pub name: String,
    pub kind: String,
    pub path: String,
    /// The 1-based number of the line that holds the definition.
    pub line: usize,
}

/// A symbol as plain values: name, kind, path and line number.
pub type SymbolModel = (Seq<char>, Seq<char>, Seq<char>, int);

impl View for Symbol {
    type V = SymbolModel;

    open spec fn view(&self) -> SymbolModel {
        (self.name@, self.kind@, self.path@, self.line as int)
    }
}

impl Clone for Symbol {
    fn clone(&self) -> (r: Self)
        ensures
            r == *self,
    {
        Symbol {
            name: self.name.clone(),
            kind: self.kind.clone(),
            path: self.path.clone(),
            line: self.line,
        }
    }
}

/// The plain values of a sequence of symbols.
pub open spec fn models(v: Seq<Symbol>) -> Seq<SymbolModel> {
    v.map_values(|s: Symbol| s@)
}

/// The characters that end a name in the declarations read here.
pub enum Stop {
    /// Exactly this character.
    Char(char),
    /// What ends a Rust struct name: `<`, `{`, `;`, `(` or white space.
    StructName,
    /// What ends a Rust enum name: `<`, `{`, `;` or white space.
    EnumName,
    /// What ends a Rust trait name: `<`, `{`, `:` or white space.
    TraitName,
    /// What ends a JavaScript class name: `{` or a space.
    ClassName,
}

/// Whether `c` ends a name under `stop`.
pub open spec fn stops(stop: Stop, c: char) -> bool {
    match stop {
        Stop::Char(d) => c == d,
        Stop::StructName => c == '<' || c == '{' || c == ';' || c == '(' || is_white_space(c),
        Stop::EnumName => c == '<' || c == '{' || c == ';' || is_white_space(c),
        Stop::TraitName => c == '<' || c == '{' || c == ':' || is_white_space(c),
        Stop::ClassName => c == '{' || c == ' ',
    }
}

fn stops_at(stop: &Stop, c: char) -> (r: bool)
    ensures
        r == stops(*stop, c),
{
    match stop {
        Stop::Char(d) => c == *d,
        Stop::StructName => c == '<' || c == '{' || c == ';' || c == '(' || white_space(c),
        Stop::EnumName => c == '<' || c == '{' || c == ';' || white_space(c),
        Stop::TraitName => c == '<' || c == '{' || c == ':' || white_space(c),
        Stop::ClassName => c == '{' || c == ' ',
    }
}

/// `i` is the position of the first character of `s` that ends a name.
pub open spec fn is_first_stop(s: Seq<char>, stop: Stop, i: int) -> bool {
    &&& 0 <= i < s.len()
    &&& stops(stop, s[i])
    &&& forall|j: int| 0 <= j < i ==> !stops(stop, #[trigger] s[j])
}

/// The position of the first character of `s` that ends a name, if any.
pub open spec fn first_stop(s: Seq<char>, stop: Stop) -> Option<int> {
    if exists|i: int| is_first_stop(s, stop, i) {
        Some(choose|i: int| is_first_stop(s, stop, i))
    } else {
        None
    }
}

/// The text of `s` before its first stop character, or all of `s`
/// (the first piece that `str::split` yields).
pub open spec fn before_stop(s: Seq<char>, stop: Stop) -> Seq<char> {
    match first_stop(s, stop) {
        Some(e) => s.take(e),
        None => s,
    }
}

fn find_stop(s: &[char], stop: &Stop) -> (r: Option<usize>)
    ensures
        r matches Some(i) ==> first_stop(s@, *stop) == Some(i as int) && is_first_stop(
            s@,
            *stop,
            i as int,
        ),
        r is None ==> first_stop(s@, *stop) is None,
{
    let mut i: usize = 0;
    while i < s.len()
        invariant
            i <= s@.len(),
            forall|j: int| 0 <= j < i ==> !stops(*stop, #[trigger] s@[j]),
        decreases s@.len() - i,
    {
        if stops_at(stop, s[i]) {
            proof {
                let k = choose|k: int| is_first_stop(s@, *stop, k);
                assert(is_first_stop(s@, *stop, i as int));
                assert(is_first_stop(s@, *stop, k));
                if k < i {
                    assert(!stops(*stop, s@[k]));
                }
                if i < k {
                    assert(!stops(*stop, s@[i as int]));
                }
            }
            return Some(i);
        }
        i = i + 1;
    }
    None
}

/// After the first `marker` in `t`, the text up to the first character
/// that ends a name, trimmed; `None` when the marker is missing or no such
/// character follows it.
pub open spec fn name_after_marker(t: Seq<char>, marker: Seq<char>, stop: Stop) -> Option<
    Seq<char>,
> {
    match find_text(t, marker) {
        None => None,
        Some(i) => {
            let rest = t.skip(i + marker.len());
            match first_stop(rest, stop) {
                Some(e) => Some(trim(rest.take(e))),
                None => None,
            }
        },
    }
}

/// The trimmed text `s[lo..hi]`, as a string.
fn trimmed_string(s: &[char], lo: usize, hi: usize) -> (r: String)
    requires
        lo <= hi <= s@.len(),
    ensures
        r@ == trim(s@.subrange(lo as int, hi as int)),
{
    let part = &s[lo..hi];
    let (a, b) = trim_bounds(part);
    string_of(&part[a..b])
}

fn marker_name(t: &[char], marker: &[char], stop: &Stop) -> (r: Option<String>)
    ensures
        r.deep_view() == name_after_marker(t@, marker@, *stop),
{
    match find_in(t, marker) {
        None => None,
        Some(i) => {
            let tl = t.len();
            assert(i + marker@.len() <= tl);
            let start = i + marker.len();
            let rest = &t[start..tl];
            assert(rest@ == t@.skip(start as int));
            match find_stop(rest, stop) {
                Some(e) => Some(trimmed_string(rest, 0, e)),
                None => None,
            }
        },
    }
}

/// The name a Rust function declaration line gives: the line starts with
/// `fn `, `pub fn `, `async fn ` or `pub async fn `, and the name is what
/// follows the first `fn ` up to the first `(`, trimmed; a line without
/// `(` after the name gives none.
pub open spec fn rust_function_name(t: Seq<char>) -> Option<Seq<char>> {
    if starts_with(t, "fn "@) || starts_with(t, "pub fn "@) || starts_with(t, "async fn "@)
        || starts_with(t, "pub async fn "@) {
        name_after_marker(t, "fn "@, Stop::Char('('))
    } else {
        None
    }
}

/// The name a Rust struct declaration line gives.
pub open spec fn rust_struct_name(t: Seq<char>) -> Option<Seq<char>> {
    if starts_with(t, "struct "@) || starts_with(t, "pub struct "@) {
        name_after_marker(t, "struct "@, Stop::StructName)
    } else {
        None
    }
}

/// The name a Rust enum declaration line gives.
pub open spec fn rust_enum_name(t: Seq<char>) -> Option<Seq<char>> {
    if starts_with(t, "enum "@) || starts_with(t, "pub enum "@) {
        name_after_marker(t, "enum "@, Stop::EnumName)
    } else {
        None
    }
}

/// The name a Rust trait declaration line gives.
pub open spec fn rust_trait_name(t: Seq<char>) -> Option<Seq<char>> {
    if starts_with(t, "trait "@) || starts_with(t, "pub trait "@) {
        name_after_marker(t, "trait "@, Stop::TraitName)
    } else {
        None
    }
}

/// The name a JavaScript `const name = ...` line gives when its value is an
/// arrow function or a function expression: the text after `const ` up to
/// the first ` =`, trimmed.
pub open spec fn js_const_function_name(t: Seq<char>) -> Option<Seq<char>> {
    if starts_with(t, "const "@) && contains_text(t, " = "@) && (contains_text(t, "=>"@)
        || contains_text(t, "function"@)) {
        let rest = t.skip("const "@.len() as int);
        match find_text(rest, " ="@) {
            Some(e) => Some(trim(rest.take(e))),
            None => None,
        }
    } else {
        None
    }
}

/// The name after the first `prefix` in `line`, up to `delimiter` (or the
/// end of the line), trimmed; `None` when `prefix` is missing or the name
/// is empty.
pub open spec fn name_after(line: Seq<char>, prefix: Seq<char>, delimiter: char) -> Option<
    Seq<char>,
> {
    match find_text(line, prefix) {
        None => None,
        Some(i) => {
            let name = trim(before_stop(line.skip(i + prefix.len()), Stop::Char(delimiter)));
            if name.len() == 0 {
                None
            } else {
                Some(name)
            }
        },
    }
}

fn parse_rust_function(line: &[char]) -> (r: Option<String>)
    ensures
        r.deep_view() == rust_function_name(line@),
{
    let kw = chars_of("fn ");
    if begins_with(line, kw.as_slice()) || begins_with(line, chars_of("pub fn ").as_slice())
        || begins_with(line, chars_of("async fn ").as_slice()) || begins_with(
        line,
        chars_of("pub async fn ").as_slice(),
    ) {
        marker_name(line, kw.as_slice(), &Stop::Char('('))
    } else {
        None
    }
}

fn parse_rust_struct(line: &[char]) -> (r: Option<String>)
    ensures
        r.deep_view() == rust_struct_name(line@),
{
    let kw = chars_of("struct ");
    if begins_with(line, kw.as_slice()) || begins_with(line, chars_of("pub struct ").as_slice()) {
        marker_name(line, kw.as_slice(), &Stop::StructName)
    } else {
        None
    }
}

fn parse_rust_enum(line: &[char]) -> (r: Option<String>)
    ensures
        r.deep_view() == rust_enum_name(line@),
{
    let kw = chars_of("enum ");
    if begins_with(line, kw.as_slice()) || begins_with(line, chars_of("pub enum ").as_slice()) {
        marker_name(line, kw.as_slice(), &Stop::EnumName)
    } else {
        None
    }
}

fn parse_rust_trait(line: &[char]) -> (r: Option<String>)
    ensures
        r.deep_view() == rust_trait_name(line@),
{
    let kw = chars_of("trait ");
    if begins_with(line, kw.as_slice()) || begins_with(line, chars_of("pub trait ").as_slice()) {
        marker_name(line, kw.as_slice(), &Stop::TraitName)
    } else {
        None
    }
}

fn parse_js_const_function(line: &[char]) -> (r: Option<String>)
    ensures
        r.deep_view() == js_const_function_name(line@),
{
    let kw = chars_of("const ");
    if begins_with(line, kw.as_slice()) && contains_in(line, chars_of(" = ").as_slice()) && (
    contains_in(line, chars_of("=>").as_slice()) || contains_in(
        line,
        chars_of("function").as_slice(),
    )) {
        let start = kw.len();
        let rest = &line[start..line.len()];
        assert(rest@ == line@.skip("const "@.len() as int));
        match find_in(rest, chars_of(" =").as_slice()) {
            Some(e) => {
                let name = trimmed_string(rest, 0, e);
                assert(rest@.subrange(0, e as int) == rest@.take(e as int));
                Some(name)
            },
            None => None,
        }
    } else {
        None
    }
}

/// The text of `s` before its first stop character, or all of `s`, trimmed.
fn first_piece(s: &[char], stop: &Stop) -> (r: String)
    ensures
        r@ == trim(before_stop(s@, *stop)),
{
    match find_stop(s, stop) {
        Some(e) => {
            assert(s@.subrange(0, e as int) == s@.take(e as int));
            trimmed_string(s, 0, e)
        },
        None => {
            assert(s@.subrange(0, s@.len() as int) == s@);
            trimmed_string(s, 0, s.len())
        },
    }
}

fn extract_name_after(line: &[char], prefix: &[char], delimiter: char) -> (r: Option<String>)
    ensures
        r.deep_view() == name_after(line@, prefix@, delimiter),
{
    match find_in(line, prefix) {
        None => None,
        Some(i) => {
            let ll = line.len();
            assert(i + prefix@.len() <= ll);
            let start = i + prefix.len();
            let rest = &line[start..ll];
            assert(rest@ == line@.skip(start as int));
            let name = first_piece(rest, &Stop::Char(delimiter));
            if name.as_str().is_empty() {
                None
            } else {
                Some(name)
            }
        },
    }
}


/// The languages whose definitions are recognised.
#[derive(Clone, Copy, PartialEq, Eq, Debug)]
pub enum Lang {
    Rust,
    Python,
    JavaScript,
}

/// The language a language name (`"rust"`, `"python"`, `"javascript"`)
/// stands for.
pub open spec fn lang_named(language: Seq<char>) -> Option<Lang> {
    if language == "rust"@ {
        Some(Lang::Rust)
    } else if language == "python"@ {
        Some(Lang::Python)
    } else if language == "javascript"@ {
        Some(Lang::JavaScript)
    } else {
        None
    }
}

/// The name and kind a trimmed Rust line defines: a function, else a
/// struct, else an enum, else a trait.
pub open spec fn rust_line_symbol(t: Seq<char>) -> Option<(Seq<char>, Seq<char>)> {
    match rust_function_name(t) {
        Some(n) => Some((n, "function"@)),
        None => match rust_struct_name(t) {
            Some(n) => Some((n, "struct"@)),
            None => match rust_enum_name(t) {
                Some(n) => Some((n, "enum"@)),
                None => match rust_trait_name(t) {
                    Some(n) => Some((n, "trait"@)),
                    None => None,
                },
            },
        },
    }
}

/// The name and kind a trimmed Python line defines: `def name(` gives a
/// function, `class name:` a class (its name cut at the first `(`).
pub open spec fn python_line_symbol(t: Seq<char>) -> Option<(Seq<char>, Seq<char>)> {
    if starts_with(t, "def "@) {
        match name_after(t, "def "@, '(') {
            Some(n) => Some((n, "function"@)),
            None => None,
        }
    } else if starts_with(t, "class "@) {
        match name_after(t, "class "@, ':') {
            Some(n) => Some((trim(before_stop(n, Stop::Char('('))), "class"@)),
            None => None,
        }
    } else {
        None
    }
}

/// The name and kind a trimmed JavaScript line defines: `function name(`
/// and `const name = ...` give functions, `class name {` a class (its name
/// cut at the first `{` or space).
pub open spec fn javascript_line_symbol(t: Seq<char>) -> Option<(Seq<char>, Seq<char>)> {
    if starts_with(t, "function "@) {
        match name_after(t, "function "@, '(') {
            Some(n) => Some((n, "function"@)),
            None => None,
        }
    } else if starts_with(t, "class "@) {
        match name_after(t, "class "@, '{') {
            Some(n) => Some((trim(before_stop(n, Stop::ClassName)), "class"@)),
            None => None,
        }
    } else {
        match js_const_function_name(t) {
            Some(n) => Some((n, "function"@)),
            None => None,
        }
    }
}

/// The name and kind a source line defines in `lang` (read trimmed).
pub open spec fn line_symbol(lang: Lang, line: Seq<char>) -> Option<(Seq<char>, Seq<char>)> {
    match lang {
        Lang::Rust => rust_line_symbol(trim(line)),
        Lang::Python => python_line_symbol(trim(line)),
        Lang::JavaScript => javascript_line_symbol(trim(line)),
    }
}

/// The symbols defined by the first `n` lines of `ls`, in line order, each
/// with `path` and its 1-based line number.
pub open spec fn symbols_of_lines(lang: Lang, ls: Seq<Seq<char>>, path: Seq<char>, n: nat) -> Seq<
    SymbolModel,
>
    decreases n,
{
    if n == 0 {
        Seq::empty()
    } else {
        let before = symbols_of_lines(lang, ls, path, (n - 1) as nat);
        match line_symbol(lang, ls[n - 1]) {
            Some((name, kind)) => before.push((name, kind, path, n as int)),
            None => before,
        }
    }
}

/// The symbols a source text defines in `lang`.
pub open spec fn symbols_in(lang: Lang, content: Seq<char>, path: Seq<char>) -> Seq<SymbolModel> {
    symbols_of_lines(lang, lines(content), path, lines(content).len())
}

/// What [`extract_symbols`] gives: the symbols the text defines when the
/// language is one of `"rust"`, `"python"`, `"javascript"`, and none for
/// any other language.
pub open spec fn spec_extract_symbols(content: Seq<char>, language: Seq<char>, path: Seq<char>) -> Seq<
    SymbolModel,
> {
    match lang_named(language) {
        Some(lang) => symbols_in(lang, content, path),
        None => Seq::empty(),
    }
}

fn rust_line(t: &[char]) -> (r: Option<(String, String)>)
    ensures
        r.deep_view() == rust_line_symbol(t@),
{
    if let Some(fn_name) = parse_rust_function(t) {
        Some((fn_name, "function".to_owned()))
    } else if let Some(struct_name) = parse_rust_struct(t) {
        Some((struct_name, "struct".to_owned()))
    } else if let Some(enum_name) = parse_rust_enum(t) {
        Some((enum_name, "enum".to_owned()))
    } else if let Some(trait_name) = parse_rust_trait(t) {
        Some((trait_name, "trait".to_owned()))
    } else {
        None
    }
}

fn python_line(t: &[char]) -> (r: Option<(String, String)>)
    ensures
        r.deep_view() == python_line_symbol(t@),
{
    if begins_with(t, chars_of("def ").as_slice()) {
        match extract_name_after(t, chars_of("def ").as_slice(), '(') {
            Some(name) => Some((name, "function".to_owned())),
            None => None,
        }
    } else if begins_with(t, chars_of("class ").as_slice()) {
        match extract_name_after(t, chars_of("class ").as_slice(), ':') {
            Some(name) => {
                let cs = chars_of(name.as_str());
                Some((first_piece(cs.as_slice(), &Stop::Char('(')), "class".to_owned()))
            },
            None => None,
        }
    } else {
        None
    }
}

fn javascript_line(t: &[char]) -> (r: Option<(String, String)>)
    ensures
        r.deep_view() == javascript_line_symbol(t@),
{
    if begins_with(t, chars_of("function ").as_slice()) {
        match extract_name_after(t, chars_of("function ").as_slice(), '(') {
            Some(name) => Some((name, "function".to_owned())),
            None => None,
        }
    } else if begins_with(t, chars_of("class ").as_slice()) {
        match extract_name_after(t, chars_of("class ").as_slice(), '{') {
            Some(name) => {
                let cs = chars_of(name.as_str());
                Some((first_piece(cs.as_slice(), &Stop::ClassName), "class".to_owned()))
            },
            None => None,
        }
    } else if let Some(const_name) = parse_js_const_function(t) {
        Some((const_name, "function".to_owned()))
    } else {
        None
    }
}

/// The symbols `content` defines in `lang`, line by line.
fn collect_symbols(content: &[char], path: &str, lang: Lang) -> (r: Vec<Symbol>)
    ensures
        models(r@) == symbols_in(lang, content@, path@),
{
    let ranges = line_ranges(content);
    let ghost ls = lines(content@);
    let mut symbols: Vec<Symbol> = Vec::new();
    let mut k: usize = 0;
    while k < ranges.len()
        invariant
            ranges_in(content@, ranges@),
            ranges_text(content@, ranges@) == ls,
            ls == lines(content@),
            k <= ranges@.len(),
            models(symbols@) == symbols_of_lines(lang, ls, path@, k as nat),
        decreases ranges@.len() - k,
    {
        let (lo, hi) = ranges[k];
        assert(ranges@[k as int].0 <= ranges@[k as int].1 <= content@.len());
        let line = &content[lo..hi];
        assert(line@ == ls[k as int]);
        let (a, b) = trim_bounds(line);
        let trimmed = &line[a..b];
        let found = match lang {
            Lang::Rust => rust_line(trimmed),
            Lang::Python => python_line(trimmed),
            Lang::JavaScript => javascript_line(trimmed),
        };
        let ghost before = symbols@;
        match found {
            Some((name, kind)) => {
                symbols.push(Symbol { name, kind, path: path.to_owned(), line: k + 1 });
                assert(models(symbols@) =~= models(before).push(symbols@.last()@));
            },
            None => {},
        }
        k = k + 1;
    }
    symbols
}

/// The definitions in a Rust source text.
fn extract_rust_symbols(content: &[char], path: &str) -> (r: Vec<Symbol>)
    ensures
        models(r@) == symbols_in(Lang::Rust, content@, path@),
{
    collect_symbols(content, path, Lang::Rust)
}

/// The definitions in a Python source text.
fn extract_python_symbols(content: &[char], path: &str) -> (r: Vec<Symbol>)
    ensures
        models(r@) == symbols_in(Lang::Python, content@, path@),
{
    collect_symbols(content, path, Lang::Python)
}

/// The definitions in a JavaScript source text.
fn extract_javascript_symbols(content: &[char], path: &str) -> (r: Vec<Symbol>)
    ensures
        models(r@) == symbols_in(Lang::JavaScript, content@, path@),
{
    collect_symbols(content, path, Lang::JavaScript)
}

/// The definitions that `content`, a source text in `language`, holds:
/// each with its name, its kind, `file_path`, and its 1-based line number,
/// in line order. Languages other than `"rust"`, `"python"` and
/// `"javascript"` give none.
pub fn extract_symbols(content: &str, language: &str, file_path: &str) -> (r: Vec<Symbol>)
    ensures
        models(r@) == spec_extract_symbols(content@, language@, file_path@),
{
    let chars = chars_of(content);
    if same_text(language, "rust") {
        extract_rust_symbols(chars.as_slice(), file_path)
    } else if same_text(language, "python") {
        extract_python_symbols(chars.as_slice(), file_path)
    } else if same_text(language, "javascript") {
        extract_javascript_symbols(chars.as_slice(), file_path)
    } else {
        Vec::new()
    }
}

} // verus!
