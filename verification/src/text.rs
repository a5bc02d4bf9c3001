//! Character-level text operations shared by the symbol extractors and the
//! snippet builders: white space, trimming, searching and line splitting,
//! each stated over the characters of the text (`Seq<char>`).
use vstd::prelude::*;

verus! {

/// Characters with Unicode's `White_Space` property, which is what
/// `char::is_whitespace` tests.
pub open spec fn is_white_space(c: char) -> bool {
    ||| c == ' '
    ||| ('\u{9}' <= c && c <= '\u{d}')
    ||| c == '\u{85}'
    ||| c == '\u{a0}'
    ||| c == '\u{1680}'
    ||| ('\u{2000}' <= c && c <= '\u{200a}')
    ||| c == '\u{2028}'
    ||| c == '\u{2029}'
    ||| c == '\u{202f}'
    ||| c == '\u{205f}'
    ||| c == '\u{3000}'
}

/// Executable test for [`is_white_space`].
pub fn white_space(c: char) -> (r: bool)
    ensures
        r == is_white_space(c),
{
    c == ' ' || ('\u{9}' <= c && c <= '\u{d}') || c == '\u{85}' || c == '\u{a0}' || c
        == '\u{1680}' || ('\u{2000}' <= c && c <= '\u{200a}') || c == '\u{2028}' || c
        == '\u{2029}' || c == '\u{202f}' || c == '\u{205f}' || c == '\u{3000}'
}

/// `s` without its leading white space.
pub open spec fn trim_start(s: Seq<char>) -> Seq<char>
    decreases s.len(),
{
    if s.len() > 0 && is_white_space(s[0]) {
        trim_start(s.drop_first())
    } else {
        s
    }
}

/// `s` without its trailing white space.
pub open spec fn trim_end(s: Seq<char>) -> Seq<char>
    decreases s.len(),
{
    if s.len() > 0 && is_white_space(s.last()) {
        trim_end(s.drop_last())
    } else {
        s
    }
}

/// `s` without leading and trailing white space, as `str::trim` gives it.
pub open spec fn trim(s: Seq<char>) -> Seq<char> {
    trim_end(trim_start(s))
}

proof fn lemma_trim_start(s: Seq<char>, k: int)
    requires
        0 <= k <= s.len(),
        forall|j: int| 0 <= j < k ==> is_white_space(#[trigger] s[j]),
        k == s.len() || !is_white_space(s[k]),
    ensures
        trim_start(s) == s.skip(k),
    decreases k,
{
    if k == 0 {
        assert(s.skip(0) =~= s);
    } else {
        assert(is_white_space(s[0]));
        let t = s.drop_first();
        assert forall|j: int| 0 <= j < k - 1 implies is_white_space(#[trigger] t[j]) by {
            assert(is_white_space(s[j + 1]));
        }
        lemma_trim_start(t, k - 1);
        assert(t.skip(k - 1) =~= s.skip(k));
    }
}

proof fn lemma_trim_end(s: Seq<char>, m: int)
    requires
        0 <= m <= s.len(),
        forall|j: int| m <= j < s.len() ==> is_white_space(#[trigger] s[j]),
        m == 0 || !is_white_space(s[m - 1]),
    ensures
        trim_end(s) == s.take(m),
    decreases s.len() - m,
{
    if m == s.len() {
        assert(s.take(m) =~= s);
    } else {
        assert(is_white_space(s[s.len() - 1]));
        let t = s.drop_last();
        assert forall|j: int| m <= j < t.len() implies is_white_space(#[trigger] t[j]) by {
            assert(is_white_space(s[j]));
        }
        lemma_trim_end(t, m);
        assert(t.take(m) =~= s.take(m));
    }
}

/// The bounds `(a, b)` of the trimmed part of `s`: `s[a..b]` is `trim(s)`.
pub fn trim_bounds(s: &[char]) -> (r: (usize, usize))
    ensures
        r.0 <= r.1 <= s@.len(),
        s@.subrange(r.0 as int, r.1 as int) == trim(s@),
{
    let mut a: usize = 0;
    while a < s.len() && white_space(s[a])
        invariant
            a <= s@.len(),
            forall|j: int| 0 <= j < a ==> is_white_space(#[trigger] s@[j]),
        decreases s@.len() - a,
    {
        a = a + 1;
    }
    proof {
        lemma_trim_start(s@, a as int);
    }
    let mut b: usize = s.len();
    while b > a && white_space(s[b - 1])
        invariant
            a <= b <= s@.len(),
            forall|j: int| b <= j < s@.len() ==> is_white_space(#[trigger] s@[j]),
        decreases b,
    {
        b = b - 1;
    }
    proof {
        let t = s@.skip(a as int);
        let m = b - a;
        assert forall|j: int| m <= j < t.len() implies is_white_space(#[trigger] t[j]) by {
            assert(is_white_space(s@[j + a]));
        }
        if m > 0 {
            assert(t[m - 1] == s@[b - 1]);
        }
        lemma_trim_end(t, m as int);
        assert(t.take(m as int) =~= s@.subrange(a as int, b as int));
    }
    (a, b)
}


/// `needle` occurs in `hay` at position `i`.
pub open spec fn occurs_at(hay: Seq<char>, needle: Seq<char>, i: int) -> bool {
    0 <= i && i + needle.len() <= hay.len() && hay.subrange(i, i + needle.len()) == needle
}

/// `needle` occurs somewhere in `hay` (`str::contains`).
pub open spec fn contains_text(hay: Seq<char>, needle: Seq<char>) -> bool {
    exists|i: int| occurs_at(hay, needle, i)
}

/// `i` is the first position at which `needle` occurs in `hay`.
pub open spec fn is_first_occurrence(hay: Seq<char>, needle: Seq<char>, i: int) -> bool {
    &&& occurs_at(hay, needle, i)
    &&& forall|j: int| 0 <= j < i ==> !occurs_at(hay, needle, j)
}

/// The first position of `needle` in `hay`, as `str::find` gives it
/// (counted in characters).
pub open spec fn find_text(hay: Seq<char>, needle: Seq<char>) -> Option<int> {
    if exists|i: int| is_first_occurrence(hay, needle, i) {
        Some(choose|i: int| is_first_occurrence(hay, needle, i))
    } else {
        None
    }
}

/// `s` begins with `prefix` (`str::starts_with`).
pub open spec fn starts_with(s: Seq<char>, prefix: Seq<char>) -> bool {
    prefix.len() <= s.len() && s.take(prefix.len() as int) == prefix
}

pub proof fn lemma_find_text_some(hay: Seq<char>, needle: Seq<char>, i: int)
    requires
        is_first_occurrence(hay, needle, i),
    ensures
        find_text(hay, needle) == Some(i),
        contains_text(hay, needle),
{
    let k = choose|k: int| is_first_occurrence(hay, needle, k);
    assert(is_first_occurrence(hay, needle, k));
    if k < i {
        assert(!occurs_at(hay, needle, k));
    }
    if i < k {
        assert(!occurs_at(hay, needle, i));
    }
}

/// Whether `needle` occurs in `hay` at position `i`.
fn occurs_here(hay: &[char], needle: &[char], i: usize) -> (r: bool)
    requires
        i <= hay@.len(),
    ensures
        r == occurs_at(hay@, needle@, i as int),
{
    if needle.len() > hay.len() - i {
        return false;
    }
    let hl = hay.len();
    let mut k: usize = 0;
    while k < needle.len()
        invariant
            hl == hay@.len(),
            i + needle@.len() <= hay@.len(),
            k <= needle@.len(),
            forall|j: int| 0 <= j < k ==> hay@[i + j] == needle@[j],
        decreases needle@.len() - k,
    {
        if hay[i + k] != needle[k] {
            assert(hay@.subrange(i as int, i + needle@.len())[k as int] != needle@[k as int]);
            return false;
        }
        k = k + 1;
    }
    assert(hay@.subrange(i as int, i + needle@.len()) =~= needle@);
    true
}

/// The first position of `needle` in `hay`.
pub fn find_in(hay: &[char], needle: &[char]) -> (r: Option<usize>)
    ensures
        r matches Some(i) ==> find_text(hay@, needle@) == Some(i as int) && is_first_occurrence(
            hay@,
            needle@,
            i as int,
        ),
        r is None ==> find_text(hay@, needle@) is None && !contains_text(hay@, needle@),
{
    if needle.len() > hay.len() {
        assert forall|i: int| !#[trigger] occurs_at(hay@, needle@, i) by {}
        return None;
    }
    let last = hay.len() - needle.len();
    let mut i: usize = 0;
    loop
        invariant
            i <= last,
            last + needle@.len() == hay@.len(),
            forall|j: int| 0 <= j < i ==> !#[trigger] occurs_at(hay@, needle@, j),
        ensures
            forall|j: int| 0 <= j <= last ==> !#[trigger] occurs_at(hay@, needle@, j),
        decreases last - i,
    {
        if occurs_here(hay, needle, i) {
            proof {
                lemma_find_text_some(hay@, needle@, i as int);
            }
            return Some(i);
        }
        if i == last {
            break;
        }
        i = i + 1;
    }
    assert forall|j: int| !#[trigger] occurs_at(hay@, needle@, j) by {
        if 0 <= j <= last {
        }
    }
    None
}

/// Whether `needle` occurs in `hay`.
pub fn contains_in(hay: &[char], needle: &[char]) -> (r: bool)
    ensures
        r == contains_text(hay@, needle@),
{
    match find_in(hay, needle) {
        Some(i) => {
            proof {
                lemma_find_text_some(hay@, needle@, i as int);
                assert(is_first_occurrence(hay@, needle@, i as int));
            }
            true
        },
        None => false,
    }
}

/// Whether `s` begins with `prefix`.
pub fn begins_with(s: &[char], prefix: &[char]) -> (r: bool)
    ensures
        r == starts_with(s@, prefix@),
{
    let r = occurs_here(s, prefix, 0);
    proof {
        if r {
            assert(s@.take(prefix@.len() as int) =~= s@.subrange(0, prefix@.len() as int));
        } else if prefix@.len() <= s@.len() {
            assert(s@.take(prefix@.len() as int) =~= s@.subrange(0, prefix@.len() as int));
        }
    }
    r
}

/// The characters of `s`, in order.
pub fn chars_of(s: &str) -> (r: Vec<char>)
    ensures
        r@ == s@,
{
    let mut r: Vec<char> = Vec::new();
    for c in it: s.chars()
        invariant
            r@ == it.seq().take(it.index()),
    {
        r.push(c);
    }
    r
}


/// A line without the carriage return that ends it, if any.
pub open spec fn strip_cr(line: Seq<char>) -> Seq<char> {
    if line.len() > 0 && line.last() == '\r' {
        line.drop_last()
    } else {
        line
    }
}

/// The lines of `s`, as `str::lines` yields them: split after each
/// `'\n'`, with the `'\n'` (or `"\r\n"`) removed; the part after the last
/// `'\n'` is a line only if it is not empty, and keeps a final `'\r'`.
pub open spec fn lines(s: Seq<char>) -> Seq<Seq<char>>
    decreases s.len(),
{
    if s.len() == 0 {
        Seq::empty()
    } else {
        match s.index_of_first('\n') {
            Some(i) => {
                proof {
                    s.index_of_first_ensures('\n');
                }
                seq![strip_cr(s.take(i))] + lines(s.skip(i + 1))
            },
            None => seq![s],
        }
    }
}

/// The parts of `s` that the ranges `r` span, in order.
pub open spec fn ranges_text(s: Seq<char>, r: Seq<(usize, usize)>) -> Seq<Seq<char>> {
    r.map_values(|p: (usize, usize)| s.subrange(p.0 as int, p.1 as int))
}

/// The ranges in `r` lie inside `s`.
pub open spec fn ranges_in(s: Seq<char>, r: Seq<(usize, usize)>) -> bool {
    forall|k: int| 0 <= k < r.len() ==> #[trigger] r[k].0 <= r[k].1 <= s.len()
}

proof fn lemma_lines_step(s: Seq<char>, start: int, i: int)
    requires
        0 <= start <= i < s.len(),
        s[i] == '\n',
        forall|j: int| start <= j < i ==> s[j] != '\n',
    ensures
        lines(s.skip(start)) == seq![strip_cr(s.subrange(start, i))] + lines(s.skip(i + 1)),
{
    let t = s.skip(start);
    t.index_of_first_ensures('\n');
    let m = i - start;
    assert(t[m] == '\n');
    match t.index_of_first('\n') {
        Some(k) => {
            if k < m {
                assert(t[k] == s[start + k]);
            }
            assert(k == m);
        },
        None => {
            assert(t.contains('\n'));
        },
    }
    assert(t.take(m) =~= s.subrange(start, i));
    assert(t.skip(m + 1) =~= s.skip(i + 1));
}

proof fn lemma_lines_last(s: Seq<char>, start: int)
    requires
        0 <= start < s.len(),
        forall|j: int| start <= j < s.len() ==> s[j] != '\n',
    ensures
        lines(s.skip(start)) == seq![s.subrange(start, s.len() as int)],
{
    let t = s.skip(start);
    t.index_of_first_ensures('\n');
    match t.index_of_first('\n') {
        Some(k) => {
            assert(t[k] == s[start + k]);
        },
        None => {},
    }
    assert(t =~= s.subrange(start, s.len() as int));
}

/// The ranges of the lines of `s`: the `k`-th range spans the `k`-th line.
#[verifier::spinoff_prover]
pub fn line_ranges(s: &[char]) -> (r: Vec<(usize, usize)>)
    ensures
        ranges_in(s@, r@),
        ranges_text(s@, r@) == lines(s@),
{
    let n = s.len();
    let mut r: Vec<(usize, usize)> = Vec::new();
    let mut start: usize = 0;
    let mut i: usize = 0;
    proof {
        assert(s@.skip(0) =~= s@);
    }
    while i < n
        invariant
            n == s@.len(),
            start <= i <= n,
            forall|j: int| start <= j < i ==> s@[j] != '\n',
            ranges_in(s@, r@),
            lines(s@) == ranges_text(s@, r@) + lines(s@.skip(start as int)),
        decreases n - i,
    {
        if s[i] == '\n' {
            let end = if i > start && s[i - 1] == '\r' {
                i - 1
            } else {
                i
            };
            proof {
                lemma_lines_step(s@, start as int, i as int);
                let l = s@.subrange(start as int, i as int);
                if i > start && s@[i - 1] == '\r' {
                    assert(l.drop_last() =~= s@.subrange(start as int, end as int));
                } else {
                    assert(l =~= s@.subrange(start as int, end as int));
                }
            }
            let ghost before = r@;
            r.push((start, end));
            proof {
                assert forall|k: int| 0 <= k < r@.len() implies #[trigger] r@[k].0 <= r@[k].1
                    <= s@.len() by {
                    if k < before.len() {
                        assert(r@[k] == before[k]);
                    }
                }
                assert(ranges_text(s@, r@) =~= ranges_text(s@, before) + seq![
                    s@.subrange(start as int, end as int),
                ]);
            }
            start = i + 1;
        }
        i = i + 1;
    }
    if start < n {
        proof {
            lemma_lines_last(s@, start as int);
        }
        let ghost before = r@;
        r.push((start, n));
        proof {
            assert forall|k: int| 0 <= k < r@.len() implies #[trigger] r@[k].0 <= r@[k].1
                <= s@.len() by {
                if k < before.len() {
                    assert(r@[k] == before[k]);
                }
            }
            assert(ranges_text(s@, r@) =~= ranges_text(s@, before) + seq![
                s@.subrange(start as int, n as int),
            ]);
        }
    } else {
        proof {
            assert(lines(s@.skip(start as int)) =~= Seq::<Seq<char>>::empty());
            assert(ranges_text(s@, r@) + Seq::<Seq<char>>::empty() =~= ranges_text(s@, r@));
        }
    }
    assert(ranges_in(s@, r@));
    r
}


/// Whether `a` and `b` hold the same characters.
pub fn same_chars(a: &[char], b: &[char]) -> (r: bool)
    ensures
        r == (a@ == b@),
{
    if a.len() != b.len() {
        return false;
    }
    let mut k: usize = 0;
    while k < a.len()
        invariant
            a@.len() == b@.len(),
            k <= a@.len(),
            forall|j: int| 0 <= j < k ==> a@[j] == b@[j],
        decreases a@.len() - k,
    {
        if a[k] != b[k] {
            return false;
        }
        k = k + 1;
    }
    assert(a@ =~= b@);
    true
}

/// Whether `a` and `b` are the same text.
pub fn same_text(a: &str, b: &str) -> (r: bool)
    ensures
        r == (a@ == b@),
{
    let x = chars_of(a);
    let y = chars_of(b);
    same_chars(x.as_slice(), y.as_slice())
}

/// The string made of the characters of `cs`.
///
/// Wraps `String`'s `FromIterator<char>` (`cs.iter().collect()`), which
/// appends the characters one after the other: the string holds exactly
/// `cs`, in order.
#[verifier::external_body]
pub(crate) fn string_of(cs: &[char]) -> (r: String)
    ensures
        r@ == cs@,
{
    cs.iter().collect()
}

/// What `str::to_lowercase` gives for a text: the Unicode lower-case
/// mapping, applied with the final-sigma rule, a function of the text alone.
pub uninterp spec fn lowercase_of(s: Seq<char>) -> Seq<char>;

/// Wraps `str::to_lowercase`; the result is [`lowercase_of`] the argument.
#[verifier::external_body]
pub(crate) fn to_lowercase(s: &str) -> (r: String)
    ensures
        r@ == lowercase_of(s@),
{
    s.to_lowercase()
}


/// Lines joined into one text with `'\n'` between them (`[&str]::join("\n")`).
pub open spec fn join_lines(ls: Seq<Seq<char>>) -> Seq<char>
    decreases ls.len(),
{
    if ls.len() == 0 {
        Seq::empty()
    } else if ls.len() == 1 {
        ls[0]
    } else {
        join_lines(ls.drop_last()) + "\n"@ + ls.last()
    }
}

/// The lines `from..to` of `text` (whose line ranges are `ranges`), joined
/// with `'\n'`.
pub fn join_line_ranges(text: &[char], ranges: &[(usize, usize)], from: usize, to: usize) -> (r:
    String)
    requires
        from <= to <= ranges@.len(),
        ranges_in(text@, ranges@),
    ensures
        r@ == join_lines(ranges_text(text@, ranges@).subrange(from as int, to as int)),
{
    let ghost all = ranges_text(text@, ranges@);
    let mut r = String::new();
    let mut k: usize = from;
    proof {
        assert(all.subrange(from as int, from as int) =~= Seq::<Seq<char>>::empty());
    }
    while k < to
        invariant
            from <= k <= to <= ranges@.len(),
            ranges_in(text@, ranges@),
            all == ranges_text(text@, ranges@),
            r@ == join_lines(all.subrange(from as int, k as int)),
        decreases to - k,
    {
        let ghost before = r@;
        if k > from {
            r.append("\n");
        }
        let (lo, hi) = ranges[k];
        assert(ranges@[k as int].0 <= ranges@[k as int].1 <= text@.len());
        let line = string_of(&text[lo..hi]);
        r.append(line.as_str());
        proof {
            let s = all.subrange(from as int, k + 1);
            assert(s.drop_last() =~= all.subrange(from as int, k as int));
            assert(s.last() == all[k as int]);
            if k == from {
                assert(s.len() == 1);
                assert(before =~= Seq::<char>::empty());
                assert(r@ =~= s[0]);
            }
        }
        k = k + 1;
    }
    r
}

/// A line matches a query when the lower-cased query occurs in the
/// lower-cased line.
pub open spec fn line_matches(line: Seq<char>, query: Seq<char>) -> bool {
    contains_text(lowercase_of(line), lowercase_of(query))
}

/// `i` is the first line of `ls` that matches `query`.
pub open spec fn is_first_match(ls: Seq<Seq<char>>, query: Seq<char>, i: int) -> bool {
    &&& 0 <= i < ls.len()
    &&& line_matches(ls[i], query)
    &&& forall|j: int| 0 <= j < i ==> !line_matches(#[trigger] ls[j], query)
}

/// The first line of `ls` that matches `query`, if any.
pub open spec fn first_match(ls: Seq<Seq<char>>, query: Seq<char>) -> Option<int> {
    if exists|i: int| is_first_match(ls, query, i) {
        Some(choose|i: int| is_first_match(ls, query, i))
    } else {
        None
    }
}

/// The first line of `text` (whose line ranges are `ranges`) that matches
/// `query`.
pub fn first_matching_line(text: &[char], ranges: &[(usize, usize)], query: &str) -> (r: Option<
    usize,
>)
    requires
        ranges_in(text@, ranges@),
    ensures
        r matches Some(i) ==> i < ranges@.len() && first_match(
            ranges_text(text@, ranges@),
            query@,
        ) == Some(i as int),
        r is None ==> first_match(ranges_text(text@, ranges@), query@) is None,
{
    let ghost ls = ranges_text(text@, ranges@);
    let needle_string = to_lowercase(query);
    let needle = chars_of(needle_string.as_str());
    let mut k: usize = 0;
    while k < ranges.len()
        invariant
            k <= ranges@.len(),
            ranges_in(text@, ranges@),
            ls == ranges_text(text@, ranges@),
            needle@ == lowercase_of(query@),
            forall|j: int| 0 <= j < k ==> !line_matches(#[trigger] ls[j], query@),
        decreases ranges@.len() - k,
    {
        let (lo, hi) = ranges[k];
        assert(ranges@[k as int].0 <= ranges@[k as int].1 <= text@.len());
        let line = string_of(&text[lo..hi]);
        let lower = to_lowercase(line.as_str());
        let lower_chars = chars_of(lower.as_str());
        if contains_in(lower_chars.as_slice(), needle.as_slice()) {
            proof {
                assert(line_matches(ls[k as int], query@));
                let c = choose|c: int| is_first_match(ls, query@, c);
                assert(is_first_match(ls, query@, k as int));
                if c < k {
                    assert(!line_matches(ls[c], query@));
                }
                if k < c {
                    assert(is_first_match(ls, query@, c));
                    assert(!line_matches(ls[k as int], query@));
                }
            }
            return Some(k);
        }
        k = k + 1;
    }
    None
}


/// Joining one more line adds a `'\n'` and the line (or is the line alone).
pub proof fn lemma_join_push(ls: Seq<Seq<char>>, x: Seq<char>)
    ensures
        join_lines(ls.push(x)) == if ls.len() == 0 {
            x
        } else {
            join_lines(ls) + "\n"@ + x
        },
{
    assert(ls.push(x).drop_last() =~= ls);
    if ls.len() == 0 {
        assert(ls.push(x).len() == 1);
    }
}

/// The decimal digit for `d` (below ten).
pub open spec fn digit(d: nat) -> char {
    seq!['0', '1', '2', '3', '4', '5', '6', '7', '8', '9'][d as int]
}

/// The decimal numeral of `n`, as `usize`'s `Display` writes it.
pub open spec fn decimal(n: nat) -> Seq<char>
    decreases n,
{
    if n < 10 {
        seq![digit(n)]
    } else {
        decimal(n / 10) + seq![digit(n % 10)]
    }
}

fn digit_char(d: usize) -> (c: char)
    requires
        d < 10,
    ensures
        c == digit(d as nat),
{
    match d {
        0 => '0',
        1 => '1',
        2 => '2',
        3 => '3',
        4 => '4',
        5 => '5',
        6 => '6',
        7 => '7',
        8 => '8',
        _ => '9',
    }
}

fn push_decimal(n: usize, out: &mut Vec<char>)
    ensures
        final(out)@ == old(out)@ + decimal(n as nat),
    decreases n,
{
    if n >= 10 {
        push_decimal(n / 10, out);
    }
    out.push(digit_char(n % 10));
}

/// The decimal numeral of `n`.
pub fn decimal_string(n: usize) -> (r: String)
    ensures
        r@ == decimal(n as nat),
{
    let mut digits: Vec<char> = Vec::new();
    push_decimal(n, &mut digits);
    assert(digits@ =~= decimal(n as nat));
    string_of(digits.as_slice())
}

} // verus!
