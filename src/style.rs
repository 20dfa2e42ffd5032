//! The code style of a file: the quote it writes module paths with, and
//! whether its statements end with semicolons.

use vstd::prelude::*;

use crate::format::{find_line_end, lemma_starts_bounded, line_end, line_starts, line_starts_of};
use crate::text::text_bytes;

verus! {

/// `pat` occurs in `s` at byte `p`.
pub open spec fn occurs_at(s: Seq<u8>, pat: Seq<u8>, p: int) -> bool {
    0 <= p && p + pat.len() <= s.len() && s.subrange(p, p + pat.len()) == pat
}

/// The number of positions before `i` where `pat` occurs in `s`.
pub open spec fn occurrences_upto(s: Seq<u8>, pat: Seq<u8>, i: int) -> nat
    decreases i,
{
    if i <= 0 {
        0
    } else {
        occurrences_upto(s, pat, i - 1) + (if occurs_at(s, pat, i - 1) { 1nat } else { 0nat })
    }
}

/// `from '`
pub open spec fn from_single() -> Seq<u8> {
    seq![0x66u8, 0x72, 0x6f, 0x6d, 0x20, 0x27]
}

/// `from "`
pub open spec fn from_double() -> Seq<u8> {
    seq![0x66u8, 0x72, 0x6f, 0x6d, 0x20, 0x22]
}

/// The quote a file writes module paths with: a single quote unless
/// `from "` occurs more often than `from '`.
pub open spec fn quote_of(s: Seq<u8>) -> char {
    if occurrences_upto(s, from_single(), s.len() as int) >= occurrences_upto(s, from_double(), s.len() as int) {
        '\''
    } else {
        '"'
    }
}

fn occurs(s: &[u8], pat: &[u8], p: usize) -> (r: bool)
    requires
        p <= s@.len(),
    ensures
        r == occurs_at(s@, pat@, p as int),
{
    if pat.len() > s.len() - p {
        return false;
    }
    let n = s.len();
    let mut k: usize = 0;
    while k < pat.len()
        invariant
            n == s@.len(),
            p + pat@.len() <= s@.len(),
            k <= pat@.len(),
            forall|j: int| 0 <= j < k ==> s@[p + j] == pat@[j],
        decreases pat@.len() - k,
    {
        if s[p + k] != pat[k] {
            assert(s@.subrange(p as int, p + pat@.len())[k as int] != pat@[k as int]);
            return false;
        }
        k += 1;
    }
    assert(s@.subrange(p as int, p + pat@.len()) =~= pat@);
    true
}

fn count_occurrences(s: &[u8], pat: &[u8]) -> (r: usize)
    ensures
        r == occurrences_upto(s@, pat@, s@.len() as int),
{
    let mut n: usize = 0;
    let mut i: usize = 0;
    while i < s.len()
        invariant
            i <= s@.len(),
            n == occurrences_upto(s@, pat@, i as int),
            n <= i,
        decreases s@.len() - i,
    {
        if occurs(s, pat, i) {
            n += 1;
        }
        i += 1;
    }
    n
}

/// The quote a file writes module paths with: a single quote unless
/// `from "` occurs more often than `from '`.
pub fn detect_quote_style(source: &str) -> (r: char)
    ensures
        r == quote_of(text_bytes(source@)),
{
    let s = source.as_bytes();
    let single: [u8; 6] = [0x66, 0x72, 0x6f, 0x6d, 0x20, 0x27];
    let double: [u8; 6] = [0x66, 0x72, 0x6f, 0x6d, 0x20, 0x22];
    assert(single@ == from_single());
    assert(double@ == from_double());
    let a = count_occurrences(s, single.as_slice());
    let b = count_occurrences(s, double.as_slice());
    if a >= b {
        '\''
    } else {
        '"'
    }
}

/// Whitespace that trimming removes: space, tab, newline, vertical tab,
/// form feed, carriage return.
pub open spec fn is_blank(b: u8) -> bool {
    b == 0x20 || b == 0x09 || b == 0x0a || b == 0x0b || b == 0x0c || b == 0x0d
}

/// Where `[p, q)` ends once trailing whitespace is removed.
pub open spec fn trimmed_end(s: Seq<u8>, p: int, q: int) -> int
    decreases q - p,
{
    if q > p && is_blank(s[q - 1]) {
        trimmed_end(s, p, q - 1)
    } else {
        q
    }
}

/// Where `[p, q)` starts once leading whitespace is removed.
pub open spec fn trimmed_start(s: Seq<u8>, p: int, q: int) -> int
    decreases q - p,
{
    if p < q && is_blank(s[p]) {
        trimmed_start(s, p + 1, q)
    } else {
        p
    }
}

/// The width of the whitespace character (any for which `char::is_whitespace`
/// holds) that starts at `p`, within `[p, q)`; 0 if none starts there.
pub open spec fn space_width(s: Seq<u8>, p: int, q: int) -> int {
    if 0 <= p < q && q <= s.len() && is_blank(s[p]) {
        1
    } else if 0 <= p && p + 2 <= q && q <= s.len() && s[p] == 0xc2 && (s[p + 1] == 0x85 || s[p + 1] == 0xa0) {
        2
    } else if 0 <= p && p + 3 <= q && q <= s.len() && is_wide_space(s[p], s[p + 1], s[p + 2]) {
        3
    } else {
        0
    }
}

/// The three-byte encodings of whitespace: U+1680, U+2000 to U+200A,
/// U+2028, U+2029, U+202F, U+205F, U+3000.
pub open spec fn is_wide_space(a: u8, b: u8, c: u8) -> bool {
    (a == 0xe1 && b == 0x9a && c == 0x80) || (a == 0xe2 && b == 0x80 && ((0x80 <= c && c <= 0x8a) || c == 0xa8
        || c == 0xa9 || c == 0xaf)) || (a == 0xe2 && b == 0x81 && c == 0x9f) || (a == 0xe3 && b == 0x80 && c
        == 0x80)
}

/// The width of the whitespace character that ends at `q`, within `[p, q)`; 0 if none ends there.
pub open spec fn space_width_back(s: Seq<u8>, p: int, q: int) -> int {
    if 0 <= p < q && q <= s.len() && is_blank(s[q - 1]) {
        1
    } else if 0 <= p && p + 2 <= q && q <= s.len() && s[q - 2] == 0xc2 && (s[q - 1] == 0x85 || s[q - 1] == 0xa0) {
        2
    } else if 0 <= p && p + 3 <= q && q <= s.len() && is_wide_space(s[q - 3], s[q - 2], s[q - 1]) {
        3
    } else {
        0
    }
}

/// Where `[p, q)` ends once trailing whitespace characters are removed.
pub open spec fn text_end(s: Seq<u8>, p: int, q: int) -> int
    decreases q - p,
{
    if space_width_back(s, p, q) > 0 {
        text_end(s, p, q - space_width_back(s, p, q))
    } else {
        q
    }
}

/// Where `[p, q)` starts once leading whitespace characters are removed.
pub open spec fn text_start(s: Seq<u8>, p: int, q: int) -> int
    decreases q - p,
{
    if space_width(s, p, q) > 0 {
        text_start(s, p + space_width(s, p, q), q)
    } else {
        p
    }
}

fn is_wide(a: u8, b: u8, c: u8) -> (r: bool)
    ensures
        r == is_wide_space(a, b, c),
{
    (a == 0xe1 && b == 0x9a && c == 0x80) || (a == 0xe2 && b == 0x80 && ((0x80 <= c && c <= 0x8a) || c == 0xa8
        || c == 0xa9 || c == 0xaf)) || (a == 0xe2 && b == 0x81 && c == 0x9f) || (a == 0xe3 && b == 0x80 && c
        == 0x80)
}

fn blank(b: u8) -> (r: bool)
    ensures
        r == is_blank(b),
{
    b == 0x20 || b == 0x09 || b == 0x0a || b == 0x0b || b == 0x0c || b == 0x0d
}

fn space_width_at(s: &[u8], p: usize, q: usize) -> (r: usize)
    requires
        p <= q <= s@.len(),
    ensures
        r == space_width(s@, p as int, q as int),
        r <= q - p,
{
    if p < q && blank(s[p]) {
        1
    } else if q - p >= 2 && s[p] == 0xc2 && (s[p + 1] == 0x85 || s[p + 1] == 0xa0) {
        2
    } else if q - p >= 3 && is_wide(s[p], s[p + 1], s[p + 2]) {
        3
    } else {
        0
    }
}

fn space_width_back_at(s: &[u8], p: usize, q: usize) -> (r: usize)
    requires
        p <= q <= s@.len(),
    ensures
        r == space_width_back(s@, p as int, q as int),
        r <= q - p,
{
    if p < q && blank(s[q - 1]) {
        1
    } else if q - p >= 2 && s[q - 2] == 0xc2 && (s[q - 1] == 0x85 || s[q - 1] == 0xa0) {
        2
    } else if q - p >= 3 && is_wide(s[q - 3], s[q - 2], s[q - 1]) {
        3
    } else {
        0
    }
}

fn text_end_at(s: &[u8], p: usize, q: usize) -> (e: usize)
    requires
        p <= q <= s@.len(),
    ensures
        e == text_end(s@, p as int, q as int),
        p <= e <= q,
{
    let mut e = q;
    let mut w = space_width_back_at(s, p, e);
    while w > 0
        invariant
            p <= e <= q <= s@.len(),
            w == space_width_back(s@, p as int, e as int),
            w <= e - p,
            text_end(s@, p as int, q as int) == text_end(s@, p as int, e as int),
        decreases e - p,
    {
        e = e - w;
        w = space_width_back_at(s, p, e);
    }
    e
}

fn text_start_at(s: &[u8], p: usize, q: usize) -> (a: usize)
    requires
        p <= q <= s@.len(),
    ensures
        a == text_start(s@, p as int, q as int),
        p <= a <= q,
{
    let mut a = p;
    let mut w = space_width_at(s, a, q);
    while w > 0
        invariant
            p <= a <= q <= s@.len(),
            w == space_width(s@, a as int, q as int),
            w <= q - a,
            text_start(s@, p as int, q as int) == text_start(s@, a as int, q as int),
        decreases q - a,
    {
        a = a + w;
        w = space_width_at(s, a, q);
    }
    a
}

/// The line `[p, q)` ends with a semicolon, trailing whitespace aside.
pub open spec fn ends_with_semicolon(s: Seq<u8>, p: int, q: int) -> bool {
    let e = text_end(s, p, q);
    e > p && s[e - 1] == 0x3b
}

/// The line `[p, q)` holds a statement that could end with a semicolon and
/// does not: not blank, no comment opener in front, no brace or semicolon at the end.
pub open spec fn lacks_semicolon(s: Seq<u8>, p: int, q: int) -> bool {
    let e = text_end(s, p, q);
    let a = text_start(s, p, e);
    &&& a < e
    &&& !(e - a >= 2 && s[a] == 0x2f && (s[a + 1] == 0x2f || s[a + 1] == 0x2a))
    &&& s[e - 1] != 0x7b && s[e - 1] != 0x7d && s[e - 1] != 0x3b
}

/// How many lines the semicolon vote looks at.
pub const VOTED_LINES: usize = 20;

/// Of the first `m` lines, those that end with a semicolon.
pub open spec fn semicolon_lines(s: Seq<u8>, st: Seq<int>, m: int) -> nat
    decreases m,
{
    if m <= 0 {
        0
    } else {
        semicolon_lines(s, st, m - 1) + (if ends_with_semicolon(s, st[m - 1], line_end(s, st[m - 1])) {
            1nat
        } else {
            0nat
        })
    }
}

/// Of the first `m` lines, those that lack a semicolon.
pub open spec fn bare_lines(s: Seq<u8>, st: Seq<int>, m: int) -> nat
    decreases m,
{
    if m <= 0 {
        0
    } else {
        bare_lines(s, st, m - 1) + (if lacks_semicolon(s, st[m - 1], line_end(s, st[m - 1])) {
            1nat
        } else {
            0nat
        })
    }
}

/// The number of lines the vote looks at.
pub open spec fn voted(s: Seq<u8>) -> int {
    if line_starts(s).len() > VOTED_LINES {
        VOTED_LINES as int
    } else {
        line_starts(s).len() as int
    }
}

/// A file ends its statements with semicolons: of its first lines, those
/// that do are at least as many as those that could and do not.
pub open spec fn uses_semicolons(s: Seq<u8>) -> bool {
    semicolon_lines(s, line_starts(s), voted(s)) >= bare_lines(s, line_starts(s), voted(s))
}

/// Whether a file ends its statements with semicolons: of its first lines,
/// those that do are at least as many as those that could and do not.
pub fn detect_semicolons(source: &str) -> (r: bool)
    ensures
        r == uses_semicolons(text_bytes(source@)),
{
    let s = source.as_bytes();
    let ghost sb = s@;
    let ghost st = line_starts(sb);
    let starts = line_starts_of(s);
    proof {
        lemma_starts_bounded(sb, sb.len() as int);
    }
    let m = if starts.len() > VOTED_LINES { VOTED_LINES } else { starts.len() };
    let mut with_semi: usize = 0;
    let mut without: usize = 0;
    let mut k: usize = 0;
    while k < m
        invariant
            sb == s@,
            st == line_starts(sb),
            m <= starts@.len(),
            m <= VOTED_LINES,
            starts@.len() == st.len(),
            forall|j: int| 0 <= j < starts@.len() ==> starts@[j] as int == st[j],
            forall|j: int| 0 <= j < st.len() ==> 0 <= #[trigger] st[j] < sb.len(),
            k <= m,
            with_semi == semicolon_lines(sb, st, k as int),
            without == bare_lines(sb, st, k as int),
            with_semi <= k,
            without <= k,
        decreases m - k,
    {
        let p = starts[k];
        assert(st[k as int] == p);
        let q = find_line_end(s, p);
        let e = text_end_at(s, p, q);
        if e > p && s[e - 1] == 0x3b {
            with_semi += 1;
        }
        let a = text_start_at(s, p, e);
        if a < e && !(e - a >= 2 && s[a] == 0x2f && (s[a + 1] == 0x2f || s[a + 1] == 0x2a)) && s[e
            - 1] != 0x7b && s[e - 1] != 0x7d && s[e - 1] != 0x3b {
            without += 1;
        }
        k += 1;
    }
    with_semi >= without
}

} // verus!
