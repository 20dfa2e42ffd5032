//! Indentation: inferring the unit a file indents by, reading the
//! indentation of a line, and re-indenting code.

use vstd::prelude::*;
use vstd::utf8::*;

use crate::text::{
    is_ascii_bytes, lemma_ascii_boundary, lemma_ascii_valid, lemma_valid_between,
    on_boundaries, push_all, push_range, string_of_bytes, text_bytes,
};

verus! {

broadcast use encode_utf8_valid_utf8;

/// How a file indents one level.
#[derive(Debug, Clone, Copy, PartialEq, Eq, Structural)]
pub enum IndentStyle {
    Spaces(u8),
    Tabs,
}

/// The indentation around a node: the file's unit and the node's own line prefix.
#[derive(Debug, Clone)]
pub struct IndentContext {
    pub style: IndentStyle,
    pub sibling_prefix: String,
}

/// A comment, by byte range and text.
#[derive(Debug, Clone)]
pub struct CommentSpan {
    pub start: usize,
    pub end: usize,
    pub text: String,
}

/// The comments that belong to a node: those just above it and one on its last line.
#[derive(Debug, Clone)]
pub struct AttachedComments {
    pub leading: Vec<CommentSpan>,
    pub trailing: Option<CommentSpan>,
}

/// The number of spaces in the run that starts at byte `p`.
pub open spec fn spaces_at(s: Seq<u8>, p: int) -> nat
    decreases s.len() - p,
{
    if 0 <= p < s.len() && s[p] == 0x20 {
        1 + spaces_at(s, p + 1)
    } else {
        0
    }
}

fn spaces_from(s: &[u8], p: usize) -> (r: usize)
    requires
        p <= s@.len(),
    ensures
        r == spaces_at(s@, p as int),
        p + r <= s@.len(),
{
    let mut q = p;
    while q < s.len() && s[q] == 0x20
        invariant
            p <= q <= s@.len(),
            spaces_at(s@, p as int) == (q - p) + spaces_at(s@, q as int),
        decreases s@.len() - q,
    {
        q += 1;
    }
    q - p
}

/// The number of spaces that `line` starts with.
pub fn count_leading_spaces(line: &str) -> (r: usize)
    ensures
        r == spaces_at(text_bytes(line@), 0),
{
    spaces_from(line.as_bytes(), 0)
}

/// A line starts at byte `p`: the first byte, or one after a newline.
pub open spec fn is_line_start(s: Seq<u8>, p: int) -> bool {
    0 <= p < s.len() && (p == 0 || s[p - 1] == 0x0a)
}

/// The line starts before byte `i`, in order.
pub open spec fn starts_upto(s: Seq<u8>, i: int) -> Seq<int>
    decreases i,
{
    if i <= 0 {
        Seq::empty()
    } else if is_line_start(s, i - 1) {
        starts_upto(s, i - 1).push(i - 1)
    } else {
        starts_upto(s, i - 1)
    }
}

/// Where each line of `s` starts; a newline at the end opens no line.
pub open spec fn line_starts(s: Seq<u8>) -> Seq<int> {
    starts_upto(s, s.len() as int)
}

pub(crate) proof fn lemma_starts_bounded(s: Seq<u8>, i: int)
    requires
        0 <= i <= s.len(),
    ensures
        forall|k: int| 0 <= k < starts_upto(s, i).len() ==> 0 <= #[trigger] starts_upto(s, i)[k] < i,
        forall|k: int| 0 <= k < starts_upto(s, i).len() ==> is_line_start(s, #[trigger] starts_upto(s, i)[k]),
        forall|k1: int, k2: int| 0 <= k1 < k2 < starts_upto(s, i).len() ==> #[trigger] starts_upto(s, i)[k1] < #[trigger] starts_upto(s, i)[k2],
        starts_upto(s, i).len() <= i,
    decreases i,
{
    if i > 0 {
        lemma_starts_bounded(s, i - 1);
    }
}

pub(crate) fn line_starts_of(s: &[u8]) -> (r: Vec<usize>)
    ensures
        r@.len() == line_starts(s@).len(),
        forall|k: int| 0 <= k < r@.len() ==> r@[k] as int == line_starts(s@)[k],
{
    let mut r: Vec<usize> = Vec::new();
    let mut i: usize = 0;
    while i < s.len()
        invariant
            i <= s@.len(),
            r@.len() == starts_upto(s@, i as int).len(),
            forall|k: int| 0 <= k < r@.len() ==> r@[k] as int == starts_upto(s@, i as int)[k],
        decreases s@.len() - i,
    {
        if i == 0 || s[i - 1] == 0x0a {
            r.push(i);
        }
        i += 1;
    }
    r
}

/// How many lines the inference looks at.
pub const SCANNED_LINES: usize = 200;

/// The starts of the lines that the inference looks at.
pub open spec fn scanned(s: Seq<u8>) -> Seq<int> {
    let st = line_starts(s);
    if st.len() > SCANNED_LINES {
        st.take(SCANNED_LINES as int)
    } else {
        st
    }
}

pub open spec fn starts_with_tab(s: Seq<u8>, p: int) -> bool {
    s[p] == 0x09
}

/// The change of indentation from line `k - 1` to line `k`.
pub open spec fn indent_delta(s: Seq<u8>, st: Seq<int>, k: int) -> int {
    let a = spaces_at(s, st[k - 1]) as int;
    let b = spaces_at(s, st[k]) as int;
    if a <= b {
        b - a
    } else {
        a - b
    }
}

/// Of the first `m` lines, how many after the first start with a tab.
pub open spec fn tab_pairs(s: Seq<u8>, st: Seq<int>, m: int) -> nat
    decreases m,
{
    if m <= 1 {
        0
    } else {
        tab_pairs(s, st, m - 1) + (if starts_with_tab(s, st[m - 1]) { 1nat } else { 0nat })
    }
}

/// Of the first `m` lines, how many after the first start without a tab and
/// change the indentation by `d` spaces.
pub open spec fn delta_pairs(s: Seq<u8>, st: Seq<int>, m: int, d: int) -> nat
    decreases m,
{
    if m <= 1 {
        0
    } else {
        delta_pairs(s, st, m - 1, d) + (if !starts_with_tab(s, st[m - 1]) && indent_delta(s, st, m
            - 1) == d {
            1nat
        } else {
            0nat
        })
    }
}

/// The votes for an indentation of `d` spaces.
pub open spec fn indent_votes(s: Seq<u8>, d: int) -> nat {
    delta_pairs(s, scanned(s), scanned(s).len() as int, d)
}

/// The votes for tabs.
pub open spec fn tab_votes(s: Seq<u8>) -> nat {
    tab_pairs(s, scanned(s), scanned(s).len() as int)
}

/// The votes for widths `1..=d` together.
pub open spec fn votes_upto(s: Seq<u8>, d: int) -> nat
    decreases d,
{
    if d <= 0 {
        0
    } else {
        votes_upto(s, d - 1) + indent_votes(s, d)
    }
}

/// The widest of the widths `1..=d` with the most votes.
pub open spec fn best_upto(s: Seq<u8>, d: int) -> int
    decreases d,
{
    if d <= 1 {
        1
    } else {
        let b = best_upto(s, d - 1);
        if indent_votes(s, d) >= indent_votes(s, b) {
            d
        } else {
            b
        }
    }
}

/// The indentation a file uses, by vote over its first lines: each line
/// that starts with a tab votes for tabs, each other line for the change of
/// indentation (1 to 8 spaces) from the line before. Tabs win with more votes
/// than all widths together; else the widest width with the most votes wins.
pub open spec fn inferred_style(s: Seq<u8>) -> IndentStyle {
    if tab_votes(s) > votes_upto(s, 8) {
        IndentStyle::Tabs
    } else {
        IndentStyle::Spaces(best_upto(s, 8) as u8)
    }
}

proof fn lemma_pairs_bounded(s: Seq<u8>, st: Seq<int>, m: int, d: int)
    requires
        m >= 0,
    ensures
        tab_pairs(s, st, m) <= m,
        delta_pairs(s, st, m, d) <= m,
    decreases m,
{
    if m > 1 {
        lemma_pairs_bounded(s, st, m - 1, d);
    }
}

proof fn lemma_best_in_range(s: Seq<u8>, d: int)
    requires
        d >= 1,
    ensures
        1 <= best_upto(s, d) <= d,
    decreases d,
{
    if d > 1 {
        lemma_best_in_range(s, d - 1);
    }
}

/// Infers the indentation unit of `source`.
pub fn infer_indent_style(source: &str) -> (r: IndentStyle)
    ensures
        r == inferred_style(text_bytes(source@)),
{
    let s = source.as_bytes();
    let ghost sb = s@;
    let all = line_starts_of(s);
    let m = if all.len() > SCANNED_LINES { SCANNED_LINES } else { all.len() };
    let ghost st = scanned(sb);
    proof {
        lemma_starts_bounded(sb, sb.len() as int);
    }
    assert(st.len() == m);
    let mut counts: Vec<u32> = vec![0u32; 9];
    let mut tabs: u32 = 0;
    let mut k: usize = 1;
    while k < m
        invariant
            sb == s@,
            st == scanned(sb),
            st.len() == m,
            m <= SCANNED_LINES,
            m <= all@.len(),
            all@.len() == line_starts(sb).len(),
            forall|j: int| 0 <= j < all@.len() ==> all@[j] as int == line_starts(sb)[j],
            forall|j: int| 0 <= j < all@.len() ==> 0 <= #[trigger] line_starts(sb)[j] < sb.len(),
            1 <= k,
            m > 0 ==> k <= m,
            m == 0 ==> k == 1,
            counts@.len() == 9,
            tabs == tab_pairs(sb, st, k as int),
            forall|d: int| 1 <= d <= 8 ==> #[trigger] counts@[d] == delta_pairs(sb, st, k as int, d),
        decreases m - k,
    {
        proof {
            lemma_pairs_bounded(sb, st, k as int, 0);
            assert forall|d: int| 1 <= d <= 8 implies #[trigger] counts@[d] <= k by {
                lemma_pairs_bounded(sb, st, k as int, d);
            }
        }
        let p = all[k];
        let q = all[k - 1];
        assert(st[k as int] == p && st[k - 1] == q);
        let b = spaces_from(s, p);
        let a = spaces_from(s, q);
        if s[p] == 0x09 {
            tabs += 1;
        } else {
            let delta = if a <= b { b - a } else { a - b };
            if delta > 0 && delta <= 8 {
                let c = counts[delta];
                counts.set(delta, c + 1);
            }
        }
        k += 1;
    }
    proof {
        if m == 0 {
            assert(tab_pairs(sb, st, 0) == 0);
            assert(tab_pairs(sb, st, 1) == 0);
            assert forall|d: int| 1 <= d <= 8 implies #[trigger] counts@[d] == delta_pairs(sb, st, m as int, d) by {
                assert(delta_pairs(sb, st, 1, d) == 0);
                assert(delta_pairs(sb, st, 0, d) == 0);
            }
        } else {
            assert(k == m);
        }
        assert(tabs == tab_votes(sb));
        assert forall|d: int| 1 <= d <= 8 implies #[trigger] counts@[d] == indent_votes(sb, d) by {}
        assert forall|d: int| 1 <= d <= 8 implies #[trigger] counts@[d] <= SCANNED_LINES by {
            lemma_pairs_bounded(sb, st, m as int, d);
        }
    }
    let mut total: u32 = 0;
    let mut best: usize = 1;
    let mut d: usize = 1;
    while d <= 8
        invariant
            1 <= d <= 9,
            counts@.len() == 9,
            forall|e: int| 1 <= e <= 8 ==> #[trigger] counts@[e] == indent_votes(sb, e),
            forall|e: int| 1 <= e <= 8 ==> #[trigger] counts@[e] <= SCANNED_LINES,
            total == votes_upto(sb, d - 1),
            total <= (d - 1) * SCANNED_LINES,
            d > 1 ==> best == best_upto(sb, d - 1),
            1 <= best <= 8,
        decreases 9 - d,
    {
        proof {
            lemma_best_in_range(sb, d as int);
        }
        total += counts[d];
        if d == 1 || counts[d] >= counts[best] {
            best = d;
        }
        d += 1;
    }
    if tabs > total {
        IndentStyle::Tabs
    } else {
        IndentStyle::Spaces(best as u8)
    }
}

/// Where the line that holds byte `off - 1` starts: one past the last
/// newline before `off`, or 0.
pub open spec fn line_begin(s: Seq<u8>, off: int) -> int
    decreases off,
{
    if off <= 0 {
        0
    } else if s[off - 1] == 0x0a {
        off
    } else {
        line_begin(s, off - 1)
    }
}

/// The length of the encoding of the whitespace character at byte `p` of
/// `s`, or 0 if none is there. The whitespace characters are those of
/// `char::is_whitespace` (Unicode `White_Space`) but the line breaks `\n`
/// and `\r`: tab, vertical tab, form feed, space, U+0085, U+00A0, U+1680,
/// U+2000 to U+200A, U+2028, U+2029, U+202F, U+205F and U+3000.
pub open spec fn ws_width(s: Seq<u8>, p: int) -> int {
    if 0 <= p < s.len() && (s[p] == 0x20 || s[p] == 0x09 || s[p] == 0x0b || s[p] == 0x0c) {
        1
    } else if 0 <= p && p + 1 < s.len() && s[p] == 0xc2 && (s[p + 1] == 0x85 || s[p + 1] == 0xa0) {
        2
    } else if 0 <= p && p + 2 < s.len() && ((s[p] == 0xe1 && s[p + 1] == 0x9a && s[p + 2] == 0x80) || (s[p]
        == 0xe2 && s[p + 1] == 0x80 && ((0x80 <= s[p + 2] && s[p + 2] <= 0x8a) || s[p + 2] == 0xa8 || s[p + 2]
        == 0xa9 || s[p + 2] == 0xaf)) || (s[p] == 0xe2 && s[p + 1] == 0x81 && s[p + 2] == 0x9f) || (s[p] == 0xe3
        && s[p + 1] == 0x80 && s[p + 2] == 0x80)) {
        3
    } else {
        0
    }
}

/// The length in bytes of the run of whitespace characters that starts at `p`.
pub open spec fn indent_run(s: Seq<u8>, p: int) -> nat
    decreases s.len() - p,
{
    if ws_width(s, p) > 0 && p >= 0 {
        (ws_width(s, p) + indent_run(s, p + ws_width(s, p))) as nat
    } else {
        0
    }
}

fn ws_width_at(s: &[u8], p: usize) -> (r: usize)
    requires
        p <= s@.len(),
    ensures
        r == ws_width(s@, p as int),
{
    let n = s.len();
    if p < n && (s[p] == 0x20 || s[p] == 0x09 || s[p] == 0x0b || s[p] == 0x0c) {
        1
    } else if p < n && n - p > 1 && s[p] == 0xc2 && (s[p + 1] == 0x85 || s[p + 1] == 0xa0) {
        2
    } else if p < n && n - p > 2 && ((s[p] == 0xe1 && s[p + 1] == 0x9a && s[p + 2] == 0x80) || (s[p] == 0xe2 && s[p + 1]
        == 0x80 && ((0x80 <= s[p + 2] && s[p + 2] <= 0x8a) || s[p + 2] == 0xa8 || s[p + 2] == 0xa9 || s[p + 2]
        == 0xaf)) || (s[p] == 0xe2 && s[p + 1] == 0x81 && s[p + 2] == 0x9f) || (s[p] == 0xe3 && s[p + 1] == 0x80
        && s[p + 2] == 0x80)) {
        3
    } else {
        0
    }
}

/// A whitespace character at a character boundary ends at one.
proof fn lemma_ws_boundary(s: Seq<u8>, p: int)
    requires
        valid_utf8(s),
        partial_valid_utf8(s, p),
        ws_width(s, p) > 0,
    ensures
        partial_valid_utf8(s, p + ws_width(s, p)),
{
    assert(s.subrange(0, s.len() as int) =~= s);
    lemma_valid_between(s, p, s.len() as int);
    let t = s.subrange(p, s.len() as int);
    assert(t[0] == s[p]);
    assert(valid_first_scalar(t));
    partial_valid_utf8_extend(s, p);
}

/// The indentation of the line that holds byte `off`.
pub open spec fn line_prefix(s: Seq<u8>, off: int) -> Seq<u8> {
    let b = line_begin(s, off);
    s.subrange(b, b + indent_run(s, b))
}

/// The whitespace (any character but a line break for which
/// `char::is_whitespace` holds) that begins the line holding byte `byte_offset`.
pub fn extract_line_prefix(source: &str, byte_offset: usize) -> (r: String)
    requires
        byte_offset <= text_bytes(source@).len(),
    ensures
        text_bytes(r@) == line_prefix(text_bytes(source@), byte_offset as int),
{
    let s = source.as_bytes();
    let mut b = byte_offset;
    while b > 0 && s[b - 1] != 0x0a
        invariant
            b <= byte_offset <= s@.len(),
            line_begin(s@, byte_offset as int) == line_begin(s@, b as int),
        decreases b,
    {
        b -= 1;
    }
    proof {
        assert(s@.subrange(0, 0) =~= Seq::<u8>::empty());
        if b > 0 {
            lemma_ascii_boundary(s@, b - 1);
        }
    }
    let n = s.len();
    let mut e = b;
    let mut w = ws_width_at(s, e);
    while w > 0
        invariant
            n == s@.len(),
            b <= e <= s@.len(),
            s@ == text_bytes(source@),
            w == ws_width(s@, e as int),
            indent_run(s@, b as int) == (e - b) + indent_run(s@, e as int),
            partial_valid_utf8(s@, b as int),
            partial_valid_utf8(s@, e as int),
        decreases s@.len() - e,
    {
        proof {
            lemma_ws_boundary(s@, e as int);
        }
        assert(e + w <= s@.len());
        e = e + w;
        w = ws_width_at(s, e);
    }
    let mut out: Vec<u8> = Vec::new();
    push_range(&mut out, s, b, e);
    proof {
        lemma_valid_between(s@, b as int, e as int);
    }
    string_of_bytes(out)
}

/// One indentation unit of `style`.
pub open spec fn unit_bytes(style: IndentStyle) -> Seq<u8> {
    match style {
        IndentStyle::Spaces(n) => Seq::new(n as nat, |i: int| 0x20u8),
        IndentStyle::Tabs => seq![0x09u8],
    }
}

/// `prefix` made one level deeper.
pub fn indent_deeper(prefix: &str, style: &IndentStyle) -> (r: String)
    ensures
        text_bytes(r@) == text_bytes(prefix@) + unit_bytes(*style),
{
    let mut out: Vec<u8> = Vec::new();
    push_all(&mut out, prefix.as_bytes());
    let ghost head = out@;
    match style {
        IndentStyle::Spaces(n) => {
            let mut i: u8 = 0;
            while i < *n
                invariant
                    i <= *n,
                    out@ == head + Seq::new(i as nat, |k: int| 0x20u8),
                decreases *n - i,
            {
                out.push(0x20);
                i += 1;
                assert(out@ =~= head + Seq::new(i as nat, |k: int| 0x20u8));
            }
        },
        IndentStyle::Tabs => {
            out.push(0x09);
            assert(out@ =~= head + seq![0x09u8]);
        },
    }
    proof {
        let tail = unit_bytes(*style);
        assert(out@ =~= head + tail);
        assert(is_ascii_bytes(tail));
        lemma_ascii_valid(tail);
        valid_utf8_concat(head, tail);
    }
    string_of_bytes(out)
}

/// Where the line that starts at `p` ends: the next newline, or the end of `s`.
pub open spec fn line_end(s: Seq<u8>, p: int) -> int
    decreases s.len() - p,
{
    if p < 0 || p >= s.len() {
        s.len() as int
    } else if s[p] == 0x0a {
        p
    } else {
        line_end(s, p + 1)
    }
}

/// Where the text of the line that starts at `p` ends: before its newline,
/// and before a carriage return that stands right before that newline.
pub open spec fn content_end(s: Seq<u8>, p: int) -> int {
    let q = line_end(s, p);
    if q < s.len() && q > p && s[q - 1] == 0x0d {
        q - 1
    } else {
        q
    }
}

/// The lines from the one that starts at `p` on, each after a newline and,
/// when not empty, after `pre`.
pub open spec fn indent_lines_from(s: Seq<u8>, p: int, pre: Seq<u8>) -> Seq<u8>
    decreases s.len() - p,
{
    if p < 0 || p >= s.len() {
        Seq::empty()
    } else {
        let q = line_end(s, p);
        let ce = content_end(s, p);
        if q < p {
            Seq::empty()
        } else {
            seq![0x0au8] + (if ce > p { pre } else { Seq::empty() }) + s.subrange(p, ce) + (if q
                < s.len() {
                indent_lines_from(s, q + 1, pre)
            } else {
                Seq::empty()
            })
        }
    }
}

/// `s` with `pre` set before every line but the first that is not empty,
/// its line breaks made plain newlines, and a final newline kept.
pub open spec fn indented(s: Seq<u8>, pre: Seq<u8>) -> Seq<u8> {
    if s.len() == 0 {
        Seq::empty()
    } else {
        s.subrange(0, content_end(s, 0)) + indent_lines_from(s, line_end(s, 0) + 1, pre) + (if s.last()
            == 0x0a {
            seq![0x0au8]
        } else {
            Seq::empty()
        })
    }
}

pub(crate) proof fn lemma_line_end_bounds(s: Seq<u8>, p: int)
    requires
        0 <= p <= s.len(),
    ensures
        p <= line_end(s, p) <= s.len(),
        line_end(s, p) < s.len() ==> s[line_end(s, p)] == 0x0a,
    decreases s.len() - p,
{
    if p < s.len() && s[p] != 0x0a {
        lemma_line_end_bounds(s, p + 1);
    }
}

pub(crate) fn find_line_end(s: &[u8], p: usize) -> (q: usize)
    requires
        p <= s@.len(),
    ensures
        q == line_end(s@, p as int),
        p <= q <= s@.len(),
        q < s@.len() ==> s@[q as int] == 0x0a,
{
    proof {
        lemma_line_end_bounds(s@, p as int);
    }
    let mut q = p;
    while q < s.len() && s[q] != 0x0a
        invariant
            p <= q <= s@.len(),
            line_end(s@, p as int) == line_end(s@, q as int),
        decreases s@.len() - q,
    {
        q += 1;
    }
    q
}

/// The text of the line at `p` runs over valid UTF-8.
pub(crate) proof fn lemma_line_valid(s: Seq<u8>, p: int)
    requires
        valid_utf8(s),
        0 <= p <= s.len(),
        partial_valid_utf8(s, p),
    ensures
        valid_utf8(s.subrange(p, content_end(s, p))),
        content_end(s, p) < s.len() ==> partial_valid_utf8(s, line_end(s, p) + 1),
        line_end(s, p) < s.len() ==> partial_valid_utf8(s, line_end(s, p) + 1),
{
    lemma_line_end_bounds(s, p);
    let q = line_end(s, p);
    let ce = content_end(s, p);
    assert(s.subrange(0, s.len() as int) =~= s);
    if q < s.len() {
        lemma_ascii_boundary(s, q);
    }
    if ce < q {
        lemma_ascii_boundary(s, ce);
    }
    lemma_valid_between(s, p, ce);
}

proof fn lemma_line_step(s: Seq<u8>, p: int, pre: Seq<u8>, before: Seq<u8>, after: Seq<u8>)
    requires
        0 <= p < s.len(),
        valid_utf8(pre),
        valid_utf8(before),
        valid_utf8(s.subrange(p, content_end(s, p))),
        p <= content_end(s, p) <= line_end(s, p),
        after == before + seq![0x0au8] + (if content_end(s, p) > p { pre } else { Seq::empty() })
            + s.subrange(p, content_end(s, p)),
    ensures
        valid_utf8(after),
        before + indent_lines_from(s, p, pre) == after + indent_lines_from(s, line_end(s, p) + 1, pre),
        line_end(s, p) == s.len() ==> indent_lines_from(s, line_end(s, p) + 1, pre) == indent_lines_from(s, s.len() as int, pre),
{
    let ce = content_end(s, p);
    let nl = seq![0x0au8];
    let head = nl + (if ce > p { pre } else { Seq::empty() });
    let mid = s.subrange(p, ce);
    assert(after =~= before + head + mid);
    lemma_ascii_valid(nl);
    valid_utf8_concat(nl, pre);
    assert(nl + Seq::<u8>::empty() =~= nl);
    valid_utf8_concat(before, head);
    valid_utf8_concat(before + head, mid);
    let rest = indent_lines_from(s, line_end(s, p) + 1, pre);
    assert(indent_lines_from(s, p, pre) == head + mid + rest);
    assert(before + (head + mid + rest) =~= after + rest);
}

/// `code` re-indented: every line but the first that is not empty gets
/// `prefix` in front.
pub fn indent_code(code: &str, prefix: &str) -> (r: String)
    ensures
        text_bytes(r@) == indented(text_bytes(code@), text_bytes(prefix@)),
{
    let s = code.as_bytes();
    let pre = prefix.as_bytes();
    let ghost sb = s@;
    let n = s.len();
    if n == 0 {
        let r = String::new();
        proof {
            assert(text_bytes(r@) =~= Seq::<u8>::empty());
        }
        return r;
    }
    proof {
        assert(sb.subrange(0, 0) =~= Seq::<u8>::empty());
    }
    let mut out: Vec<u8> = Vec::new();
    let q0 = find_line_end(s, 0);
    let ce0 = if q0 < n && q0 > 0 && s[q0 - 1] == 0x0d { q0 - 1 } else { q0 };
    proof {
        lemma_line_valid(sb, 0);
    }
    push_range(&mut out, s, 0, ce0);
    assert(out@ =~= sb.subrange(0, ce0 as int));
    let ghost whole = sb.subrange(0, ce0 as int) + indent_lines_from(sb, q0 + 1, pre@);
    let mut p = if q0 < n { q0 + 1 } else { n };
    proof {
        assert(indent_lines_from(sb, p as int, pre@) == indent_lines_from(sb, q0 + 1, pre@));
    }
    while p < n
        invariant
            sb == s@,
            n == sb.len(),
            valid_utf8(sb),
            valid_utf8(pre@),
            0 < p <= n,
            p <= n ==> partial_valid_utf8(sb, p as int),
            valid_utf8(out@),
            out@ + indent_lines_from(sb, p as int, pre@) == whole,
        decreases n + 1 - p,
    {
        let q = find_line_end(s, p);
        let ce = if q < n && q > p && s[q - 1] == 0x0d { q - 1 } else { q };
        proof {
            lemma_line_valid(sb, p as int);
        }
        let ghost before = out@;
        out.push(0x0a);
        if ce > p {
            push_all(&mut out, pre);
        }
        push_range(&mut out, s, p, ce);
        proof {
            assert(ce == content_end(sb, p as int));
            assert(out@ =~= before + seq![0x0au8] + (if ce > p { pre@ } else { Seq::empty() })
                + sb.subrange(p as int, ce as int));
            lemma_line_step(sb, p as int, pre@, before, out@);
            assert(sb.subrange(0, n as int) =~= sb);
        }
        p = if q < n { q + 1 } else { n };
    }
    proof {
        assert(indent_lines_from(sb, p as int, pre@) == Seq::<u8>::empty());
        assert(out@ == whole);
    }
    if s[n - 1] == 0x0a {
        let ghost before = out@;
        out.push(0x0a);
        proof {
            assert(out@ =~= before + seq![0x0au8]);
            lemma_ascii_valid(seq![0x0au8]);
            valid_utf8_concat(before, seq![0x0au8]);
        }
    } else {
        assert(out@ =~= whole + Seq::<u8>::empty());
    }
    string_of_bytes(out)
}

/// The indentation around node `i` of a parse of `source`: the file's unit
/// and the prefix of the node's line.
pub fn indent_context_at(source: &str, nodes: &Vec<crate::syntax::SyntaxNode>, i: usize) -> (r: IndentContext)
    requires
        i < nodes@.len(),
        nodes@[i as int].start <= text_bytes(source@).len(),
    ensures
        r.style == inferred_style(text_bytes(source@)),
        text_bytes(r.sibling_prefix@) == line_prefix(text_bytes(source@), nodes@[i as int].start as int),
{
    IndentContext {
        style: infer_indent_style(source),
        sibling_prefix: extract_line_prefix(source, nodes[i].start),
    }
}

pub open spec fn comment_kind(k: Seq<char>) -> bool {
    k == "comment"@ || k == "line_comment"@ || k == "block_comment"@
}

/// The first child of `par` from index `j` on.
pub open spec fn next_child_from(ns: Seq<crate::syntax::SyntaxNode>, par: usize, j: int) -> Option<int>
    decreases ns.len() - j,
{
    if j < 0 || j >= ns.len() {
        None
    } else if ns[j].parent == Some(par) {
        Some(j)
    } else {
        next_child_from(ns, par, j + 1)
    }
}

/// The last child of `par` before index `j`.
pub open spec fn prev_child_below(ns: Seq<crate::syntax::SyntaxNode>, par: usize, j: int) -> Option<int>
    decreases j,
{
    if j <= 0 || j > ns.len() {
        None
    } else if ns[j - 1].parent == Some(par) {
        Some(j - 1)
    } else {
        prev_child_below(ns, par, j - 1)
    }
}

proof fn lemma_next_child_range(ns: Seq<crate::syntax::SyntaxNode>, par: usize, j: int)
    requires
        0 <= j,
    ensures
        next_child_from(ns, par, j) matches Some(x) ==> j <= x < ns.len(),
    decreases ns.len() - j,
{
    if j < ns.len() && ns[j].parent != Some(par) {
        lemma_next_child_range(ns, par, j + 1);
    }
}

/// The comment that trails node `i` on its last row, looking at its
/// siblings from index `j` on.
pub open spec fn trailing_from(ns: Seq<crate::syntax::SyntaxNode>, i: int, j: int) -> Option<int>
    decreases ns.len() - j,
{
    match ns[i].parent {
        None => None,
        Some(par) => match next_child_from(ns, par, j) {
            None => None,
            Some(x) => if x < j || x >= ns.len() || ns[x].row != ns[i].end_row {
                None
            } else if comment_kind(ns[x].kind@) {
                Some(x)
            } else {
                trailing_from(ns, i, x + 1)
            },
        },
    }
}

/// The comments just above node `i` among its siblings before index `j`,
/// in document order: each a comment ending at most one row above the node.
pub open spec fn leading_below(ns: Seq<crate::syntax::SyntaxNode>, i: int, j: int) -> Seq<int>
    decreases j,
{
    match ns[i].parent {
        None => Seq::empty(),
        Some(par) => match prev_child_below(ns, par, j) {
            None => Seq::empty(),
            Some(p) => if p >= j || p < 0 || !comment_kind(ns[p].kind@) || (if ns[i].row >= ns[p].end_row { ns[i].row - ns[p].end_row } else { 0 }) > 1 {
                Seq::empty()
            } else {
                leading_below(ns, i, p).push(p)
            },
        },
    }
}

/// `c` is the span of node `n` of `src`.
pub open spec fn span_of(c: CommentSpan, src: Seq<u8>, n: crate::syntax::SyntaxNode) -> bool {
    c.start == n.start && c.end == n.end && text_bytes(c.text@) == src.subrange(n.start as int, n.end as int)
}

fn is_comment(k: &str) -> (r: bool)
    ensures
        r == comment_kind(k@),
{
    crate::text::str_eq(k, "comment") || crate::text::str_eq(k, "line_comment") || crate::text::str_eq(k, "block_comment")
}

fn span(source: &str, n: &crate::syntax::SyntaxNode) -> (r: CommentSpan)
    requires
        crate::imports::nodes_on_boundaries(seq![*n], text_bytes(source@)),
        n.start <= n.end <= text_bytes(source@).len(),
    ensures
        span_of(r, text_bytes(source@), *n),
{
    let s = source.as_bytes();
    assert(seq![*n][0] == *n);
    proof {
        lemma_valid_between(s@, n.start as int, n.end as int);
    }
    let mut out: Vec<u8> = Vec::new();
    push_range(&mut out, s, n.start, n.end);
    CommentSpan { start: n.start, end: n.end, text: string_of_bytes(out) }
}

/// The comments attached to node `i`: those just above it and one trailing
/// it on its last row.
pub fn find_attached_comments(source: &str, nodes: &Vec<crate::syntax::SyntaxNode>, i: usize) -> (r: AttachedComments)
    requires
        i < nodes@.len(),
        crate::rename::nodes_fit(nodes@, text_bytes(source@).len() as int),
        crate::imports::nodes_on_boundaries(nodes@, text_bytes(source@)),
    ensures
        match trailing_from(nodes@, i as int, i + 1) {
            Some(x) => r.trailing matches Some(c) && span_of(c, text_bytes(source@), nodes@[x]),
            None => r.trailing is None,
        },
        r.leading@.len() == leading_below(nodes@, i as int, i as int).len(),
        forall|k: int| 0 <= k < r.leading@.len() ==> span_of(#[trigger] r.leading@[k], text_bytes(source@), nodes@[leading_below(nodes@, i as int, i as int)[k]]),
{
    let n = &nodes[i];
    let mut leading: Vec<CommentSpan> = Vec::new();
    let mut trailing: Option<CommentSpan> = None;
    let par = match n.parent {
        Some(p) => p,
        None => {
            return AttachedComments { leading, trailing };
        },
    };
    let ghost ns = nodes@;
    let ghost src = text_bytes(source@);
    let len = nodes.len();
    let mut j: usize = i + 1;
    while j < len
        invariant_except_break
            trailing is None,
            trailing_from(ns, i as int, i + 1) == trailing_from(ns, i as int, j as int),
        invariant
            ns == nodes@,
            src == text_bytes(source@),
            len == ns.len(),
            i < j <= len,
            *n == ns[i as int],
            ns[i as int].parent == Some(par),
            crate::rename::nodes_fit(ns, src.len() as int),
            crate::imports::nodes_on_boundaries(ns, src),
        ensures
            match trailing_from(ns, i as int, i + 1) {
                Some(x) => trailing matches Some(c) && span_of(c, src, ns[x]),
                None => trailing is None,
            },
        decreases len - j,
    {
        if nodes[j].parent == Some(par) {
            assert(next_child_from(ns, par, j as int) == Some(j as int));
            if nodes[j].row != n.end_row {
                assert(trailing_from(ns, i as int, j as int) is None);
                break;
            }
            if is_comment(nodes[j].kind.as_str()) {
                assert(trailing_from(ns, i as int, j as int) == Some(j as int));
                assert(ns[j as int].start <= ns[j as int].end <= src.len());
                assert(crate::imports::nodes_on_boundaries(seq![ns[j as int]], src));
                trailing = Some(span(source, &nodes[j]));
                break;
            }
            assert(trailing_from(ns, i as int, j as int) == trailing_from(ns, i as int, j + 1));
        } else {
            assert(next_child_from(ns, par, j as int) == next_child_from(ns, par, j + 1));
            proof {
                lemma_next_child_range(ns, par, j + 1);
            }
            assert(trailing_from(ns, i as int, j as int) == trailing_from(ns, i as int, j + 1));
        }
        j += 1;
    }
    let mut idx: Vec<usize> = Vec::new();
    let mut cur: usize = i;
    let mut done = false;
    while !done
        invariant
            ns == nodes@,
            src == text_bytes(source@),
            cur <= i < nodes@.len(),
            *n == ns[i as int],
            nodes@[i as int].parent == Some(par),
            forall|x: int| 0 <= x < idx@.len() ==> #[trigger] idx@[x] < nodes@.len(),
            done ==> leading_below(ns, i as int, cur as int) == Seq::<int>::empty(),
            leading_below(ns, i as int, i as int) == leading_below(ns, i as int, cur as int) + idx@.reverse().map_values(|x: usize| x as int),
        decreases cur + (if done { 0int } else { 1int }),
    {
        let mut p = cur;
        while p > 0 && nodes[p - 1].parent != Some(par)
            invariant
                p <= cur <= i < nodes@.len(),
                prev_child_below(ns, par, cur as int) == prev_child_below(ns, par, p as int),
                ns == nodes@,
                src == text_bytes(source@),
                *n == ns[i as int],
                ns[i as int].parent == Some(par),
                forall|x: int| 0 <= x < idx@.len() ==> #[trigger] idx@[x] < nodes@.len(),
                leading_below(ns, i as int, i as int) == leading_below(ns, i as int, cur as int) + idx@.reverse().map_values(|x: usize| x as int),
            decreases p,
        {
            p -= 1;
        }
        if p == 0 {
            assert(prev_child_below(ns, par, cur as int) is None);
            done = true;
        } else {
            let q = p - 1;
            assert(prev_child_below(ns, par, p as int) == Some(q as int));
            assert(prev_child_below(ns, par, cur as int) == Some(q as int));
            let nq = &nodes[q];
            let gap = if n.row >= nq.end_row { n.row - nq.end_row } else { 0 };
            assert(*n == ns[i as int] && *nq == ns[q as int]);
            if is_comment(nq.kind.as_str()) && gap <= 1 {
                let ghost before = idx@;
                idx.push(q);
                proof {
                    assert(idx@.reverse().map_values(|x: usize| x as int) =~= seq![q as int] + before.reverse().map_values(|x: usize| x as int));
                    assert(leading_below(ns, i as int, cur as int) == leading_below(ns, i as int, q as int).push(q as int));
                }
                cur = q;
            } else {
                done = true;
            }
        }
    }
    let ghost lead = leading_below(ns, i as int, i as int);
    assert(lead =~= idx@.reverse().map_values(|x: usize| x as int));
    let mut t: usize = idx.len();
    while t > 0
        invariant
            ns == nodes@,
            src == text_bytes(source@),
            t <= idx@.len(),
            lead == idx@.reverse().map_values(|x: usize| x as int),
            forall|x: int| 0 <= x < idx@.len() ==> #[trigger] idx@[x] < nodes@.len(),
            crate::rename::nodes_fit(ns, src.len() as int),
            crate::imports::nodes_on_boundaries(ns, src),
            leading@.len() == idx@.len() - t,
            forall|x: int| 0 <= x < leading@.len() ==> span_of(#[trigger] leading@[x], src, ns[lead[x]]),
        decreases t,
    {
        let q = idx[t - 1];
        assert(lead[idx@.len() - t] == q as int);
        assert(ns[q as int].start <= ns[q as int].end <= src.len());
        assert(crate::imports::nodes_on_boundaries(seq![ns[q as int]], src));
        leading.push(span(source, &nodes[q]));
        t -= 1;
    }
    AttachedComments { leading, trailing }
}

} // verus!
