//! Wrapping a range of lines in a block: `if`, `try`/`catch`, `for`/`of`
//! or a plain block, the wrapped lines indented one level deeper.

use vstd::prelude::*;
use vstd::utf8::*;

use crate::edit::TextEdit;
use crate::format::{
    content_end, find_line_end, infer_indent_style, inferred_style, lemma_line_end_bounds, lemma_line_valid,
    lemma_starts_bounded, line_end, line_starts, line_starts_of, unit_bytes, IndentStyle,
};
use crate::operations::{is_invalid_params, OperationError, WrapInBlock, WrapKind};
use crate::style::{is_blank, trimmed_start};
use crate::text::{
    bytes_eq, decimal_bytes, is_ascii_bytes, lemma_ascii_boundary, lemma_ascii_valid, lemma_valid_between,
    on_boundaries, push_decimal, push_range, push_str, push_valid, string_of_bytes, text_bytes,
};

verus! {

broadcast use encode_utf8_valid_utf8;

/// The text of the line that starts at `p`, without its line break.
pub open spec fn line_bytes(s: Seq<u8>, p: int) -> Seq<u8> {
    s.subrange(p, content_end(s, p))
}

/// The whitespace a line starts with.
pub open spec fn leading_ws(l: Seq<u8>) -> Seq<u8> {
    l.subrange(0, trimmed_start(l, 0, l.len() as int))
}

/// `l` without the prefix `base`, when it starts with it.
pub open spec fn strip_base(l: Seq<u8>, base: Seq<u8>) -> Seq<u8> {
    if base.len() <= l.len() && l.subrange(0, base.len() as int) == base {
        l.subrange(base.len() as int, l.len() as int)
    } else {
        l
    }
}

/// A wrapped line: the base indentation, one unit more, then the line
/// without its base indentation.
pub open spec fn wrapped_line(s: Seq<u8>, p: int, base: Seq<u8>, unit: Seq<u8>) -> Seq<u8> {
    base + unit + strip_base(line_bytes(s, p), base)
}

/// Lines `a..=k` (1-indexed) wrapped and joined by newlines.
pub open spec fn wrapped_body(s: Seq<u8>, st: Seq<int>, a: int, k: int, base: Seq<u8>, unit: Seq<u8>) -> Seq<u8>
    decreases k - a,
{
    if k <= a {
        wrapped_line(s, st[a - 1], base, unit)
    } else {
        wrapped_body(s, st, a, k - 1, base, unit) + seq![0x0au8] + wrapped_line(s, st[k - 1], base, unit)
    }
}

/// The block that replaces the lines.
pub open spec fn wrap_text(kind: WrapKind, base: Seq<u8>, body: Seq<u8>, unit: Seq<u8>) -> Seq<u8> {
    let close = seq![0x0au8] + base + text_bytes("}"@);
    match kind {
        WrapKind::If { condition } => base + text_bytes("if ("@) + text_bytes(condition@) + text_bytes(
            ") {\n"@,
        ) + body + close,
        WrapKind::TryCatch { catch_param } => base + text_bytes("try {\n"@) + body + close + text_bytes(
            " catch ("@,
        ) + text_bytes(catch_param@) + text_bytes(") {\n"@) + base + unit + close,
        WrapKind::ForOf { item, iterable } => base + text_bytes("for (const "@) + text_bytes(item@)
            + text_bytes(" of "@) + text_bytes(iterable@) + text_bytes(") {\n"@) + body + close,
        WrapKind::Block => base + text_bytes("{\n"@) + body + close,
    }
}

/// The name of a wrapper kind.
pub open spec fn kind_name(kind: WrapKind) -> Seq<char> {
    match kind {
        WrapKind::If { .. } => "if"@,
        WrapKind::TryCatch { .. } => "try-catch"@,
        WrapKind::ForOf { .. } => "for-of"@,
        WrapKind::Block => "block"@,
    }
}

/// The label of the edit.
pub open spec fn wrap_label(a: nat, b: nat, kind: WrapKind) -> Seq<u8> {
    text_bytes("wrap lines "@) + decimal_bytes(a) + text_bytes("-"@) + decimal_bytes(b) + text_bytes(
        " in \""@,
    ) + text_bytes(kind_name(kind)) + text_bytes("\""@)
}

/// The message for a line range that is empty or not 1-indexed.
pub open spec fn bad_range_message(a: nat, b: nat) -> Seq<u8> {
    text_bytes("Invalid line range: "@) + decimal_bytes(a) + text_bytes("-"@) + decimal_bytes(b) + text_bytes(
        " (1-indexed, start <= end)"@,
    )
}

/// The message for a range past the last line.
pub open spec fn out_of_range_message(b: nat, n: nat) -> Seq<u8> {
    text_bytes("Line "@) + decimal_bytes(b) + text_bytes(" is out of range (file has "@) + decimal_bytes(n)
        + text_bytes(" lines)"@)
}

/// `e` is the parameter error with the message of bytes `m`.
pub open spec fn invalid_with(e: OperationError, m: Seq<u8>) -> bool {
    e matches OperationError::InvalidParams { message } && text_bytes(message@) == m
}

/// A line starts at `p` in valid text, so `p` is a character boundary.
proof fn lemma_start_boundary(s: Seq<u8>, p: int)
    requires
        valid_utf8(s),
        0 <= p < s.len(),
        p == 0 || s[p - 1] == 0x0a,
    ensures
        partial_valid_utf8(s, p),
{
    assert(s.subrange(0, 0) =~= Seq::<u8>::empty());
    if p > 0 {
        lemma_ascii_boundary(s, p - 1);
    }
}

fn message_string(out: Vec<u8>) -> (r: String)
    requires
        valid_utf8(out@),
    ensures
        text_bytes(r@) == out@,
{
    string_of_bytes(out)
}

fn unit_of(style: IndentStyle) -> (r: Vec<u8>)
    ensures
        r@ == unit_bytes(style),
        is_ascii_bytes(r@),
{
    let mut u: Vec<u8> = Vec::new();
    match style {
        IndentStyle::Spaces(n) => {
            let mut i: u8 = 0;
            while i < n
                invariant
                    i <= n,
                    u@ == Seq::new(i as nat, |k: int| 0x20u8),
                decreases n - i,
            {
                u.push(0x20);
                i += 1;
                assert(u@ =~= Seq::new(i as nat, |k: int| 0x20u8));
            }
        },
        IndentStyle::Tabs => {
            u.push(0x09);
            assert(u@ =~= seq![0x09u8]);
        },
    }
    u
}

/// A valid line that starts with ASCII `base` stays valid without it.
proof fn lemma_strip_valid(l: Seq<u8>, base: Seq<u8>)
    requires
        valid_utf8(l),
        is_ascii_bytes(base),
        base.len() <= l.len(),
        l.subrange(0, base.len() as int) == base,
    ensures
        valid_utf8(l.subrange(base.len() as int, l.len() as int)),
{
    let w = base.len() as int;
    assert(l.subrange(0, 0) =~= Seq::<u8>::empty());
    assert forall|j: int| 0 <= 0 <= j < w <= l.len() implies #[trigger] is_leading_byte_width_1(l[j]) by {
        assert(l.subrange(0, w)[j] == base[j]);
    }
    partial_valid_utf8_extend_ascii_block(l, 0, w);
    assert(l.subrange(0, l.len() as int) =~= l);
    lemma_valid_between(l, w, l.len() as int);
}

/// Appends line `p` wrapped: base, unit, and the line without its base.
#[verifier::rlimit(60)]
fn push_wrapped_line(out: &mut Vec<u8>, s: &[u8], p: usize, base: &[u8], unit: &[u8])
    requires
        valid_utf8(old(out)@),
        valid_utf8(s@),
        0 <= p < s@.len(),
        p == 0 || s@[p - 1] == 0x0a,
        is_ascii_bytes(base@),
        is_ascii_bytes(unit@),
    ensures
        final(out)@ == old(out)@ + wrapped_line(s@, p as int, base@, unit@),
        valid_utf8(final(out)@),
{
    proof {
        lemma_start_boundary(s@, p as int);
        lemma_line_valid(s@, p as int);
        lemma_line_end_bounds(s@, p as int);
        lemma_ascii_valid(base@);
        lemma_ascii_valid(unit@);
    }
    let ghost before = out@;
    push_valid(out, base);
    push_valid(out, unit);
    let q = find_line_end(s, p);
    let ce = if q < s.len() && q > p && s[q - 1] == 0x0d { q - 1 } else { q };
    assert(ce == content_end(s@, p as int));
    let ghost l = line_bytes(s@, p as int);
    let w = base.len();
    let ghost mid = out@;
    if w <= ce - p && bytes_eq(&s[p..p + w], base) {
        proof {
            assert(l.subrange(0, w as int) =~= s@.subrange(p as int, p + w));
            lemma_strip_valid(l, base@);
            assert(l.subrange(w as int, l.len() as int) =~= s@.subrange(p + w, ce as int));
        }
        push_range(out, s, p + w, ce);
        proof {
            valid_utf8_concat(mid, s@.subrange(p + w, ce as int));
            assert(strip_base(l, base@) == s@.subrange(p + w, ce as int));
        }
    } else {
        proof {
            if w <= ce - p {
                assert(l.subrange(0, w as int) =~= s@.subrange(p as int, p + w));
            }
            assert(strip_base(l, base@) == l);
        }
        push_range(out, s, p, ce);
        proof {
            valid_utf8_concat(mid, l);
        }
    }
    proof {
        assert(out@ =~= before + wrapped_line(s@, p as int, base@, unit@));
    }
}

impl WrapInBlock {
    /// The edit that wraps the lines: one replacement of the lines' bytes
    /// (the last line break excluded) by the block, labelled with the range.
    #[verifier::rlimit(60)]
    pub fn compute_edits(&self, source: &str) -> (r: Result<Vec<TextEdit>, OperationError>)
        ensures
            wrap_result(*self, text_bytes(source@), r),
    {
        let a = self.start_line;
        let b = self.end_line;
        if a == 0 || b == 0 || a > b {
            return Err(OperationError::InvalidParams { message: message_string(range_message(a, b)) });
        }
        let s = source.as_bytes();
        let ghost sb = s@;
        let st = line_starts_of(s);
        let ghost sts = line_starts(sb);
        proof {
            lemma_starts_bounded(sb, sb.len() as int);
        }
        if b > st.len() {
            return Err(OperationError::InvalidParams { message: message_string(line_message(b, st.len())) });
        }
        let p0 = st[a - 1];
        assert(sts[a - 1] == p0);
        assert(crate::format::is_line_start(sb, p0 as int)) by {
            assert(crate::format::is_line_start(sb, sts[a - 1]));
        }
        let pb = st[b - 1];
        assert(sts[b - 1] == pb);
        assert(crate::format::is_line_start(sb, sts[b - 1]));
        let end_byte = find_line_end(s, pb);
        let base = leading_ws_of(s, p0);
        let style = infer_indent_style(source);
        let unit = unit_of(style);
        let ghost bs = base@;
        let ghost us = unit@;
        let body = wrapped_lines(s, &st, a, b, base.as_slice(), unit.as_slice());
        let out = wrap_block(&self.wrap_kind, base.as_slice(), body.as_slice(), unit.as_slice());
        let replacement = string_of_bytes(out);
        let m = label_bytes(a, b, self.wrap_kind_name());
        let label = string_of_bytes(m);
        proof {
            lemma_line_end_bounds(sb, pb as int);
            lemma_start_boundary(sb, p0 as int);
            assert(sb.subrange(0, sb.len() as int) =~= sb);
            if end_byte < sb.len() {
                lemma_ascii_boundary(sb, end_byte as int);
            }
            if a < b {
                assert(sts[a - 1] < sts[b - 1]);
            }
        }
        let e = TextEdit { start: p0, end: end_byte, replacement, label, priority: 0 };
        let mut v: Vec<TextEdit> = Vec::new();
        v.push(e);
        Ok(v)
    }
}


fn leading_ws_of(s: &[u8], p0: usize) -> (base: Vec<u8>)
    requires
        p0 < s@.len(),
    ensures
        base@ == leading_ws(line_bytes(s@, p0 as int)),
        is_ascii_bytes(base@),
{
    let ghost sb = s@;
    let q0 = find_line_end(s, p0);
    let ce0 = if q0 < s.len() && q0 > p0 && s[q0 - 1] == 0x0d { q0 - 1 } else { q0 };
    let ghost l0 = line_bytes(sb, p0 as int);
    let mut w: usize = p0;
    while w < ce0 && (s[w] == 0x20 || s[w] == 0x09 || s[w] == 0x0a || s[w] == 0x0b || s[w] == 0x0c
        || s[w] == 0x0d)
        invariant
            p0 <= w <= ce0 <= sb.len(),
            sb == s@,
            l0 == sb.subrange(p0 as int, ce0 as int),
            trimmed_start(l0, 0, l0.len() as int) == trimmed_start(l0, w - p0, l0.len() as int),
            forall|j: int| p0 <= j < w ==> #[trigger] sb[j] <= 0x7f,
        decreases ce0 - w,
    {
        assert(l0[w - p0] == sb[w as int]);
        w += 1;
    }
    let mut base: Vec<u8> = Vec::new();
    push_range(&mut base, s, p0, w);
    proof {
        assert(base@ =~= leading_ws(l0));
        assert forall|j: int| 0 <= j < base@.len() implies #[trigger] base@[j] <= 0x7f by {
            assert(base@[j] == sb[p0 + j]);
        }
    }
    base
}

fn range_message(a: usize, b: usize) -> (m: Vec<u8>)
    ensures
        m@ == bad_range_message(a as nat, b as nat),
        valid_utf8(m@),
{
    let mut m: Vec<u8> = Vec::new();
    proof { lemma_ascii_valid(m@); }
    push_str(&mut m, "Invalid line range: ");
    push_decimal(&mut m, a);
    push_str(&mut m, "-");
    push_decimal(&mut m, b);
    push_str(&mut m, " (1-indexed, start <= end)");
    m
}

fn line_message(b: usize, n: usize) -> (m: Vec<u8>)
    ensures
        m@ == out_of_range_message(b as nat, n as nat),
        valid_utf8(m@),
{
    let mut m: Vec<u8> = Vec::new();
    proof { lemma_ascii_valid(m@); }
    push_str(&mut m, "Line ");
    push_decimal(&mut m, b);
    push_str(&mut m, " is out of range (file has ");
    push_decimal(&mut m, n);
    push_str(&mut m, " lines)");
    m
}

fn label_bytes(a: usize, b: usize, name: &str) -> (m: Vec<u8>)
    ensures
        m@ == text_bytes("wrap lines "@) + decimal_bytes(a as nat) + text_bytes("-"@) + decimal_bytes(b as nat)
            + text_bytes(" in \""@) + text_bytes(name@) + text_bytes("\""@),
        valid_utf8(m@),
{
    let mut m: Vec<u8> = Vec::new();
    proof { lemma_ascii_valid(m@); }
    push_str(&mut m, "wrap lines ");
    push_decimal(&mut m, a);
    push_str(&mut m, "-");
    push_decimal(&mut m, b);
    push_str(&mut m, " in \"");
    push_str(&mut m, name);
    push_str(&mut m, "\"");
    m
}

fn wrap_block(kind: &WrapKind, base: &[u8], body: &[u8], unit: &[u8]) -> (out: Vec<u8>)
    requires
        is_ascii_bytes(base@),
        is_ascii_bytes(unit@),
        valid_utf8(body@),
    ensures
        out@ == wrap_text(*kind, base@, body@, unit@),
        valid_utf8(out@),
{
    let mut out: Vec<u8> = Vec::new();
    proof {
        lemma_ascii_valid(out@);
        lemma_ascii_valid(base@);
        lemma_ascii_valid(unit@);
    }
    push_valid(&mut out, base);
    match kind {
        WrapKind::If { condition } => {
            push_str(&mut out, "if (");
            push_str(&mut out, condition.as_str());
            push_str(&mut out, ") {\n");
            push_valid(&mut out, body);
            push_close(&mut out, base);
        },
        WrapKind::TryCatch { catch_param } => {
            push_str(&mut out, "try {\n");
            push_valid(&mut out, body);
            push_close(&mut out, base);
            push_str(&mut out, " catch (");
            push_str(&mut out, catch_param.as_str());
            push_str(&mut out, ") {\n");
            push_valid(&mut out, base);
            push_valid(&mut out, unit);
            push_close(&mut out, base);
        },
        WrapKind::ForOf { item, iterable } => {
            push_str(&mut out, "for (const ");
            push_str(&mut out, item.as_str());
            push_str(&mut out, " of ");
            push_str(&mut out, iterable.as_str());
            push_str(&mut out, ") {\n");
            push_valid(&mut out, body);
            push_close(&mut out, base);
        },
        WrapKind::Block => {
            push_str(&mut out, "{\n");
            push_valid(&mut out, body);
            push_close(&mut out, base);
        },
    }
    assert(out@ =~= wrap_text(*kind, base@, body@, unit@));
    out
}

fn wrapped_lines(s: &[u8], st: &Vec<usize>, a: usize, b: usize, base: &[u8], unit: &[u8]) -> (body: Vec<u8>)
    requires
        valid_utf8(s@),
        st@.len() == line_starts(s@).len(),
        forall|j: int| 0 <= j < st@.len() ==> st@[j] as int == line_starts(s@)[j],
        forall|j: int| 0 <= j < st@.len() ==> 0 <= #[trigger] line_starts(s@)[j] < s@.len(),
        forall|j: int| 0 <= j < st@.len() ==> crate::format::is_line_start(s@, #[trigger] line_starts(s@)[j]),
        1 <= a <= b <= st@.len(),
        is_ascii_bytes(base@),
        is_ascii_bytes(unit@),
    ensures
        body@ == wrapped_body(s@, line_starts(s@), a as int, b as int, base@, unit@),
        valid_utf8(body@),
{
    let ghost sts = line_starts(s@);
    let mut body: Vec<u8> = Vec::new();
    proof { lemma_ascii_valid(body@); }
    let p0 = st[a - 1];
    assert(sts[a - 1] == p0);
    assert(crate::format::is_line_start(s@, sts[a - 1]));
    push_wrapped_line(&mut body, s, p0, base, unit);
    assert(body@ =~= wrapped_body(s@, sts, a as int, a as int, base@, unit@));
    let mut k: usize = a;
    while k < b
        invariant
            valid_utf8(s@),
            sts == line_starts(s@),
            st@.len() == sts.len(),
            forall|j: int| 0 <= j < st@.len() ==> st@[j] as int == sts[j],
            forall|j: int| 0 <= j < sts.len() ==> 0 <= #[trigger] sts[j] < s@.len(),
            forall|j: int| 0 <= j < sts.len() ==> crate::format::is_line_start(s@, #[trigger] sts[j]),
            1 <= a <= k <= b <= st@.len(),
            is_ascii_bytes(base@),
            is_ascii_bytes(unit@),
            valid_utf8(body@),
            body@ == wrapped_body(s@, sts, a as int, k as int, base@, unit@),
        decreases b - k,
    {
        let p = st[k];
        assert(sts[k as int] == p);
        assert(crate::format::is_line_start(s@, sts[k as int]));
        let ghost before = body@;
        body.push(0x0a);
        proof {
            lemma_ascii_valid(seq![0x0au8]);
            valid_utf8_concat(before, seq![0x0au8]);
            assert(body@ =~= before + seq![0x0au8]);
        }
        push_wrapped_line(&mut body, s, p, base, unit);
        k += 1;
        proof {
            assert(body@ =~= wrapped_body(s@, sts, a as int, k as int, base@, unit@));
        }
    }
    body
}

/// Appends a line break, the base indentation and a closing brace.
fn push_close(out: &mut Vec<u8>, base: &[u8])
    requires
        valid_utf8(old(out)@),
        is_ascii_bytes(base@),
    ensures
        final(out)@ == old(out)@ + (seq![0x0au8] + base@ + text_bytes("}"@)),
        valid_utf8(final(out)@),
{
    let ghost before = out@;
    out.push(0x0a);
    proof {
        lemma_ascii_valid(seq![0x0au8]);
        valid_utf8_concat(before, seq![0x0au8]);
        assert(out@ =~= before + seq![0x0au8]);
        lemma_ascii_valid(base@);
    }
    push_valid(out, base);
    push_str(out, "}");
    assert(out@ =~= before + (seq![0x0au8] + base@ + text_bytes("}"@)));
}

/// What `WrapInBlock::compute_edits` gives.
pub open spec fn wrap_result(op: WrapInBlock, src: Seq<u8>, r: Result<Vec<TextEdit>, OperationError>) -> bool {
    &&& ({
            let s = src;
            let st = line_starts(s);
            let a = op.start_line as int;
            let b = op.end_line as int;
            if a == 0 || b == 0 || a > b {
                r matches Err(e) && invalid_with(e, bad_range_message(a as nat, b as nat))
            } else if b > st.len() {
                r matches Err(e) && invalid_with(e, out_of_range_message(b as nat, st.len()))
            } else {
                let base = leading_ws(line_bytes(s, st[a - 1]));
                let unit = unit_bytes(inferred_style(s));
                r matches Ok(v) && v@.len() == 1 && ({
                    let e = v@[0];
                    &&& e.start == st[a - 1]
                    &&& e.end == line_end(s, st[b - 1])
                    &&& on_boundaries(s, e.start as int, e.end as int)
                    &&& text_bytes(e.replacement@) == wrap_text(
                        op.wrap_kind,
                        base,
                        wrapped_body(s, st, a, b, base, unit),
                        unit,
                    )
                    &&& text_bytes(e.label@) == wrap_label(a as nat, b as nat, op.wrap_kind)
                    &&& e.priority == 0
                })
            }
    })
}

} // verus!
