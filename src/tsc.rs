//! Reading tsc's plain diagnostic output (`--pretty false`) into a step result.

use vstd::prelude::*;
use vstd::utf8::*;

use crate::format::{find_line_end, lemma_line_end_bounds, lemma_starts_bounded, line_end, line_starts, line_starts_of};
use crate::style::{trimmed_end, trimmed_start};
use crate::text::{lemma_ascii_boundary, lemma_valid_between, push_range, str_eq, string_of_bytes, text_bytes};
use crate::verification::{DiagnosticItem, StepResult};

verus! {

broadcast use encode_utf8_valid_utf8;

/// The six parts of a tsc diagnostic line.
#[derive(Debug, Clone)]
pub struct TscFields {
    pub file: String,
    pub line: String,
    pub column: String,
    pub severity: String,
    pub code: String,
    pub message: String,
}

/// The pattern of a tsc diagnostic line: `file(line,col): error|warning TSnnnn: message`.
pub const TSC_PATTERN: &'static str = r"^(.+?)\((\d+),(\d+)\):\s+(error|warning)\s+(TS\d+):\s+(.+)$";

/// What the tsc pattern captures in a line (file, line, column, severity,
/// code, message), if the line matches it.
pub uninterp spec fn tsc_fields_of(line: Seq<char>) -> Option<
    (Seq<char>, Seq<char>, Seq<char>, Seq<char>, Seq<char>, Seq<char>),
>;

/// Relies on `regex::Regex::captures` with `TSC_PATTERN`: the six groups of
/// a matching line, none for another line; the match depends on the line alone.
#[verifier::external_body]
fn tsc_captures(line: &str) -> (r: Option<TscFields>)
    ensures
        match r {
            Some(f) => tsc_fields_of(line@) == Some(
                (f.file@, f.line@, f.column@, f.severity@, f.code@, f.message@),
            ),
            None => tsc_fields_of(line@) is None,
        },
        r matches Some(f) ==> (f.severity@ == "error"@ || f.severity@ == "warning"@),
{
    let re = regex::Regex::new(TSC_PATTERN).unwrap();
    re.captures(line).map(|c| TscFields {
        file: c[1].to_string(),
        line: c[2].to_string(),
        column: c[3].to_string(),
        severity: c[4].to_string(),
        code: c[5].to_string(),
        message: c[6].to_string(),
    })
}

pub open spec fn is_digit(b: u8) -> bool {
    0x30 <= b <= 0x39
}

/// The number the decimal digits `s` write.
pub open spec fn decimal_value(s: Seq<u8>) -> nat
    decreases s.len(),
{
    if s.len() == 0 {
        0
    } else {
        decimal_value(s.drop_last()) * 10 + (s.last() - 0x30) as nat
    }
}

/// The digits of `s`, a leading `+` dropped.
pub open spec fn unsigned_digits(s: Seq<u8>) -> Seq<u8> {
    if s.len() > 0 && s[0] == 0x2b {
        s.drop_first()
    } else {
        s
    }
}

/// The `usize` that `s` writes in decimal (`+` allowed in front), if it
/// writes one that fits.
pub open spec fn usize_of(s: Seq<u8>) -> Option<nat> {
    let d = unsigned_digits(s);
    if d.len() > 0 && (forall|i: int| 0 <= i < d.len() ==> is_digit(#[trigger] d[i])) && decimal_value(d)
        <= usize::MAX {
        Some(decimal_value(d))
    } else {
        None
    }
}

/// The number `s` writes, or 0 when it writes no `usize`.
pub open spec fn parsed_number(s: Seq<u8>) -> nat {
    match usize_of(s) {
        Some(v) => v,
        None => 0,
    }
}

proof fn lemma_value_grows(s: Seq<u8>, i: int)
    requires
        0 <= i <= s.len(),
        forall|j: int| 0 <= j < s.len() ==> is_digit(#[trigger] s[j]),
    ensures
        decimal_value(s.take(i)) <= decimal_value(s),
    decreases s.len() - i,
{
    if i < s.len() {
        assert(s.drop_last().take(i) =~= s.take(i));
        lemma_value_grows(s.drop_last(), i);
    } else {
        assert(s.take(i) =~= s);
    }
}

/// The `usize` that `text` writes in decimal, as `str::parse` reads it.
pub fn parse_usize(text: &str) -> (r: Option<usize>)
    ensures
        match r {
            Some(v) => usize_of(text_bytes(text@)) == Some(v as nat),
            None => usize_of(text_bytes(text@)) is None,
        },
{
    let s = text.as_bytes();
    let start: usize = if s.len() > 0 && s[0] == 0x2b { 1 } else { 0 };
    let ghost d = unsigned_digits(s@);
    assert(d =~= s@.subrange(start as int, s@.len() as int));
    if s.len() <= start {
        return None;
    }
    let mut v: usize = 0;
    let mut i: usize = start;
    while i < s.len()
        invariant
            s@ == text_bytes(text@),
            d == unsigned_digits(s@),
            d == s@.subrange(start as int, s@.len() as int),
            start <= i <= s@.len(),
            d.len() > 0,
            forall|j: int| 0 <= j < i - start ==> is_digit(#[trigger] d[j]),
            v == decimal_value(d.take(i - start)),
        decreases s@.len() - i,
    {
        let b = s[i];
        assert(d[i - start] == b);
        if b < 0x30 || b > 0x39 {
            assert(!is_digit(d[i - start]));
            assert(!(forall|j: int| 0 <= j < d.len() ==> is_digit(#[trigger] d[j])));
            return None;
        }
        let dg = (b - 0x30) as usize;
        let ghost t = d.take(i - start + 1);
        assert(t.drop_last() =~= d.take(i - start));
        assert(t.last() == b);
        assert(decimal_value(t) == v * 10 + dg);
        if v > (usize::MAX - dg) / 10 {
            proof {
                assert(decimal_value(t) > usize::MAX) by (nonlinear_arith)
                    requires
                        decimal_value(t) == v * 10 + dg,
                        v > (usize::MAX - dg) / 10,
                        dg <= 9,
                ;
                if forall|j: int| 0 <= j < d.len() ==> is_digit(#[trigger] d[j]) {
                    lemma_value_grows(d, i - start + 1);
                    assert(decimal_value(d) > usize::MAX);
                }
            }
            return None;
        }
        proof {
            assert(v * 10 + dg <= usize::MAX) by (nonlinear_arith)
                requires
                    v <= (usize::MAX - dg) / 10,
                    dg <= 9,
            ;
        }
        v = v * 10 + dg;
        i += 1;
    }
    assert(d.take(i - start) =~= d);
    Some(v)
}

/// The number `text` writes in decimal, or 0.
pub fn parse_number(text: &str) -> (r: usize)
    ensures
        r == parsed_number(text_bytes(text@)),
{
    match parse_usize(text) {
        Some(v) => v,
        None => 0,
    }
}

/// The hint attached to every tsc diagnostic.
pub open spec fn tsc_hint() -> Seq<char> {
    "Call fe_doctor with this error for a structured fix"@
}

/// `d` is the diagnostic read from the parts `f` of a tsc line.
pub open spec fn diagnostic_of(
    d: DiagnosticItem,
    f: (Seq<char>, Seq<char>, Seq<char>, Seq<char>, Seq<char>, Seq<char>),
) -> bool {
    &&& d.file@ == f.0
    &&& d.line == parsed_number(text_bytes(f.1))
    &&& d.column == parsed_number(text_bytes(f.2))
    &&& d.severity@ == f.3
    &&& (d.rule matches Some(c) && c@ == f.4)
    &&& d.message@ == f.5
    &&& (d.suggestion matches Some(h) && h@ == tsc_hint())
}

/// The diagnostic that the parts of a tsc line describe.
pub fn diagnostic_from_tsc(f: TscFields) -> (d: DiagnosticItem)
    ensures
        diagnostic_of(d, (f.file@, f.line@, f.column@, f.severity@, f.code@, f.message@)),
{
    let line = parse_number(f.line.as_str());
    let column = parse_number(f.column.as_str());
    DiagnosticItem {
        file: f.file,
        line,
        column,
        message: f.message,
        rule: Some(f.code),
        severity: f.severity,
        suggestion: Some("Call fe_doctor with this error for a structured fix".to_owned()),
    }
}

/// The text of the line at `p`, whitespace trimmed from both ends.
pub open spec fn trimmed_line(s: Seq<u8>, p: int) -> Seq<char> {
    let e = trimmed_end(s, p, line_end(s, p));
    decode_utf8(s.subrange(trimmed_start(s, p, e), e))
}

/// The trimmed lines among the first `k` that the tsc pattern matches.
pub open spec fn tsc_lines_upto(s: Seq<u8>, st: Seq<int>, k: int) -> Seq<Seq<char>>
    decreases k,
{
    if k <= 0 {
        Seq::empty()
    } else if tsc_fields_of(trimmed_line(s, st[k - 1])) is Some {
        tsc_lines_upto(s, st, k - 1).push(trimmed_line(s, st[k - 1]))
    } else {
        tsc_lines_upto(s, st, k - 1)
    }
}

/// The matched lines of the output `s`.
pub open spec fn tsc_lines(s: Seq<u8>) -> Seq<Seq<char>> {
    tsc_lines_upto(s, line_starts(s), line_starts(s).len() as int)
}

/// The severity a matched line reports.
pub open spec fn severity_of(line: Seq<char>) -> Seq<char> {
    let f = tsc_fields_of(line)->0;
    f.3
}

/// How many of `ls[..k]` report an error.
pub open spec fn errors_upto(ls: Seq<Seq<char>>, k: int) -> nat
    decreases k,
{
    if k <= 0 {
        0
    } else {
        errors_upto(ls, k - 1) + (if severity_of(ls[k - 1]) == "error"@ { 1nat } else { 0nat })
    }
}

proof fn lemma_errors_bounded(ls: Seq<Seq<char>>, k: int)
    requires
        k >= 0,
    ensures
        errors_upto(ls, k) <= k,
    decreases k,
{
    if k > 0 {
        lemma_errors_bounded(ls, k - 1);
    }
}

proof fn lemma_prefix_stable(ls: Seq<Seq<char>>, x: Seq<char>, k: int)
    requires
        0 <= k <= ls.len(),
    ensures
        errors_upto(ls.push(x), k) == errors_upto(ls, k),
    decreases k,
{
    if k > 0 {
        lemma_prefix_stable(ls, x, k - 1);
    }
}

#[verifier::rlimit(40)]
fn trimmed_range(s: &[u8], p: usize) -> (r: (usize, usize))
    requires
        p <= s@.len(),
        valid_utf8(s@),
        partial_valid_utf8(s@, p as int),
    ensures
        r.1 == trimmed_end(s@, p as int, line_end(s@, p as int)),
        r.0 == trimmed_start(s@, p as int, r.1 as int),
        p <= r.0 <= r.1 <= s@.len(),
        valid_utf8(s@.subrange(r.0 as int, r.1 as int)),
{
    let q = find_line_end(s, p);
    let mut e = q;
    while e > p && (s[e - 1] == 0x20 || s[e - 1] == 0x09 || s[e - 1] == 0x0a || s[e - 1] == 0x0b
        || s[e - 1] == 0x0c || s[e - 1] == 0x0d)
        invariant
            p <= e <= q <= s@.len(),
            trimmed_end(s@, p as int, q as int) == trimmed_end(s@, p as int, e as int),
            e < q ==> s@[e as int] <= 0x7f,
        decreases e - p,
    {
        e -= 1;
    }
    let mut a = p;
    while a < e && (s[a] == 0x20 || s[a] == 0x09 || s[a] == 0x0a || s[a] == 0x0b || s[a] == 0x0c
        || s[a] == 0x0d)
        invariant
            p <= a <= e <= s@.len(),
            trimmed_start(s@, p as int, e as int) == trimmed_start(s@, a as int, e as int),
            forall|j: int| p <= j < a ==> #[trigger] s@[j] <= 0x7f,
        decreases e - a,
    {
        a += 1;
    }
    proof {
        assert(s@.subrange(0, s@.len() as int) =~= s@);
        if e < q {
            lemma_ascii_boundary(s@, e as int);
        } else if q < s@.len() {
            lemma_ascii_boundary(s@, q as int);
        }
        assert forall|j: int| p <= j < a <= s@.len() implies #[trigger] is_leading_byte_width_1(s@[j]) by {}
        partial_valid_utf8_extend_ascii_block(s@, p as int, a as int);
        lemma_valid_between(s@, a as int, e as int);
    }
    (a, e)
}

/// The result of the type-check step from tsc's output: one diagnostic per
/// matching line, counted as an error or a warning by its severity; the
/// step fails when there is an error.
pub fn parse_tsc_output(stdout: &str) -> (r: StepResult)
    ensures
        r.errors@.len() == tsc_lines(text_bytes(stdout@)).len(),
        forall|i: int| 0 <= i < r.errors@.len() ==> diagnostic_of(
            #[trigger] r.errors@[i],
            tsc_fields_of(tsc_lines(text_bytes(stdout@))[i])->0,
        ),
        r.error_count == errors_upto(tsc_lines(text_bytes(stdout@)), tsc_lines(text_bytes(stdout@)).len() as int),
        r.warning_count == r.errors@.len() - r.error_count,
        r.status@ == (if r.error_count > 0 { "fail"@ } else { "pass"@ }),
{
    let s = stdout.as_bytes();
    let ghost sb = s@;
    let ghost st = line_starts(sb);
    let starts = line_starts_of(s);
    proof {
        lemma_starts_bounded(sb, sb.len() as int);
    }
    let mut errors: Vec<DiagnosticItem> = Vec::new();
    let mut error_count: usize = 0;
    let mut k: usize = 0;
    while k < starts.len()
        invariant
            sb == s@,
            valid_utf8(sb),
            st == line_starts(sb),
            starts@.len() == st.len(),
            forall|j: int| 0 <= j < starts@.len() ==> starts@[j] as int == st[j],
            forall|j: int| 0 <= j < st.len() ==> 0 <= #[trigger] st[j] < sb.len(),
            forall|j: int| 0 <= j < st.len() ==> #[trigger] st[j] == 0 || sb[st[j] - 1] == 0x0a,
            k <= starts@.len(),
            errors@.len() == tsc_lines_upto(sb, st, k as int).len(),
            errors@.len() <= k,
            forall|i: int| 0 <= i < errors@.len() ==> diagnostic_of(
                #[trigger] errors@[i],
                tsc_fields_of(tsc_lines_upto(sb, st, k as int)[i])->0,
            ),
            error_count == errors_upto(tsc_lines_upto(sb, st, k as int), errors@.len() as int),
        decreases starts@.len() - k,
    {
        let p = starts[k];
        proof {
            assert(st[k as int] == p);
            assert(sb.subrange(0, 0) =~= Seq::<u8>::empty());
            if p > 0 {
                lemma_ascii_boundary(sb, p - 1);
            }
        }
        let (a, e) = trimmed_range(s, p);
        let mut bytes: Vec<u8> = Vec::new();
        push_range(&mut bytes, s, a, e);
        let line = string_of_bytes(bytes);
        proof {
            encode_utf8_decode_utf8(line@);
            assert(line@ == trimmed_line(sb, p as int));
        }
        let ghost prev = tsc_lines_upto(sb, st, k as int);
        match tsc_captures(line.as_str()) {
            Some(f) => {
                let is_error = str_eq(f.severity.as_str(), "error");
                let d = diagnostic_from_tsc(f);
                errors.push(d);
                proof {
                    let now = tsc_lines_upto(sb, st, k + 1);
                    assert(now == prev.push(line@));
                    lemma_prefix_stable(prev, line@, prev.len() as int);
                    lemma_errors_bounded(prev, prev.len() as int);
                    assert forall|i: int| 0 <= i < errors@.len() implies diagnostic_of(
                        #[trigger] errors@[i],
                        tsc_fields_of(now[i])->0,
                    ) by {
                        if i < prev.len() {
                            assert(now[i] == prev[i]);
                        }
                    }
                }
                if is_error {
                    error_count += 1;
                }
            },
            None => {},
        }
        k += 1;
    }
    proof {
        lemma_errors_bounded(tsc_lines_upto(sb, st, k as int), errors@.len() as int);
    }
    let warning_count = errors.len() - error_count;
    let status = if error_count > 0 { "fail".to_owned() } else { "pass".to_owned() };
    StepResult { status, error_count, warning_count, errors }
}

} // verus!
