//! Byte-range edits over one source string.
//!
//! An `EditSet` holds replacements sorted by (start, end, priority) that
//! never overlap; applying it splices every replacement into the source in
//! one pass, each run of insertions at one offset in reverse order.

use vstd::prelude::*;
use vstd::utf8::*;

use crate::text::{on_boundaries, push_all, push_range, string_of_bytes, text_bytes, lemma_valid_between};

verus! {

broadcast use encode_utf8_valid_utf8;

/// One replacement of the bytes `[start, end)` of the original source.
#[derive(Debug, Clone, PartialEq, Eq)]
pub struct TextEdit {
    /// First byte replaced (inclusive).
    pub start: usize,
    /// Byte past the last one replaced (exclusive).
    pub end: usize,
    /// The text written in place of the range.
    pub replacement: String,
    /// A name for diagnostics.
    pub label: String,
    /// Orders edits of one range: sorted ascending, and of insertions at one
    /// offset the lower priority lands later in the output.
    pub priority: i32,
}

/// Why a list of edits cannot form an `EditSet`.
#[derive(Debug, Clone, PartialEq, Eq)]
pub enum EditConflict {
    Overlapping {
        a_label: String,
        a_start: usize,
        a_end: usize,
        b_label: String,
        b_start: usize,
        b_end: usize,
    },
    OutOfBounds { label: String, start: usize, end: usize, source_len: usize },
}

impl TextEdit {
    pub open spec fn is_insertion(self) -> bool {
        self.start == self.end
    }

    pub open spec fn in_bounds(self, source_len: int) -> bool {
        self.start <= self.end && self.end <= source_len
    }

    /// The bytes written in place of the range.
    pub open spec fn rep(self) -> Seq<u8> {
        text_bytes(self.replacement@)
    }

    /// How much this edit changes the length of the text.
    pub open spec fn net_change(self) -> int {
        self.rep().len() - (self.end - self.start)
    }
}

/// Two neighbours in a sorted set may stand together: both insert at one
/// offset, or the first ends before the second starts.
pub open spec fn adjacent_ok(a: TextEdit, b: TextEdit) -> bool {
    (a.is_insertion() && b.is_insertion() && a.start == b.start) || a.end <= b.start
}

pub open spec fn all_in_bounds(es: Seq<TextEdit>, source_len: int) -> bool {
    forall|i: int| 0 <= i < es.len() ==> (#[trigger] es[i]).in_bounds(source_len)
}

/// The order of an edit set: by start, then end, then priority, ascending.
pub open spec fn key_le(a: TextEdit, b: TextEdit) -> bool {
    a.start < b.start || (a.start == b.start && (a.end < b.end || (a.end == b.end && a.priority
        <= b.priority)))
}

pub open spec fn same_key(a: TextEdit, b: TextEdit) -> bool {
    a.start == b.start && a.end == b.end && a.priority == b.priority
}

pub open spec fn is_sorted(es: Seq<TextEdit>) -> bool {
    forall|i: int, j: int| 0 <= i < j < es.len() ==> key_le(#[trigger] es[i], #[trigger] es[j])
}

pub open spec fn is_permutation(p: Seq<int>, n: int) -> bool {
    &&& p.len() == n
    &&& forall|i: int| 0 <= i < n ==> 0 <= #[trigger] p[i] < n
    &&& forall|i: int, j: int| 0 <= i < n && 0 <= j < n && i != j ==> #[trigger] p[i] != #[trigger] p[j]
}

/// `s` is `es` sorted by `key_le`, edits of equal key kept in their order in `es`.
pub open spec fn stable_sort_of(s: Seq<TextEdit>, es: Seq<TextEdit>) -> bool {
    &&& s.len() == es.len()
    &&& is_sorted(s)
    &&& exists|p: Seq<int>|
        {
            &&& is_permutation(p, es.len() as int)
            &&& forall|i: int| 0 <= i < s.len() ==> #[trigger] s[i] == es[p[i]]
            &&& forall|i: int, j: int|
                0 <= i < j < s.len() && same_key(s[i], s[j]) ==> #[trigger] p[i] < #[trigger] p[j]
        }
}

/// Relies on `slice::sort_by_key`: a stable sort, so the result is the input
/// reordered by the key, equal keys left in their order.
#[verifier::external_body]
fn sort_edits(edits: &mut Vec<TextEdit>)
    ensures
        final(edits)@.len() == old(edits)@.len(),
        stable_sort_of(final(edits)@, old(edits)@),
{
    edits.sort_by_key(|e| (e.start, e.end, e.priority));
}

/// The first edit of `s` from `i` on that does not fit a source of `n` bytes.
pub open spec fn first_out_of_bounds(s: Seq<TextEdit>, n: int, i: int) -> Option<int>
    decreases s.len() - i,
{
    if i < 0 || i >= s.len() {
        None
    } else if !s[i].in_bounds(n) {
        Some(i)
    } else {
        first_out_of_bounds(s, n, i + 1)
    }
}

/// The first `i` from `j` on where `s[i]` and `s[i + 1]` cannot stand together.
pub open spec fn first_clash(s: Seq<TextEdit>, j: int) -> Option<int>
    decreases s.len() - j,
{
    if j < 0 || j + 1 >= s.len() {
        None
    } else if !adjacent_ok(s[j], s[j + 1]) {
        Some(j)
    } else {
        first_clash(s, j + 1)
    }
}

/// The sorted edits `s` fit a source of `n` bytes and no neighbours overlap.
pub open spec fn build_ok(s: Seq<TextEdit>, n: usize) -> bool {
    first_out_of_bounds(s, n as int, 0) is None && first_clash(s, 0) is None
}

/// `c` names the first fault of the sorted edits `s`: the first edit out of
/// bounds, else the first pair that overlaps.
pub open spec fn conflict_of(s: Seq<TextEdit>, n: usize, c: EditConflict) -> bool {
    match first_out_of_bounds(s, n as int, 0) {
        Some(i) => c matches EditConflict::OutOfBounds { label, start, end, source_len } && label
            == s[i].label && start == s[i].start && end == s[i].end && source_len == n,
        None => match first_clash(s, 0) {
            Some(i) => c matches EditConflict::Overlapping { a_label, a_start, a_end, b_label, b_start, b_end }
                && a_label == s[i].label && a_start == s[i].start && a_end == s[i].end && b_label
                == s[i + 1].label && b_start == s[i + 1].start && b_end == s[i + 1].end,
            None => false,
        },
    }
}

/// What building a set from the sorted edits `s` gives: the set of `s`, or
/// the first fault.
pub open spec fn build_outcome(s: Seq<TextEdit>, n: usize, r: Result<EditSet, EditConflict>) -> bool {
    if build_ok(s, n) {
        r matches Ok(set) && set@ == s
    } else {
        r matches Err(c) && conflict_of(s, n, c)
    }
}

/// Every edit lies in order after the ones before it.
pub open spec fn chained(es: Seq<TextEdit>) -> bool {
    &&& forall|i: int| 0 <= i < es.len() ==> (#[trigger] es[i]).start <= es[i].end
    &&& forall|i: int, j: int| 0 <= i < j < es.len() ==> (#[trigger] es[i]).end <= (#[trigger] es[j]).start
}

/// The edits of a valid set: sorted, each in order, neighbours compatible.
pub open spec fn valid_edit_list(es: Seq<TextEdit>) -> bool {
    &&& is_sorted(es)
    &&& forall|i: int| 0 <= i < es.len() ==> (#[trigger] es[i]).start <= es[i].end
    &&& forall|i: int| 0 <= i < es.len() - 1 ==> adjacent_ok(#[trigger] es[i], es[i + 1])
}

/// Every edit of `es` starts and ends on a character boundary of `src`.
pub open spec fn fits(es: Seq<TextEdit>, src: Seq<u8>) -> bool {
    forall|i: int| 0 <= i < es.len() ==> on_boundaries(src, (#[trigger] es[i]).start as int, es[i].end as int)
}

/// The end of the run of insertions at one offset that `es[k]` opens, looking from `j`.
pub open spec fn run_end_from(es: Seq<TextEdit>, k: int, j: int) -> int
    decreases es.len() - j,
{
    if 0 <= k < j < es.len() && es[k].is_insertion() && es[j].is_insertion() && es[j].start == es[k].start {
        run_end_from(es, k, j + 1)
    } else {
        j
    }
}

/// The end of the run that starts at `k`: past the insertions at the offset
/// of `es[k]` when it inserts, else `k + 1`.
pub open spec fn run_end(es: Seq<TextEdit>, k: int) -> int {
    run_end_from(es, k, k + 1)
}

/// The order in which the edits `es[k..]` are written: each run of
/// insertions at one offset reversed.
pub open spec fn emit_from(es: Seq<TextEdit>, k: int) -> Seq<TextEdit>
    decreases es.len() - k,
{
    if k < 0 || k >= es.len() {
        Seq::empty()
    } else {
        let g = run_end(es, k);
        if g <= k || g > es.len() {
            Seq::empty()
        } else {
            es.subrange(k, g).reverse() + emit_from(es, g)
        }
    }
}

/// The order in which a set's edits are written.
pub open spec fn emit_order(es: Seq<TextEdit>) -> Seq<TextEdit> {
    emit_from(es, 0)
}

/// The text from byte `pos` of `src` on, with the edits `es[k..]` spliced in, in their order.
pub open spec fn splice_from(src: Seq<u8>, es: Seq<TextEdit>, k: int, pos: int) -> Seq<u8>
    decreases es.len() - k,
{
    if k < 0 || k >= es.len() {
        src.subrange(pos, src.len() as int)
    } else {
        src.subrange(pos, es[k].start as int) + es[k].rep() + splice_from(src, es, k + 1, es[k].end as int)
    }
}

/// The result of applying the set `es` to `src`: its edits written in
/// `emit_order`, each replacing its range.
pub open spec fn spliced(src: Seq<u8>, es: Seq<TextEdit>) -> Seq<u8> {
    splice_from(src, emit_order(es), 0, 0)
}

pub proof fn lemma_valid_list_chained(es: Seq<TextEdit>)
    requires
        valid_edit_list(es),
    ensures
        chained(es),
{
    assert forall|i: int, j: int| 0 <= i < j < es.len() implies (#[trigger] es[i]).end <= (#[trigger] es[j]).start by {
        lemma_chain_step(es, i, j);
    }
}

proof fn lemma_chain_step(es: Seq<TextEdit>, i: int, j: int)
    requires
        valid_edit_list(es),
        0 <= i < j < es.len(),
    ensures
        es[i].end <= es[j].start,
    decreases j - i,
{
    assert(adjacent_ok(es[i], es[i + 1]));
    if j > i + 1 {
        lemma_chain_step(es, i + 1, j);
    }
}

#[verifier::rlimit(100)]
proof fn lemma_run_layout(es: Seq<TextEdit>, em: Seq<TextEdit>, k: int, g: int)
    requires
        valid_edit_list(es),
        em == emit_order(es),
        em.len() == es.len(),
        0 <= k < g <= es.len(),
        run_end_from(es, k, k + 1) == run_end_from(es, k, g),
        !(g < es.len() && es[k].is_insertion() && es[g].is_insertion() && es[g].start == es[k].start),
        em.subrange(k, es.len() as int) == emit_from(es, k),
    ensures
        forall|x: int| k <= x < g ==> #[trigger] em[x] == es[g - 1 - (x - k)],
        em.subrange(g, es.len() as int) == emit_from(es, g),
{
    let n = es.len() as int;
    assert(run_end_from(es, k, g) == g);
    lemma_run_end(es, k, k + 1);
    lemma_emit_len(es, g);
    let a = es.subrange(k, g).reverse();
    assert(emit_from(es, k) == a + emit_from(es, g));
    assert forall|x: int| k <= x < g implies #[trigger] em[x] == es[g - 1 - (x - k)] by {
        assert(em.subrange(k, n)[x - k] == em[x]);
        assert(a[x - k] == es[g - 1 - (x - k)]);
    }
    assert(em.subrange(g, n) =~= (a + emit_from(es, g)).subrange(a.len() as int, n - k));
    assert((a + emit_from(es, g)).subrange(a.len() as int, n - k) =~= emit_from(es, g));
}

proof fn lemma_emit_len(es: Seq<TextEdit>, k: int)
    requires
        0 <= k <= es.len(),
    ensures
        emit_from(es, k).len() == es.len() - k,
    decreases es.len() - k,
{
    if k < es.len() {
        lemma_run_end(es, k, k + 1);
        let g = run_end(es, k);
        lemma_emit_len(es, g);
    }
}

proof fn lemma_run_end(es: Seq<TextEdit>, k: int, j: int)
    requires
        0 <= k < j <= es.len(),
        forall|t: int| k < t < j ==> (#[trigger] es[t]).is_insertion() && es[t].start == es[k].start && es[k].is_insertion(),
    ensures
        j <= run_end_from(es, k, j) <= es.len(),
        forall|t: int| k < t < run_end_from(es, k, j) ==> (#[trigger] es[t]).is_insertion() && es[t].start == es[k].start
            && es[k].is_insertion(),
        run_end_from(es, k, j) < es.len() ==> !(es[k].is_insertion() && es[run_end_from(es, k, j)].is_insertion()
            && es[run_end_from(es, k, j)].start == es[k].start),
    decreases es.len() - j,
{
    if j < es.len() && es[k].is_insertion() && es[j].is_insertion() && es[j].start == es[k].start {
        assert(run_end_from(es, k, j) == run_end_from(es, k, j + 1));
        lemma_run_end(es, k, j + 1);
    } else {
        assert(run_end_from(es, k, j) == j);
    }
}

/// The edits `es[k..]` in their written order: as many, each one of them,
/// still in order one after another.
#[verifier::rlimit(100)]
proof fn lemma_emit(es: Seq<TextEdit>, k: int)
    requires
        valid_edit_list(es),
        0 <= k <= es.len(),
    ensures
        emit_from(es, k).len() == es.len() - k,
        forall|m: int| 0 <= m < emit_from(es, k).len() ==> exists|i: int| k <= i < es.len() && #[trigger] emit_from(es, k)[m] == es[i],
        chained(emit_from(es, k)),
        k < es.len() ==> forall|m: int| 0 <= m < emit_from(es, k).len() ==> (#[trigger] emit_from(es, k)[m]).start >= es[k].start,
    decreases es.len() - k,
{
    lemma_valid_list_chained(es);
    if k < es.len() {
        lemma_run_end(es, k, k + 1);
        let g = run_end(es, k);
        lemma_emit(es, g);
        let a = es.subrange(k, g).reverse();
        let b = emit_from(es, g);
        let e = a + b;
        assert(emit_from(es, k) == e);
        assert forall|m: int| 0 <= m < e.len() implies exists|i: int| k <= i < es.len() && #[trigger] e[m] == es[i] by {
            if m < a.len() {
                assert(e[m] == es[g - 1 - m]);
            } else {
                assert(e[m] == b[m - a.len()]);
            }
        }
        assert forall|m: int| 0 <= m < e.len() implies (#[trigger] e[m]).start >= es[k].start by {
            if m < a.len() {
                assert(e[m] == es[g - 1 - m]);
                if g - 1 - m > k {
                    assert(es[g - 1 - m].start == es[k].start);
                }
            } else {
                assert(e[m] == b[m - a.len()]);
                if g < es.len() {
                    assert(es[k].start <= es[g].start) by {
                        assert(key_le(es[k], es[g]));
                    }
                }
            }
        }
        assert forall|m: int| 0 <= m < e.len() implies (#[trigger] e[m]).start <= e[m].end by {
            if m < a.len() {
                assert(e[m] == es[g - 1 - m]);
            } else {
                assert(e[m] == b[m - a.len()]);
            }
        }
        assert forall|m1: int, m2: int| 0 <= m1 < m2 < e.len() implies (#[trigger] e[m1]).end <= (#[trigger] e[m2]).start by {
            if m2 < a.len() {
                assert(e[m1] == es[g - 1 - m1]);
                assert(e[m2] == es[g - 1 - m2]);
                assert(es[g - 1 - m1].is_insertion() && es[g - 1 - m1].start == es[k].start || g - 1 - m1 == k);
                if g - 1 - m2 > k {
                    assert(es[g - 1 - m2].start == es[k].start);
                }
                if g - 1 - m1 > k {
                    assert(es[k].is_insertion());
                }
            } else if m1 >= a.len() {
                assert(e[m1] == b[m1 - a.len()]);
                assert(e[m2] == b[m2 - a.len()]);
            } else {
                assert(e[m1] == es[g - 1 - m1]);
                assert(e[m2] == b[m2 - a.len()]);
                assert(es[g - 1 - m1].end <= es[g - 1].end || g - 1 - m1 == g - 1);
                if g - 1 - m1 < g - 1 {
                    assert(es[g - 1 - m1].end <= es[g - 1].start);
                    assert(es[g - 1].start <= es[g - 1].end);
                }
                if g < es.len() {
                    assert(es[g - 1].end <= es[g].start);
                }
            }
        }
    }
}

/// A validated, non-overlapping set of edits for one source text.
#[derive(Debug)]
pub struct EditSet {
    edits: Vec<TextEdit>,
}

impl View for EditSet {
    type V = Seq<TextEdit>;

    closed spec fn view(&self) -> Seq<TextEdit> {
        self.edits@
    }
}

impl EditSet {
    #[verifier::type_invariant]
    spec fn inv(self) -> bool {
        valid_edit_list(self.edits@)
    }

    /// Sorts `edits` by (start, end, priority) and checks them against a
    /// source of `source_len` bytes.
    pub fn new(edits: Vec<TextEdit>, source_len: usize) -> (r: Result<EditSet, EditConflict>)
        ensures
            exists|s: Seq<TextEdit>| stable_sort_of(s, edits@) && build_outcome(s, source_len, r),
            r matches Ok(set) ==> set@.len() == edits@.len(),
    {
        let mut edits = edits;
        let ghost orig = edits@;
        sort_edits(&mut edits);
        let ghost s = edits@;
        let r = build_checked(edits, source_len);
        assert(stable_sort_of(s, orig) && build_outcome(s, source_len, r));
        r
    }

    /// The indices of the edits in the order they are written.
    #[verifier::rlimit(100)]
    fn write_order(&self) -> (r: Vec<usize>)
        ensures
            r@.len() == self@.len(),
            emit_order(self@).len() == self@.len(),
            forall|m: int| 0 <= m < r@.len() ==> (#[trigger] r@[m]) < self@.len() && emit_order(self@)[m] == self@[r@[m] as int],
    {
        proof {
            use_type_invariant(self);
            lemma_emit(self@, 0);
        }
        let ghost es = self@;
        let ghost em = emit_order(es);
        let n = self.edits.len();
        let mut out: Vec<usize> = Vec::new();
        let mut k: usize = 0;
        proof {
            assert(em.subrange(0, n as int) =~= em);
        }
        while k < n
            invariant
                es == self@,
                valid_edit_list(es),
                n == es.len(),
                em == emit_order(es),
                em.len() == n,
                k <= n,
                out@.len() == k,
                em.subrange(k as int, n as int) == emit_from(es, k as int),
                forall|m: int| 0 <= m < out@.len() ==> (#[trigger] out@[m]) < n && em[m] == es[out@[m] as int],
            decreases n - k,
        {
            let mut g = k + 1;
            while g < n && self.edits[k].start == self.edits[k].end && self.edits[g].start == self.edits[g].end
                && self.edits[g].start == self.edits[k].start
                invariant
                    es == self@,
                    n == es.len(),
                    k < g <= n,
                    run_end_from(es, k as int, k + 1) == run_end_from(es, k as int, g as int),
                decreases n - g,
            {
                g += 1;
            }
            proof {
                lemma_run_layout(es, em, k as int, g as int);
            }
            let mut t = g;
            while t > k
                invariant
                    es == self@,
                    n == es.len(),
                    em.len() == n,
                    k < g <= n,
                    k <= t <= g,
                    out@.len() == k + (g - t),
                    forall|x: int| k <= x < g ==> #[trigger] em[x] == es[g - 1 - (x - k)],
                    forall|m: int| 0 <= m < out@.len() ==> (#[trigger] out@[m]) < n && em[m] == es[out@[m] as int],
                decreases t,
            {
                out.push(t - 1);
                t -= 1;
            }
            k = g;
        }
        out
    }

    /// The text `source` with every edit of the set spliced in.
    #[verifier::rlimit(60)]
    pub fn apply(&self, source: &str) -> (r: String)
        requires
            fits(self@, text_bytes(source@)),
        ensures
            text_bytes(r@) == spliced(text_bytes(source@), self@),
    {
        proof {
            use_type_invariant(self);
            lemma_emit(self@, 0);
        }
        let order = self.write_order();
        let src = source.as_bytes();
        let ghost es = self@;
        let ghost em = emit_order(es);
        let ghost sb = src@;
        proof {
            assert forall|m: int| 0 <= m < em.len() implies on_boundaries(sb, (#[trigger] em[m]).start as int, em[m].end as int) by {
                let i = choose|i: int| 0 <= i < es.len() && em[m] == es[i];
            }
        }
        let mut out: Vec<u8> = Vec::new();
        let mut pos: usize = 0;
        let mut k: usize = 0;
        let n = order.len();
        while k < n
            invariant
                n == em.len(),
                n == es.len(),
                es == self@,
                em == emit_order(es),
                forall|m: int| 0 <= m < order@.len() ==> (#[trigger] order@[m]) < es.len() && em[m] == es[order@[m] as int],
                order@.len() == n,
                sb == src@,
                sb == text_bytes(source@),
                chained(em),
                fits(em, sb),
                k <= n,
                pos <= sb.len(),
                k > 0 ==> pos == em[k - 1].end,
                k == 0 ==> pos == 0,
                out@ + splice_from(sb, em, k as int, pos as int) == spliced(sb, es),
            decreases n - k,
        {
            let e = &self.edits[order[k]];
            proof {
                assert(*e == em[k as int]);
                if k > 0 {
                    assert(em[k - 1].end <= em[k as int].start);
                }
                assert(on_boundaries(sb, em[k as int].start as int, em[k as int].end as int));
            }
            let ghost before = out@;
            push_range(&mut out, src, pos, e.start);
            push_all(&mut out, e.replacement.as_str().as_bytes());
            proof {
                let a = sb.subrange(pos as int, e.start as int);
                let rest = splice_from(sb, em, k + 1, e.end as int);
                assert(splice_from(sb, em, k as int, pos as int) == a + e.rep() + rest);
                assert(before + (a + e.rep() + rest) =~= (before + a + e.rep()) + rest);
            }
            pos = e.end;
            k += 1;
        }
        push_range(&mut out, src, pos, src.len());
        proof {
            assert(splice_from(sb, em, k as int, pos as int) == sb.subrange(pos as int, sb.len() as int));
            lemma_splice_valid(sb, em, 0, 0);
        }
        string_of_bytes(out)
    }

    /// The number of edits.
    pub fn len(&self) -> (r: usize)
        ensures
            r == self@.len(),
    {
        self.edits.len()
    }

    /// Whether the set holds no edit.
    pub fn is_empty(&self) -> (r: bool)
        ensures
            r == (self@.len() == 0),
    {
        self.edits.len() == 0
    }

    /// The edits, in the order of the set.
    pub fn iter(&self) -> (r: &[TextEdit])
        ensures
            r@ == self@,
    {
        self.edits.as_slice()
    }
}

/// Splicing edits that fit a valid text gives valid text.
pub proof fn lemma_splice_valid(src: Seq<u8>, es: Seq<TextEdit>, k: int, pos: int)
    requires
        valid_utf8(src),
        chained(es),
        fits(es, src),
        0 <= k <= es.len(),
        0 <= pos,
        partial_valid_utf8(src, pos),
        k > 0 ==> pos == es[k - 1].end,
        k == 0 ==> pos == 0,
    ensures
        valid_utf8(splice_from(src, es, k, pos)),
    decreases es.len() - k,
{
    assert(src.subrange(0, src.len() as int) =~= src);
    if k >= es.len() {
        lemma_valid_between(src, pos, src.len() as int);
    } else {
        if k > 0 {
            assert(es[k - 1].end <= es[k].start);
        }
        assert(on_boundaries(src, es[k].start as int, es[k].end as int));
        lemma_valid_between(src, pos, es[k].start as int);
        lemma_splice_valid(src, es, k + 1, es[k].end as int);
        let a = src.subrange(pos, es[k].start as int);
        let rest = splice_from(src, es, k + 1, es[k].end as int);
        valid_utf8_concat(a, es[k].rep());
        valid_utf8_concat(a + es[k].rep(), rest);
    }
}

/// Gathers the edits of every set into one set for the same source, as
/// `EditSet::new` builds it from all their edits, set after set.
pub fn merge_edit_sets(sets: Vec<EditSet>, source_len: usize) -> (r: Result<EditSet, EditConflict>)
    ensures
        exists|s: Seq<TextEdit>| stable_sort_of(s, all_edits(sets@)) && build_outcome(s, source_len, r),
        r matches Ok(set) ==> set@.len() == all_edits(sets@).len(),
{
    let mut sets = sets;
    let mut all: Vec<TextEdit> = Vec::new();
    let ghost whole = sets@;
    let total = sets.len();
    let mut taken: usize = 0;
    while sets.len() > 0
        invariant
            whole.len() == total,
            taken + sets@.len() == whole.len(),
            sets@ == whole.subrange(taken as int, whole.len() as int),
            all@ == all_edits(whole.subrange(0, taken as int)),
        decreases sets@.len(),
    {
        let s = sets.remove(0);
        let mut es = s.edits;
        proof {
            assert(whole.subrange(0, taken + 1).drop_last() =~= whole.subrange(0, taken as int));
            assert(whole[taken as int] == s);
        }
        all.append(&mut es);
        taken += 1;
        proof {
            assert(sets@ =~= whole.subrange(taken as int, whole.len() as int));
        }
    }
    proof {
        assert(whole.subrange(0, taken as int) =~= whole);
    }
    EditSet::new(all, source_len)
}

fn first_bad_bounds(es: &Vec<TextEdit>, source_len: usize) -> (r: Option<usize>)
    ensures
        match r {
            Some(i) => first_out_of_bounds(es@, source_len as int, 0) == Some(i as int) && i < es@.len(),
            None => first_out_of_bounds(es@, source_len as int, 0) is None && all_in_bounds(es@, source_len as int),
        },
{
    let n = es.len();
    let mut i: usize = 0;
    while i < n
        invariant
            n == es@.len(),
            i <= n,
            first_out_of_bounds(es@, source_len as int, 0) == first_out_of_bounds(es@, source_len as int, i as int),
            forall|k: int| 0 <= k < i ==> (#[trigger] es@[k]).in_bounds(source_len as int),
        decreases n - i,
    {
        let e = &es[i];
        if e.start > e.end || e.end > source_len {
            return Some(i);
        }
        i += 1;
    }
    None
}

fn first_bad_pair(es: &Vec<TextEdit>) -> (r: Option<usize>)
    ensures
        match r {
            Some(i) => first_clash(es@, 0) == Some(i as int) && i + 1 < es@.len(),
            None => first_clash(es@, 0) is None && forall|k: int| 0 <= k < es@.len() - 1 ==> adjacent_ok(#[trigger] es@[k], es@[k + 1]),
        },
{
    let n = es.len();
    if n == 0 {
        return None;
    }
    let mut j: usize = 0;
    while j < n - 1
        invariant
            n == es@.len(),
            n > 0,
            j <= n - 1,
            first_clash(es@, 0) == first_clash(es@, j as int),
            forall|k: int| 0 <= k < j ==> adjacent_ok(#[trigger] es@[k], es@[k + 1]),
        decreases n - j,
    {
        let a = &es[j];
        let b = &es[j + 1];
        let both_insert = a.start == a.end && b.start == b.end && a.start == b.start;
        if !both_insert && a.end > b.start {
            return Some(j);
        }
        j += 1;
    }
    None
}

/// Checks sorted edits and builds the set or names the first fault.
#[verifier::rlimit(100)]
fn build_checked(edits: Vec<TextEdit>, source_len: usize) -> (r: Result<EditSet, EditConflict>)
    requires
        is_sorted(edits@),
    ensures
        build_outcome(edits@, source_len, r),
{
    match first_bad_bounds(&edits, source_len) {
        Some(i) => {
            let e = &edits[i];
            return Err(EditConflict::OutOfBounds { label: e.label.clone(), start: e.start, end: e.end, source_len });
        },
        None => {},
    }
    match first_bad_pair(&edits) {
        Some(j) => {
            let n = edits.len();
            assert(j + 1 < n);
            let a = &edits[j];
            let b = &edits[j + 1];
            return Err(EditConflict::Overlapping {
                a_label: a.label.clone(),
                a_start: a.start,
                a_end: a.end,
                b_label: b.label.clone(),
                b_start: b.start,
                b_end: b.end,
            });
        },
        None => {},
    }
    proof {
        assert forall|i: int| 0 <= i < edits@.len() implies (#[trigger] edits@[i]).start <= edits@[i].end by {
            assert(edits@[i].in_bounds(source_len as int));
        }
    }
    Ok(EditSet { edits })
}

/// The edits of all sets, set after set.
pub open spec fn all_edits(sets: Seq<EditSet>) -> Seq<TextEdit>
    decreases sets.len(),
{
    if sets.len() == 0 {
        Seq::empty()
    } else {
        all_edits(sets.drop_last()) + sets.last()@
    }
}

/// The sum of the length changes of `es[k..]`.
pub open spec fn change_from(es: Seq<TextEdit>, k: int) -> int
    decreases es.len() - k,
{
    if k < 0 || k >= es.len() {
        0
    } else {
        es[k].net_change() + change_from(es, k + 1)
    }
}

/// The sum of the length changes of all edits of `es`.
pub open spec fn total_change(es: Seq<TextEdit>) -> int {
    change_from(es, 0)
}

/// The sum of the length changes of the edits of `es[k..]` that end at or before byte `x`.
pub open spec fn shift_from(es: Seq<TextEdit>, k: int, x: int) -> int
    decreases es.len() - k,
{
    if k < 0 || k >= es.len() {
        0
    } else {
        (if es[k].end <= x { es[k].net_change() } else { 0 }) + shift_from(es, k + 1, x)
    }
}

/// Byte `x` lies inside the range of some edit of `es`.
pub open spec fn covered(es: Seq<TextEdit>, x: int) -> bool {
    exists|i: int| 0 <= i < es.len() && (#[trigger] es[i]).start <= x < es[i].end
}

proof fn lemma_splice_len(src: Seq<u8>, es: Seq<TextEdit>, k: int, pos: int)
    requires
        chained(es),
        all_in_bounds(es, src.len() as int),
        0 <= k <= es.len(),
        0 <= pos <= src.len(),
        k < es.len() ==> pos <= es[k].start,
    ensures
        splice_from(src, es, k, pos).len() == src.len() - pos + change_from(es, k),
    decreases es.len() - k,
{
    if k < es.len() {
        assert(es[k].in_bounds(src.len() as int));
        if k + 1 < es.len() {
            assert(es[k].end <= es[k + 1].start);
        }
        lemma_splice_len(src, es, k + 1, es[k].end as int);
    }
}

/// The weight of an edit: its length change, counted only when it ends at
/// or before `x` if `x` is given.
pub open spec fn weight(e: TextEdit, x: Option<int>) -> int {
    match x {
        None => e.net_change(),
        Some(x) => if e.end <= x { e.net_change() } else { 0 },
    }
}

/// The weights of the edits of `s`, summed.
pub open spec fn sum_weights(s: Seq<TextEdit>, x: Option<int>) -> int
    decreases s.len(),
{
    if s.len() == 0 {
        0
    } else {
        weight(s[0], x) + sum_weights(s.drop_first(), x)
    }
}

proof fn lemma_sum_concat(a: Seq<TextEdit>, b: Seq<TextEdit>, x: Option<int>)
    ensures
        sum_weights(a + b, x) == sum_weights(a, x) + sum_weights(b, x),
    decreases a.len(),
{
    if a.len() == 0 {
        assert(a + b =~= b);
    } else {
        assert((a + b).drop_first() =~= a.drop_first() + b);
        lemma_sum_concat(a.drop_first(), b, x);
    }
}

proof fn lemma_sum_reverse(a: Seq<TextEdit>, x: Option<int>)
    ensures
        sum_weights(a.reverse(), x) == sum_weights(a, x),
    decreases a.len(),
{
    if a.len() > 0 {
        assert(a.reverse() =~= a.drop_first().reverse() + seq![a[0]]);
        lemma_sum_reverse(a.drop_first(), x);
        lemma_sum_concat(a.drop_first().reverse(), seq![a[0]], x);
        assert(seq![a[0]][0] == a[0]);
        assert(seq![a[0]].drop_first() =~= Seq::<TextEdit>::empty());
        assert(sum_weights(Seq::<TextEdit>::empty(), x) == 0);
        assert(sum_weights(seq![a[0]], x) == weight(a[0], x) + sum_weights(seq![a[0]].drop_first(), x));
    }
}

proof fn lemma_sum_suffix(es: Seq<TextEdit>, k: int, x: int)
    requires
        0 <= k <= es.len(),
    ensures
        change_from(es, k) == sum_weights(es.subrange(k, es.len() as int), None),
        shift_from(es, k, x) == sum_weights(es.subrange(k, es.len() as int), Some(x)),
    decreases es.len() - k,
{
    if k < es.len() {
        lemma_sum_suffix(es, k + 1, x);
        assert(es.subrange(k, es.len() as int).drop_first() =~= es.subrange(k + 1, es.len() as int));
    } else {
        assert(es.subrange(k, es.len() as int) =~= Seq::<TextEdit>::empty());
    }
}

#[verifier::rlimit(100)]
proof fn lemma_emit_sum(es: Seq<TextEdit>, k: int, x: Option<int>)
    requires
        0 <= k <= es.len(),
    ensures
        sum_weights(emit_from(es, k), x) == sum_weights(es.subrange(k, es.len() as int), x),
    decreases es.len() - k,
{
    if k < es.len() {
        lemma_run_end(es, k, k + 1);
        let g = run_end(es, k);
        assert(k < g <= es.len());
        assert(emit_from(es, k) == es.subrange(k, g).reverse() + emit_from(es, g));
        lemma_emit_sum(es, g, x);
        lemma_sum_concat(es.subrange(k, g).reverse(), emit_from(es, g), x);
        lemma_sum_reverse(es.subrange(k, g), x);
        assert(es.subrange(k, es.len() as int) =~= es.subrange(k, g) + es.subrange(g, es.len() as int));
        lemma_sum_concat(es.subrange(k, g), es.subrange(g, es.len() as int), x);
    } else {
        assert(es.subrange(k, es.len() as int) =~= Seq::<TextEdit>::empty());
    }
}

/// The written order of a set holds edits of the set, in bounds when the set is.
#[verifier::rlimit(100)]
proof fn lemma_emit_bounds(es: Seq<TextEdit>, n: int)
    requires
        valid_edit_list(es),
        all_in_bounds(es, n),
    ensures
        chained(emit_order(es)),
        all_in_bounds(emit_order(es), n),
        emit_order(es).len() == es.len(),
        change_from(emit_order(es), 0) == change_from(es, 0),
{
    lemma_emit(es, 0);
    let em = emit_order(es);
    assert forall|m: int| 0 <= m < em.len() implies (#[trigger] em[m]).in_bounds(n) by {
        let i = choose|i: int| 0 <= i < es.len() && em[m] == es[i];
    }
    lemma_sum_suffix(es, 0, 0);
    lemma_sum_suffix(em, 0, 0);
    lemma_emit_sum(es, 0, None);
    assert(es.subrange(0, es.len() as int) =~= es);
    assert(em.subrange(0, em.len() as int) =~= em);
}

/// Applying a valid edit set changes the length of the text by the sum of
/// what each edit changes: the length of its replacement less the length of its range.
pub proof fn lemma_apply_length(src: Seq<u8>, es: Seq<TextEdit>)
    requires
        valid_edit_list(es),
        all_in_bounds(es, src.len() as int),
    ensures
        spliced(src, es).len() == src.len() + total_change(es),
{
    lemma_emit_bounds(es, src.len() as int);
    lemma_splice_len(src, emit_order(es), 0, 0);
}

proof fn lemma_shift_zero(es: Seq<TextEdit>, k: int, x: int)
    requires
        chained(es),
        0 <= k <= es.len(),
        k < es.len() ==> x < es[k].start,
    ensures
        shift_from(es, k, x) == 0,
    decreases es.len() - k,
{
    if k < es.len() {
        if k + 1 < es.len() {
            assert(es[k].end <= es[k + 1].start);
        }
        lemma_shift_zero(es, k + 1, x);
    }
}

proof fn lemma_splice_keeps(src: Seq<u8>, es: Seq<TextEdit>, k: int, pos: int, x: int)
    requires
        chained(es),
        all_in_bounds(es, src.len() as int),
        0 <= k <= es.len(),
        0 <= pos <= x < src.len(),
        k < es.len() ==> pos <= es[k].start,
        forall|i: int| k <= i < es.len() ==> !((#[trigger] es[i]).start <= x < es[i].end),
    ensures
        0 <= x - pos + shift_from(es, k, x) < splice_from(src, es, k, pos).len(),
        splice_from(src, es, k, pos)[x - pos + shift_from(es, k, x)] == src[x],
    decreases es.len() - k,
{
    lemma_splice_len(src, es, k, pos);
    if k < es.len() {
        let e = es[k];
        assert(e.in_bounds(src.len() as int));
        if k + 1 < es.len() {
            assert(e.end <= es[k + 1].start);
        }
        let a = src.subrange(pos, e.start as int);
        let rest = splice_from(src, es, k + 1, e.end as int);
        if x < e.start {
            lemma_shift_zero(es, k, x);
            assert(splice_from(src, es, k, pos) == a + e.rep() + rest);
        } else {
            assert(x >= e.end);
            lemma_splice_keeps(src, es, k + 1, e.end as int, x);
            assert(splice_from(src, es, k, pos) == a + e.rep() + rest);
        }
    }
}

/// A byte of the source that no edit covers appears in the result,
/// moved by the length changes of the edits that end at or before it.
#[verifier::rlimit(100)]
pub proof fn lemma_apply_keeps_uncovered(src: Seq<u8>, es: Seq<TextEdit>, x: int)
    requires
        valid_edit_list(es),
        all_in_bounds(es, src.len() as int),
        0 <= x < src.len(),
        !covered(es, x),
    ensures
        0 <= x + shift_from(es, 0, x) < spliced(src, es).len(),
        spliced(src, es)[x + shift_from(es, 0, x)] == src[x],
{
    lemma_emit_bounds(es, src.len() as int);
    lemma_emit(es, 0);
    let em = emit_order(es);
    assert forall|i: int| 0 <= i < em.len() implies !((#[trigger] em[i]).start <= x < em[i].end) by {
        let j = choose|j: int| 0 <= j < es.len() && em[i] == es[j];
        if em[i].start <= x < em[i].end {
            assert(covered(es, x));
        }
    }
    lemma_splice_keeps(src, em, 0, 0, x);
    lemma_sum_suffix(es, 0, x);
    lemma_sum_suffix(em, 0, x);
    lemma_emit_sum(es, 0, Some(x));
    assert(es.subrange(0, es.len() as int) =~= es);
    assert(em.subrange(0, em.len() as int) =~= em);
}

/// Two insertions at one offset may stand together in a set; two edits that
/// are not insertions and share a byte may not, in either order.
pub proof fn lemma_insertions_compatible_overlaps_not(a: TextEdit, b: TextEdit, s: Seq<TextEdit>)
    requires
        stable_sort_of(s, seq![a, b]),
    ensures
        (a.is_insertion() && b.is_insertion() && a.start == b.start) ==> first_clash(s, 0) is None,
        (!a.is_insertion() && !b.is_insertion() && a.start < b.end && b.start < a.end) ==> first_clash(s, 0)
            == Some(0int),
{
    let es = seq![a, b];
    let p = choose|p: Seq<int>|
        {
            &&& is_permutation(p, es.len() as int)
            &&& forall|i: int| 0 <= i < s.len() ==> #[trigger] s[i] == es[p[i]]
            &&& forall|i: int, j: int|
                0 <= i < j < s.len() && same_key(s[i], s[j]) ==> #[trigger] p[i] < #[trigger] p[j]
        };
    assert(s[0] == es[p[0]] && s[1] == es[p[1]]);
    assert(p[0] != p[1]);
    assert(es[0] == a && es[1] == b);
    assert((s[0] == a && s[1] == b) || (s[0] == b && s[1] == a));
    assert(first_clash(s, 1) is None);
}

} // verus!
