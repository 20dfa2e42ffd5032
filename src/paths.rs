//! Paths as text: lexical normalization and confinement to a project root.
//!
//! A path is read as `/`-separated components, a leading `/` being the
//! root. Normalization drops `.` components and lets `..` remove the
//! component before it, without looking at the file system.

use vstd::prelude::*;
use vstd::utf8::*;

use crate::lang::{extension_of, path_extension};
use crate::text::{str_eq, lemma_ascii_boundary, lemma_valid_between, on_boundaries, push_range, string_of_bytes, text_bytes, bytes_eq};

verus! {

broadcast use encode_utf8_valid_utf8;

pub open spec fn has_root(s: Seq<u8>) -> bool {
    s.len() > 0 && s[0] == 0x2f
}

/// The components found in `s[..i]` (by byte range), and where the
/// component being read starts.
pub open spec fn seg_state(s: Seq<u8>, i: int) -> (Seq<(int, int)>, int)
    decreases i,
{
    if i <= 0 {
        (Seq::empty(), 0)
    } else {
        let (d, c) = seg_state(s, i - 1);
        if s[i - 1] == 0x2f {
            (if c < i - 1 { d.push((c, i - 1)) } else { d }, i)
        } else {
            (d, c)
        }
    }
}

/// The byte ranges of the components of `s` other than the root.
pub open spec fn raw_segments(s: Seq<u8>) -> Seq<(int, int)> {
    let (d, c) = seg_state(s, s.len() as int);
    if c < s.len() {
        d.push((c, s.len() as int))
    } else {
        d
    }
}

pub open spec fn is_dot(s: Seq<u8>, r: (int, int)) -> bool {
    r.1 - r.0 == 1 && s[r.0] == 0x2e
}

pub open spec fn is_dotdot(s: Seq<u8>, r: (int, int)) -> bool {
    r.1 - r.0 == 2 && s[r.0] == 0x2e && s[r.0 + 1] == 0x2e
}

/// The components kept after reading `segs[..k]`: the root first if `s`
/// has one, `.` dropped, `..` removing the component before it.
pub open spec fn norm_upto(s: Seq<u8>, segs: Seq<(int, int)>, k: int) -> Seq<(int, int)>
    decreases k,
{
    if k <= 0 {
        if has_root(s) {
            seq![(0, 1)]
        } else {
            Seq::empty()
        }
    } else {
        let st = norm_upto(s, segs, k - 1);
        let r = segs[k - 1];
        if is_dotdot(s, r) {
            if st.len() > 0 {
                st.drop_last()
            } else {
                st
            }
        } else if is_dot(s, r) {
            st
        } else {
            st.push(r)
        }
    }
}

/// The components of `s` once normalized, by byte range; the root is the range of its `/`.
pub open spec fn normalized_items(s: Seq<u8>) -> Seq<(int, int)> {
    norm_upto(s, raw_segments(s), raw_segments(s).len() as int)
}

/// The components of `s` once normalized, as text.
pub open spec fn normalized_components(s: Seq<u8>) -> Seq<Seq<u8>> {
    normalized_items(s).map_values(|r: (int, int)| s.subrange(r.0, r.1))
}

/// The components `items[..k]` joined: a `/` between two, none after the root.
pub open spec fn render_upto(s: Seq<u8>, items: Seq<(int, int)>, k: int) -> Seq<u8>
    decreases k,
{
    if k <= 0 {
        Seq::empty()
    } else {
        let prev = render_upto(s, items, k - 1);
        let b = s.subrange(items[k - 1].0, items[k - 1].1);
        if prev.len() > 0 && prev.last() != 0x2f {
            prev + seq![0x2fu8] + b
        } else {
            prev + b
        }
    }
}

/// The normal form of the path `s`.
pub open spec fn normalized(s: Seq<u8>) -> Seq<u8> {
    render_upto(s, normalized_items(s), normalized_items(s).len() as int)
}

pub open spec fn as_ranges(v: Seq<(usize, usize)>) -> Seq<(int, int)> {
    v.map_values(|p: (usize, usize)| (p.0 as int, p.1 as int))
}

fn segments_of(s: &[u8]) -> (r: Vec<(usize, usize)>)
    requires
        valid_utf8(s@),
    ensures
        as_ranges(r@) == raw_segments(s@),
        forall|k: int| 0 <= k < r@.len() ==> on_boundaries(s@, (#[trigger] r@[k]).0 as int, r@[k].1 as int),
        forall|k: int| 0 <= k < r@.len() ==> (#[trigger] r@[k]).0 < r@[k].1 <= s@.len(),
{
    let n = s.len();
    let mut d: Vec<(usize, usize)> = Vec::new();
    let mut c: usize = 0;
    let mut i: usize = 0;
    proof {
        assert(s@.subrange(0, 0) =~= Seq::<u8>::empty());
        assert(s@.subrange(0, n as int) =~= s@);
    }
    while i < n
        invariant
            n == s@.len(),
            valid_utf8(s@),
            partial_valid_utf8(s@, 0),
            partial_valid_utf8(s@, n as int),
            c <= i <= n,
            partial_valid_utf8(s@, c as int),
            (as_ranges(d@), c as int) == seg_state(s@, i as int),
            forall|k: int| 0 <= k < d@.len() ==> on_boundaries(s@, (#[trigger] d@[k]).0 as int, d@[k].1 as int),
            forall|k: int| 0 <= k < d@.len() ==> (#[trigger] d@[k]).0 < d@[k].1 <= n,
        decreases n - i,
    {
        if s[i] == 0x2f {
            proof {
                lemma_ascii_boundary(s@, i as int);
            }
            if c < i {
                let ghost before = d@;
                d.push((c, i));
                assert(as_ranges(d@) =~= as_ranges(before).push((c as int, i as int)));
            }
            c = i + 1;
        }
        i += 1;
    }
    if c < n {
        let ghost before = d@;
        d.push((c, n));
        assert(as_ranges(d@) =~= as_ranges(before).push((c as int, n as int)));
    }
    d
}

fn is_dot_at(s: &[u8], r: (usize, usize)) -> (b: bool)
    requires
        r.0 < r.1 <= s@.len(),
    ensures
        b == is_dot(s@, (r.0 as int, r.1 as int)),
{
    r.1 - r.0 == 1 && s[r.0] == 0x2e
}

fn is_dotdot_at(s: &[u8], r: (usize, usize)) -> (b: bool)
    requires
        r.0 < r.1 <= s@.len(),
    ensures
        b == is_dotdot(s@, (r.0 as int, r.1 as int)),
{
    r.1 - r.0 == 2 && s[r.0] == 0x2e && s[r.0 + 1] == 0x2e
}

fn normalized_items_of(s: &[u8]) -> (r: Vec<(usize, usize)>)
    requires
        valid_utf8(s@),
    ensures
        as_ranges(r@) == normalized_items(s@),
        forall|k: int| 0 <= k < r@.len() ==> on_boundaries(s@, (#[trigger] r@[k]).0 as int, r@[k].1 as int),
        forall|k: int| 0 <= k < r@.len() ==> (#[trigger] r@[k]).0 < r@[k].1 <= s@.len(),
{
    let segs = segments_of(s);
    let ghost sg = raw_segments(s@);
    let mut st: Vec<(usize, usize)> = Vec::new();
    if s.len() > 0 && s[0] == 0x2f {
        proof {
            lemma_ascii_boundary(s@, 0);
        }
        st.push((0, 1));
        assert(as_ranges(st@) =~= seq![(0int, 1int)]);
    } else {
        assert(as_ranges(st@) =~= Seq::<(int, int)>::empty());
    }
    let mut k: usize = 0;
    while k < segs.len()
        invariant
            as_ranges(segs@) == sg,
            sg == raw_segments(s@),
            forall|j: int| 0 <= j < segs@.len() ==> on_boundaries(s@, (#[trigger] segs@[j]).0 as int, segs@[j].1 as int),
            forall|j: int| 0 <= j < segs@.len() ==> (#[trigger] segs@[j]).0 < segs@[j].1 <= s@.len(),
            k <= segs@.len(),
            as_ranges(st@) == norm_upto(s@, sg, k as int),
            forall|j: int| 0 <= j < st@.len() ==> on_boundaries(s@, (#[trigger] st@[j]).0 as int, st@[j].1 as int),
            forall|j: int| 0 <= j < st@.len() ==> (#[trigger] st@[j]).0 < st@[j].1 <= s@.len(),
        decreases segs@.len() - k,
    {
        let r = segs[k];
        assert(sg[k as int] == (r.0 as int, r.1 as int));
        assert(on_boundaries(s@, r.0 as int, r.1 as int));
        let ghost before = st@;
        if is_dotdot_at(s, r) {
            if st.len() > 0 {
                st.pop();
                assert(as_ranges(st@) =~= as_ranges(before).drop_last());
            }
        } else if is_dot_at(s, r) {
        } else {
            st.push(r);
            assert(as_ranges(st@) =~= as_ranges(before).push((r.0 as int, r.1 as int)));
        }
        k += 1;
    }
    st
}

fn render(s: &[u8], items: &Vec<(usize, usize)>) -> (r: Vec<u8>)
    requires
        valid_utf8(s@),
        forall|k: int| 0 <= k < items@.len() ==> on_boundaries(s@, (#[trigger] items@[k]).0 as int, items@[k].1 as int),
        forall|k: int| 0 <= k < items@.len() ==> (#[trigger] items@[k]).0 < items@[k].1 <= s@.len(),
    ensures
        r@ == render_upto(s@, as_ranges(items@), items@.len() as int),
        valid_utf8(r@),
{
    let ghost its = as_ranges(items@);
    let mut out: Vec<u8> = Vec::new();
    let mut k: usize = 0;
    while k < items.len()
        invariant
            its == as_ranges(items@),
            valid_utf8(s@),
            forall|j: int| 0 <= j < items@.len() ==> on_boundaries(s@, (#[trigger] items@[j]).0 as int, items@[j].1 as int),
            forall|j: int| 0 <= j < items@.len() ==> (#[trigger] items@[j]).0 < items@[j].1 <= s@.len(),
            k <= items@.len(),
            out@ == render_upto(s@, its, k as int),
            valid_utf8(out@),
        decreases items@.len() - k,
    {
        let (a, b) = items[k];
        assert(its[k as int] == (a as int, b as int));
        let ghost prev = out@;
        let sep = out.len() > 0 && out[out.len() - 1] != 0x2f;
        if sep {
            out.push(0x2f);
        }
        let ghost mid = out@;
        push_range(&mut out, s, a, b);
        proof {
            lemma_valid_between(s@, a as int, b as int);
            if sep {
                assert(mid =~= prev + seq![0x2fu8]);
                crate::text::lemma_ascii_valid(seq![0x2fu8]);
                valid_utf8_concat(prev, seq![0x2fu8]);
            }
            valid_utf8_concat(mid, s@.subrange(a as int, b as int));
            if sep {
                assert(out@ =~= prev + seq![0x2fu8] + s@.subrange(a as int, b as int));
            } else {
                assert(out@ =~= prev + s@.subrange(a as int, b as int));
            }
        }
        k += 1;
    }
    out
}

/// `path` with `.` components dropped and each `..` removing the component before it.
pub fn normalize_path(path: &str) -> (r: String)
    ensures
        text_bytes(r@) == normalized(text_bytes(path@)),
{
    let s = path.as_bytes();
    let items = normalized_items_of(s);
    let out = render(s, &items);
    string_of_bytes(out)
}

/// The leading components of `b` are those of `a`.
pub open spec fn comp_prefix(a: Seq<Seq<u8>>, b: Seq<Seq<u8>>) -> bool {
    a.len() <= b.len() && forall|j: int| 0 <= j < a.len() ==> a[j] == b[j]
}

fn items_prefix(s: &[u8], si: &Vec<(usize, usize)>, t: &[u8], ti: &Vec<(usize, usize)>) -> (r: bool)
    requires
        forall|k: int| 0 <= k < si@.len() ==> (#[trigger] si@[k]).0 < si@[k].1 <= s@.len(),
        forall|k: int| 0 <= k < ti@.len() ==> (#[trigger] ti@[k]).0 < ti@[k].1 <= t@.len(),
    ensures
        r == comp_prefix(
            as_ranges(si@).map_values(|x: (int, int)| s@.subrange(x.0, x.1)),
            as_ranges(ti@).map_values(|x: (int, int)| t@.subrange(x.0, x.1)),
        ),
{
    let ghost a = as_ranges(si@).map_values(|x: (int, int)| s@.subrange(x.0, x.1));
    let ghost b = as_ranges(ti@).map_values(|x: (int, int)| t@.subrange(x.0, x.1));
    if si.len() > ti.len() {
        return false;
    }
    let mut k: usize = 0;
    while k < si.len()
        invariant
            si@.len() <= ti@.len(),
            forall|j: int| 0 <= j < si@.len() ==> (#[trigger] si@[j]).0 < si@[j].1 <= s@.len(),
            forall|j: int| 0 <= j < ti@.len() ==> (#[trigger] ti@[j]).0 < ti@[j].1 <= t@.len(),
            a == as_ranges(si@).map_values(|x: (int, int)| s@.subrange(x.0, x.1)),
            b == as_ranges(ti@).map_values(|x: (int, int)| t@.subrange(x.0, x.1)),
            k <= si@.len(),
            forall|j: int| 0 <= j < k ==> a[j] == b[j],
        decreases si@.len() - k,
    {
        let (x0, x1) = si[k];
        let (y0, y1) = ti[k];
        let same = bytes_eq(&s[x0..x1], &t[y0..y1]);
        assert(a[k as int] == s@.subrange(x0 as int, x1 as int));
        assert(b[k as int] == t@.subrange(y0 as int, y1 as int));
        if !same {
            return false;
        }
        k += 1;
    }
    true
}

/// Whether `path`, normalized, lies under `root`, normalized, component by component.
pub fn is_within_root(root: &str, path: &str) -> (r: bool)
    ensures
        r == comp_prefix(normalized_components(text_bytes(root@)), normalized_components(text_bytes(path@))),
{
    let rs = root.as_bytes();
    let ps = path.as_bytes();
    let ri = normalized_items_of(rs);
    let pi = normalized_items_of(ps);
    items_prefix(rs, &ri, ps, &pi)
}

/// `rel` read against `root`: `rel` itself when absolute (or `root` is
/// empty), else the two joined by one `/`.
pub open spec fn joined(root: Seq<u8>, rel: Seq<u8>) -> Seq<u8> {
    if has_root(rel) || root.len() == 0 {
        rel
    } else if root.last() == 0x2f {
        root + rel
    } else {
        root + seq![0x2fu8] + rel
    }
}

/// The message for a path that leaves its root.
pub open spec fn escape_message(rel: Seq<char>, root: Seq<char>) -> Seq<char> {
    "Path '"@ + rel + "' escapes project root '"@ + root + "'"@
}

/// `relative` resolved against `root` and normalized, if it stays under
/// `root`; a message naming both otherwise.
pub fn resolve_within_root(root: &str, relative: &str) -> (r: Result<String, String>)
    ensures
        ({
            let c = joined(text_bytes(root@), text_bytes(relative@));
            match r {
                Ok(p) => comp_prefix(normalized_components(text_bytes(root@)), normalized_components(c))
                    && text_bytes(p@) == normalized(c),
                Err(m) => !comp_prefix(normalized_components(text_bytes(root@)), normalized_components(c))
                    && m@ == escape_message(relative@, root@),
            }
        }),
{
    let rs = root.as_bytes();
    let ls = relative.as_bytes();
    let mut c: Vec<u8> = Vec::new();
    if (ls.len() > 0 && ls[0] == 0x2f) || rs.len() == 0 {
        crate::text::push_all(&mut c, ls);
        assert(c@ =~= ls@);
    } else if rs[rs.len() - 1] == 0x2f {
        crate::text::push_all(&mut c, rs);
        crate::text::push_all(&mut c, ls);
        assert(c@ =~= rs@ + ls@);
        proof {
            valid_utf8_concat(rs@, ls@);
        }
    } else {
        crate::text::push_all(&mut c, rs);
        c.push(0x2f);
        crate::text::push_all(&mut c, ls);
        assert(c@ =~= rs@ + seq![0x2fu8] + ls@);
        proof {
            crate::text::lemma_ascii_valid(seq![0x2fu8]);
            valid_utf8_concat(rs@, seq![0x2fu8]);
            valid_utf8_concat(rs@ + seq![0x2fu8], ls@);
        }
    }
    let ri = normalized_items_of(rs);
    let ci = normalized_items_of(c.as_slice());
    if items_prefix(rs, &ri, c.as_slice(), &ci) {
        let out = render(c.as_slice(), &ci);
        Ok(string_of_bytes(out))
    } else {
        let mut m = "Path '".to_owned();
        m.append(relative);
        m.append("' escapes project root '");
        m.append(root);
        m.append("'");
        Err(m)
    }
}

/// The extensions of the files a frontend check looks at.
pub open spec fn is_frontend_extension(e: Seq<char>) -> bool {
    e == "ts"@ || e == "tsx"@ || e == "js"@ || e == "jsx"@ || e == "vue"@ || e == "svelte"@ || e
        == "css"@ || e == "scss"@
}

/// The files of `files[..i]` with a frontend extension, in order.
pub open spec fn frontend_upto(files: Seq<String>, i: int) -> Seq<String>
    decreases i,
{
    if i <= 0 {
        Seq::empty()
    } else if is_frontend_extension(extension_of(files[i - 1]@)) {
        frontend_upto(files, i - 1).push(files[i - 1])
    } else {
        frontend_upto(files, i - 1)
    }
}

/// The files among `files` whose extension marks frontend code, in order.
pub fn filter_frontend_files(files: &[String]) -> (r: Vec<String>)
    ensures
        r@ == frontend_upto(files@, files@.len() as int),
{
    let mut out: Vec<String> = Vec::new();
    let mut i: usize = 0;
    while i < files.len()
        invariant
            i <= files@.len(),
            out@ == frontend_upto(files@, i as int),
        decreases files@.len() - i,
    {
        let e = path_extension(files[i].as_str());
        let k = e.as_str();
        if str_eq(k, "ts") || str_eq(k, "tsx") || str_eq(k, "js") || str_eq(k, "jsx") || str_eq(k, "vue")
            || str_eq(k, "svelte") || str_eq(k, "css") || str_eq(k, "scss") {
            out.push(files[i].clone());
        }
        i += 1;
    }
    out
}

/// The files whose presence marks a project root.
pub fn project_markers() -> (r: Vec<&'static str>)
    ensures
        r@.len() == 4,
        r@[0]@ == "package.json"@,
        r@[1]@ == "tsconfig.json"@,
        r@[2]@ == "biome.json"@,
        r@[3]@ == "deno.json"@,
{
    vec!["package.json", "tsconfig.json", "biome.json", "deno.json"]
}

/// `dir` and each directory above it, nearest first: the normalized path
/// with one component less at each step.
pub fn ancestor_dirs(dir: &str) -> (r: Vec<String>)
    ensures
        r@.len() == normalized_items(text_bytes(dir@)).len(),
        forall|j: int| 0 <= j < r@.len() ==> text_bytes((#[trigger] r@[j])@) == render_upto(
            text_bytes(dir@),
            normalized_items(text_bytes(dir@)),
            normalized_items(text_bytes(dir@)).len() - j,
        ),
{
    let s = dir.as_bytes();
    let items = normalized_items_of(s);
    let n = items.len();
    let mut out: Vec<String> = Vec::new();
    let mut k: usize = n;
    while k > 0
        invariant
            n == items@.len(),
            k <= n,
            out@.len() == n - k,
            as_ranges(items@) == normalized_items(s@),
            s@ == text_bytes(dir@),
            valid_utf8(s@),
            forall|j: int| 0 <= j < items@.len() ==> on_boundaries(s@, (#[trigger] items@[j]).0 as int, items@[j].1 as int),
            forall|j: int| 0 <= j < items@.len() ==> (#[trigger] items@[j]).0 < items@[j].1 <= s@.len(),
            forall|j: int| 0 <= j < out@.len() ==> text_bytes((#[trigger] out@[j])@) == render_upto(s@, as_ranges(items@), n - j),
        decreases k,
    {
        let mut prefix: Vec<(usize, usize)> = Vec::new();
        let mut i: usize = 0;
        while i < k
            invariant
                i <= k <= n == items@.len(),
                prefix@ == items@.take(i as int),
            decreases k - i,
        {
            prefix.push(items[i]);
            i += 1;
            assert(prefix@ =~= items@.take(i as int));
        }
        let rendered = render(s, &prefix);
        proof {
            lemma_render_prefix(s@, as_ranges(items@), k as int, k as int);
            assert(as_ranges(prefix@) =~= as_ranges(items@).take(k as int));
        }
        out.push(string_of_bytes(rendered));
        k -= 1;
    }
    out
}

/// Rendering depends only on the components rendered.
proof fn lemma_render_prefix(s: Seq<u8>, items: Seq<(int, int)>, k: int, m: int)
    requires
        0 <= m <= k <= items.len(),
    ensures
        render_upto(s, items.take(k), m) == render_upto(s, items, m),
    decreases m,
{
    if m > 0 {
        lemma_render_prefix(s, items, k, m - 1);
        assert(items.take(k)[m - 1] == items[m - 1]);
    }
}

} // verus!
