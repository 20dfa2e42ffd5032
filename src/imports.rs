//! Adding an import: merged into the import from the same module when
//! there is one, else written as a new import after the last one.

use vstd::prelude::*;
use vstd::utf8::*;

use crate::edit::TextEdit;
use crate::functions::{field_child_of, kind_child_of};
use crate::import_paths::{field_child_from, kind_child_from};
use crate::operations::{AddImport, OperationError, RemoveImport};
use crate::rename::{node_text, nodes_fit};
use crate::style::{detect_quote_style, detect_semicolons, quote_of, trimmed_end, uses_semicolons};
use crate::syntax::{lemma_boundary_valid, SyntaxNode};
use crate::text::{bytes_eq, lemma_ascii_valid, lemma_valid_between, push_range, push_str, push_valid, string_of_bytes, text_bytes};

verus! {

broadcast use encode_utf8_valid_utf8;

/// `t` without the quote characters at either end.
pub open spec fn unquoted(t: Seq<u8>) -> Seq<u8>
    decreases t.len(),
{
    if t.len() > 0 && (t[0] == 0x27 || t[0] == 0x22) {
        unquoted(t.drop_first())
    } else if t.len() > 0 && (t.last() == 0x27 || t.last() == 0x22) {
        unquoted(t.drop_last())
    } else {
        t
    }
}

/// Node `i` is a top-level import from `module`.
pub open spec fn imports_module(ns: Seq<SyntaxNode>, src: Seq<u8>, i: int, module: Seq<u8>) -> bool {
    &&& ns[i].parent == Some(0usize)
    &&& ns[i].kind@ == "import_statement"@
    &&& (field_child_from(ns, i, "source"@, 0) matches Some(c) && unquoted(node_text(src, ns[c])) == module)
}

/// The first top-level import from `module` among the nodes from `i` on.
pub open spec fn import_from(ns: Seq<SyntaxNode>, src: Seq<u8>, module: Seq<u8>, i: int) -> Option<int>
    decreases ns.len() - i,
{
    if i < 0 || i >= ns.len() {
        None
    } else if imports_module(ns, src, i, module) {
        Some(i)
    } else {
        import_from(ns, src, module, i + 1)
    }
}

/// The `named_imports` node of an import, if any.
pub open spec fn named_imports_of(ns: Seq<SyntaxNode>, imp: int) -> Option<int> {
    match kind_child_from(ns, imp, "import_clause"@, 0) {
        Some(c) => kind_child_from(ns, c, "named_imports"@, 0),
        None => None,
    }
}

/// The import has a default import.
pub open spec fn has_default(ns: Seq<SyntaxNode>, imp: int) -> bool {
    match kind_child_from(ns, imp, "import_clause"@, 0) {
        Some(c) => kind_child_from(ns, c, "identifier"@, 0) is Some,
        None => false,
    }
}

/// The names imported by the specifiers of `named` among `ns[..k]`, in order.
pub open spec fn specs_upto(ns: Seq<SyntaxNode>, src: Seq<u8>, named: int, k: int) -> Seq<Seq<u8>>
    decreases k,
{
    if k <= 0 {
        Seq::empty()
    } else {
        let prev = specs_upto(ns, src, named, k - 1);
        if ns[k - 1].parent == Some(named as usize) && ns[k - 1].kind@ == "import_specifier"@ {
            match field_child_from(ns, k - 1, "name"@, 0) {
                Some(c) => prev.push(node_text(src, ns[c])),
                None => prev,
            }
        } else {
            prev
        }
    }
}

/// The names an import already has.
pub open spec fn existing_specs(ns: Seq<SyntaxNode>, src: Seq<u8>, imp: int) -> Seq<Seq<u8>> {
    match named_imports_of(ns, imp) {
        Some(n) => specs_upto(ns, src, n, ns.len() as int),
        None => Seq::empty(),
    }
}

/// The requested names among `req[..k]` that `have` lacks, in order.
pub open spec fn missing_upto(req: Seq<Seq<u8>>, have: Seq<Seq<u8>>, k: int) -> Seq<Seq<u8>>
    decreases k,
{
    if k <= 0 {
        Seq::empty()
    } else if have.contains(req[k - 1]) {
        missing_upto(req, have, k - 1)
    } else {
        missing_upto(req, have, k - 1).push(req[k - 1])
    }
}

/// The parts joined by `sep`.
pub open spec fn joined_by(parts: Seq<Seq<u8>>, sep: Seq<u8>) -> Seq<u8>
    decreases parts.len(),
{
    if parts.len() == 0 {
        Seq::empty()
    } else if parts.len() == 1 {
        parts[0]
    } else {
        joined_by(parts.drop_last(), sep) + sep + parts.last()
    }
}

pub open spec fn strings_bytes(v: Seq<String>) -> Seq<Seq<u8>> {
    v.map_values(|s: String| text_bytes(s@))
}

/// A whole import statement.
pub open spec fn full_import(type_only: bool, default: Option<Seq<u8>>, specs: Seq<Seq<u8>>, q: u8, module: Seq<u8>, semi: bool) -> Seq<u8> {
    let braces = text_bytes("{ "@) + joined_by(specs, text_bytes(", "@)) + text_bytes(" }"@);
    let parts: Seq<Seq<u8>> = match default {
        Some(d) => if specs.len() > 0 { seq![d, braces] } else { seq![d] },
        None => if specs.len() > 0 { seq![braces] } else { Seq::empty() },
    };
    text_bytes("import "@) + (if type_only { text_bytes("type "@) } else { Seq::empty() }) + joined_by(parts, text_bytes(", "@))
        + text_bytes(" from "@) + seq![q] + module + seq![q] + (if semi { text_bytes(";"@) } else { Seq::empty() })
}

pub open spec fn quote_byte(s: Seq<u8>) -> u8 {
    if quote_of(s) == '\'' { 0x27 } else { 0x22 }
}

/// `e` replaces or inserts with bytes `t` over `[a, b)`, with label `l`.
pub open spec fn edit_is(e: TextEdit, a: int, b: int, t: Seq<u8>, l: Seq<char>) -> bool {
    e.start == a && e.end == b && text_bytes(e.replacement@) == t && e.label@ == l && e.priority == 0
}

/// The last top-level import among `ns[..k]`.
pub open spec fn last_import_upto(ns: Seq<SyntaxNode>, k: int) -> Option<int>
    decreases k,
{
    if k <= 0 {
        None
    } else if ns[k - 1].parent == Some(0usize) && ns[k - 1].kind@ == "import_statement"@ {
        Some(k - 1)
    } else {
        last_import_upto(ns, k - 1)
    }
}

/// One past the first newline at or after `e`, or `e` when there is none.
pub open spec fn after_line(src: Seq<u8>, e: int) -> int {
    let q = crate::format::line_end(src, e);
    if q < src.len() {
        q + 1
    } else {
        e
    }
}

/// Where a new import goes: after the line of the last top-level import,
/// else after a `#!` line, else at the start.
pub open spec fn import_point(ns: Seq<SyntaxNode>, src: Seq<u8>) -> int {
    match last_import_upto(ns, ns.len() as int) {
        Some(i) => after_line(src, ns[i].end as int),
        None => if src.len() >= 2 && src[0] == 0x23 && src[1] == 0x21 {
            let q = crate::format::line_end(src, 0);
            if q < src.len() {
                q + 1
            } else {
                0
            }
        } else {
            0
        },
    }
}

/// The new import, on its own line.
pub open spec fn new_import_text(src: Seq<u8>, at: int, imp: Seq<u8>) -> Seq<u8> {
    (if at > 0 && src[at - 1] != 0x0a { seq![0x0au8] } else { Seq::empty() }) + imp + seq![0x0au8]
}

/// The parts of an add-import request, as bytes.
pub open spec fn request_default(op: AddImport) -> Option<Seq<u8>> {
    match op.default_import {
        Some(d) => Some(text_bytes(d@)),
        None => None,
    }
}

/// The edit that adds a new import statement.
pub open spec fn insert_result(op: AddImport, ns: Seq<SyntaxNode>, src: Seq<u8>, r: Result<Vec<TextEdit>, OperationError>) -> bool {
    let at = import_point(ns, src);
    r matches Ok(v) && v@.len() == 1 && edit_is(v@[0], at, at,
        new_import_text(src, at, full_import(op.type_only, request_default(op), strings_bytes(op.specifiers@), quote_byte(src), text_bytes(op.source_module@), uses_semicolons(src))),
        "add import from '"@ + op.source_module@ + "'"@)
}

/// The edits that merge the request into the existing import `imp`.
pub open spec fn merge_result(op: AddImport, ns: Seq<SyntaxNode>, src: Seq<u8>, imp: int, r: Result<Vec<TextEdit>, OperationError>) -> bool {
    let module = text_bytes(op.source_module@);
    let req = strings_bytes(op.specifiers@);
    let dflt = request_default(op);
    let q = quote_byte(src);
    let semi = uses_semicolons(src);
    let have = existing_specs(ns, src, imp);
    let new = missing_upto(req, have, req.len() as int);
    let need_default = dflt is Some && !has_default(ns, imp);
    if new.len() == 0 && !need_default {
        r matches Ok(v) && v@.len() == 0
    } else if need_default {
        r matches Ok(v) && v@.len() == 1 && edit_is(v@[0], ns[imp].start as int, ns[imp].end as int,
            full_import(op.type_only, dflt, have + new, q, module, semi),
            "rewrite import from '"@ + op.source_module@ + "' to add default"@)
    } else {
        match named_imports_of(ns, imp) {
            Some(nm) if ns[nm].start < ns[nm].end => {
                let close = ns[nm].end - 1;
                let before = src.subrange(ns[nm].start as int, close);
                let e = trimmed_end(before, 0, before.len() as int);
                let trailing = e > 0 && before[e - 1] == 0x2c;
                let list = joined_by(new, text_bytes(", "@));
                r matches Ok(v) && v@.len() == 1 && edit_is(v@[0], close, close,
                    if trailing { list + text_bytes(", "@) } else { text_bytes(", "@) + list },
                    "add specifiers to import from '"@ + op.source_module@ + "'"@)
            },
            _ => r matches Ok(v) && v@.len() == 1 && edit_is(v@[0], ns[imp].start as int, ns[imp].end as int,
                full_import(op.type_only, dflt, req, q, module, semi),
                "rewrite import from '"@ + op.source_module@ + "'"@),
        }
    }
}

/// What adding the import does to `src`, given its parse `ns`.
pub open spec fn add_import_result(op: AddImport, ns: Seq<SyntaxNode>, src: Seq<u8>, r: Result<Vec<TextEdit>, OperationError>) -> bool {
    if op.specifiers@.len() == 0 && op.default_import is None {
        r matches Err(OperationError::InvalidParams { .. })
    } else {
        match import_from(ns, src, text_bytes(op.source_module@), 0) {
            None => insert_result(op, ns, src, r),
            Some(imp) => merge_result(op, ns, src, imp, r),
        }
    }
}

/// Every node starts and ends on a character boundary of `src`.
pub open spec fn nodes_on_boundaries(ns: Seq<SyntaxNode>, src: Seq<u8>) -> bool {
    forall|i: int| 0 <= i < ns.len() ==> partial_valid_utf8(src, (#[trigger] ns[i]).start as int)
        && partial_valid_utf8(src, ns[i].end as int)
}

/// Every node of `ns` starts and ends on a character boundary of `source`.
pub open spec fn nodes_char_bounded(ns: Seq<SyntaxNode>, text: Seq<char>) -> bool {
    forall|i: int| 0 <= i < ns.len() ==> is_char_boundary(text_bytes(text), (#[trigger] ns[i]).start as int)
        && is_char_boundary(text_bytes(text), ns[i].end as int)
}

/// Checks that every node starts and ends on a character boundary.
pub fn check_node_boundaries(ns: &Vec<SyntaxNode>, source: &str) -> (r: bool)
    ensures
        r == nodes_char_bounded(ns@, source@),
        r ==> nodes_on_boundaries(ns@, text_bytes(source@)),
{
    let mut i: usize = 0;
    while i < ns.len()
        invariant
            i <= ns@.len(),
            forall|j: int| 0 <= j < i ==> crate::syntax::boundary(source, (#[trigger] ns@[j]).start as int)
                && crate::syntax::boundary(source, ns@[j].end as int),
            forall|j: int| 0 <= j < i ==> partial_valid_utf8(text_bytes(source@), (#[trigger] ns@[j]).start as int)
                && partial_valid_utf8(text_bytes(source@), ns@[j].end as int),
        decreases ns@.len() - i,
    {
        if !source.is_char_boundary(ns[i].start) || !source.is_char_boundary(ns[i].end) {
            return false;
        }
        proof {
            lemma_boundary_valid(source, ns@[i as int].start as int);
            lemma_boundary_valid(source, ns@[i as int].end as int);
        }
        i += 1;
    }
    true
}

pub open spec fn views(v: Seq<Vec<u8>>) -> Seq<Seq<u8>> {
    v.map_values(|x: Vec<u8>| x@)
}

pub open spec fn all_valid(v: Seq<Seq<u8>>) -> bool {
    forall|i: int| 0 <= i < v.len() ==> valid_utf8(#[trigger] v[i])
}

fn is_quote(b: u8) -> (r: bool)
    ensures
        r == (b == 0x27 || b == 0x22),
{
    b == 0x27 || b == 0x22
}

proof fn lemma_unquoted_back(t: Seq<u8>)
    requires
        t.len() > 0,
        !(t[0] == 0x27 || t[0] == 0x22),
        t.last() == 0x27 || t.last() == 0x22,
    ensures
        unquoted(t) == unquoted(t.drop_last()),
{
}

fn unquoted_range(src: &[u8], a0: usize, b0: usize) -> (r: (usize, usize))
    requires
        a0 <= b0 <= src@.len(),
    ensures
        r.0 <= r.1,
        a0 <= r.0,
        r.1 <= b0,
        unquoted(src@.subrange(a0 as int, b0 as int)) == src@.subrange(r.0 as int, r.1 as int),
{
    let mut a = a0;
    while a < b0 && is_quote(src[a])
        invariant
            a0 <= a <= b0 <= src@.len(),
            unquoted(src@.subrange(a0 as int, b0 as int)) == unquoted(src@.subrange(a as int, b0 as int)),
        decreases b0 - a,
    {
        assert(src@.subrange(a as int, b0 as int).drop_first() =~= src@.subrange(a + 1, b0 as int));
        a += 1;
    }
    let mut b = b0;
    while b > a && is_quote(src[b - 1])
        invariant
            a0 <= a <= b <= b0 <= src@.len(),
            a < b0 ==> !(src@[a as int] == 0x27 || src@[a as int] == 0x22),
            unquoted(src@.subrange(a0 as int, b0 as int)) == unquoted(src@.subrange(a as int, b as int)),
        decreases b - a,
    {
        let ghost t = src@.subrange(a as int, b as int);
        proof {
            assert(t[0] == src@[a as int]);
            lemma_unquoted_back(t);
            assert(t.drop_last() =~= src@.subrange(a as int, b - 1));
        }
        b -= 1;
    }
    proof {
        let t = src@.subrange(a as int, b as int);
        if t.len() > 0 {
            assert(t[0] == src@[a as int]);
            assert(t.last() == src@[b - 1]);
        }
    }
    (a, b)
}

fn find_import(ns: &Vec<SyntaxNode>, src: &[u8], module: &[u8]) -> (r: Option<usize>)
    requires
        nodes_fit(ns@, src@.len() as int),
    ensures
        match r {
            Some(i) => import_from(ns@, src@, module@, 0) == Some(i as int) && i < ns@.len(),
            None => import_from(ns@, src@, module@, 0) is None,
        },
{
    let mut i: usize = 0;
    while i < ns.len()
        invariant
            i <= ns@.len(),
            nodes_fit(ns@, src@.len() as int),
            import_from(ns@, src@, module@, 0) == import_from(ns@, src@, module@, i as int),
        decreases ns@.len() - i,
    {
        if ns[i].parent == Some(0) && crate::text::str_eq(ns[i].kind.as_str(), "import_statement") {
            match field_child_of(ns, i, "source") {
                Some(c) => {
                    let n = &ns[c];
                    assert(n.start <= n.end <= src@.len());
                    let (a, b) = unquoted_range(src, n.start, n.end);
                    if bytes_eq(&src[a..b], module) {
                        return Some(i);
                    }
                },
                None => {},
            }
        }
        i += 1;
    }
    None
}

fn copy_node_text(src: &[u8], n: &SyntaxNode) -> (r: Vec<u8>)
    requires
        n.start <= n.end <= src@.len(),
        partial_valid_utf8(src@, n.start as int),
        partial_valid_utf8(src@, n.end as int),
    ensures
        r@ == node_text(src@, *n),
        valid_utf8(r@),
{
    let mut out: Vec<u8> = Vec::new();
    push_range(&mut out, src, n.start, n.end);
    proof {
        lemma_valid_between(src@, n.start as int, n.end as int);
    }
    out
}

fn existing_of(ns: &Vec<SyntaxNode>, src: &[u8], imp: usize) -> (r: Vec<Vec<u8>>)
    requires
        nodes_fit(ns@, src@.len() as int),
        nodes_on_boundaries(ns@, src@),
    ensures
        views(r@) == existing_specs(ns@, src@, imp as int),
        all_valid(views(r@)),
{
    let mut out: Vec<Vec<u8>> = Vec::new();
    let named = match kind_child_of(ns, imp, "import_clause") {
        Some(c) => kind_child_of(ns, c, "named_imports"),
        None => None,
    };
    let nm = match named {
        Some(nm) => nm,
        None => {
            assert(views(out@) =~= Seq::<Seq<u8>>::empty());
            return out;
        },
    };
    let mut k: usize = 0;
    while k < ns.len()
        invariant
            k <= ns@.len(),
            nodes_fit(ns@, src@.len() as int),
            nodes_on_boundaries(ns@, src@),
            views(out@) == specs_upto(ns@, src@, nm as int, k as int),
            all_valid(views(out@)),
        decreases ns@.len() - k,
    {
        let ghost before = views(out@);
        if ns[k].parent == Some(nm) && crate::text::str_eq(ns[k].kind.as_str(), "import_specifier") {
            match field_child_of(ns, k, "name") {
                Some(c) => {
                    let t = copy_node_text(src, &ns[c]);
                    out.push(t);
                    assert(views(out@) =~= before.push(node_text(src@, ns@[c as int])));
                },
                None => {},
            }
        }
        k += 1;
    }
    out
}

fn contains_bytes(have: &Vec<Vec<u8>>, x: &[u8]) -> (r: bool)
    ensures
        r == views(have@).contains(x@),
{
    let mut i: usize = 0;
    while i < have.len()
        invariant
            i <= have@.len(),
            forall|j: int| 0 <= j < i ==> have@[j]@ != x@,
        decreases have@.len() - i,
    {
        if bytes_eq(have[i].as_slice(), x) {
            assert(views(have@)[i as int] == x@);
            return true;
        }
        i += 1;
    }
    proof {
        if views(have@).contains(x@) {
            let j = choose|j: int| 0 <= j < views(have@).len() && views(have@)[j] == x@;
            assert(have@[j]@ == x@);
        }
    }
    false
}

fn join_parts(parts: &Vec<Vec<u8>>, sep: &str) -> (r: Vec<u8>)
    requires
        all_valid(views(parts@)),
    ensures
        r@ == joined_by(views(parts@), text_bytes(sep@)),
        valid_utf8(r@),
{
    let mut out: Vec<u8> = Vec::new();
    proof { lemma_ascii_valid(out@); }
    let mut i: usize = 0;
    while i < parts.len()
        invariant
            i <= parts@.len(),
            all_valid(views(parts@)),
            out@ == joined_by(views(parts@).take(i as int), text_bytes(sep@)),
            valid_utf8(out@),
        decreases parts@.len() - i,
    {
        if i > 0 {
            push_str(&mut out, sep);
        }
        assert(valid_utf8(views(parts@)[i as int]));
        push_valid(&mut out, parts[i].as_slice());
        proof {
            let t = views(parts@).take(i + 1);
            assert(t.drop_last() =~= views(parts@).take(i as int));
            assert(t.last() == parts@[i as int]@);
            if i == 0 {
                assert(out@ =~= t[0]);
            }
        }
        i += 1;
    }
    assert(views(parts@).take(i as int) =~= views(parts@));
    out
}

pub open spec fn opt_view(o: Option<Vec<u8>>) -> Option<Seq<u8>> {
    match o {
        Some(d) => Some(d@),
        None => None,
    }
}

fn full_import_bytes(type_only: bool, default: &Option<Vec<u8>>, specs: &Vec<Vec<u8>>, q: u8, module: &[u8], semi: bool) -> (r: Vec<u8>)
    requires
        all_valid(views(specs@)),
        default matches Some(d) ==> valid_utf8(d@),
        q == 0x27 || q == 0x22,
        valid_utf8(module@),
    ensures
        r@ == full_import(type_only, opt_view(*default), views(specs@), q, module@, semi),
        valid_utf8(r@),
{
    let mut braces: Vec<u8> = Vec::new();
    proof { lemma_ascii_valid(braces@); }
    push_str(&mut braces, "{ ");
    let list = join_parts(specs, ", ");
    push_valid(&mut braces, list.as_slice());
    push_str(&mut braces, " }");
    let mut parts: Vec<Vec<u8>> = Vec::new();
    match default {
        Some(d) => {
            let mut dd: Vec<u8> = Vec::new();
            proof { lemma_ascii_valid(dd@); }
            push_valid(&mut dd, d.as_slice());
            parts.push(dd);
        },
        None => {},
    }
    let has_specs = specs.len() > 0;
    if has_specs {
        parts.push(braces);
    }
    let ghost dv = opt_view(*default);
    proof {
        let br = text_bytes("{ "@) + joined_by(views(specs@), text_bytes(", "@)) + text_bytes(" }"@);
        let expect: Seq<Seq<u8>> = match dv {
            Some(d) => if specs@.len() > 0 { seq![d, br] } else { seq![d] },
            None => if specs@.len() > 0 { seq![br] } else { Seq::empty() },
        };
        assert(views(parts@) =~= expect);
    }
    let clause = join_parts(&parts, ", ");
    let mut out: Vec<u8> = Vec::new();
    proof { lemma_ascii_valid(out@); }
    push_str(&mut out, "import ");
    if type_only {
        push_str(&mut out, "type ");
    }
    push_valid(&mut out, clause.as_slice());
    push_str(&mut out, " from ");
    let ghost b1 = out@;
    out.push(q);
    proof {
        lemma_ascii_valid(seq![q]);
        valid_utf8_concat(b1, seq![q]);
        assert(out@ =~= b1 + seq![q]);
    }
    push_valid(&mut out, module);
    let ghost b2 = out@;
    out.push(q);
    proof {
        valid_utf8_concat(b2, seq![q]);
        assert(out@ =~= b2 + seq![q]);
    }
    if semi {
        push_str(&mut out, ";");
    }
    proof {
        let e = full_import(type_only, dv, views(specs@), q, module@, semi);
        assert(out@ =~= e);
    }
    out
}

fn strings_to_bytes(v: &Vec<String>) -> (r: Vec<Vec<u8>>)
    ensures
        views(r@) == strings_bytes(v@),
        all_valid(views(r@)),
{
    let mut out: Vec<Vec<u8>> = Vec::new();
    let mut i: usize = 0;
    while i < v.len()
        invariant
            i <= v@.len(),
            views(out@) == strings_bytes(v@.take(i as int)),
            all_valid(views(out@)),
        decreases v@.len() - i,
    {
        let mut b: Vec<u8> = Vec::new();
        proof { lemma_ascii_valid(b@); }
        push_str(&mut b, v[i].as_str());
        let ghost before = views(out@);
        out.push(b);
        proof {
            assert(views(out@) =~= before.push(text_bytes(v@[i as int]@)));
            assert(strings_bytes(v@.take(i + 1)) =~= strings_bytes(v@.take(i as int)).push(text_bytes(v@[i as int]@)));
        }
        i += 1;
    }
    assert(v@.take(i as int) =~= v@);
    out
}

fn missing_of(req: &Vec<Vec<u8>>, have: &Vec<Vec<u8>>) -> (r: Vec<Vec<u8>>)
    requires
        all_valid(views(req@)),
    ensures
        views(r@) == missing_upto(views(req@), views(have@), req@.len() as int),
        all_valid(views(r@)),
{
    let mut out: Vec<Vec<u8>> = Vec::new();
    let mut i: usize = 0;
    while i < req.len()
        invariant
            i <= req@.len(),
            all_valid(views(req@)),
            views(out@) == missing_upto(views(req@), views(have@), i as int),
            all_valid(views(out@)),
        decreases req@.len() - i,
    {
        if !contains_bytes(have, req[i].as_slice()) {
            let mut b: Vec<u8> = Vec::new();
            proof { lemma_ascii_valid(b@); }
            assert(valid_utf8(views(req@)[i as int]));
            push_valid(&mut b, req[i].as_slice());
            let ghost before = views(out@);
            out.push(b);
            assert(views(out@) =~= before.push(req@[i as int]@));
        }
        i += 1;
    }
    out
}

fn last_import(ns: &Vec<SyntaxNode>) -> (r: Option<usize>)
    ensures
        match r {
            Some(i) => last_import_upto(ns@, ns@.len() as int) == Some(i as int) && i < ns@.len(),
            None => last_import_upto(ns@, ns@.len() as int) is None,
        },
{
    let mut k = ns.len();
    while k > 0
        invariant
            k <= ns@.len(),
            forall|j: int| k <= j < ns@.len() ==> !(ns@[j].parent == Some(0usize) && ns@[j].kind@ == "import_statement"@),
            last_import_upto(ns@, ns@.len() as int) == last_import_upto(ns@, k as int),
        decreases k,
    {
        if ns[k - 1].parent == Some(0) && crate::text::str_eq(ns[k - 1].kind.as_str(), "import_statement") {
            return Some(k - 1);
        }
        k -= 1;
    }
    None
}

proof fn lemma_last_import_shift(ns: Seq<SyntaxNode>, k: int, n: int)
    requires
        0 <= k <= n <= ns.len(),
        forall|j: int| k <= j < n ==> !(ns[j].parent == Some(0usize) && ns[j].kind@ == "import_statement"@),
    ensures
        last_import_upto(ns, n) == last_import_upto(ns, k),
    decreases n - k,
{
    if n > k {
        lemma_last_import_shift(ns, k, n - 1);
    }
}

fn insertion_point(ns: &Vec<SyntaxNode>, src: &[u8]) -> (r: usize)
    requires
        nodes_fit(ns@, src@.len() as int),
    ensures
        r == import_point(ns@, src@),
        r <= src@.len(),
{
    match last_import(ns) {
        Some(i) => {
            let e = ns[i].end;
            assert(e <= src@.len());
            let q = crate::format::find_line_end(src, e);
            if q < src.len() { q + 1 } else { e }
        },
        None => {
            if src.len() >= 2 && src[0] == 0x23 && src[1] == 0x21 {
                let q = crate::format::find_line_end(src, 0);
                if q < src.len() { q + 1 } else { 0 }
            } else {
                0
            }
        },
    }
}

/// Where a new import goes in `source`: after the line of the last
/// top-level import, else after a `#!` line, else at the start.
pub fn import_insertion_point(source: &str, nodes: &Vec<SyntaxNode>) -> (r: usize)
    requires
        nodes_fit(nodes@, text_bytes(source@).len() as int),
    ensures
        r == import_point(nodes@, text_bytes(source@)),
{
    insertion_point(nodes, source.as_bytes())
}

fn label_with(prefix: &str, module: &str, suffix: &str) -> (r: String)
    ensures
        r@ == prefix@ + module@ + suffix@,
{
    let mut l = prefix.to_owned();
    l.append(module);
    l.append(suffix);
    l
}

fn one_edit(start: usize, end: usize, text: Vec<u8>, label: String) -> (r: Vec<TextEdit>)
    requires
        valid_utf8(text@),
    ensures
        r@.len() == 1,
        edit_is(r@[0], start as int, end as int, text@, label@),
{
    let replacement = string_of_bytes(text);
    let mut v: Vec<TextEdit> = Vec::new();
    v.push(TextEdit { start, end, replacement, label, priority: 0 });
    v
}

fn push_ascii(out: &mut Vec<u8>, b: u8)
    requires
        valid_utf8(old(out)@),
        b <= 0x7f,
    ensures
        final(out)@ == old(out)@.push(b),
        valid_utf8(final(out)@),
{
    let ghost before = out@;
    out.push(b);
    proof {
        lemma_ascii_valid(seq![b]);
        valid_utf8_concat(before, seq![b]);
        assert(out@ =~= before + seq![b]);
    }
}

/// The request's module, names, default and the file's style, as bytes.
struct Request {
    module: Vec<u8>,
    req: Vec<Vec<u8>>,
    default: Option<Vec<u8>>,
    q: u8,
    semi: bool,
}

impl AddImport {
    fn request(&self, source: &str) -> (r: Request)
        ensures
            r.module@ == text_bytes(self.source_module@),
            valid_utf8(r.module@),
            views(r.req@) == strings_bytes(self.specifiers@),
            all_valid(views(r.req@)),
            opt_view(r.default) == request_default(*self),
            r.default matches Some(d) ==> valid_utf8(d@),
            r.q == quote_byte(text_bytes(source@)),
            r.semi == uses_semicolons(text_bytes(source@)),
    {
        let mut module: Vec<u8> = Vec::new();
        proof { lemma_ascii_valid(module@); }
        push_str(&mut module, self.source_module.as_str());
        let req = strings_to_bytes(&self.specifiers);
        let default: Option<Vec<u8>> = match &self.default_import {
            Some(d) => {
                let mut b: Vec<u8> = Vec::new();
                proof { lemma_ascii_valid(b@); }
                push_str(&mut b, d.as_str());
                Some(b)
            },
            None => None,
        };
        let q: u8 = if detect_quote_style(source) == '\'' { 0x27 } else { 0x22 };
        let semi = detect_semicolons(source);
        Request { module, req, default, q, semi }
    }

    fn insert_edits(&self, source: &str, nodes: &Vec<SyntaxNode>) -> (r: Result<Vec<TextEdit>, OperationError>)
        requires
            nodes_fit(nodes@, text_bytes(source@).len() as int),
        ensures
            insert_result(*self, nodes@, text_bytes(source@), r),
    {
        let src = source.as_bytes();
        let rq = self.request(source);
        let at = insertion_point(nodes, src);
        let imp = full_import_bytes(self.type_only, &rq.default, &rq.req, rq.q, rq.module.as_slice(), rq.semi);
        let mut text: Vec<u8> = Vec::new();
        proof { lemma_ascii_valid(text@); }
        if at > 0 && src[at - 1] != 0x0a {
            push_ascii(&mut text, 0x0a);
        }
        push_valid(&mut text, imp.as_slice());
        push_ascii(&mut text, 0x0a);
        proof {
            assert(text@ =~= new_import_text(src@, at as int, imp@));
        }
        Ok(one_edit(at, at, text, label_with("add import from '", self.source_module.as_str(), "'")))
    }

    #[verifier::rlimit(60)]
    fn merge_edits(&self, source: &str, nodes: &Vec<SyntaxNode>, imp: usize) -> (r: Result<Vec<TextEdit>, OperationError>)
        requires
            imp < nodes@.len(),
            nodes_fit(nodes@, text_bytes(source@).len() as int),
            nodes_on_boundaries(nodes@, text_bytes(source@)),
        ensures
            merge_result(*self, nodes@, text_bytes(source@), imp as int, r),
    {
        let src = source.as_bytes();
        let ghost sb = src@;
        let rq = self.request(source);
        let m = self.source_module.as_str();
        let have = existing_of(nodes, src, imp);
        let new = missing_of(&rq.req, &have);
        let has_d = match kind_child_of(nodes, imp, "import_clause") {
            Some(c) => kind_child_of(nodes, c, "identifier").is_some(),
            None => false,
        };
        let need_default = rq.default.is_some() && !has_d;
        if new.len() == 0 && !need_default {
            return Ok(Vec::new());
        }
        let n = &nodes[imp];
        if need_default {
            let mut all: Vec<Vec<u8>> = have;
            let mut extra = new;
            let ghost hv = views(all@);
            let ghost nv = views(extra@);
            all.append(&mut extra);
            assert(views(all@) =~= hv + nv);
            let text = full_import_bytes(self.type_only, &rq.default, &all, rq.q, rq.module.as_slice(), rq.semi);
            return Ok(one_edit(n.start, n.end, text, label_with("rewrite import from '", m, "' to add default")));
        }
        let named = match kind_child_of(nodes, imp, "import_clause") {
            Some(c) => kind_child_of(nodes, c, "named_imports"),
            None => None,
        };
        match named {
            Some(nm) => {
                let nn = &nodes[nm];
                assert(nn.start <= nn.end <= sb.len());
                if nn.start < nn.end {
                    let close = nn.end - 1;
                    return Ok(self.insert_names(src, nn.start, close, &new));
                }
            },
            None => {},
        }
        let text = full_import_bytes(self.type_only, &rq.default, &rq.req, rq.q, rq.module.as_slice(), rq.semi);
        Ok(one_edit(n.start, n.end, text, label_with("rewrite import from '", m, "'")))
    }

    fn insert_names(&self, src: &[u8], start: usize, close: usize, new: &Vec<Vec<u8>>) -> (r: Vec<TextEdit>)
        requires
            start <= close < src@.len(),
            all_valid(views(new@)),
        ensures
            ({
                let before = src@.subrange(start as int, close as int);
                let e = trimmed_end(before, 0, before.len() as int);
                let trailing = e > 0 && before[e - 1] == 0x2c;
                let list = joined_by(views(new@), text_bytes(", "@));
                r@.len() == 1 && edit_is(r@[0], close as int, close as int,
                    if trailing { list + text_bytes(", "@) } else { text_bytes(", "@) + list },
                    "add specifiers to import from '"@ + self.source_module@ + "'"@)
            }),
    {
        let ghost before = src@.subrange(start as int, close as int);
        let mut e = close;
        while e > start && (src[e - 1] == 0x20 || src[e - 1] == 0x09 || src[e - 1] == 0x0a || src[e - 1] == 0x0b
            || src[e - 1] == 0x0c || src[e - 1] == 0x0d)
            invariant
                start <= e <= close < src@.len(),
                before == src@.subrange(start as int, close as int),
                trimmed_end(before, 0, before.len() as int) == trimmed_end(before, 0, e - start),
            decreases e - start,
        {
            assert(before[e - 1 - start] == src@[e - 1]);
            e -= 1;
        }
        let trailing = e > start && src[e - 1] == 0x2c;
        proof {
            if e > start {
                assert(before[e - 1 - start] == src@[e - 1]);
            }
        }
        let list = join_parts(new, ", ");
        let mut text: Vec<u8> = Vec::new();
        proof { lemma_ascii_valid(text@); }
        if trailing {
            push_valid(&mut text, list.as_slice());
            push_str(&mut text, ", ");
        } else {
            push_str(&mut text, ", ");
            push_valid(&mut text, list.as_slice());
        }
        one_edit(close, close, text, label_with("add specifiers to import from '", self.source_module.as_str(), "'"))
    }

    /// The edit that adds the import: merged into the import from the same
    /// module when there is one, else a new import statement.
    pub fn compute_edits(&self, source: &str, nodes: &Vec<SyntaxNode>) -> (r: Result<Vec<TextEdit>, OperationError>)
        requires
            nodes_fit(nodes@, text_bytes(source@).len() as int),
            nodes_on_boundaries(nodes@, text_bytes(source@)),
        ensures
            add_import_result(*self, nodes@, text_bytes(source@), r),
    {
        if self.specifiers.len() == 0 && self.default_import.is_none() {
            return Err(OperationError::InvalidParams {
                message: "add_import requires at least one specifier or a default import".to_owned(),
            });
        }
        let src = source.as_bytes();
        let mut module: Vec<u8> = Vec::new();
        proof { lemma_ascii_valid(module@); }
        push_str(&mut module, self.source_module.as_str());
        match find_import(nodes, src, module.as_slice()) {
            None => self.insert_edits(source, nodes),
            Some(imp) => self.merge_edits(source, nodes, imp),
        }
    }
}

proof fn lemma_nothing_missing(req: Seq<Seq<u8>>, have: Seq<Seq<u8>>, k: int)
    requires
        0 <= k <= req.len(),
        forall|j: int| 0 <= j < req.len() ==> have.contains(#[trigger] req[j]),
    ensures
        missing_upto(req, have, k).len() == 0,
    decreases k,
{
    if k > 0 {
        assert(have.contains(req[k - 1]));
        lemma_nothing_missing(req, have, k - 1);
    }
}

/// Adding names that an import from the module already has, with no
/// default import, makes no edit.
pub proof fn lemma_present_specifiers_no_edit(op: AddImport, ns: Seq<SyntaxNode>, src: Seq<u8>, r: Result<Vec<TextEdit>, OperationError>)
    requires
        op.specifiers@.len() > 0,
        op.default_import is None,
        import_from(ns, src, text_bytes(op.source_module@), 0) matches Some(imp) && forall|k: int|
            0 <= k < op.specifiers@.len() ==> existing_specs(ns, src, imp).contains(text_bytes(#[trigger] op.specifiers@[k]@)),
    ensures
        add_import_result(op, ns, src, r) ==> (r matches Ok(v) && v@.len() == 0),
{
    let imp = import_from(ns, src, text_bytes(op.source_module@), 0)->0;
    let req = strings_bytes(op.specifiers@);
    let have = existing_specs(ns, src, imp);
    assert forall|j: int| 0 <= j < req.len() implies have.contains(#[trigger] req[j]) by {
        assert(req[j] == text_bytes(op.specifiers@[j]@));
    }
    lemma_nothing_missing(req, have, req.len() as int);
}

/// The end of node `n`, with the newline right after it when there is one.
pub open spec fn end_with_newline(src: Seq<u8>, end: int) -> int {
    if 0 <= end < src.len() && src[end] == 0x0a {
        end + 1
    } else {
        end
    }
}

/// What removing from an import does to `src`, given its parse `ns`.
pub open spec fn remove_import_result(op: RemoveImport, ns: Seq<SyntaxNode>, src: Seq<u8>, r: Result<Vec<TextEdit>, OperationError>) -> bool {
    let module = text_bytes(op.source_module@);
    match import_from(ns, src, module, 0) {
        None => r matches Err(OperationError::TargetNotFound { .. }),
        Some(imp) => {
            let remaining = missing_upto(existing_specs(ns, src, imp), strings_bytes(op.specifiers@), existing_specs(ns, src, imp).len() as int);
            if op.specifiers@.len() == 0 || remaining.len() == 0 {
                r matches Ok(v) && v@.len() == 1 && edit_is(v@[0], ns[imp].start as int, end_with_newline(src, ns[imp].end as int),
                    Seq::empty(), "remove import from '"@ + op.source_module@ + "'"@)
            } else {
                r matches Ok(v) && v@.len() == 1 && edit_is(v@[0], ns[imp].start as int, ns[imp].end as int,
                    full_import(false, None, remaining, quote_byte(src), module, uses_semicolons(src)),
                    "remove specifiers from import '"@ + op.source_module@ + "'"@)
            }
        },
    }
}

impl RemoveImport {
    /// The edit that removes the import, or the named specifiers from it;
    /// an import left with none goes entirely, with its line break.
    pub fn compute_edits(&self, source: &str, nodes: &Vec<SyntaxNode>) -> (r: Result<Vec<TextEdit>, OperationError>)
        requires
            nodes_fit(nodes@, text_bytes(source@).len() as int),
            nodes_on_boundaries(nodes@, text_bytes(source@)),
        ensures
            remove_import_result(*self, nodes@, text_bytes(source@), r),
    {
        let src = source.as_bytes();
        let m = self.source_module.as_str();
        let mut module: Vec<u8> = Vec::new();
        proof { lemma_ascii_valid(module@); }
        push_str(&mut module, m);
        let imp = match find_import(nodes, src, module.as_slice()) {
            Some(i) => i,
            None => {
                let description = label_with("No import from '", m, "' found");
                return Err(OperationError::TargetNotFound { description });
            },
        };
        let n = &nodes[imp];
        assert(n.start <= n.end <= src@.len());
        let req = strings_to_bytes(&self.specifiers);
        let have = existing_of(nodes, src, imp);
        let remaining = missing_of(&have, &req);
        if self.specifiers.len() == 0 || remaining.len() == 0 {
            let end = if n.end < src.len() && src[n.end] == 0x0a { n.end + 1 } else { n.end };
            let mut empty: Vec<u8> = Vec::new();
            proof { lemma_ascii_valid(empty@); }
            return Ok(one_edit(n.start, end, empty, label_with("remove import from '", m, "'")));
        }
        let q: u8 = if detect_quote_style(source) == '\'' { 0x27 } else { 0x22 };
        let semi = detect_semicolons(source);
        let text = full_import_bytes(false, &None, &remaining, q, module.as_slice(), semi);
        Ok(one_edit(n.start, n.end, text, label_with("remove specifiers from import '", m, "'")))
    }
}

} // verus!
