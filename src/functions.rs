//! Finding a function by name in a parse, and its parameters; removing a
//! parameter.

use vstd::prelude::*;

use crate::edit::TextEdit;
use crate::import_paths::{field_child_from, kind_child_from};
use crate::operations::{param_text, AddParameter, MakeAsync, OperationError, ParamPosition, RemoveParameter};
use crate::imports::nodes_on_boundaries;
use crate::text::{lemma_ascii_valid, lemma_valid_between, push_range, push_str, push_valid, string_of_bytes};
use vstd::utf8::*;
use crate::rename::{node_text, nodes_fit};
use crate::style::{is_blank, trimmed_end, trimmed_start};
use crate::syntax::SyntaxNode;
use crate::text::{bytes_eq, str_eq, text_bytes};

verus! {

/// Declarations whose `name` field names a function.
pub open spec fn named_function_kind(k: Seq<char>) -> bool {
    k == "function_declaration"@ || k == "generator_function_declaration"@ || k == "method_definition"@
}

/// Values that make a variable a function.
pub open spec fn function_value_kind(k: Seq<char>) -> bool {
    k == "arrow_function"@ || k == "function_expression"@ || k == "generator_function"@
}

/// The child of `a` that fills `field`, and the text it spans, if any.
pub open spec fn field_text(ns: Seq<SyntaxNode>, src: Seq<u8>, a: int, field: Seq<char>) -> Option<Seq<u8>> {
    match field_child_from(ns, a, field, 0) {
        Some(c) => Some(node_text(src, ns[c])),
        None => None,
    }
}

/// The function that node `i` gives for `name`: itself when it declares
/// that name, or the function value of a variable of that name.
pub open spec fn function_at(ns: Seq<SyntaxNode>, src: Seq<u8>, i: int, name: Seq<u8>) -> Option<int> {
    if named_function_kind(ns[i].kind@) && field_text(ns, src, i, "name"@) == Some(name) {
        Some(i)
    } else if ns[i].kind@ == "variable_declarator"@ && field_text(ns, src, i, "name"@) == Some(name) {
        match field_child_from(ns, i, "value"@, 0) {
            Some(v) => if function_value_kind(ns[v].kind@) {
                Some(v)
            } else {
                None
            },
            None => None,
        }
    } else {
        None
    }
}

/// The first function for `name` among the nodes from `i` on.
pub open spec fn function_from(ns: Seq<SyntaxNode>, src: Seq<u8>, i: int, name: Seq<u8>) -> Option<int>
    decreases ns.len() - i,
{
    if i < 0 || i >= ns.len() {
        None
    } else {
        match function_at(ns, src, i, name) {
            Some(f) => Some(f),
            None => function_from(ns, src, i + 1, name),
        }
    }
}

/// The parameter list of function `f`.
pub open spec fn parameters_of(ns: Seq<SyntaxNode>, f: int) -> Option<int> {
    match field_child_from(ns, f, "parameters"@, 0) {
        Some(p) => Some(p),
        None => kind_child_from(ns, f, "formal_parameters"@, 0),
    }
}

pub open spec fn parameter_kind(k: Seq<char>) -> bool {
    k == "required_parameter"@ || k == "optional_parameter"@ || k == "rest_pattern"@ || k == "identifier"@
        || k == "assignment_pattern"@ || k == "object_pattern"@ || k == "array_pattern"@
}

/// The parameters among the children of `p` in `ns[..k]`, in order.
pub open spec fn params_upto(ns: Seq<SyntaxNode>, p: int, k: int) -> Seq<int>
    decreases k,
{
    if k <= 0 {
        Seq::empty()
    } else if ns[k - 1].parent == Some(p as usize) && parameter_kind(ns[k - 1].kind@) {
        params_upto(ns, p, k - 1).push(k - 1)
    } else {
        params_upto(ns, p, k - 1)
    }
}

/// The name a parameter declares: its text before any `:`, trimmed.
pub open spec fn param_name(t: Seq<u8>) -> Seq<u8> {
    let h = first_segment(t, 0);
    let e = trimmed_end(h, 0, h.len() as int);
    h.subrange(trimmed_start(h, 0, e), e)
}

/// The text of `t` from byte `i` to its first `:` (or its end), from the start.
pub open spec fn first_segment(t: Seq<u8>, i: int) -> Seq<u8>
    decreases t.len() - i,
{
    if i < 0 || i >= t.len() {
        t
    } else if t[i] == 0x3a {
        t.subrange(0, i)
    } else {
        first_segment(t, i + 1)
    }
}

/// The first index in `ps` from `j` on whose parameter is named `name`.
pub open spec fn param_named_from(ns: Seq<SyntaxNode>, src: Seq<u8>, ps: Seq<int>, name: Seq<u8>, j: int) -> Option<int>
    decreases ps.len() - j,
{
    if j < 0 || j >= ps.len() {
        None
    } else if param_name(node_text(src, ns[ps[j]])) == name {
        Some(j)
    } else {
        param_named_from(ns, src, ps, name, j + 1)
    }
}

/// The byte range removed with parameter `idx` of `ps`: the parameter
/// alone when it is the only one, from the end of the one before when it
/// is the last, else up to the start of the next.
pub open spec fn removal_range(ns: Seq<SyntaxNode>, ps: Seq<int>, idx: int) -> (int, int) {
    if ps.len() == 1 {
        (ns[ps[0]].start as int, ns[ps[0]].end as int)
    } else if idx == ps.len() - 1 {
        (ns[ps[idx - 1]].end as int, ns[ps[idx]].end as int)
    } else {
        (ns[ps[idx]].start as int, ns[ps[idx + 1]].start as int)
    }
}

pub(crate) fn field_child_of(ns: &Vec<SyntaxNode>, a: usize, field: &str) -> (r: Option<usize>)
    ensures
        match r {
            Some(c) => field_child_from(ns@, a as int, field@, 0) == Some(c as int) && c < ns@.len(),
            None => field_child_from(ns@, a as int, field@, 0) is None,
        },
{
    let mut j: usize = 0;
    while j < ns.len()
        invariant
            j <= ns@.len(),
            field_child_from(ns@, a as int, field@, 0) == field_child_from(ns@, a as int, field@, j as int),
        decreases ns@.len() - j,
    {
        let hit = match &ns[j].field {
            Some(f) => str_eq(f.as_str(), field),
            None => false,
        };
        if ns[j].parent == Some(a) && hit {
            return Some(j);
        }
        j += 1;
    }
    None
}

pub(crate) fn kind_child_of(ns: &Vec<SyntaxNode>, a: usize, kind: &str) -> (r: Option<usize>)
    ensures
        match r {
            Some(c) => kind_child_from(ns@, a as int, kind@, 0) == Some(c as int) && c < ns@.len(),
            None => kind_child_from(ns@, a as int, kind@, 0) is None,
        },
{
    let mut j: usize = 0;
    while j < ns.len()
        invariant
            j <= ns@.len(),
            kind_child_from(ns@, a as int, kind@, 0) == kind_child_from(ns@, a as int, kind@, j as int),
        decreases ns@.len() - j,
    {
        if ns[j].parent == Some(a) && str_eq(ns[j].kind.as_str(), kind) {
            return Some(j);
        }
        j += 1;
    }
    None
}

fn field_text_is(ns: &Vec<SyntaxNode>, src: &[u8], a: usize, field: &str, name: &[u8]) -> (r: bool)
    requires
        nodes_fit(ns@, src@.len() as int),
    ensures
        r == (field_text(ns@, src@, a as int, field@) == Some(name@)),
{
    match field_child_of(ns, a, field) {
        Some(c) => {
            let n = &ns[c];
            assert(n.start <= n.end <= src@.len());
            bytes_eq(&src[n.start..n.end], name)
        },
        None => false,
    }
}

fn function_at_exec(ns: &Vec<SyntaxNode>, src: &[u8], i: usize, name: &[u8]) -> (r: Option<usize>)
    requires
        i < ns@.len(),
        nodes_fit(ns@, src@.len() as int),
    ensures
        match r {
            Some(f) => function_at(ns@, src@, i as int, name@) == Some(f as int) && f < ns@.len(),
            None => function_at(ns@, src@, i as int, name@) is None,
        },
{
    let k = ns[i].kind.as_str();
    let named = str_eq(k, "function_declaration") || str_eq(k, "generator_function_declaration") || str_eq(
        k,
        "method_definition",
    );
    if named && field_text_is(ns, src, i, "name", name) {
        return Some(i);
    }
    if str_eq(k, "variable_declarator") && field_text_is(ns, src, i, "name", name) {
        match field_child_of(ns, i, "value") {
            Some(v) => {
                let vk = ns[v].kind.as_str();
                if str_eq(vk, "arrow_function") || str_eq(vk, "function_expression") || str_eq(vk, "generator_function") {
                    return Some(v);
                }
                return None;
            },
            None => return None,
        }
    }
    None
}

/// The first function named `name`, in document order.
pub fn find_function_by_name(ns: &Vec<SyntaxNode>, src: &[u8], name: &[u8]) -> (r: Option<usize>)
    requires
        nodes_fit(ns@, src@.len() as int),
    ensures
        match r {
            Some(f) => function_from(ns@, src@, 0, name@) == Some(f as int) && f < ns@.len(),
            None => function_from(ns@, src@, 0, name@) is None,
        },
{
    let mut i: usize = 0;
    while i < ns.len()
        invariant
            i <= ns@.len(),
            nodes_fit(ns@, src@.len() as int),
            function_from(ns@, src@, 0, name@) == function_from(ns@, src@, i as int, name@),
        decreases ns@.len() - i,
    {
        match function_at_exec(ns, src, i, name) {
            Some(f) => return Some(f),
            None => {},
        }
        i += 1;
    }
    None
}

/// The parameter list of function `f`.
pub fn find_formal_parameters(ns: &Vec<SyntaxNode>, f: usize) -> (r: Option<usize>)
    ensures
        match r {
            Some(p) => parameters_of(ns@, f as int) == Some(p as int) && p < ns@.len(),
            None => parameters_of(ns@, f as int) is None,
        },
{
    match field_child_of(ns, f, "parameters") {
        Some(p) => Some(p),
        None => kind_child_of(ns, f, "formal_parameters"),
    }
}

/// The parameters in parameter list `p`, in order.
pub fn collect_param_nodes(ns: &Vec<SyntaxNode>, p: usize) -> (r: Vec<usize>)
    ensures
        r@.len() == params_upto(ns@, p as int, ns@.len() as int).len(),
        forall|j: int| 0 <= j < r@.len() ==> #[trigger] r@[j] as int == params_upto(ns@, p as int, ns@.len() as int)[j],
        forall|j: int| 0 <= j < r@.len() ==> #[trigger] r@[j] < ns@.len(),
{
    let mut out: Vec<usize> = Vec::new();
    let mut k: usize = 0;
    while k < ns.len()
        invariant
            k <= ns@.len(),
            out@.len() == params_upto(ns@, p as int, k as int).len(),
            forall|j: int| 0 <= j < out@.len() ==> #[trigger] out@[j] as int == params_upto(ns@, p as int, k as int)[j],
            forall|j: int| 0 <= j < out@.len() ==> #[trigger] out@[j] < k,
        decreases ns@.len() - k,
    {
        let kd = ns[k].kind.as_str();
        let is_param = str_eq(kd, "required_parameter") || str_eq(kd, "optional_parameter") || str_eq(
            kd,
            "rest_pattern",
        ) || str_eq(kd, "identifier") || str_eq(kd, "assignment_pattern") || str_eq(kd, "object_pattern")
            || str_eq(kd, "array_pattern");
        if ns[k].parent == Some(p) && is_param {
            out.push(k);
        }
        k += 1;
    }
    out
}

fn param_name_matches(src: &[u8], n: &SyntaxNode, name: &[u8]) -> (r: bool)
    requires
        n.start <= n.end <= src@.len(),
    ensures
        r == (param_name(node_text(src@, *n)) == name@),
{
    let ghost t = node_text(src@, *n);
    let mut c = n.start;
    while c < n.end && src[c] != 0x3a
        invariant
            n.start <= c <= n.end <= src@.len(),
            t == src@.subrange(n.start as int, n.end as int),
            first_segment(t, 0) == first_segment(t, c - n.start),
        decreases n.end - c,
    {
        assert(t[c - n.start] == src@[c as int]);
        c += 1;
    }
    let ghost h = first_segment(t, 0);
    proof {
        if c < n.end {
            assert(t[c - n.start] == src@[c as int]);
        }
        assert(h =~= src@.subrange(n.start as int, c as int));
    }
    let mut e = c;
    while e > n.start && (src[e - 1] == 0x20 || src[e - 1] == 0x09 || src[e - 1] == 0x0a || src[e - 1] == 0x0b
        || src[e - 1] == 0x0c || src[e - 1] == 0x0d)
        invariant
            n.start <= e <= c <= src@.len(),
            h == src@.subrange(n.start as int, c as int),
            trimmed_end(h, 0, h.len() as int) == trimmed_end(h, 0, e - n.start),
        decreases e - n.start,
    {
        assert(h[e - 1 - n.start] == src@[e - 1]);
        e -= 1;
    }
    let mut a = n.start;
    while a < e && (src[a] == 0x20 || src[a] == 0x09 || src[a] == 0x0a || src[a] == 0x0b || src[a] == 0x0c
        || src[a] == 0x0d)
        invariant
            n.start <= a <= e <= c <= src@.len(),
            h == src@.subrange(n.start as int, c as int),
            trimmed_start(h, 0, e - n.start) == trimmed_start(h, a - n.start, e - n.start),
        decreases e - a,
    {
        assert(h[a - n.start] == src@[a as int]);
        a += 1;
    }
    proof {
        assert(h.subrange(a - n.start, e - n.start) =~= src@.subrange(a as int, e as int));
    }
    bytes_eq(&src[a..e], name)
}

/// The message for a missing parameter.
pub open spec fn removal_label(param: Seq<char>, func: Seq<char>) -> Seq<char> {
    "remove parameter '"@ + param + "' from '"@ + func + "'"@
}

impl RemoveParameter {
    /// The edit that removes the parameter with its separator; a lone
    /// parameter goes alone, leaving empty parentheses.
    pub fn compute_edits(&self, source: &str, nodes: &Vec<SyntaxNode>) -> (r: Result<Vec<TextEdit>, OperationError>)
        requires
            nodes_fit(nodes@, text_bytes(source@).len() as int),
        ensures
            remove_parameter_result(*self, nodes@, text_bytes(source@), r),
    {
        let src = source.as_bytes();
        let fname = self.function_name.as_str().as_bytes();
        let pname = self.param_name.as_str().as_bytes();
        let f = match find_function_by_name(nodes, src, fname) {
            Some(f) => f,
            None => {
                let mut description = "Function '".to_owned();
                description.append(self.function_name.as_str());
                description.append("' not found");
                return Err(OperationError::TargetNotFound { description });
            },
        };
        let p = match find_formal_parameters(nodes, f) {
            Some(p) => p,
            None => {
                let mut description = "Could not find parameter list for '".to_owned();
                description.append(self.function_name.as_str());
                description.append("'");
                return Err(OperationError::TargetNotFound { description });
            },
        };
        let ps = collect_param_nodes(nodes, p);
        let ghost psv = params_upto(nodes@, p as int, nodes@.len() as int);
        let mut idx: usize = 0;
        let mut found = false;
        while idx < ps.len()
            invariant_except_break
                !found,
            invariant
                psv == params_upto(nodes@, p as int, nodes@.len() as int),
                ps@.len() == psv.len(),
                forall|j: int| 0 <= j < ps@.len() ==> #[trigger] ps@[j] as int == psv[j],
                forall|j: int| 0 <= j < ps@.len() ==> #[trigger] ps@[j] < nodes@.len(),
                nodes_fit(nodes@, src@.len() as int),
                src@ == text_bytes(source@),
                pname@ == text_bytes(self.param_name@),
                idx <= ps@.len(),
                param_named_from(nodes@, src@, psv, pname@, 0) == param_named_from(nodes@, src@, psv, pname@, idx as int),
            ensures
                found ==> idx < ps@.len() && param_named_from(nodes@, src@, psv, pname@, 0) == Some(idx as int),
                !found ==> param_named_from(nodes@, src@, psv, pname@, 0) is None,
            decreases ps@.len() - idx,
        {
            let n = &nodes[ps[idx]];
            assert(ps@[idx as int] as int == psv[idx as int]);
            assert(n.start <= n.end <= src@.len());
            if param_name_matches(src, n, pname) {
                found = true;
                break;
            }
            idx += 1;
        }
        if !found {
            let mut description = "Parameter '".to_owned();
            description.append(self.param_name.as_str());
            description.append("' not found in function '");
            description.append(self.function_name.as_str());
            description.append("'");
            return Err(OperationError::TargetNotFound { description });
        }
        let total = ps.len();
        let (start, end) = if total == 1 {
            (nodes[ps[0]].start, nodes[ps[0]].end)
        } else if idx == total - 1 {
            (nodes[ps[idx - 1]].end, nodes[ps[idx]].end)
        } else {
            (nodes[ps[idx]].start, nodes[ps[idx + 1]].start)
        };
        let mut label = "remove parameter '".to_owned();
        label.append(self.param_name.as_str());
        label.append("' from '");
        label.append(self.function_name.as_str());
        label.append("'");
        let mut v: Vec<TextEdit> = Vec::new();
        v.push(TextEdit { start, end, replacement: String::new(), label, priority: 0 });
        Ok(v)
    }
}

/// Where a new parameter goes among `n` parameters.
pub open spec fn insert_index(pos: ParamPosition, n: int) -> int {
    match pos {
        ParamPosition::First => 0,
        ParamPosition::Last => n,
        ParamPosition::Index(i) => if i < n { i as int } else { n },
    }
}

/// The label of a parameter insertion.
pub open spec fn addition_label(param: Seq<char>, func: Seq<char>) -> Seq<char> {
    "add parameter '"@ + param + "' to '"@ + func + "'"@
}

/// The insertion of parameter text `t` into list `p` with parameters `ps`:
/// its offset and its text.
pub open spec fn insertion(ns: Seq<SyntaxNode>, p: int, ps: Seq<int>, pos: ParamPosition, t: Seq<char>) -> (int, Seq<char>) {
    if ps.len() == 0 {
        (ns[p].start + 1, t)
    } else {
        let k = insert_index(pos, ps.len() as int);
        if k == 0 {
            (ns[ps[0]].start as int, t + ", "@)
        } else if k >= ps.len() {
            (ns[ps[ps.len() - 1]].end as int, ", "@ + t)
        } else {
            (ns[ps[k]].start as int, t + ", "@)
        }
    }
}

impl AddParameter {
    /// The insertion of the new parameter; none when a parameter of that
    /// name is already there.
    pub fn compute_edits(&self, source: &str, nodes: &Vec<SyntaxNode>) -> (r: Result<Vec<TextEdit>, OperationError>)
        requires
            nodes_fit(nodes@, text_bytes(source@).len() as int),
            text_bytes(source@).len() < usize::MAX,
        ensures
            add_parameter_result(*self, nodes@, text_bytes(source@), r),
    {
        let src = source.as_bytes();
        let fname = self.function_name.as_str().as_bytes();
        let pname = self.param_name.as_str().as_bytes();
        let f = match find_function_by_name(nodes, src, fname) {
            Some(f) => f,
            None => {
                let mut description = "Function '".to_owned();
                description.append(self.function_name.as_str());
                description.append("' not found");
                return Err(OperationError::TargetNotFound { description });
            },
        };
        let p = match find_formal_parameters(nodes, f) {
            Some(p) => p,
            None => {
                let mut description = "Could not find parameter list for '".to_owned();
                description.append(self.function_name.as_str());
                description.append("'");
                return Err(OperationError::TargetNotFound { description });
            },
        };
        let text = self.format_param();
        let ps = collect_param_nodes(nodes, p);
        let ghost psv = params_upto(nodes@, p as int, nodes@.len() as int);
        let mut idx: usize = 0;
        while idx < ps.len()
            invariant
                psv == params_upto(nodes@, p as int, nodes@.len() as int),
                ps@.len() == psv.len(),
                forall|j: int| 0 <= j < ps@.len() ==> #[trigger] ps@[j] as int == psv[j],
                forall|j: int| 0 <= j < ps@.len() ==> #[trigger] ps@[j] < nodes@.len(),
                nodes_fit(nodes@, src@.len() as int),
                src@ == text_bytes(source@),
                pname@ == text_bytes(self.param_name@),
                idx <= ps@.len(),
                fname@ == text_bytes(self.function_name@),
                function_from(nodes@, src@, 0, fname@) == Some(f as int),
                parameters_of(nodes@, f as int) == Some(p as int),
                p < nodes@.len(),
                text@ == param_text(self.param_name@, self.param_type, self.default_value),
                param_named_from(nodes@, src@, psv, pname@, 0) == param_named_from(nodes@, src@, psv, pname@, idx as int),
            decreases ps@.len() - idx,
        {
            let n = &nodes[ps[idx]];
            assert(ps@[idx as int] as int == psv[idx as int]);
            assert(n.start <= n.end <= src@.len());
            if param_name_matches(src, n, pname) {
                assert(*n == nodes@[psv[idx as int]]);
                assert(param_named_from(nodes@, src@, psv, pname@, idx as int) == Some(idx as int));
                return Ok(Vec::new());
            }
            idx += 1;
        }
        let mut label = "add parameter '".to_owned();
        label.append(self.param_name.as_str());
        label.append("' to '");
        label.append(self.function_name.as_str());
        label.append("'");
        let total = ps.len();
        let (at, replacement) = if total == 0 {
            assert(nodes@[p as int].start <= src@.len());
            (nodes[p].start + 1, text)
        } else {
            let k = match self.position {
                ParamPosition::First => 0,
                ParamPosition::Last => total,
                ParamPosition::Index(i) => if i < total { i } else { total },
            };
            if k == 0 {
                let mut t = text;
                t.append(", ");
                (nodes[ps[0]].start, t)
            } else if k >= total {
                let mut t = ", ".to_owned();
                t.append(text.as_str());
                (nodes[ps[total - 1]].end, t)
            } else {
                let mut t = text;
                t.append(", ");
                (nodes[ps[k]].start, t)
            }
        };
        let mut v: Vec<TextEdit> = Vec::new();
        v.push(TextEdit { start: at, end: at, replacement, label, priority: 0 });
        Ok(v)
    }
}

/// A function with a single parameter loses exactly that parameter's
/// bytes, so its parentheses are left empty.
pub proof fn lemma_lone_parameter_range(ns: Seq<SyntaxNode>, ps: Seq<int>, idx: int)
    requires
        ps.len() == 1,
        idx == 0,
    ensures
        removal_range(ns, ps, idx) == (ns[ps[0]].start as int, ns[ps[0]].end as int),
{
}

/// Among the children of `f` from index `j` on, up to the first parameter
/// list or body, one is the keyword `async`.
pub open spec fn async_child_from(ns: Seq<SyntaxNode>, src: Seq<u8>, f: int, j: int) -> bool
    decreases ns.len() - j,
{
    if j < 0 || j >= ns.len() {
        false
    } else if ns[j].parent == Some(f as usize) {
        if node_text(src, ns[j]) == text_bytes("async"@) {
            true
        } else if ns[j].kind@ == "formal_parameters"@ || ns[j].kind@ == "statement_block"@ {
            false
        } else {
            async_child_from(ns, src, f, j + 1)
        }
    } else {
        async_child_from(ns, src, f, j + 1)
    }
}

/// `t` begins with `p`.
pub open spec fn starts_with(t: Seq<u8>, p: Seq<u8>) -> bool {
    t.len() >= p.len() && t.subrange(0, p.len() as int) == p
}

/// Function `f` is already async.
pub open spec fn already_async(ns: Seq<SyntaxNode>, src: Seq<u8>, f: int) -> bool {
    let t = node_text(src, ns[f]);
    starts_with(t, text_bytes("async "@)) || starts_with(t, text_bytes("async\n"@)) || async_child_from(ns, src, f, 0)
}

/// Where the `async` keyword goes in function `f`, if anywhere.
pub open spec fn async_point(ns: Seq<SyntaxNode>, f: int) -> Option<int> {
    let k = ns[f].kind@;
    if k == "function_declaration"@ || k == "generator_function_declaration"@ || k == "arrow_function"@ || k
        == "function_expression"@ {
        Some(ns[f].start as int)
    } else if k == "method_definition"@ {
        match field_child_from(ns, f, "name"@, 0) {
            Some(c) => Some(ns[c].start as int),
            None => None,
        }
    } else {
        None
    }
}

/// The first child of `rt` from `j` on that is not the `:` token.
pub open spec fn type_child_from(ns: Seq<SyntaxNode>, rt: int, j: int) -> Option<int>
    decreases ns.len() - j,
{
    if j < 0 || j >= ns.len() {
        None
    } else if ns[j].parent == Some(rt as usize) && ns[j].kind@ != ":"@ {
        Some(j)
    } else {
        type_child_from(ns, rt, j + 1)
    }
}

/// The return type of function `f`, without its colon.
pub open spec fn return_type_of(ns: Seq<SyntaxNode>, f: int) -> Option<int> {
    match field_child_from(ns, f, "return_type"@, 0) {
        Some(rt) => match type_child_from(ns, rt, 0) {
            Some(c) => Some(c),
            None => Some(rt),
        },
        None => None,
    }
}

/// The return type needs wrapping in `Promise<...>`.
pub open spec fn promise_wrap(ns: Seq<SyntaxNode>, src: Seq<u8>, f: int) -> Option<int> {
    match return_type_of(ns, f) {
        Some(c) => {
            let t = node_text(src, ns[c]);
            if starts_with(t, text_bytes("Promise<"@)) {
                None
            } else {
                Some(c)
            }
        },
        None => None,
    }
}

fn starts_with_bytes(t: &[u8], p: &[u8]) -> (r: bool)
    ensures
        r == (t@.len() >= p@.len() && t@.subrange(0, p@.len() as int) == p@),
{
    if t.len() < p.len() {
        return false;
    }
    let r = bytes_eq(&t[0..p.len()], p);
    r
}

fn async_child(ns: &Vec<SyntaxNode>, src: &[u8], f: usize) -> (r: bool)
    requires
        nodes_fit(ns@, src@.len() as int),
    ensures
        r == async_child_from(ns@, src@, f as int, 0),
{
    let mut j: usize = 0;
    while j < ns.len()
        invariant
            j <= ns@.len(),
            nodes_fit(ns@, src@.len() as int),
            async_child_from(ns@, src@, f as int, 0) == async_child_from(ns@, src@, f as int, j as int),
        decreases ns@.len() - j,
    {
        if ns[j].parent == Some(f) {
            let n = &ns[j];
            assert(n.start <= n.end <= src@.len());
            if bytes_eq(&src[n.start..n.end], "async".as_bytes()) {
                return true;
            }
            let k = n.kind.as_str();
            if str_eq(k, "formal_parameters") || str_eq(k, "statement_block") {
                return false;
            }
        }
        j += 1;
    }
    false
}

fn type_child(ns: &Vec<SyntaxNode>, rt: usize) -> (r: Option<usize>)
    ensures
        match r {
            Some(c) => type_child_from(ns@, rt as int, 0) == Some(c as int) && c < ns@.len(),
            None => type_child_from(ns@, rt as int, 0) is None,
        },
{
    let mut j: usize = 0;
    while j < ns.len()
        invariant
            j <= ns@.len(),
            type_child_from(ns@, rt as int, 0) == type_child_from(ns@, rt as int, j as int),
        decreases ns@.len() - j,
    {
        if ns[j].parent == Some(rt) && !str_eq(ns[j].kind.as_str(), ":") {
            return Some(j);
        }
        j += 1;
    }
    None
}

/// The label of the `async` insertion.
pub open spec fn async_label(f: Seq<char>) -> Seq<char> {
    "make '"@ + f + "' async"@
}

/// The label of the return type wrapping.
pub open spec fn promise_label(f: Seq<char>) -> Seq<char> {
    "wrap return type of '"@ + f + "' in Promise<>"@
}

impl MakeAsync {
    /// The edits that make the function async: the keyword in front, and
    /// a return type wrapped in `Promise<...>`; none when it is async already.
    pub fn compute_edits(&self, source: &str, nodes: &Vec<SyntaxNode>) -> (r: Result<Vec<TextEdit>, OperationError>)
        requires
            nodes_fit(nodes@, text_bytes(source@).len() as int),
            nodes_on_boundaries(nodes@, text_bytes(source@)),
        ensures
            make_async_result(*self, nodes@, text_bytes(source@), r),
    {
        proof {
            reveal_strlit("function_declaration");
            reveal_strlit("generator_function_declaration");
            reveal_strlit("arrow_function");
            reveal_strlit("function_expression");
            reveal_strlit("method_definition");
            assert("function_declaration"@.len() == 20);
            assert("generator_function_declaration"@.len() == 30);
            assert("arrow_function"@.len() == 14);
            assert("function_expression"@.len() == 19);
            assert("method_definition"@.len() == 17);
        }
        let src = source.as_bytes();
        let fname = self.function_name.as_str().as_bytes();
        let f = match find_function_by_name(nodes, src, fname) {
            Some(f) => f,
            None => {
                let mut description = "Function '".to_owned();
                description.append(self.function_name.as_str());
                description.append("' not found");
                return Err(OperationError::TargetNotFound { description });
            },
        };
        let fnode = &nodes[f];
        assert(fnode.start <= fnode.end <= src@.len());
        let text = &src[fnode.start..fnode.end];
        if starts_with_bytes(text, "async ".as_bytes()) || starts_with_bytes(text, "async\n".as_bytes()) || async_child(nodes, src, f) {
            return Ok(Vec::new());
        }
        let mut edits: Vec<TextEdit> = Vec::new();
        let k = fnode.kind.as_str();
        let at: Option<usize> = if str_eq(k, "function_declaration") || str_eq(k, "generator_function_declaration")
            || str_eq(k, "arrow_function") || str_eq(k, "function_expression") {
            Some(fnode.start)
        } else if str_eq(k, "method_definition") {
            match field_child_of(nodes, f, "name") {
                Some(c) => Some(nodes[c].start),
                None => None,
            }
        } else {
            None
        };
        match at {
            Some(a) => {
                let mut label = "make '".to_owned();
                label.append(self.function_name.as_str());
                label.append("' async");
                edits.push(TextEdit { start: a, end: a, replacement: "async ".to_owned(), label, priority: 0 });
            },
            None => {},
        }
        let rt = match field_child_of(nodes, f, "return_type") {
            Some(rt) => match type_child(nodes, rt) {
                Some(c) => Some(c),
                None => Some(rt),
            },
            None => None,
        };
        match rt {
            Some(c) => {
                let n = &nodes[c];
                assert(n.start <= n.end <= src@.len());
                if !starts_with_bytes(&src[n.start..n.end], "Promise<".as_bytes()) {
                    let mut t: Vec<u8> = Vec::new();
                    proof {
                        lemma_ascii_valid(t@);
                        lemma_valid_between(src@, n.start as int, n.end as int);
                    }
                    push_str(&mut t, "Promise<");
                    let ghost b = t@;
                    push_range(&mut t, src, n.start, n.end);
                    proof {
                        valid_utf8_concat(b, src@.subrange(n.start as int, n.end as int));
                    }
                    push_str(&mut t, ">");
                    let mut label = "wrap return type of '".to_owned();
                    label.append(self.function_name.as_str());
                    label.append("' in Promise<>");
                    edits.push(TextEdit { start: n.start, end: n.end, replacement: string_of_bytes(t), label, priority: 0 });
                }
            },
            None => {},
        }
        Ok(edits)
    }
}

/// What `MakeAsync::compute_edits` gives.
pub open spec fn make_async_result(op: MakeAsync, ns: Seq<SyntaxNode>, src: Seq<u8>, r: Result<Vec<TextEdit>, OperationError>) -> bool {
    &&& ({
            let src = src;
            let ns = ns;
            match function_from(ns, src, 0, text_bytes(op.function_name@)) {
                None => r matches Err(OperationError::TargetNotFound { .. }),
                Some(f) => if already_async(ns, src, f) {
                    r matches Ok(v) && v@.len() == 0
                } else {
                    r matches Ok(v) && {
                        let k = if async_point(ns, f) is Some { 1int } else { 0int };
                        &&& v@.len() == k + (if promise_wrap(ns, src, f) is Some { 1int } else { 0int })
                        &&& (async_point(ns, f) matches Some(at) ==> v@[0].start == at && v@[0].end == at
                            && v@[0].replacement@ == "async "@ && v@[0].label@ == async_label(op.function_name@)
                            && v@[0].priority == 0)
                        &&& (promise_wrap(ns, src, f) matches Some(c) ==> {
                            let e = v@[k];
                            &&& e.start == ns[c].start && e.end == ns[c].end
                            &&& text_bytes(e.replacement@) == text_bytes("Promise<"@) + node_text(src, ns[c]) + text_bytes(">"@)
                            &&& e.label@ == promise_label(op.function_name@)
                            &&& e.priority == 0
                        })
                    }
                },
            }
    })
}

/// What `AddParameter::compute_edits` gives.
pub open spec fn add_parameter_result(op: AddParameter, ns: Seq<SyntaxNode>, src: Seq<u8>, r: Result<Vec<TextEdit>, OperationError>) -> bool {
    &&& ({
            let src = src;
            let ns = ns;
            match function_from(ns, src, 0, text_bytes(op.function_name@)) {
                None => r matches Err(OperationError::TargetNotFound { .. }),
                Some(f) => match parameters_of(ns, f) {
                    None => r matches Err(OperationError::TargetNotFound { .. }),
                    Some(p) => {
                        let ps = params_upto(ns, p, ns.len() as int);
                        if param_named_from(ns, src, ps, text_bytes(op.param_name@), 0) is Some {
                            r matches Ok(v) && v@.len() == 0
                        } else {
                            r matches Ok(v) && v@.len() == 1 && ({
                                let e = v@[0];
                                let (at, t) = insertion(ns, p, ps, op.position, param_text(op.param_name@, op.param_type, op.default_value));
                                &&& e.start == at && e.end == at
                                &&& e.replacement@ == t
                                &&& e.label@ == addition_label(op.param_name@, op.function_name@)
                                &&& e.priority == 0
                            })
                        }
                    },
                },
            }
    })
}

/// What `RemoveParameter::compute_edits` gives.
pub open spec fn remove_parameter_result(op: RemoveParameter, ns: Seq<SyntaxNode>, src: Seq<u8>, r: Result<Vec<TextEdit>, OperationError>) -> bool {
    &&& ({
            let src = src;
            let ns = ns;
            match function_from(ns, src, 0, text_bytes(op.function_name@)) {
                None => r matches Err(OperationError::TargetNotFound { .. }),
                Some(f) => match parameters_of(ns, f) {
                    None => r matches Err(OperationError::TargetNotFound { .. }),
                    Some(p) => {
                        let ps = params_upto(ns, p, ns.len() as int);
                        match param_named_from(ns, src, ps, text_bytes(op.param_name@), 0) {
                            None => r matches Err(OperationError::TargetNotFound { .. }),
                            Some(idx) => r matches Ok(v) && v@.len() == 1 && ({
                                let e = v@[0];
                                let (a, b) = removal_range(ns, ps, idx);
                                &&& e.start == a && e.end == b
                                &&& e.replacement@.len() == 0
                                &&& e.label@ == removal_label(op.param_name@, op.function_name@)
                                &&& e.priority == 0
                            }),
                        }
                    },
                },
            }
    })
}

} // verus!
