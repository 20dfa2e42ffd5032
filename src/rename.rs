//! Renaming a symbol over a parsed file: every identifier with the old
//! name, outside strings, comments and regular expressions, optionally only
//! inside a named function, method or class.

use vstd::prelude::*;

use crate::edit::TextEdit;
use crate::operations::{OperationError, RenameSymbol};
use crate::syntax::{parents_first, SyntaxNode};
use crate::text::{bytes_eq, str_eq, text_bytes};

verus! {

/// The nodes fit a text of `len` bytes: parents come first, and each
/// node's range lies in the text.
pub open spec fn nodes_fit(ns: Seq<SyntaxNode>, len: int) -> bool {
    &&& parents_first(ns)
    &&& forall|i: int| 0 <= i < ns.len() ==> (#[trigger] ns[i]).start <= ns[i].end <= len
}

/// Checks that the nodes fit a text of `len` bytes.
pub fn check_nodes(ns: &Vec<SyntaxNode>, len: usize) -> (r: bool)
    ensures
        r == nodes_fit(ns@, len as int),
{
    let mut i: usize = 0;
    while i < ns.len()
        invariant
            i <= ns@.len(),
            forall|j: int| 0 <= j < i ==> match (#[trigger] ns@[j]).parent {
                Some(p) => p < j,
                None => true,
            },
            forall|j: int| 0 <= j < i ==> (#[trigger] ns@[j]).start <= ns@[j].end <= len,
        decreases ns@.len() - i,
    {
        let n = &ns[i];
        let parent_ok = match n.parent {
            Some(p) => p < i,
            None => true,
        };
        if !parent_ok || n.start > n.end || n.end > len {
            return false;
        }
        i += 1;
    }
    true
}

pub open spec fn identifier_kind(k: Seq<char>) -> bool {
    k == "identifier"@ || k == "property_identifier"@ || k == "shorthand_property_identifier"@ || k
        == "shorthand_property_identifier_pattern"@ || k == "type_identifier"@
}

/// Kinds whose insides are text, not code.
pub open spec fn opaque_kind(k: Seq<char>) -> bool {
    k == "string"@ || k == "template_string"@ || k == "string_fragment"@ || k == "comment"@ || k
        == "line_comment"@ || k == "block_comment"@ || k == "regex"@ || k == "regex_pattern"@
}

/// Kinds that open a named scope.
pub open spec fn scope_kind(k: Seq<char>) -> bool {
    k == "function_declaration"@ || k == "method_definition"@ || k == "class_declaration"@ || k
        == "arrow_function"@ || k == "function"@
}

/// The bytes of the source that node `n` spans.
pub open spec fn node_text(src: Seq<u8>, n: SyntaxNode) -> Seq<u8> {
    src.subrange(n.start as int, n.end as int)
}

/// A proper ancestor of node `i` has an opaque kind.
pub open spec fn inside_opaque(ns: Seq<SyntaxNode>, i: int) -> bool
    decreases i,
{
    if i < 0 || i >= ns.len() {
        false
    } else {
        match ns[i].parent {
            Some(p) => if p < i {
                opaque_kind(ns[p as int].kind@) || inside_opaque(ns, p as int)
            } else {
                false
            },
            None => false,
        }
    }
}

/// The first node from `j` on that fills the field `name` of node `a`.
pub open spec fn name_child_from(ns: Seq<SyntaxNode>, a: int, j: int) -> Option<int>
    decreases ns.len() - j,
{
    if j < 0 || j >= ns.len() {
        None
    } else if ns[j].parent == Some(a as usize) && (ns[j].field matches Some(f) && f@ == "name"@) {
        Some(j)
    } else {
        name_child_from(ns, a, j + 1)
    }
}

/// A proper ancestor of node `i` opens a scope named `scope`.
pub open spec fn in_scope(ns: Seq<SyntaxNode>, src: Seq<u8>, i: int, scope: Seq<u8>) -> bool
    decreases i,
{
    if i < 0 || i >= ns.len() {
        false
    } else {
        match ns[i].parent {
            Some(p) => if p < i {
                (scope_kind(ns[p as int].kind@) && (name_child_from(ns, p as int, 0) matches Some(c) && node_text(
                    src,
                    ns[c],
                ) == scope)) || in_scope(ns, src, p as int, scope)
            } else {
                false
            },
            None => false,
        }
    }
}

/// Node `i` is an occurrence to rename.
pub open spec fn is_occurrence(ns: Seq<SyntaxNode>, src: Seq<u8>, i: int, from: Seq<u8>, scope: Option<Seq<u8>>) -> bool {
    &&& !inside_opaque(ns, i)
    &&& identifier_kind(ns[i].kind@)
    &&& node_text(src, ns[i]) == from
    &&& match scope {
        Some(s) => in_scope(ns, src, i, s),
        None => true,
    }
}

/// The occurrences among `ns[..k]`, in order.
pub open spec fn occurrences(ns: Seq<SyntaxNode>, src: Seq<u8>, from: Seq<u8>, scope: Option<Seq<u8>>, k: int) -> Seq<int>
    decreases k,
{
    if k <= 0 {
        Seq::empty()
    } else if is_occurrence(ns, src, k - 1, from, scope) {
        occurrences(ns, src, from, scope, k - 1).push(k - 1)
    } else {
        occurrences(ns, src, from, scope, k - 1)
    }
}

/// The bytes of a scope name, if any.
pub open spec fn scope_bytes(scope: Option<String>) -> Option<Seq<u8>> {
    match scope {
        Some(s) => Some(text_bytes(s@)),
        None => None,
    }
}

/// The label of a rename edit.
pub open spec fn rename_label(from: Seq<char>, to: Seq<char>) -> Seq<char> {
    "rename "@ + from + " -> "@ + to
}

fn opaque_at(ns: &Vec<SyntaxNode>, i: usize) -> (r: bool)
    requires
        i < ns@.len(),
        parents_first(ns@),
    ensures
        r == inside_opaque(ns@, i as int),
    decreases i,
{
    match ns[i].parent {
        Some(p) => {
            assert(p < i);
            let k = ns[p].kind.as_str();
            if str_eq(k, "string") || str_eq(k, "template_string") || str_eq(k, "string_fragment") || str_eq(
                k,
                "comment",
            ) || str_eq(k, "line_comment") || str_eq(k, "block_comment") || str_eq(k, "regex") || str_eq(
                k,
                "regex_pattern",
            ) {
                true
            } else {
                opaque_at(ns, p)
            }
        },
        None => false,
    }
}

fn name_child(ns: &Vec<SyntaxNode>, a: usize) -> (r: Option<usize>)
    ensures
        match r {
            Some(c) => name_child_from(ns@, a as int, 0) == Some(c as int) && c < ns@.len(),
            None => name_child_from(ns@, a as int, 0) is None,
        },
{
    let mut j: usize = 0;
    while j < ns.len()
        invariant
            j <= ns@.len(),
            name_child_from(ns@, a as int, 0) == name_child_from(ns@, a as int, j as int),
        decreases ns@.len() - j,
    {
        let is_name = match &ns[j].field {
            Some(f) => str_eq(f.as_str(), "name"),
            None => false,
        };
        if ns[j].parent == Some(a) && is_name {
            return Some(j);
        }
        j += 1;
    }
    None
}

fn scope_at(ns: &Vec<SyntaxNode>, src: &[u8], i: usize, scope: &[u8]) -> (r: bool)
    requires
        i < ns@.len(),
        nodes_fit(ns@, src@.len() as int),
    ensures
        r == in_scope(ns@, src@, i as int, scope@),
    decreases i,
{
    match ns[i].parent {
        Some(p) => {
            assert(p < i);
            let k = ns[p].kind.as_str();
            let opens = str_eq(k, "function_declaration") || str_eq(k, "method_definition") || str_eq(
                k,
                "class_declaration",
            ) || str_eq(k, "arrow_function") || str_eq(k, "function");
            if opens {
                match name_child(ns, p) {
                    Some(c) => {
                        let n = &ns[c];
                        assert(n.start <= n.end <= src@.len());
                        if bytes_eq(&src[n.start..n.end], scope) {
                            return true;
                        }
                    },
                    None => {},
                }
            }
            scope_at(ns, src, p, scope)
        },
        None => false,
    }
}

impl RenameSymbol {
    /// The rename edits over a parsed source: one per occurrence, in order.
    pub fn compute_edits(&self, source: &str, nodes: &Vec<SyntaxNode>) -> (r: Result<Vec<TextEdit>, OperationError>)
        requires
            nodes_fit(nodes@, text_bytes(source@).len() as int),
        ensures
            rename_result(*self, nodes@, text_bytes(source@), r),
    {
        match self.precheck() {
            Err(e) => return Err(e),
            Ok(Some(v)) => return Ok(v),
            Ok(None) => {},
        }
        let src = source.as_bytes();
        let from = self.from.as_str().as_bytes();
        let ghost sc = scope_bytes(self.scope);
        let mut label = "rename ".to_owned();
        label.append(self.from.as_str());
        label.append(" -> ");
        label.append(self.to.as_str());
        let mut edits: Vec<TextEdit> = Vec::new();
        let mut i: usize = 0;
        while i < nodes.len()
            invariant
                i <= nodes@.len(),
                nodes_fit(nodes@, src@.len() as int),
                src@ == text_bytes(source@),
                from@ == text_bytes(self.from@),
                label@ == rename_label(self.from@, self.to@),
                sc == scope_bytes(self.scope),
                edits@.len() == occurrences(nodes@, src@, from@, sc, i as int).len(),
                forall|j: int| 0 <= j < edits@.len() ==> {
                    let e = #[trigger] edits@[j];
                    let occ = occurrences(nodes@, src@, from@, sc, i as int);
                    &&& e.start == nodes@[occ[j]].start
                    &&& e.end == nodes@[occ[j]].end
                    &&& e.replacement@ == self.to@
                    &&& e.label@ == rename_label(self.from@, self.to@)
                    &&& e.priority == 0
                },
            decreases nodes@.len() - i,
        {
            let n = &nodes[i];
            let k = n.kind.as_str();
            let ident = str_eq(k, "identifier") || str_eq(k, "property_identifier") || str_eq(
                k,
                "shorthand_property_identifier",
            ) || str_eq(k, "shorthand_property_identifier_pattern") || str_eq(k, "type_identifier");
            let mut hit = false;
            if ident {
                assert(n.start <= n.end <= src@.len());
                if bytes_eq(&src[n.start..n.end], from) && !opaque_at(nodes, i) {
                    hit = match &self.scope {
                        Some(s) => scope_at(nodes, src, i, s.as_str().as_bytes()),
                        None => true,
                    };
                }
            }
            let ghost prev = occurrences(nodes@, src@, from@, sc, i as int);
            assert(hit == is_occurrence(nodes@, src@, i as int, from@, sc));
            if hit {
                edits.push(TextEdit { start: n.start, end: n.end, replacement: self.to.clone(), label: label.clone(), priority: 0 });
            }
            proof {
                let now = occurrences(nodes@, src@, from@, sc, i + 1);
                assert forall|j: int| 0 <= j < prev.len() implies now[j] == prev[j] by {}
            }
            i += 1;
        }
        if edits.len() == 0 {
            let mut description = "No identifier '".to_owned();
            description.append(self.from.as_str());
            description.append("' found in file");
            return Err(OperationError::TargetNotFound { description });
        }
        Ok(edits)
    }
}

/// What `RenameSymbol::compute_edits` gives.
pub open spec fn rename_result(op: RenameSymbol, ns: Seq<SyntaxNode>, src: Seq<u8>, r: Result<Vec<TextEdit>, OperationError>) -> bool {
    &&& (op.from@.len() == 0 || op.to@.len() == 0 ==> r matches Err(OperationError::InvalidParams { .. }))
    &&& (op.from@.len() > 0 && op.to@.len() > 0 && op.from@ == op.to@ ==> (r matches Ok(v) && v@.len() == 0))
    &&& (op.from@.len() > 0 && op.to@.len() > 0 && op.from@ != op.to@ ==> ({
            let occ = occurrences(
                ns,
                src,
                text_bytes(op.from@),
                scope_bytes(op.scope),
                ns.len() as int,
            );
            if occ.len() == 0 {
                r matches Err(OperationError::TargetNotFound { .. })
            } else {
                r matches Ok(v) && v@.len() == occ.len() && (forall|j: int| 0 <= j < occ.len() ==> {
                    let e = #[trigger] v@[j];
                    &&& e.start == ns[occ[j]].start
                    &&& e.end == ns[occ[j]].end
                    &&& e.replacement@ == op.to@
                    &&& e.label@ == rename_label(op.from@, op.to@)
                    &&& e.priority == 0
                })
            }
    }))
}

} // verus!
