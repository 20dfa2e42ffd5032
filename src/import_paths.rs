//! Pointing module specifiers at a new path: in import and export
//! statements, and in dynamic `import(...)` calls.

use vstd::prelude::*;
use vstd::utf8::*;

use crate::edit::TextEdit;
use crate::operations::{MatchMode, OperationError, UpdateImportPaths};
use crate::rename::{node_text, nodes_fit};
use crate::syntax::{lemma_boundary_valid, SyntaxNode};
use crate::text::{bytes_eq, lemma_valid_between, push_range, push_str, push_valid, str_eq, string_of_bytes, text_bytes};

verus! {

broadcast use encode_utf8_valid_utf8;

/// The first child of node `a`, from index `j` on, that fills field `field`.
pub open spec fn field_child_from(ns: Seq<SyntaxNode>, a: int, field: Seq<char>, j: int) -> Option<int>
    decreases ns.len() - j,
{
    if j < 0 || j >= ns.len() {
        None
    } else if ns[j].parent == Some(a as usize) && (ns[j].field matches Some(f) && f@ == field) {
        Some(j)
    } else {
        field_child_from(ns, a, field, j + 1)
    }
}

/// The first child of node `a`, from index `j` on, of kind `kind`.
pub open spec fn kind_child_from(ns: Seq<SyntaxNode>, a: int, kind: Seq<char>, j: int) -> Option<int>
    decreases ns.len() - j,
{
    if j < 0 || j >= ns.len() {
        None
    } else if ns[j].parent == Some(a as usize) && ns[j].kind@ == kind {
        Some(j)
    } else {
        kind_child_from(ns, a, kind, j + 1)
    }
}

/// The string node that holds the module path of node `i`, if node `i`
/// imports or exports from a path, or calls `import`.
pub open spec fn path_string(ns: Seq<SyntaxNode>, src: Seq<u8>, i: int) -> Option<int> {
    let k = ns[i].kind@;
    if k == "import_statement"@ || k == "export_statement"@ {
        field_child_from(ns, i, "source"@, 0)
    } else if k == "call_expression"@ {
        match field_child_from(ns, i, "function"@, 0) {
            Some(f) => if node_text(src, ns[f]) == text_bytes("import"@) {
                match field_child_from(ns, i, "arguments"@, 0) {
                    Some(a) => kind_child_from(ns, a, "string"@, 0),
                    None => None,
                }
            } else {
                None
            },
            None => None,
        }
    } else {
        None
    }
}

/// The path inside a quoted string, and its new value, if it matches.
pub open spec fn new_path_for(full: Seq<u8>, old: Seq<u8>, new: Seq<u8>, mode: MatchMode) -> Option<(Seq<u8>, Seq<u8>)> {
    if full.len() < 2 || full[0] > 0x7f || full.last() > 0x7f {
        None
    } else {
        let u = full.subrange(1, full.len() - 1);
        match mode {
            MatchMode::Exact => if u == old {
                Some((u, new))
            } else {
                None
            },
            MatchMode::Prefix => if old.len() <= u.len() && u.subrange(0, old.len() as int) == old {
                Some((u, new + u.subrange(old.len() as int, u.len() as int)))
            } else {
                None
            },
        }
    }
}

/// The quoted string with its path replaced, same quotes.
pub open spec fn requoted(full: Seq<u8>, path: Seq<u8>) -> Seq<u8> {
    seq![full[0]] + path + seq![full.last()]
}

/// The label of a path edit.
pub open spec fn path_label(old: Seq<u8>, new: Seq<u8>) -> Seq<u8> {
    text_bytes("update path '"@) + old + text_bytes("' \u{2192} '"@) + new + text_bytes("'"@)
}

/// Node `i` gets a path edit: its string node, and the old and new paths.
pub open spec fn path_edit(ns: Seq<SyntaxNode>, src: Seq<u8>, i: int, old: Seq<u8>, new: Seq<u8>, mode: MatchMode) -> Option<(int, Seq<u8>, Seq<u8>)> {
    match path_string(ns, src, i) {
        Some(sn) => string_edit(ns, src, sn, old, new, mode),
        None => None,
    }
}

/// The paths of string node `sn`, when its path matches and its quotes
/// end on character boundaries.
pub open spec fn string_edit(ns: Seq<SyntaxNode>, src: Seq<u8>, sn: int, old: Seq<u8>, new: Seq<u8>, mode: MatchMode) -> Option<(int, Seq<u8>, Seq<u8>)> {
    match new_path_for(node_text(src, ns[sn]), old, new, mode) {
        Some((u, np)) => if is_char_boundary(src, ns[sn].start + 1) && is_char_boundary(src, ns[sn].end - 1) {
            Some((sn, u, np))
        } else {
            None
        },
        None => None,
    }
}

/// `e` is the edit of a string node with the given paths.
pub open spec fn is_path_edit(e: TextEdit, ns: Seq<SyntaxNode>, src: Seq<u8>, t: (int, Seq<u8>, Seq<u8>)) -> bool {
    let (sn, u, np) = t;
    &&& e.start == ns[sn].start
    &&& e.end == ns[sn].end
    &&& text_bytes(e.replacement@) == requoted(node_text(src, ns[sn]), np)
    &&& text_bytes(e.label@) == path_label(u, np)
    &&& e.priority == 0
}

/// The nodes among `ns[..k]` that get a path edit, in order.
pub open spec fn path_edits_upto(ns: Seq<SyntaxNode>, src: Seq<u8>, old: Seq<u8>, new: Seq<u8>, mode: MatchMode, k: int) -> Seq<(int, Seq<u8>, Seq<u8>)>
    decreases k,
{
    if k <= 0 {
        Seq::empty()
    } else {
        let prev = path_edits_upto(ns, src, old, new, mode, k - 1);
        match path_edit(ns, src, k - 1, old, new, mode) {
            Some(t) => prev.push(t),
            None => prev,
        }
    }
}

fn field_child(ns: &Vec<SyntaxNode>, a: usize, field: &str) -> (r: Option<usize>)
    ensures
        match r {
            Some(c) => field_child_from(ns@, a as int, field@, 0) == Some(c as int) && c < ns@.len(),
            None => field_child_from(ns@, a as int, field@, 0) is None,
        },
{
    let mut j: usize = 0;
    while j < ns.len()
        invariant
            j <= ns@.len(),
            field_child_from(ns@, a as int, field@, 0) == field_child_from(ns@, a as int, field@, j as int),
        decreases ns@.len() - j,
    {
        let hit = match &ns[j].field {
            Some(f) => str_eq(f.as_str(), field),
            None => false,
        };
        if ns[j].parent == Some(a) && hit {
            return Some(j);
        }
        j += 1;
    }
    None
}

fn kind_child(ns: &Vec<SyntaxNode>, a: usize, kind: &str) -> (r: Option<usize>)
    ensures
        match r {
            Some(c) => kind_child_from(ns@, a as int, kind@, 0) == Some(c as int) && c < ns@.len(),
            None => kind_child_from(ns@, a as int, kind@, 0) is None,
        },
{
    let mut j: usize = 0;
    while j < ns.len()
        invariant
            j <= ns@.len(),
            kind_child_from(ns@, a as int, kind@, 0) == kind_child_from(ns@, a as int, kind@, j as int),
        decreases ns@.len() - j,
    {
        if ns[j].parent == Some(a) && str_eq(ns[j].kind.as_str(), kind) {
            return Some(j);
        }
        j += 1;
    }
    None
}

fn path_string_of(ns: &Vec<SyntaxNode>, src: &[u8], i: usize) -> (r: Option<usize>)
    requires
        i < ns@.len(),
        nodes_fit(ns@, src@.len() as int),
    ensures
        match r {
            Some(c) => path_string(ns@, src@, i as int) == Some(c as int) && c < ns@.len(),
            None => path_string(ns@, src@, i as int) is None,
        },
{
    proof {
        reveal_strlit("import");
    }
    let k = ns[i].kind.as_str();
    if str_eq(k, "import_statement") || str_eq(k, "export_statement") {
        field_child(ns, i, "source")
    } else if str_eq(k, "call_expression") {
        match field_child(ns, i, "function") {
            Some(f) => {
                let n = &ns[f];
                assert(n.start <= n.end <= src@.len());
                if bytes_eq(&src[n.start..n.end], "import".as_bytes()) {
                    match field_child(ns, i, "arguments") {
                        Some(a) => kind_child(ns, a, "string"),
                        None => None,
                    }
                } else {
                    None
                }
            },
            None => None,
        }
    } else {
        None
    }
}

impl UpdateImportPaths {
    /// One edit per module specifier that matches the old path, in order;
    /// the quote characters are kept.
    pub fn compute_edits(&self, source: &str, nodes: &Vec<SyntaxNode>) -> (r: Result<Vec<TextEdit>, OperationError>)
        requires
            nodes_fit(nodes@, text_bytes(source@).len() as int),
        ensures
            update_paths_result(*self, nodes@, text_bytes(source@), r),
    {
        let src = source.as_bytes();
        let old = self.old_path.as_str().as_bytes();
        let new = self.new_path.as_str().as_bytes();
        let mut edits: Vec<TextEdit> = Vec::new();
        let mut i: usize = 0;
        while i < nodes.len()
            invariant
                i <= nodes@.len(),
                nodes_fit(nodes@, src@.len() as int),
                src@ == text_bytes(source@),
                old@ == text_bytes(self.old_path@),
                new@ == text_bytes(self.new_path@),
                edits@.len() == path_edits_upto(nodes@, src@, old@, new@, self.match_mode, i as int).len(),
                forall|j: int| 0 <= j < edits@.len() ==> is_path_edit(#[trigger] edits@[j], nodes@, src@, path_edits_upto(nodes@, src@, old@, new@, self.match_mode, i as int)[j]),
            decreases nodes@.len() - i,
        {
            let ghost prev = path_edits_upto(nodes@, src@, old@, new@, self.match_mode, i as int);
            match path_string_of(nodes, src, i) {
                Some(sn) => {
                    match self.path_edit_at(source, nodes, sn) {
                        Some(e) => {
                            edits.push(e);
                        },
                        None => {},
                    }
                },
                None => {},
            }
            proof {
                let now = path_edits_upto(nodes@, src@, old@, new@, self.match_mode, i + 1);
                assert forall|j: int| 0 <= j < prev.len() implies now[j] == prev[j] by {}
            }
            i += 1;
        }
        if edits.len() == 0 {
            let mut description = "No imports/exports with path '".to_owned();
            description.append(self.old_path.as_str());
            description.append("' found");
            return Err(OperationError::TargetNotFound { description });
        }
        Ok(edits)
    }

    /// The edit of string node `sn`, if its path matches.
    fn path_edit_at(&self, source: &str, nodes: &Vec<SyntaxNode>, sn: usize) -> (r: Option<TextEdit>)
        requires
            sn < nodes@.len(),
            nodes_fit(nodes@, text_bytes(source@).len() as int),
        ensures
            ({
                let src = text_bytes(source@);
                match string_edit(nodes@, src, sn as int, text_bytes(self.old_path@), text_bytes(self.new_path@), self.match_mode) {
                    Some(t) => r matches Some(e) && is_path_edit(e, nodes@, src, t),
                    None => r is None,
                }
            }),
    {
        let src = source.as_bytes();
        let old = self.old_path.as_str().as_bytes();
        let new = self.new_path.as_str().as_bytes();
        let n = &nodes[sn];
        assert(n.start <= n.end <= src@.len());
        let ghost full = node_text(src@, *n);
        if n.end - n.start < 2 || src[n.start] > 0x7f || src[n.end - 1] > 0x7f {
            return None;
        }
        let a = n.start + 1;
        let b = n.end - 1;
        let ghost u = full.subrange(1, full.len() - 1);
        assert(u =~= src@.subrange(a as int, b as int));
        let matched = match self.match_mode {
            MatchMode::Exact => bytes_eq(&src[a..b], old),
            MatchMode::Prefix => old.len() <= b - a && bytes_eq(&src[a..a + old.len()], old),
        };
        if !matched {
            proof {
                if self.match_mode == MatchMode::Prefix && old@.len() <= u.len() {
                    assert(u.subrange(0, old@.len() as int) =~= src@.subrange(a as int, a + old@.len()));
                }
            }
            return None;
        }
        if !source.is_char_boundary(a) || !source.is_char_boundary(b) {
            return None;
        }
        proof {
            lemma_boundary_valid(source, a as int);
            lemma_boundary_valid(source, b as int);
            lemma_valid_between(src@, a as int, b as int);
        }
        let mut np: Vec<u8> = Vec::new();
        proof { crate::text::lemma_ascii_valid(np@); }
        push_valid(&mut np, new);
        let mut upath: Vec<u8> = Vec::new();
        push_range(&mut upath, src, a, b);
        match self.match_mode {
            MatchMode::Exact => {},
            MatchMode::Prefix => {
                proof {
                    assert(u.subrange(0, old@.len() as int) =~= src@.subrange(a as int, a + old@.len()));
                    assert(u.subrange(0, old@.len() as int) == old@);
                    assert(partial_valid_utf8(u, old@.len() as int));
                    assert(u.subrange(0, u.len() as int) =~= u);
                    lemma_valid_between(u, old@.len() as int, u.len() as int);
                    assert(u.subrange(old@.len() as int, u.len() as int) =~= src@.subrange(a + old@.len(), b as int));
                }
                let ghost before = np@;
                push_range(&mut np, src, a + old.len(), b);
                proof {
                    valid_utf8_concat(before, src@.subrange(a + old@.len(), b as int));
                }
            },
        }
        let mut rep: Vec<u8> = Vec::new();
        rep.push(src[n.start]);
        proof { crate::text::lemma_ascii_valid(rep@); }
        push_valid(&mut rep, np.as_slice());
        let ghost before = rep@;
        rep.push(src[n.end - 1]);
        proof {
            crate::text::lemma_ascii_valid(seq![src@[n.end - 1]]);
            valid_utf8_concat(before, seq![src@[n.end - 1]]);
            assert(rep@ =~= requoted(full, np@));
        }
        let mut label: Vec<u8> = Vec::new();
        proof { crate::text::lemma_ascii_valid(label@); }
        push_str(&mut label, "update path '");
        push_valid(&mut label, upath.as_slice());
        push_str(&mut label, "' \u{2192} '");
        push_valid(&mut label, np.as_slice());
        push_str(&mut label, "'");
        proof {
            assert(upath@ =~= u);
        }
        Some(TextEdit {
            start: n.start,
            end: n.end,
            replacement: string_of_bytes(rep),
            label: string_of_bytes(label),
            priority: 0,
        })
    }
}

/// What `UpdateImportPaths::compute_edits` gives.
pub open spec fn update_paths_result(op: UpdateImportPaths, ns: Seq<SyntaxNode>, src: Seq<u8>, r: Result<Vec<TextEdit>, OperationError>) -> bool {
    &&& ({
            let src = src;
            let es = path_edits_upto(
                ns,
                src,
                text_bytes(op.old_path@),
                text_bytes(op.new_path@),
                op.match_mode,
                ns.len() as int,
            );
            if es.len() == 0 {
                r matches Err(OperationError::TargetNotFound { .. })
            } else {
                r matches Ok(v) && v@.len() == es.len() && (forall|j: int| 0 <= j < es.len() ==> is_path_edit(#[trigger] v@[j], ns, src, es[j]))
            }
    })
}

} // verus!
