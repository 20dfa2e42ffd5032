//! Extracting an expression into a variable declared on the line before
//! the statement that holds it.

use vstd::prelude::*;
use vstd::utf8::*;

use crate::edit::TextEdit;
use crate::format::line_begin;
use crate::imports::nodes_on_boundaries;
use crate::operations::{is_statement_kind, statement_kind, ExtractToVariable, OperationError, VarKind};
use crate::rename::nodes_fit;
use crate::style::occurs_at;
use crate::syntax::SyntaxNode;
use crate::text::{lemma_ascii_boundary, lemma_ascii_valid, lemma_valid_between, push_range, push_str, push_valid, string_of_bytes, text_bytes};

verus! {

broadcast use encode_utf8_valid_utf8;

/// The first position from `i` on where `pat` occurs in `s`.
pub open spec fn first_occurrence_from(s: Seq<u8>, pat: Seq<u8>, i: int) -> Option<int>
    decreases s.len() + 1 - i,
{
    if i < 0 || i > s.len() {
        None
    } else if occurs_at(s, pat, i) {
        Some(i)
    } else {
        first_occurrence_from(s, pat, i + 1)
    }
}

/// The last node among `ns[..k]` whose range holds `[a, b)`: the deepest one.
pub open spec fn spanning_upto(ns: Seq<SyntaxNode>, a: int, b: int, k: int) -> Option<int>
    decreases k,
{
    if k <= 0 {
        None
    } else if ns[k - 1].start <= a && b <= ns[k - 1].end {
        Some(k - 1)
    } else {
        spanning_upto(ns, a, b, k - 1)
    }
}

/// Node `i` or its nearest ancestor that is a statement.
pub open spec fn statement_of(ns: Seq<SyntaxNode>, i: int) -> Option<int>
    decreases i,
{
    if i < 0 || i >= ns.len() {
        None
    } else if statement_kind(ns[i].kind@) {
        Some(i)
    } else {
        match ns[i].parent {
            Some(p) => if p < i { statement_of(ns, p as int) } else { None },
            None => None,
        }
    }
}

/// The keyword of a variable kind.
pub open spec fn keyword_of(k: VarKind) -> Seq<char> {
    match k {
        VarKind::Const => "const"@,
        VarKind::Let => "let"@,
    }
}

/// The declaration put before the statement.
pub open spec fn declaration(indent: Seq<u8>, op: ExtractToVariable) -> Seq<u8> {
    indent + text_bytes(keyword_of(op.var_kind)) + text_bytes(" "@) + text_bytes(op.variable_name@) + (match op.type_annotation {
        Some(t) => text_bytes(": "@) + text_bytes(t@),
        None => Seq::empty(),
    }) + text_bytes(" = "@) + text_bytes(op.expression@) + text_bytes(";\n"@)
}

/// What extracting the expression does to `src`, given its parse `ns`.
pub open spec fn extract_result(op: ExtractToVariable, ns: Seq<SyntaxNode>, src: Seq<u8>, r: Result<Vec<TextEdit>, OperationError>) -> bool {
    let expr = text_bytes(op.expression@);
    match first_occurrence_from(src, expr, 0) {
        None => r matches Err(OperationError::TargetNotFound { .. }),
        Some(p) => match spanning_upto(ns, p, p + expr.len(), ns.len() as int) {
            None => r matches Err(OperationError::TargetNotFound { .. }),
            Some(node) => match statement_of(ns, node) {
                None => r matches Err(OperationError::TargetNotFound { .. }),
                Some(st) => {
                    let s0 = ns[st].start as int;
                    let ls = line_begin(src, s0);
                    r matches Ok(v) && v@.len() == 2 && {
                        &&& v@[0].start == ls && v@[0].end == ls
                        &&& text_bytes(v@[0].replacement@) == declaration(src.subrange(ls, s0), op)
                        &&& v@[0].label@ == "declare "@ + keyword_of(op.var_kind) + " '"@ + op.variable_name@ + "'"@
                        &&& v@[1].start == p && v@[1].end == p + expr.len()
                        &&& v@[1].replacement@ == op.variable_name@
                        &&& v@[1].label@ == "replace expression with '"@ + op.variable_name@ + "'"@
                        &&& v@[0].priority == 0 && v@[1].priority == 0
                    }
                },
            },
        },
    }
}

fn find_first(s: &[u8], pat: &[u8]) -> (r: Option<usize>)
    ensures
        match r {
            Some(p) => first_occurrence_from(s@, pat@, 0) == Some(p as int) && p + pat@.len() <= s@.len(),
            None => first_occurrence_from(s@, pat@, 0) is None,
        },
{
    let n = s.len();
    let mut i: usize = 0;
    while i <= n
        invariant
            n == s@.len(),
            i <= n + 1,
            first_occurrence_from(s@, pat@, 0) == first_occurrence_from(s@, pat@, i as int),
        decreases n + 1 - i,
    {
        if pat.len() <= n - i && crate::text::bytes_eq(&s[i..i + pat.len()], pat) {
            return Some(i);
        }
        proof {
            if pat@.len() <= n - i {
                assert(s@.subrange(i as int, i + pat@.len()) == s@.subrange(i as int, i + pat@.len()));
            }
        }
        if i == n {
            proof {
                assert(first_occurrence_from(s@, pat@, n + 1) is None);
            }
            return None;
        }
        i += 1;
    }
    None
}

fn spanning(ns: &Vec<SyntaxNode>, a: usize, b: usize) -> (r: Option<usize>)
    ensures
        match r {
            Some(i) => spanning_upto(ns@, a as int, b as int, ns@.len() as int) == Some(i as int) && i < ns@.len(),
            None => spanning_upto(ns@, a as int, b as int, ns@.len() as int) is None,
        },
{
    let mut k = ns.len();
    while k > 0
        invariant
            k <= ns@.len(),
            spanning_upto(ns@, a as int, b as int, ns@.len() as int) == spanning_upto(ns@, a as int, b as int, k as int),
        decreases k,
    {
        if ns[k - 1].start <= a && b <= ns[k - 1].end {
            return Some(k - 1);
        }
        k -= 1;
    }
    None
}

fn containing_statement(ns: &Vec<SyntaxNode>, i: usize) -> (r: Option<usize>)
    requires
        i < ns@.len(),
    ensures
        match r {
            Some(s) => statement_of(ns@, i as int) == Some(s as int) && s < ns@.len(),
            None => statement_of(ns@, i as int) is None,
        },
    decreases i,
{
    if is_statement_kind(ns[i].kind.as_str()) {
        return Some(i);
    }
    match ns[i].parent {
        Some(p) => if p < i { containing_statement(ns, p) } else { None },
        None => None,
    }
}

impl ExtractToVariable {
    /// The declaration of the variable on the line before the statement, and
    /// the expression replaced by the variable's name.
    pub fn compute_edits(&self, source: &str, nodes: &Vec<SyntaxNode>) -> (r: Result<Vec<TextEdit>, OperationError>)
        requires
            nodes_fit(nodes@, text_bytes(source@).len() as int),
            nodes_on_boundaries(nodes@, text_bytes(source@)),
        ensures
            extract_result(*self, nodes@, text_bytes(source@), r),
    {
        let src = source.as_bytes();
        let expr = self.expression.as_str().as_bytes();
        let p = match find_first(src, expr) {
            Some(p) => p,
            None => {
                let mut description = "Expression '".to_owned();
                description.append(self.expression.as_str());
                description.append("' not found in source");
                return Err(OperationError::TargetNotFound { description });
            },
        };
        let n = src.len();
        assert(p + expr@.len() <= n);
        let e = p + expr.len();
        let node = match spanning(nodes, p, e) {
            Some(n) => n,
            None => return Err(OperationError::TargetNotFound { description: "Could not find AST node for expression".to_owned() }),
        };
        let st = match containing_statement(nodes, node) {
            Some(s) => s,
            None => return Err(OperationError::TargetNotFound { description: "Could not find containing statement for expression".to_owned() }),
        };
        let s0 = nodes[st].start;
        assert(s0 <= src@.len());
        let mut ls = s0;
        while ls > 0 && src[ls - 1] != 0x0a
            invariant
                ls <= s0 <= src@.len(),
                line_begin(src@, s0 as int) == line_begin(src@, ls as int),
            decreases ls,
        {
            ls -= 1;
        }
        proof {
            assert(src@.subrange(0, 0) =~= Seq::<u8>::empty());
            if ls > 0 {
                lemma_ascii_boundary(src@, ls - 1);
            }
            lemma_valid_between(src@, ls as int, s0 as int);
        }
        let kw = self.var_kind.keyword();
        let mut d: Vec<u8> = Vec::new();
        push_range(&mut d, src, ls, s0);
        push_str(&mut d, kw);
        push_str(&mut d, " ");
        push_str(&mut d, self.variable_name.as_str());
        match &self.type_annotation {
            Some(t) => {
                push_str(&mut d, ": ");
                push_str(&mut d, t.as_str());
            },
            None => {},
        }
        push_str(&mut d, " = ");
        push_str(&mut d, self.expression.as_str());
        push_str(&mut d, ";\n");
        proof {
            assert(d@ =~= declaration(src@.subrange(ls as int, s0 as int), *self));
        }
        let mut l0 = "declare ".to_owned();
        l0.append(kw);
        l0.append(" '");
        l0.append(self.variable_name.as_str());
        l0.append("'");
        let mut l1 = "replace expression with '".to_owned();
        l1.append(self.variable_name.as_str());
        l1.append("'");
        let mut v: Vec<TextEdit> = Vec::new();
        v.push(TextEdit { start: ls, end: ls, replacement: string_of_bytes(d), label: l0, priority: 0 });
        v.push(TextEdit { start: p, end: e, replacement: self.variable_name.clone(), label: l1, priority: 0 });
        Ok(v)
    }
}

} // verus!
