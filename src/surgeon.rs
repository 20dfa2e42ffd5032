//! The driver of syntax-directed edits on one file: compile each operation
//! into edits, merge them into one edit set, apply it, and accept the result
//! only if it parses without ERROR or MISSING nodes.

use vstd::prelude::*;
use vstd::utf8::*;

use crate::edit::{build_ok, build_outcome, conflict_of, fits, spliced, stable_sort_of, EditConflict, EditSet, TextEdit};
use crate::format::line_begin;
use crate::extract::extract_result;
use crate::functions::{add_parameter_result, make_async_result, remove_parameter_result};
use crate::import_paths::update_paths_result;
use crate::imports::{add_import_result, nodes_char_bounded, remove_import_result};
use crate::rename::rename_result;
use crate::wrap::wrap_result;
use crate::operations::{
    compiled, operation_to_executable, ChangeDescription, Executable, Operation, OperationError, OperationResult,
};
use crate::imports::check_node_boundaries;
use crate::rename::{check_nodes, nodes_fit};
use crate::lang::SupportedLanguage;
use crate::syntax::{boundary, flatten_tree, parse_best_effort, parse_clean, parse_verdict, syntax_errors, SyntaxNode};
use crate::text::{on_boundaries, text_bytes};

verus! {

broadcast use encode_utf8_valid_utf8;

/// The number of line breaks before byte `off`.
pub open spec fn newlines_before(s: Seq<u8>, off: int) -> nat
    decreases off,
{
    if off <= 0 {
        0
    } else {
        newlines_before(s, off - 1) + (if s[off - 1] == 0x0a { 1nat } else { 0nat })
    }
}

/// The 1-indexed line and column (in bytes) of byte `off` of `source`.
pub fn line_and_column(source: &str, off: usize) -> (r: (usize, usize))
    requires
        off <= text_bytes(source@).len(),
        off < usize::MAX,
    ensures
        r.0 == newlines_before(text_bytes(source@), off as int) + 1,
        r.1 == off - line_begin(text_bytes(source@), off as int) + 1,
{
    let s = source.as_bytes();
    let mut lines: usize = 0;
    let mut begin: usize = 0;
    let mut i: usize = 0;
    while i < off
        invariant
            i <= off <= s@.len(),
            s@ == text_bytes(source@),
            lines == newlines_before(s@, i as int),
            lines <= i,
            begin == line_begin(s@, i as int),
            begin <= i,
        decreases off - i,
    {
        if s[i] == 0x0a {
            lines += 1;
            begin = i + 1;
        }
        i += 1;
    }
    (lines + 1, off - begin + 1)
}

/// The result, accepted exactly when the parse of the new content is clean;
/// else the ERROR and MISSING nodes found.
pub fn accept_result(content: String, changes: Vec<ChangeDescription>, lang: SupportedLanguage) -> (r: Result<OperationResult, OperationError>)
    ensures
        r is Ok <==> parse_verdict(content@, lang) == Some(true),
        r matches Ok(res) ==> res.content == content && res.changes == changes && res.warnings@.len() == 0,
        r matches Err(e) ==> e matches OperationError::InvalidResult { .. },
{
    match parse_clean(content.as_str(), lang) {
        Some(true) => Ok(OperationResult { content, changes, warnings: Vec::new() }),
        _ => {
            let errors = match parse_best_effort(content.as_str(), lang) {
                Ok(tree) => syntax_errors(&flatten_tree(&tree), content.as_str()),
                Err(_) => Vec::new(),
            };
            Err(OperationError::InvalidResult { errors })
        },
    }
}

/// Every edit of `es` is in order and starts and ends on a character boundary of `source`.
pub open spec fn edits_char_bounded(es: Seq<TextEdit>, text: Seq<char>) -> bool {
    forall|i: int| 0 <= i < es.len() ==> (#[trigger] es[i]).start <= es[i].end && is_char_boundary(text_bytes(text), es[i].start as int)
        && is_char_boundary(text_bytes(text), es[i].end as int)
}

/// The parse fits its source: parents first, ranges inside the text and on
/// character boundaries, and the text shorter than the largest offset.
pub open spec fn tree_fit(ns: Seq<SyntaxNode>, text: Seq<char>) -> bool {
    &&& nodes_fit(ns, text_bytes(text).len() as int)
    &&& nodes_char_bounded(ns, text)
    &&& text_bytes(text).len() < usize::MAX
}

/// What the compiled operation `x` gives on a parse.
pub open spec fn exe_result(x: Executable, ns: Seq<SyntaxNode>, src: Seq<u8>, r: Result<Vec<TextEdit>, OperationError>) -> bool {
    match x {
        Executable::RenameSymbol(o) => rename_result(o, ns, src, r),
        Executable::AddImport(o) => add_import_result(o, ns, src, r),
        Executable::RemoveImport(o) => remove_import_result(o, ns, src, r),
        Executable::UpdateImportPaths(o) => update_paths_result(o, ns, src, r),
        Executable::AddParameter(o) => add_parameter_result(o, ns, src, r),
        Executable::RemoveParameter(o) => remove_parameter_result(o, ns, src, r),
        Executable::MakeAsync(o) => make_async_result(o, ns, src, r),
        Executable::WrapInBlock(o) => wrap_result(o, src, r),
        Executable::ExtractToVariable(o) => extract_result(o, ns, src, r),
    }
}

/// What operation `op` compiles to on a parse: its parameters' error, or
/// its edits or error.
pub open spec fn op_result(op: Operation, ns: Seq<SyntaxNode>, src: Seq<u8>, r: Result<Vec<TextEdit>, OperationError>) -> bool {
    exists|x: Result<Executable, OperationError>| #[trigger] compiled(op, x) && match x {
        Err(e) => r == Err::<Vec<TextEdit>, OperationError>(e),
        Ok(exe) => exe_result(exe, ns, src, r),
    }
}

/// The edits of one result, none for an error.
pub open spec fn ok_view(r: Result<Vec<TextEdit>, OperationError>) -> Seq<TextEdit> {
    match r {
        Ok(v) => v@,
        Err(_) => Seq::empty(),
    }
}

/// The edits of the successful results among `rs`, in order.
pub open spec fn ok_edits(rs: Seq<Result<Vec<TextEdit>, OperationError>>) -> Seq<TextEdit>
    decreases rs.len(),
{
    if rs.len() == 0 {
        Seq::empty()
    } else {
        ok_edits(rs.drop_last()) + ok_view(rs.last())
    }
}

/// `cs` describes the edits `s` of `src`: each by its label, at its 1-indexed
/// line and column.
pub open spec fn changes_for(cs: Seq<ChangeDescription>, s: Seq<TextEdit>, src: Seq<u8>) -> bool {
    &&& cs.len() == s.len()
    &&& forall|j: int| 0 <= j < cs.len() ==> {
        &&& (#[trigger] cs[j]).kind == s[j].label
        &&& cs[j].summary == s[j].label
        &&& (s[j].start < usize::MAX ==> cs[j].line == newlines_before(src, s[j].start as int) + 1
            && cs[j].column == s[j].start - line_begin(src, s[j].start as int) + 1)
    }
}

/// What applying the combined edits `all` to `source` gives: the source
/// unchanged when there are none; else the first fault of their stable sort,
/// or an error when one splits a character, or the spliced text with a
/// change per edit, accepted exactly when its re-parse with the grammar of
/// `lang` is clean.
pub open spec fn edits_outcome(all: Seq<TextEdit>, text: Seq<char>, lang: SupportedLanguage, r: Result<OperationResult, OperationError>) -> bool {
    let src = text_bytes(text);
    if all.len() == 0 {
        r matches Ok(res) && res.content@ == text && res.changes@.len() == 0 && res.warnings@.len() == 0
    } else {
        exists|s: Seq<TextEdit>| #[trigger] stable_sort_of(s, all) && {
            if !build_ok(s, src.len() as usize) {
                r matches Err(OperationError::EditConflict(c)) && conflict_of(s, src.len() as usize, c)
            } else if !edits_char_bounded(s, text) {
                r matches Err(OperationError::InvalidParams { .. })
            } else {
                &&& (r matches Ok(res) ==> text_bytes(res.content@) == spliced(src, s) && changes_for(res.changes@, s, src)
                    && res.warnings@.len() == 0)
                &&& (r is Err ==> r matches Err(OperationError::InvalidResult { .. }))
                &&& (r is Ok <==> parse_verdict(decode_utf8(spliced(src, s)), lang) == Some(true))
            }
        }
    }
}

/// What running `ops` on `source`, whose parse is `ns`, gives.
pub open spec fn execute_result(text: Seq<char>, ns: Seq<SyntaxNode>, ops: Seq<Operation>, lang: SupportedLanguage, r: Result<OperationResult, OperationError>) -> bool {
    &&& (ops.len() == 0 ==> (r matches Ok(res) && res.content@ == text && res.changes@.len() == 0
        && res.warnings@.len() == 0))
    &&& (ops.len() > 0 && !tree_fit(ns, text) ==> r matches Err(OperationError::InvalidParams { .. }))
    &&& (ops.len() > 0 && tree_fit(ns, text) ==> exists|rs: Seq<Result<Vec<TextEdit>, OperationError>>|
        #[trigger] driver_result(ops, ns, text, lang, rs, r))
}

/// What running `ops` gives: the results `rs` of the operations compiled in
/// order up to the first that fails, whose error is returned; else the
/// outcome of all their edits together.
pub open spec fn driver_result(ops: Seq<Operation>, ns: Seq<SyntaxNode>, text: Seq<char>, lang: SupportedLanguage, rs: Seq<Result<Vec<TextEdit>, OperationError>>, r: Result<OperationResult, OperationError>) -> bool {
    let src = text_bytes(text);
    &&& rs.len() <= ops.len()
    &&& forall|k: int| 0 <= k < rs.len() ==> op_result(ops[k], ns, src, #[trigger] rs[k])
    &&& forall|k: int| 0 <= k < rs.len() - 1 ==> (#[trigger] rs[k]) is Ok
    &&& if rs.len() > 0 && rs.last() is Err {
        r == Err::<OperationResult, OperationError>(rs.last()->Err_0)
    } else {
        rs.len() == ops.len() && edits_outcome(ok_edits(rs), text, lang, r)
    }
}

#[verifier::rlimit(100)]
fn compile_one(op: &Operation, source: &str, nodes: &Vec<SyntaxNode>) -> (r: Result<Vec<TextEdit>, OperationError>)
    requires
        tree_fit(nodes@, source@),
    ensures
        op_result(*op, nodes@, text_bytes(source@), r),
{
    proof {
        assert forall|i: int| 0 <= i < nodes@.len() implies partial_valid_utf8(text_bytes(source@), (#[trigger] nodes@[i]).start as int)
            && partial_valid_utf8(text_bytes(source@), nodes@[i].end as int) by {
            crate::syntax::lemma_boundary_valid(source, nodes@[i].start as int);
            crate::syntax::lemma_boundary_valid(source, nodes@[i].end as int);
        }
    }
    let x = operation_to_executable(op);
    let ghost xg = x;
    let r = match x {
        Err(e) => Err(e),
        Ok(exe) => match exe {
            Executable::RenameSymbol(o) => o.compute_edits(source, nodes),
            Executable::AddImport(o) => o.compute_edits(source, nodes),
            Executable::RemoveImport(o) => o.compute_edits(source, nodes),
            Executable::UpdateImportPaths(o) => o.compute_edits(source, nodes),
            Executable::AddParameter(o) => o.compute_edits(source, nodes),
            Executable::RemoveParameter(o) => o.compute_edits(source, nodes),
            Executable::MakeAsync(o) => o.compute_edits(source, nodes),
            Executable::WrapInBlock(o) => o.compute_edits(source),
            Executable::ExtractToVariable(o) => o.compute_edits(source, nodes),
        },
    };
    assert(compiled(*op, xg));
    r
}

fn edits_fit(set: &EditSet, source: &str) -> (r: bool)
    ensures
        r == edits_char_bounded(set@, source@),
        r ==> fits(set@, text_bytes(source@)),
{
    let es = set.iter();
    let mut i: usize = 0;
    while i < es.len()
        invariant
            es@ == set@,
            i <= es@.len(),
            forall|j: int| 0 <= j < i ==> (#[trigger] es@[j]).start <= es@[j].end && boundary(source, es@[j].start as int)
                && boundary(source, es@[j].end as int),
            forall|j: int| 0 <= j < i ==> on_boundaries(text_bytes(source@), (#[trigger] es@[j]).start as int, es@[j].end as int),
        decreases es@.len() - i,
    {
        let e = &es[i];
        if e.start > e.end || !source.is_char_boundary(e.start) || !source.is_char_boundary(e.end) {
            return false;
        }
        proof {
            crate::syntax::lemma_boundary_valid(source, e.start as int);
            crate::syntax::lemma_boundary_valid(source, e.end as int);
        }
        i += 1;
    }
    true
}

/// Applies the combined edits of all operations and checks the result.
#[verifier::rlimit(100)]
fn finish_edits(source: &str, all: Vec<TextEdit>, lang: SupportedLanguage) -> (r: Result<OperationResult, OperationError>)
    ensures
        edits_outcome(all@, source@, lang, r),
        r matches Ok(res) ==> res.content@ == source@ || parse_verdict(res.content@, lang) == Some(true),
{
    let ghost av = all@;
    if all.len() == 0 {
        return Ok(OperationResult { content: source.to_owned(), changes: Vec::new(), warnings: Vec::new() });
    }
    let n = source.as_bytes().len();
    let built = EditSet::new(all, n);
    let ghost s = choose|s: Seq<TextEdit>| stable_sort_of(s, av) && build_outcome(s, n, built);
    let set = match built {
        Ok(set) => set,
        Err(c) => {
            let r = Err(OperationError::EditConflict(c));
            assert(stable_sort_of(s, av));
            return r;
        },
    };
    assert(set@ == s);
    if !edits_fit(&set, source) {
        let r = Err(OperationError::InvalidParams { message: "an edit splits a character".to_owned() });
        assert(stable_sort_of(s, av));
        return r;
    }
    let content = set.apply(source);
    let es = set.iter();
    let ghost src = text_bytes(source@);
    let mut changes: Vec<ChangeDescription> = Vec::new();
    let mut i: usize = 0;
    while i < es.len()
        invariant
            es@ == s,
            s == set@,
            src == text_bytes(source@),
            fits(s, src),
            i <= es@.len(),
            changes@.len() == i,
            forall|j: int| 0 <= j < i ==> {
                &&& (#[trigger] changes@[j]).kind == s[j].label
                &&& changes@[j].summary == s[j].label
                &&& (s[j].start < usize::MAX ==> changes@[j].line == newlines_before(src, s[j].start as int) + 1
                    && changes@[j].column == s[j].start - line_begin(src, s[j].start as int) + 1)
            },
        decreases es@.len() - i,
    {
        let e = &es[i];
        assert(on_boundaries(src, s[i as int].start as int, s[i as int].end as int));
        let (line, column) = if e.start < usize::MAX { line_and_column(source, e.start) } else { (0, 0) };
        changes.push(ChangeDescription { kind: e.label.clone(), line, column, summary: e.label.clone() });
        i += 1;
    }
    let ghost cv = changes@;
    let ghost content_v = content@;
    proof {
        encode_utf8_decode_utf8(content@);
    }
    let r = accept_result(content, changes, lang);
    assert(changes_for(cv, s, src));
    assert(stable_sort_of(s, av));
    r
}

/// Runs `ops` on `source`, whose parse is `nodes`, and re-parses the result
/// with the grammar of `lang`. No operation, or no edit, leaves the source as
/// it is; any other success re-parses clean.
#[verifier::rlimit(100)]
pub fn execute_operations(source: &str, nodes: &Vec<SyntaxNode>, ops: &[Operation], lang: SupportedLanguage) -> (r: Result<OperationResult, OperationError>)
    ensures
        execute_result(source@, nodes@, ops@, lang, r),
        r matches Ok(res) ==> res.content@ == source@ || parse_verdict(res.content@, lang) == Some(true),
{
    if ops.len() == 0 {
        return Ok(OperationResult { content: source.to_owned(), changes: Vec::new(), warnings: Vec::new() });
    }
    let n = source.as_bytes().len();
    if !(check_nodes(nodes, n) && check_node_boundaries(nodes, source) && n < usize::MAX) {
        return Err(OperationError::InvalidParams { message: "the parse does not fit the source".to_owned() });
    }
    let ghost src = text_bytes(source@);
    let ghost mut rs: Seq<Result<Vec<TextEdit>, OperationError>> = Seq::empty();
    let mut all: Vec<TextEdit> = Vec::new();
    let mut k: usize = 0;
    while k < ops.len()
        invariant
            tree_fit(nodes@, source@),
            src == text_bytes(source@),
            k <= ops@.len(),
            rs.len() == k,
            forall|j: int| 0 <= j < k ==> op_result(ops@[j], nodes@, src, #[trigger] rs[j]),
            forall|j: int| 0 <= j < k ==> (#[trigger] rs[j]) is Ok,
            all@ == ok_edits(rs),
        decreases ops@.len() - k,
    {
        let one = compile_one(&ops[k], source, nodes);
        let ghost old_rs = rs;
        let ghost vview = ok_view(one);
        proof {
            rs = rs.push(one);
            assert(rs.drop_last() =~= old_rs);
        }
        match one {
            Err(e) => {
                let r = Err(e);
                assert(driver_result(ops@, nodes@, source@, lang, rs, r));
                return r;
            },
            Ok(mut v) => {
                let ghost before = all@;
                assert(v@ == vview);
                all.append(&mut v);
                proof {
                    assert(ok_edits(rs) == ok_edits(old_rs) + vview);
                }
            },
        }
        k += 1;
    }
    let r = finish_edits(source, all, lang);
    assert(driver_result(ops@, nodes@, source@, lang, rs, r));
    r
}

} // verus!
