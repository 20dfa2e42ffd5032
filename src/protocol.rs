//! The single-file and multi-file surgeon protocol: requests, responses,
//! and how an outcome becomes a response.

use vstd::prelude::*;

use crate::edit::EditConflict;
use crate::operations::{ChangeDescription, Operation, OperationError, OperationResult};
use crate::lang::{language_named, lower_of, LangError, SupportedLanguage};
use crate::surgeon::execute_operations;
use crate::surgeon::execute_result;
use crate::syntax::{flatten_tree, parse_best_effort, parse_verdict, SyntaxNode};
use crate::text::{lemma_ascii_valid, push_decimal, push_str, string_of_bytes, text_bytes, decimal_bytes};

verus! {

/// Operations on one file's content.
#[derive(Debug, Clone)]
pub struct SingleFileRequest {
    pub content: String,
    pub language: String,
    pub operations: Vec<Operation>,
    pub dry_run: bool,
}

/// The answer to a single-file request.
#[derive(Debug, Clone)]
pub struct SingleFileResponse {
    pub error: bool,
    pub content: Option<String>,
    pub changes: Vec<ChangeDescription>,
    pub warnings: Vec<String>,
    pub operation_errors: Vec<OperationErrorDetail>,
    pub edit_count: Option<usize>,
    pub status: String,
}

/// Operations on several files' contents.
#[derive(Debug, Clone)]
pub struct BatchRequest {
    pub files: Vec<BatchFileEntry>,
    pub dry_run: bool,
}

/// One file of a multi-file request.
#[derive(Debug, Clone)]
pub struct BatchFileEntry {
    pub path: String,
    pub content: String,
    pub language: String,
    pub operations: Vec<Operation>,
}

/// The answer to a multi-file request.
#[derive(Debug, Clone)]
pub struct BatchResponse {
    pub results: Vec<BatchFileResult>,
    pub errors: Vec<BatchFileError>,
    pub total_edits: usize,
    pub status: String,
}

/// One file that was processed.
#[derive(Debug, Clone)]
pub struct BatchFileResult {
    pub path: String,
    pub content: String,
    pub changes: Vec<ChangeDescription>,
    pub warnings: Vec<String>,
    pub edits_applied: usize,
}

/// One file that failed.
#[derive(Debug, Clone)]
pub struct BatchFileError {
    pub path: String,
    pub error: String,
    pub code: String,
}

/// The failure of one operation.
#[derive(Debug, Clone)]
pub struct OperationErrorDetail {
    pub operation_index: usize,
    pub code: String,
    pub message: String,
}

/// A request that could not be read at all.
#[derive(Debug, Clone)]
pub struct ErrorResponse {
    pub error: bool,
    pub message: String,
    pub code: String,
}

/// The code a caller sees for an operation error.
pub open spec fn code_of(e: OperationError) -> Seq<char> {
    match e {
        OperationError::TargetNotFound { .. } => "SYMBOL_NOT_FOUND"@,
        OperationError::AmbiguousMatch { .. } => "AMBIGUOUS_MATCH"@,
        OperationError::EditConflict(_) => "EDIT_CONFLICT"@,
        OperationError::InvalidResult { .. } => "INVALID_RESULT"@,
        OperationError::SourceHasErrors { .. } => "SOURCE_HAS_ERRORS"@,
        OperationError::UnsupportedLanguage { .. } => "UNSUPPORTED_LANGUAGE"@,
        OperationError::InvalidParams { .. } => "INVALID_PARAMS"@,
    }
}

/// The code a caller sees for an operation error.
pub fn error_code(e: &OperationError) -> (r: String)
    ensures
        r@ == code_of(*e),
{
    match e {
        OperationError::TargetNotFound { .. } => "SYMBOL_NOT_FOUND".to_owned(),
        OperationError::AmbiguousMatch { .. } => "AMBIGUOUS_MATCH".to_owned(),
        OperationError::EditConflict(_) => "EDIT_CONFLICT".to_owned(),
        OperationError::InvalidResult { .. } => "INVALID_RESULT".to_owned(),
        OperationError::SourceHasErrors { .. } => "SOURCE_HAS_ERRORS".to_owned(),
        OperationError::UnsupportedLanguage { .. } => "UNSUPPORTED_LANGUAGE".to_owned(),
        OperationError::InvalidParams { .. } => "INVALID_PARAMS".to_owned(),
    }
}

/// A label and a byte range: `'label' [start..end)`.
pub open spec fn labeled_range(label: Seq<char>, start: nat, end: nat) -> Seq<u8> {
    text_bytes("'"@) + text_bytes(label) + text_bytes("' ["@) + decimal_bytes(start) + text_bytes(".."@) + decimal_bytes(end)
        + text_bytes(")"@)
}

/// The text of an edit conflict.
pub open spec fn conflict_text(c: EditConflict) -> Seq<u8> {
    match c {
        EditConflict::Overlapping { a_label, a_start, a_end, b_label, b_start, b_end } => text_bytes("Edits overlap: "@)
            + labeled_range(a_label@, a_start as nat, a_end as nat) + text_bytes(" and "@) + labeled_range(b_label@, b_start as nat, b_end as nat),
        EditConflict::OutOfBounds { label, start, end, source_len } => text_bytes("Edit '"@) + text_bytes(label@)
            + text_bytes("' byte range ["@) + decimal_bytes(start as nat) + text_bytes(".."@) + decimal_bytes(end as nat)
            + text_bytes(") exceeds source length "@) + decimal_bytes(source_len as nat),
    }
}

/// The text of an operation error.
pub open spec fn error_text(e: OperationError) -> Seq<u8> {
    match e {
        OperationError::TargetNotFound { description } => text_bytes("Target not found: "@) + text_bytes(description@),
        OperationError::AmbiguousMatch { description, count, .. } => text_bytes("Ambiguous match: found "@)
            + decimal_bytes(count as nat) + text_bytes(" matches for "@) + text_bytes(description@),
        OperationError::EditConflict(c) => text_bytes("Edit conflict: "@) + conflict_text(c),
        OperationError::InvalidResult { .. } => text_bytes("Result has syntax errors"@),
        OperationError::SourceHasErrors { .. } => text_bytes("Source file has syntax errors"@),
        OperationError::UnsupportedLanguage { language } => text_bytes("Unsupported language: "@) + text_bytes(language@),
        OperationError::InvalidParams { message } => text_bytes("Invalid operation parameters: "@) + text_bytes(message@),
    }
}

#[verifier::rlimit(100)]
fn push_labeled_range(out: &mut Vec<u8>, label: &String, start: usize, end: usize)
    requires
        vstd::utf8::valid_utf8(old(out)@),
    ensures
        final(out)@ == old(out)@ + labeled_range(label@, start as nat, end as nat),
        vstd::utf8::valid_utf8(final(out)@),
{
    let ghost before = out@;
    push_str(out, "'");
    push_str(out, label.as_str());
    push_str(out, "' [");
    push_decimal(out, start);
    push_str(out, "..");
    push_decimal(out, end);
    push_str(out, ")");
    assert(out@ =~= before + labeled_range(label@, start as nat, end as nat));
}

#[verifier::rlimit(100)]
fn bounds_message(out: &mut Vec<u8>, label: &String, start: usize, end: usize, source_len: usize)
    requires
        vstd::utf8::valid_utf8(old(out)@),
    ensures
        final(out)@ == old(out)@ + (text_bytes("Edit '"@) + text_bytes(label@)
            + text_bytes("' byte range ["@) + decimal_bytes(start as nat) + text_bytes(".."@) + decimal_bytes(end as nat)
            + text_bytes(") exceeds source length "@) + decimal_bytes(source_len as nat)),
        vstd::utf8::valid_utf8(final(out)@),
{
    let ghost before = out@;
    push_str(out, "Edit '");
    push_str(out, label.as_str());
    push_str(out, "' byte range [");
    push_decimal(out, start);
    push_str(out, "..");
    push_decimal(out, end);
    push_str(out, ") exceeds source length ");
    push_decimal(out, source_len);
    assert(out@ =~= before + (text_bytes("Edit '"@) + text_bytes(label@)
            + text_bytes("' byte range ["@) + decimal_bytes(start as nat) + text_bytes(".."@) + decimal_bytes(end as nat)
            + text_bytes(") exceeds source length "@) + decimal_bytes(source_len as nat)));
}

#[verifier::rlimit(100)]
fn conflict_message(out: &mut Vec<u8>, c: &EditConflict)
    requires
        vstd::utf8::valid_utf8(old(out)@),
    ensures
        final(out)@ == old(out)@ + conflict_text(*c),
        vstd::utf8::valid_utf8(final(out)@),
{
    match c {
        EditConflict::Overlapping { a_label, a_start, a_end, b_label, b_start, b_end } => {
            let ghost before = out@;
            push_str(out, "Edits overlap: ");
            push_labeled_range(out, a_label, *a_start, *a_end);
            push_str(out, " and ");
            push_labeled_range(out, b_label, *b_start, *b_end);
            assert(out@ =~= before + conflict_text(*c));
        },
        EditConflict::OutOfBounds { label, start, end, source_len } => {
            bounds_message(out, label, *start, *end, *source_len);
        },
    }
}

impl OperationError {
    /// The text of the error, for the caller.
    #[verifier::rlimit(100)]
    pub fn message(&self) -> (r: String)
        ensures
            text_bytes(r@) == error_text(*self),
    {
        let mut out: Vec<u8> = Vec::new();
        proof { lemma_ascii_valid(out@); }
        match self {
            OperationError::TargetNotFound { description } => {
                push_str(&mut out, "Target not found: ");
                push_str(&mut out, description.as_str());
            },
            OperationError::AmbiguousMatch { description, count, .. } => {
                push_str(&mut out, "Ambiguous match: found ");
                push_decimal(&mut out, *count);
                push_str(&mut out, " matches for ");
                push_str(&mut out, description.as_str());
            },
            OperationError::EditConflict(c) => {
                push_str(&mut out, "Edit conflict: ");
                conflict_message(&mut out, c);
            },
            OperationError::InvalidResult { .. } => {
                push_str(&mut out, "Result has syntax errors");
            },
            OperationError::SourceHasErrors { .. } => {
                push_str(&mut out, "Source file has syntax errors");
            },
            OperationError::UnsupportedLanguage { language } => {
                push_str(&mut out, "Unsupported language: ");
                push_str(&mut out, language.as_str());
            },
            OperationError::InvalidParams { message } => {
                push_str(&mut out, "Invalid operation parameters: ");
                push_str(&mut out, message.as_str());
            },
        }
        assert(out@ =~= error_text(*self));
        string_of_bytes(out)
    }
}

/// The response to a single-file request from the outcome of its operations:
/// the content unless it is a dry run (then the edit count), or the error.
pub fn single_file_response(result: Result<OperationResult, OperationError>, dry_run: bool) -> (r: SingleFileResponse)
    ensures
        match result {
            Ok(res) => {
                &&& !r.error
                &&& r.changes == res.changes
                &&& r.warnings == res.warnings
                &&& r.operation_errors@.len() == 0
                &&& (dry_run ==> r.content is None && r.edit_count == Some(res.changes@.len() as usize) && r.status@ == "preview"@)
                &&& (!dry_run ==> r.content == Some(res.content) && r.edit_count is None && r.status@ == "applied"@)
            },
            Err(e) => {
                &&& r.error
                &&& r.content is None
                &&& r.changes@.len() == 0
                &&& r.operation_errors@.len() == 1
                &&& r.operation_errors@[0].operation_index == 0
                &&& r.operation_errors@[0].code@ == code_of(e)
                &&& text_bytes(r.operation_errors@[0].message@) == error_text(e)
                &&& r.status@ == "error"@
            },
        },
{
    match result {
        Ok(res) => {
            let n = res.changes.len();
            if dry_run {
                SingleFileResponse {
                    error: false,
                    content: None,
                    changes: res.changes,
                    warnings: res.warnings,
                    operation_errors: Vec::new(),
                    edit_count: Some(n),
                    status: "preview".to_owned(),
                }
            } else {
                SingleFileResponse {
                    error: false,
                    content: Some(res.content),
                    changes: res.changes,
                    warnings: res.warnings,
                    operation_errors: Vec::new(),
                    edit_count: None,
                    status: "applied".to_owned(),
                }
            }
        },
        Err(e) => {
            let detail = OperationErrorDetail { operation_index: 0, code: error_code(&e), message: e.message() };
            let mut errors: Vec<OperationErrorDetail> = Vec::new();
            errors.push(detail);
            SingleFileResponse {
                error: true,
                content: None,
                changes: Vec::new(),
                warnings: Vec::new(),
                operation_errors: errors,
                edit_count: None,
                status: "error".to_owned(),
            }
        },
    }
}

/// The result `res` answers the entry `e`: its operations succeeded on
/// its content, parsed with the grammar of its language.
pub open spec fn result_for(res: BatchFileResult, e: BatchFileEntry, dry_run: bool) -> bool {
    &&& res.path == e.path
    &&& res.edits_applied == res.changes@.len()
    &&& match language_named(lower_of(e.language@)) {
        Some(l) => parse_verdict(e.content@, l) is Some && exists|ns: Seq<SyntaxNode>, out: OperationResult|
            #[trigger] execute_result(e.content@, ns, e.operations@, l, Ok(out)) && res.changes == out.changes
                && res.warnings == out.warnings && res.content == (if dry_run { e.content } else { out.content }),
        None => false,
    }
}

/// The error `err` answers the entry `e`: an unknown language, a parse that
/// gave up, or the error of its operations.
pub open spec fn error_for(err: BatchFileError, e: BatchFileEntry) -> bool {
    &&& err.path == e.path
    &&& match language_named(lower_of(e.language@)) {
        None => err.code@ == "UNSUPPORTED_LANGUAGE"@ && err.error@ == "Unsupported language: "@ + lower_of(e.language@),
        Some(l) => if parse_verdict(e.content@, l) is None {
            err.code@ == "PARSE_ERROR"@ && err.error@ == parse_failed_message()
        } else {
            exists|ns: Seq<SyntaxNode>, x: OperationError| #[trigger] execute_result(e.content@, ns, e.operations@, l, Err(x))
                && err.code@ == code_of(x) && text_bytes(err.error@) == error_text(x)
        },
    }
}

pub open spec fn parse_failed_message() -> Seq<char> {
    "Parse failed: tree-sitter parser returned None (timeout or cancellation)"@
}

/// The edits applied over `rs`, summed, capped at `usize::MAX`.
pub open spec fn edits_total(rs: Seq<BatchFileResult>) -> nat
    decreases rs.len(),
{
    if rs.len() == 0 {
        0
    } else {
        let t: nat = edits_total(rs.drop_last()) + rs.last().edits_applied as nat;
        if t > usize::MAX { usize::MAX as nat } else { t }
    }
}

pub open spec fn increasing(ix: Seq<int>) -> bool {
    forall|a: int, b: int| 0 <= a < b < ix.len() ==> #[trigger] ix[a] < #[trigger] ix[b]
}

/// The status of a multi-file answer.
pub open spec fn batch_status(n_results: int, n_errors: int, dry_run: bool) -> Seq<char> {
    if n_errors == 0 {
        if dry_run { "preview"@ } else { "applied"@ }
    } else if n_results == 0 {
        "error"@
    } else {
        "partial"@
    }
}

/// Runs each entry's operations on its content, in order: each entry gives
/// a result (its original content on a dry run) or an error with its code.
#[verifier::rlimit(100)]
pub fn process_batch(request: &BatchRequest) -> (r: BatchResponse)
    ensures
        r.results@.len() + r.errors@.len() == request.files@.len(),
        r.status@ == batch_status(r.results@.len() as int, r.errors@.len() as int, request.dry_run),
        r.total_edits == edits_total(r.results@),
        exists|ri: Seq<int>, ei: Seq<int>| {
            &&& ri.len() == r.results@.len() && ei.len() == r.errors@.len()
            &&& increasing(ri) && increasing(ei)
            &&& forall|j: int| 0 <= j < ri.len() ==> 0 <= #[trigger] ri[j] < request.files@.len()
                && result_for(r.results@[j], request.files@[ri[j]], request.dry_run)
            &&& forall|j: int| 0 <= j < ei.len() ==> 0 <= #[trigger] ei[j] < request.files@.len()
                && error_for(r.errors@[j], request.files@[ei[j]])
            &&& forall|a: int, b: int| 0 <= a < ri.len() && 0 <= b < ei.len() ==> #[trigger] ri[a] != #[trigger] ei[b]
        },
{
    let files = &request.files;
    let mut results: Vec<BatchFileResult> = Vec::new();
    let mut errors: Vec<BatchFileError> = Vec::new();
    let mut total: usize = 0;
    let ghost mut ri: Seq<int> = Seq::empty();
    let ghost mut ei: Seq<int> = Seq::empty();
    let mut i: usize = 0;
    while i < files.len()
        invariant
            i <= files@.len(),
            files == &request.files,
            results@.len() + errors@.len() == i,
            total == edits_total(results@),
            ri.len() == results@.len() && ei.len() == errors@.len(),
            increasing(ri) && increasing(ei),
            forall|j: int| 0 <= j < ri.len() ==> 0 <= #[trigger] ri[j] < i
                && result_for(results@[j], files@[ri[j]], request.dry_run),
            forall|j: int| 0 <= j < ei.len() ==> 0 <= #[trigger] ei[j] < i && error_for(errors@[j], files@[ei[j]]),
            forall|a: int, b: int| 0 <= a < ri.len() && 0 <= b < ei.len() ==> #[trigger] ri[a] != #[trigger] ei[b],
        decreases files@.len() - i,
    {
        let entry = &files[i];
        match SupportedLanguage::from_str(entry.language.as_str()) {
            Err(LangError::Unsupported(name)) => {
                let mut error = "Unsupported language: ".to_owned();
                error.append(name.as_str());
                errors.push(BatchFileError { path: entry.path.clone(), error, code: "UNSUPPORTED_LANGUAGE".to_owned() });
                proof { ei = ei.push(i as int); }
            },
            Ok(lang) => {
                match parse_best_effort(entry.content.as_str(), lang) {
                    Err(_) => {
                        errors.push(BatchFileError {
                            path: entry.path.clone(),
                            error: "Parse failed: tree-sitter parser returned None (timeout or cancellation)".to_owned(),
                            code: "PARSE_ERROR".to_owned(),
                        });
                        proof { ei = ei.push(i as int); }
                    },
                    Ok(tree) => {
                        let nodes = flatten_tree(&tree);
                        let outcome = execute_operations(entry.content.as_str(), &nodes, entry.operations.as_slice(), lang);
                        let ghost og = outcome;
                        assert(execute_result(entry.content@, nodes@, entry.operations@, lang, og));
                        match outcome {
                            Ok(res) => {
                                let count = res.changes.len();
                                let content = if request.dry_run { entry.content.clone() } else { res.content };
                                let ghost before = results@;
                                results.push(BatchFileResult {
                                    path: entry.path.clone(),
                                    content,
                                    changes: res.changes,
                                    warnings: res.warnings,
                                    edits_applied: count,
                                });
                                total = total.saturating_add(count);
                                proof {
                                    ri = ri.push(i as int);
                                    assert(results@.drop_last() =~= before);
                                }
                            },
                            Err(e) => {
                                let err = BatchFileError { path: entry.path.clone(), error: e.message(), code: error_code(&e) };
                                assert(err.code@ == code_of(e) && text_bytes(err.error@) == error_text(e));
                                errors.push(err);
                                proof { ei = ei.push(i as int); }
                            },
                        }
                    },
                }
            },
        }
        i += 1;
    }
    let status = if errors.len() == 0 {
        if request.dry_run { "preview".to_owned() } else { "applied".to_owned() }
    } else if results.len() == 0 {
        "error".to_owned()
    } else {
        "partial".to_owned()
    };
    BatchResponse { results, errors, total_edits: total, status }
}

/// The warning for a file whose operations failed.
pub open spec fn file_error_text(file: Seq<char>, e: OperationError) -> Seq<u8> {
    match e {
        OperationError::TargetNotFound { description } => text_bytes(file) + text_bytes(": Target not found: "@)
            + text_bytes(description@),
        OperationError::AmbiguousMatch { description, count, .. } => text_bytes(file) + text_bytes(
            ": Ambiguous match ("@,
        ) + decimal_bytes(count as nat) + text_bytes(" found): "@) + text_bytes(description@),
        OperationError::InvalidResult { errors } => text_bytes(file) + text_bytes(
            ": Operation produced invalid syntax ("@,
        ) + decimal_bytes(errors@.len()) + text_bytes(" errors)"@),
        _ => text_bytes(file) + text_bytes(": "@) + error_text(e),
    }
}

impl OperationError {
    /// The warning for `file` when its operations failed with this error.
    #[verifier::rlimit(100)]
    pub fn file_message(&self, file: &str) -> (r: String)
        ensures
            text_bytes(r@) == file_error_text(file@, *self),
    {
        let mut out: Vec<u8> = Vec::new();
        proof { lemma_ascii_valid(out@); }
        push_str(&mut out, file);
        match self {
            OperationError::TargetNotFound { description } => {
                push_str(&mut out, ": Target not found: ");
                push_str(&mut out, description.as_str());
            },
            OperationError::AmbiguousMatch { description, count, .. } => {
                push_str(&mut out, ": Ambiguous match (");
                push_decimal(&mut out, *count);
                push_str(&mut out, " found): ");
                push_str(&mut out, description.as_str());
            },
            OperationError::InvalidResult { errors } => {
                push_str(&mut out, ": Operation produced invalid syntax (");
                push_decimal(&mut out, errors.len());
                push_str(&mut out, " errors)");
            },
            _ => {
                push_str(&mut out, ": ");
                let m = self.message();
                push_str(&mut out, m.as_str());
            },
        }
        assert(out@ =~= file_error_text(file@, *self));
        string_of_bytes(out)
    }
}

} // verus!
