//! ESLint's JSON report (Biome's JSON reporter is read the same way), read
//! into the result of the lint step.

use vstd::prelude::*;

use crate::verification::{DiagnosticItem, StepResult};

verus! {

/// One message of a linted file.
#[derive(Debug, Clone)]
pub struct LintMessage {
    pub rule_id: Option<String>,
    /// 1 for a warning, 2 for an error.
    pub severity: u8,
    pub message: String,
    pub line: usize,
    pub column: usize,
}

/// One linted file.
#[derive(Debug, Clone)]
pub struct LintFileReport {
    pub file_path: String,
    pub messages: Vec<LintMessage>,
    pub error_count: usize,
    pub warning_count: usize,
}

/// The sum of `f` over `files[..k]`, capped at `usize::MAX`.
pub open spec fn capped_sum(files: Seq<LintFileReport>, k: int, errors: bool) -> nat
    decreases k,
{
    if k <= 0 {
        0
    } else {
        let s = capped_sum(files, k - 1, errors) + (if errors { files[k - 1].error_count } else { files[k - 1].warning_count }) as nat;
        if s > usize::MAX { usize::MAX as nat } else { s }
    }
}

/// The messages of `files[..k]`, each with its file, in order.
pub open spec fn messages_upto(files: Seq<LintFileReport>, k: int) -> Seq<(String, LintMessage)>
    decreases k,
{
    if k <= 0 {
        Seq::empty()
    } else {
        messages_upto(files, k - 1) + files[k - 1].messages@.map_values(|m: LintMessage| (files[k - 1].file_path, m))
    }
}

/// The hint attached to every lint diagnostic.
pub open spec fn lint_hint() -> Seq<char> {
    "Call fe_doctor with this error for a structured fix"@
}

/// `d` is the diagnostic of message `m` of file `file`.
pub open spec fn diagnostic_for(d: DiagnosticItem, file: String, m: LintMessage) -> bool {
    &&& d.file == file
    &&& d.line == m.line
    &&& d.column == m.column
    &&& d.message == m.message
    &&& d.rule == m.rule_id
    &&& d.severity@ == (if m.severity >= 2 { "error"@ } else { "warning"@ })
    &&& (d.suggestion matches Some(h) && h@ == lint_hint())
}

/// A lint step that failed because the report could not be read.
pub fn lint_report_failure(message: String) -> (r: StepResult)
    ensures
        r.status@ == "fail"@,
        r.error_count == 1,
        r.warning_count == 0,
        r.errors@.len() == 1,
        r.errors@[0].file@.len() == 0,
        r.errors@[0].line == 0 && r.errors@[0].column == 0,
        r.errors@[0].message == message,
        r.errors@[0].rule is None,
        r.errors@[0].severity@ == "error"@,
        r.errors@[0].suggestion is None,
{
    let mut errors: Vec<DiagnosticItem> = Vec::new();
    errors.push(DiagnosticItem {
        file: String::new(),
        line: 0,
        column: 0,
        message,
        rule: None,
        severity: "error".to_owned(),
        suggestion: None,
    });
    StepResult { status: "fail".to_owned(), error_count: 1, warning_count: 0, errors }
}

fn copy_opt(o: &Option<String>) -> (r: Option<String>)
    ensures
        r == *o,
{
    match o {
        Some(s) => Some(s.clone()),
        None => None,
    }
}

/// The result of the lint step from a report: the files' counts summed,
/// one diagnostic per message, in order; the step fails when there is an error.
pub fn step_from_lint(files: &Vec<LintFileReport>) -> (r: StepResult)
    ensures
        r.error_count == capped_sum(files@, files@.len() as int, true),
        r.warning_count == capped_sum(files@, files@.len() as int, false),
        r.status@ == (if r.error_count > 0 { "fail"@ } else { "pass"@ }),
        r.errors@.len() == messages_upto(files@, files@.len() as int).len(),
        forall|j: int| 0 <= j < r.errors@.len() ==> {
            let (file, m) = #[trigger] messages_upto(files@, files@.len() as int)[j];
            diagnostic_for(r.errors@[j], file, m)
        },
{
    let mut errors: Vec<DiagnosticItem> = Vec::new();
    let mut total_errors: usize = 0;
    let mut total_warnings: usize = 0;
    let mut k: usize = 0;
    while k < files.len()
        invariant
            k <= files@.len(),
            total_errors == capped_sum(files@, k as int, true),
            total_warnings == capped_sum(files@, k as int, false),
            errors@.len() == messages_upto(files@, k as int).len(),
            forall|j: int| 0 <= j < errors@.len() ==> {
                let (file, m) = #[trigger] messages_upto(files@, k as int)[j];
                diagnostic_for(errors@[j], file, m)
            },
        decreases files@.len() - k,
    {
        let f = &files[k];
        total_errors = total_errors.saturating_add(f.error_count);
        total_warnings = total_warnings.saturating_add(f.warning_count);
        let ghost prev = messages_upto(files@, k as int);
        let mut i: usize = 0;
        while i < f.messages.len()
            invariant
                i <= f.messages@.len(),
                prev == messages_upto(files@, k as int),
                errors@.len() == prev.len() + i,
                forall|j: int| 0 <= j < prev.len() ==> {
                    let (file, m) = #[trigger] prev[j];
                    diagnostic_for(errors@[j], file, m)
                },
                forall|j: int| 0 <= j < i ==> diagnostic_for(#[trigger] errors@[prev.len() + j], f.file_path, f.messages@[j]),
            decreases f.messages@.len() - i,
        {
            let m = &f.messages[i];
            let severity = if m.severity >= 2 { "error".to_owned() } else { "warning".to_owned() };
            errors.push(DiagnosticItem {
                file: f.file_path.clone(),
                line: m.line,
                column: m.column,
                message: m.message.clone(),
                rule: copy_opt(&m.rule_id),
                severity,
                suggestion: Some("Call fe_doctor with this error for a structured fix".to_owned()),
            });
            i += 1;
        }
        proof {
            let now = messages_upto(files@, k + 1);
            let add = f.messages@.map_values(|m: LintMessage| (f.file_path, m));
            assert(now == prev + add);
            assert forall|j: int| 0 <= j < now.len() implies {
                let (file, m) = #[trigger] now[j];
                diagnostic_for(errors@[j], file, m)
            } by {
                if j < prev.len() {
                    assert(now[j] == prev[j]);
                } else {
                    assert(now[j] == add[j - prev.len()]);
                    assert(diagnostic_for(errors@[prev.len() + (j - prev.len())], f.file_path, f.messages@[j - prev.len()]));
                }
            }
        }
        k += 1;
    }
    let status = if total_errors > 0 { "fail".to_owned() } else { "pass".to_owned() };
    StepResult { status, error_count: total_errors, warning_count: total_warnings, errors }
}

} // verus!
