//! The tool-server protocol: JSON-RPC errors, server description, tool
//! results, the three tools, and how surgeon operations are grouped by file.

use vstd::prelude::*;

use crate::operations::{ChangeDescription, Operation};
use crate::text::str_eq;

verus! {

/// A JSON-RPC error.
#[derive(Debug, Clone)]
pub struct JsonRpcError {
    pub code: i32,
    pub message: String,
}

/// What `tools` the server offers.
#[derive(Debug, Clone)]
pub struct ToolsCapability {
    pub list_changed: bool,
}

/// The server's capabilities.
#[derive(Debug, Clone)]
pub struct ServerCapabilities {
    pub tools: ToolsCapability,
}

/// The server's name and version.
#[derive(Debug, Clone)]
pub struct ServerInfo {
    pub name: String,
    pub version: String,
}

/// The answer to `initialize`.
#[derive(Debug, Clone)]
pub struct InitializeResult {
    pub protocol_version: String,
    pub capabilities: ServerCapabilities,
    pub server_info: ServerInfo,
}

/// One piece of a tool's answer.
#[derive(Debug, Clone)]
pub struct ToolContent {
    pub content_type: String,
    pub text: String,
}

/// A tool's answer.
#[derive(Debug, Clone)]
pub struct ToolCallResult {
    pub content: Vec<ToolContent>,
    pub is_error: bool,
}

impl ToolCallResult {
    /// A successful answer holding `text`.
    pub fn text(text: String) -> (r: ToolCallResult)
        ensures
            !r.is_error,
            r.content@.len() == 1,
            r.content@[0].content_type@ == "text"@,
            r.content@[0].text == text,
    {
        let mut content: Vec<ToolContent> = Vec::new();
        content.push(ToolContent { content_type: "text".to_owned(), text });
        ToolCallResult { content, is_error: false }
    }

    /// A failed answer holding `message`.
    pub fn error(message: String) -> (r: ToolCallResult)
        ensures
            r.is_error,
            r.content@.len() == 1,
            r.content@[0].content_type@ == "text"@,
            r.content@[0].text == message,
    {
        let mut content: Vec<ToolContent> = Vec::new();
        content.push(ToolContent { content_type: "text".to_owned(), text: message });
        ToolCallResult { content, is_error: true }
    }
}

/// The batch tool, for one project.
#[derive(Debug, Clone)]
pub struct BatchTool {
    pub project_root: String,
}

/// The surgeon tool.
#[derive(Debug, Clone)]
pub struct SurgeonTool;

/// The verification tool, for one project.
#[derive(Debug, Clone)]
pub struct VerifyTool {
    pub project_root: String,
}

impl BatchTool {
    pub fn new(project_root: String) -> (r: BatchTool)
        ensures
            r.project_root == project_root,
    {
        BatchTool { project_root }
    }
}

impl SurgeonTool {
    pub fn new() -> SurgeonTool {
        SurgeonTool
    }
}

impl VerifyTool {
    pub fn new(project_root: String) -> (r: VerifyTool)
        ensures
            r.project_root == project_root,
    {
        VerifyTool { project_root }
    }
}

/// The changes made to one file.
#[derive(Debug, Clone)]
pub struct FileChanges {
    pub file: String,
    pub changes: Vec<ChangeDescription>,
    pub warnings: Vec<String>,
}

/// The surgeon tool's answer over several files.
#[derive(Debug, Clone)]
pub struct SurgeonResult {
    pub status: String,
    pub files_modified: Vec<String>,
    pub changes: Vec<FileChanges>,
    pub warnings: Vec<String>,
    pub dry_run: bool,
}

/// The file an operation targets.
pub open spec fn op_file(op: Operation) -> Option<String> {
    match op {
        Operation::RenameSymbol { file, .. } => file,
        Operation::AddImport { file, .. } => file,
        Operation::RemoveImport { file, .. } => file,
        Operation::UpdateImportPaths { file, .. } => file,
        Operation::AddParameter { file, .. } => file,
        Operation::RemoveParameter { file, .. } => file,
        Operation::MakeAsync { file, .. } => file,
        Operation::WrapInBlock { file, .. } => file,
        Operation::ExtractToVariable { file, .. } => file,
    }
}

fn file_of(op: &Operation) -> (r: &Option<String>)
    ensures
        *r == op_file(*op),
{
    match op {
        Operation::RenameSymbol { file, .. } => file,
        Operation::AddImport { file, .. } => file,
        Operation::RemoveImport { file, .. } => file,
        Operation::UpdateImportPaths { file, .. } => file,
        Operation::AddParameter { file, .. } => file,
        Operation::RemoveParameter { file, .. } => file,
        Operation::MakeAsync { file, .. } => file,
        Operation::WrapInBlock { file, .. } => file,
        Operation::ExtractToVariable { file, .. } => file,
    }
}

/// The indices among `ops[..k]` of the operations on `f`, in order.
pub open spec fn indices_for(ops: Seq<Operation>, f: Seq<char>, k: int) -> Seq<usize>
    decreases k,
{
    if k <= 0 {
        Seq::empty()
    } else if op_file(ops[k - 1]) matches Some(g) && g@ == f {
        indices_for(ops, f, k - 1).push((k - 1) as usize)
    } else {
        indices_for(ops, f, k - 1)
    }
}

/// `gs` groups `ops[..k]` by file: one group per file, in order of first
/// appearance, each with the indices of its operations in order.
pub open spec fn grouped(ops: Seq<Operation>, gs: Seq<(String, Vec<usize>)>, k: int) -> bool {
    &&& forall|a: int, b: int| 0 <= a < b < gs.len() ==> (#[trigger] gs[a]).0@ != (#[trigger] gs[b]).0@
    &&& forall|j: int| 0 <= j < gs.len() ==> (#[trigger] gs[j]).1@ == indices_for(ops, gs[j].0@, k)
    &&& forall|i: int| 0 <= i < k ==> (op_file(#[trigger] ops[i]) matches Some(f) && exists|j: int| 0 <= j < gs.len() && gs[j].0@ == f@)
}

proof fn lemma_indices_other(ops: Seq<Operation>, f: Seq<char>, k: int)
    requires
        0 <= k < ops.len(),
        !(op_file(ops[k]) matches Some(g) && g@ == f),
    ensures
        indices_for(ops, f, k + 1) == indices_for(ops, f, k),
{
}

/// The operations grouped by the file they target; none when an operation
/// names no file.
pub fn group_by_file(ops: &Vec<Operation>) -> (r: Option<Vec<(String, Vec<usize>)>>)
    ensures
        match r {
            Some(gs) => grouped(ops@, gs@, ops@.len() as int),
            None => exists|i: int| 0 <= i < ops@.len() && op_file(#[trigger] ops@[i]) is None,
        },
{
    let mut gs: Vec<(String, Vec<usize>)> = Vec::new();
    let mut i: usize = 0;
    while i < ops.len()
        invariant
            i <= ops@.len(),
            grouped(ops@, gs@, i as int),
        decreases ops@.len() - i,
    {
        let f = match file_of(&ops[i]) {
            Some(f) => f,
            None => {
                assert(op_file(ops@[i as int]) is None);
                return None;
            },
        };
        let mut j: usize = 0;
        let mut found = false;
        while j < gs.len()
            invariant_except_break
                !found,
            invariant
                j <= gs@.len(),
                forall|x: int| 0 <= x < j ==> gs@[x].0@ != f@,
            ensures
                found ==> j < gs@.len() && gs@[j as int].0@ == f@,
                !found ==> forall|x: int| 0 <= x < gs@.len() ==> gs@[x].0@ != f@,
            decreases gs@.len() - j,
        {
            if str_eq(gs[j].0.as_str(), f.as_str()) {
                found = true;
                break;
            }
            j += 1;
        }
        let ghost before = gs@;
        if found {
            let (name, mut idx) = gs.remove(j);
            idx.push(i);
            gs.insert(j, (name, idx));
        } else {
            let mut idx: Vec<usize> = Vec::new();
            idx.push(i);
            gs.push((f.clone(), idx));
            proof {
                assert(indices_for(ops@, f@, i as int) =~= Seq::<usize>::empty()) by {
                    lemma_no_indices(ops@, f@, i as int);
                }
            }
        }
        proof {
            assert forall|x: int| 0 <= x < gs@.len() && gs@[x].0@ != f@ implies indices_for(ops@, gs@[x].0@, i + 1) == indices_for(ops@, gs@[x].0@, i as int) by {
                lemma_indices_other(ops@, gs@[x].0@, i as int);
            }
            assert forall|x: int| 0 <= x < gs@.len() implies (#[trigger] gs@[x]).1@ == indices_for(ops@, gs@[x].0@, i + 1) by {
                if found && x == j {
                } else if !found && x == before.len() {
                } else {
                    assert(gs@[x] == before[x]);
                }
            }
            assert forall|t: int| 0 <= t < i + 1 implies (op_file(#[trigger] ops@[t]) matches Some(g) && exists|y: int| 0 <= y < gs@.len() && gs@[y].0@ == g@) by {
                if t < i {
                    let g = op_file(ops@[t])->0;
                    let y = choose|y: int| 0 <= y < before.len() && before[y].0@ == g@;
                    assert(gs@[y].0@ == before[y].0@);
                } else {
                    if found {
                        assert(gs@[j as int].0@ == f@);
                    } else {
                        assert(gs@[before.len() as int].0@ == f@);
                    }
                }
            }
        }
        i += 1;
    }
    Some(gs)
}

proof fn lemma_no_indices(ops: Seq<Operation>, f: Seq<char>, k: int)
    requires
        0 <= k <= ops.len(),
        forall|i: int| 0 <= i < k ==> !(op_file(#[trigger] ops[i]) matches Some(g) && g@ == f),
    ensures
        indices_for(ops, f, k) == Seq::<usize>::empty(),
    decreases k,
{
    if k > 0 {
        lemma_no_indices(ops, f, k - 1);
    }
}

/// What became of one file of a surgeon request.
#[derive(Debug, Clone)]
pub enum FileOutcome {
    /// The operations ran; the file was written unless it is a dry run.
    Edited { changes: Vec<ChangeDescription>, warnings: Vec<String> },
    /// The file could not be processed: the request fails.
    Failed { message: String },
    /// The file was skipped (its type is not supported); the request goes on.
    Skipped { message: String },
}

impl SurgeonResult {
    /// A result before any file: a success with nothing changed.
    pub fn new(dry_run: bool) -> (r: SurgeonResult)
        ensures
            r.status@ == "success"@,
            r.files_modified@.len() == 0 && r.changes@.len() == 0 && r.warnings@.len() == 0,
            r.dry_run == dry_run,
    {
        SurgeonResult {
            status: "success".to_owned(),
            files_modified: Vec::new(),
            changes: Vec::new(),
            warnings: Vec::new(),
            dry_run,
        }
    }

    /// Records what became of `file`: an edited file is listed with its
    /// changes; a failure turns the status to error and is reported as a
    /// warning; a skipped file is only reported.
    pub fn record(&mut self, file: String, outcome: FileOutcome)
        ensures
            final(self).dry_run == old(self).dry_run,
            match outcome {
                FileOutcome::Edited { changes, warnings } => {
                    &&& final(self).status == old(self).status
                    &&& final(self).files_modified@ == old(self).files_modified@.push(file)
                    &&& final(self).changes@ == old(self).changes@.push(FileChanges { file, changes, warnings })
                    &&& final(self).warnings@ == old(self).warnings@
                },
                FileOutcome::Failed { message } => {
                    &&& final(self).status@ == "error"@
                    &&& final(self).files_modified@ == old(self).files_modified@
                    &&& final(self).changes@ == old(self).changes@
                    &&& final(self).warnings@ == old(self).warnings@.push(message)
                },
                FileOutcome::Skipped { message } => {
                    &&& final(self).status == old(self).status
                    &&& final(self).files_modified@ == old(self).files_modified@
                    &&& final(self).changes@ == old(self).changes@
                    &&& final(self).warnings@ == old(self).warnings@.push(message)
                },
            },
    {
        match outcome {
            FileOutcome::Edited { changes, warnings } => {
                self.files_modified.push(file.clone());
                self.changes.push(FileChanges { file, changes, warnings });
            },
            FileOutcome::Failed { message } => {
                self.status = "error".to_owned();
                self.warnings.push(message);
            },
            FileOutcome::Skipped { message } => {
                self.warnings.push(message);
            },
        }
    }
}

/// The first of `dirs` whose probe found a project marker.
pub fn nearest_marked(dirs: &Vec<String>, marked: &[bool]) -> (r: Option<String>)
    requires
        marked@.len() == dirs@.len(),
    ensures
        match r {
            Some(d) => exists|i: int| 0 <= i < dirs@.len() && marked@[i] && d == dirs@[i] && forall|j: int| 0 <= j < i ==> !#[trigger] marked@[j],
            None => forall|j: int| 0 <= j < dirs@.len() ==> !#[trigger] marked@[j],
        },
{
    let mut i: usize = 0;
    while i < dirs.len()
        invariant
            marked@.len() == dirs@.len(),
            i <= dirs@.len(),
            forall|j: int| 0 <= j < i ==> !#[trigger] marked@[j],
        decreases dirs@.len() - i,
    {
        if marked[i] {
            return Some(dirs[i].clone());
        }
        i += 1;
    }
    None
}

} // verus!
