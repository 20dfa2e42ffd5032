//! Batch requests: their shape, their validation into edits and creations
//! confined to the project root, and how a batch's outcome is decided.

use vstd::prelude::*;
use vstd::utf8::*;

use crate::paths::{comp_prefix, joined, normalized, normalized_components, resolve_within_root};
use crate::text::{bytes_eq, text_bytes};
use crate::verification::{passing, VerificationSummary};

verus! {

broadcast use encode_utf8_valid_utf8;

/// One operation of an edit given as operations: its name, its target, and
/// its arguments as JSON text.
#[derive(Debug, Clone)]
pub struct AstOperation {
    pub op: String,
    pub target: Option<String>,
    pub args: Option<String>,
}

/// An edit of an existing file: exactly one of `content` and `operations`.
#[derive(Debug, Clone)]
pub struct EditOperation {
    pub file: String,
    pub content: Option<String>,
    pub operations: Option<Vec<AstOperation>>,
}

/// The creation of a file that does not exist yet.
#[derive(Debug, Clone)]
pub struct CreateOperation {
    pub file: String,
    pub content: String,
}

/// A batch request.
#[derive(Debug, Clone)]
pub struct BatchInput {
    pub edits: Option<Vec<EditOperation>>,
    pub creates: Option<Vec<CreateOperation>>,
    pub verify: Option<bool>,
    pub rollback_on_failure: Option<bool>,
}

impl BatchInput {
    /// Whether to verify; on unless the request says otherwise.
    pub fn verify_enabled(&self) -> (r: bool)
        ensures
            r == (match self.verify {
                Some(v) => v,
                None => true,
            }),
    {
        match self.verify {
            Some(v) => v,
            None => true,
        }
    }

    /// Whether to roll back when verification fails; on unless the request says otherwise.
    pub fn rollback_on_failure(&self) -> (r: bool)
        ensures
            r == (match self.rollback_on_failure {
                Some(v) => v,
                None => true,
            }),
    {
        match self.rollback_on_failure {
            Some(v) => v,
            None => true,
        }
    }
}

/// Why a batch failed.
#[derive(Debug, Clone)]
pub enum BatchError {
    FileNotFound(String),
    FileAlreadyExists(String),
    PathTraversal(String),
    DuplicatePath(String),
    AmbiguousEdit(String),
    EmptyEdit(String),
    EmptyTransaction,
    ReadError { path: String, message: String },
    WriteError { path: String, message: String },
    MkdirError { path: String, message: String },
    BackupError { path: String, message: String },
    RenameError { path: String, message: String },
    StagingError(String),
    VerificationError(String),
    ToolNotFound { tool: String },
    RollbackError { path: String, message: String },
    Internal(String),
}

/// What an edit changes.
#[derive(Debug, Clone)]
pub enum EditChange {
    FullContent(String),
    AstOperations(Vec<AstOperation>),
}

/// An edit that passed validation.
#[derive(Debug, Clone)]
pub struct ValidatedEdit {
    pub absolute_path: String,
    pub relative_path: String,
    pub change: EditChange,
}

/// A creation that passed validation.
#[derive(Debug, Clone)]
pub struct ValidatedCreate {
    pub absolute_path: String,
    pub relative_path: String,
    pub content: String,
}

/// A file held in the staging area.
#[derive(Debug, Clone)]
pub struct StagedFile {
    pub relative_path: String,
    pub absolute_path: String,
    pub content: String,
    pub is_new: bool,
}

/// The phases of a transaction.
#[derive(Debug, Clone, Copy)]
pub struct Pending;

#[derive(Debug, Clone, Copy)]
pub struct Staged;

#[derive(Debug, Clone, Copy)]
pub struct Applied;

#[derive(Debug, Clone, Copy)]
pub struct Committed;

#[derive(Debug, Clone, Copy)]
pub struct RolledBack;

/// The status a batch ends in.
#[derive(Debug, Clone, Copy, PartialEq, Eq, Structural)]
pub enum BatchStatus {
    Success,
    VerificationFailed,
    RolledBack,
    Error,
}

/// One error of a batch, with the phase it came from.
#[derive(Debug, Clone)]
pub struct BatchErrorDetail {
    pub file: Option<String>,
    pub phase: String,
    pub message: String,
}

/// The response to a batch.
#[derive(Debug, Clone)]
pub struct BatchResult {
    pub status: BatchStatus,
    pub files_modified: Vec<String>,
    pub files_created: Vec<String>,
    pub verification: Option<VerificationSummary>,
    pub errors: Vec<BatchErrorDetail>,
    pub rolled_back: bool,
}

/// The edits of a request, none when it names none.
pub open spec fn edits_of(input: BatchInput) -> Seq<EditOperation> {
    match input.edits {
        Some(v) => v@,
        None => Seq::empty(),
    }
}

/// The creations of a request, none when it names none.
pub open spec fn creates_of(input: BatchInput) -> Seq<CreateOperation> {
    match input.creates {
        Some(v) => v@,
        None => Seq::empty(),
    }
}

/// The path of entry `k`: the edits first, then the creations.
pub open spec fn entry_file(input: BatchInput, k: int) -> Seq<char> {
    if k < edits_of(input).len() {
        edits_of(input)[k].file@
    } else {
        creates_of(input)[k - edits_of(input).len()].file@
    }
}

/// The key a path is deduplicated by: backslashes read as slashes.
pub open spec fn path_key(p: Seq<char>) -> Seq<u8> {
    text_bytes(p).map_values(|b: u8| if b == 0x5c { 0x2fu8 } else { b })
}

/// `file` resolved against `root` stays under it.
pub open spec fn resolves(root: Seq<char>, file: Seq<char>) -> bool {
    comp_prefix(normalized_components(text_bytes(root)), normalized_components(joined(text_bytes(root), text_bytes(file))))
}

/// The normalized absolute path of `file` under `root`.
pub open spec fn resolved(root: Seq<char>, file: Seq<char>) -> Seq<u8> {
    normalized(joined(text_bytes(root), text_bytes(file)))
}

/// What is wrong with an entry.
#[derive(Debug, Clone, Copy, PartialEq, Eq, Structural)]
pub enum Fault {
    Ambiguous,
    Empty,
    Traversal,
    Duplicate,
    Missing,
    Present,
}

/// The first check that entry `k` fails, if any. `exists[k]` tells whether
/// its resolved path exists.
pub open spec fn fault_of(root: Seq<char>, input: BatchInput, exists: Seq<bool>, k: int) -> Option<Fault> {
    let ne = edits_of(input).len() as int;
    let file = entry_file(input, k);
    let dup = exists|j: int| 0 <= j < k && path_key(entry_file(input, j)) == path_key(file);
    if k < ne {
        let e = edits_of(input)[k];
        if e.content is Some && e.operations is Some {
            Some(Fault::Ambiguous)
        } else if e.content is None && e.operations is None {
            Some(Fault::Empty)
        } else if !resolves(root, file) {
            Some(Fault::Traversal)
        } else if dup {
            Some(Fault::Duplicate)
        } else if !exists[k] {
            Some(Fault::Missing)
        } else {
            None
        }
    } else {
        if !resolves(root, file) {
            Some(Fault::Traversal)
        } else if dup {
            Some(Fault::Duplicate)
        } else if exists[k] {
            Some(Fault::Present)
        } else {
            None
        }
    }
}

/// `e` is the error for fault `f` of entry `k`.
pub open spec fn error_for(root: Seq<char>, input: BatchInput, k: int, f: Fault, e: BatchError) -> bool {
    let file = entry_file(input, k);
    match f {
        Fault::Ambiguous => e matches BatchError::AmbiguousEdit(p) && p@ == file,
        Fault::Empty => e matches BatchError::EmptyEdit(p) && p@ == file,
        Fault::Traversal => e matches BatchError::PathTraversal(p) && p@ == file,
        Fault::Duplicate => e matches BatchError::DuplicatePath(p) && p@ == file,
        Fault::Missing => e matches BatchError::FileNotFound(p) && text_bytes(p@) == resolved(root, file),
        Fault::Present => e matches BatchError::FileAlreadyExists(p) && text_bytes(p@) == resolved(root, file),
    }
}

/// Entry `k` is the first that fails a check, and `e` is its error.
pub open spec fn first_fault(root: Seq<char>, input: BatchInput, exists: Seq<bool>, k: int, e: BatchError) -> bool {
    &&& 0 <= k < exists.len()
    &&& forall|j: int| 0 <= j < k ==> fault_of(root, input, exists, j) is None
    &&& fault_of(root, input, exists, k) matches Some(f)
    &&& error_for(root, input, k, f, e)
}

/// `v` is the validated form of edit `e` under `root`.
pub open spec fn validated_edit(root: Seq<char>, e: EditOperation, v: ValidatedEdit) -> bool {
    &&& text_bytes(v.absolute_path@) == resolved(root, e.file@)
    &&& v.relative_path == e.file
    &&& match v.change {
        EditChange::FullContent(c) => e.content matches Some(x) && x@ == c@,
        EditChange::AstOperations(ops) => e.content is None && (e.operations matches Some(o) && o@ == ops@),
    }
}

/// `v` is the validated form of creation `c` under `root`.
pub open spec fn validated_create(root: Seq<char>, c: CreateOperation, v: ValidatedCreate) -> bool {
    &&& text_bytes(v.absolute_path@) == resolved(root, c.file@)
    &&& v.relative_path == c.file
    &&& v.content == c.content
}

impl AstOperation {
    /// A copy of this operation.
    pub fn duplicate(&self) -> (r: AstOperation)
        ensures
            r == *self,
    {
        let target = match &self.target {
            Some(t) => Some(t.clone()),
            None => None,
        };
        let args = match &self.args {
            Some(a) => Some(a.clone()),
            None => None,
        };
        AstOperation { op: self.op.clone(), target, args }
    }
}

fn copy_operations(ops: &Vec<AstOperation>) -> (r: Vec<AstOperation>)
    ensures
        r@ == ops@,
{
    let mut out: Vec<AstOperation> = Vec::new();
    let mut i: usize = 0;
    while i < ops.len()
        invariant
            i <= ops@.len(),
            out@ == ops@.take(i as int),
        decreases ops@.len() - i,
    {
        out.push(ops[i].duplicate());
        i += 1;
        assert(out@ =~= ops@.take(i as int));
    }
    assert(ops@.take(i as int) =~= ops@);
    out
}

fn key_of(file: &str) -> (r: Vec<u8>)
    ensures
        r@ == path_key(file@),
{
    let b = file.as_bytes();
    let mut out: Vec<u8> = Vec::new();
    let mut i: usize = 0;
    while i < b.len()
        invariant
            i <= b@.len(),
            b@ == text_bytes(file@),
            out@ == b@.take(i as int).map_values(|x: u8| if x == 0x5c { 0x2fu8 } else { x }),
        decreases b@.len() - i,
    {
        let x = b[i];
        out.push(if x == 0x5c { 0x2f } else { x });
        i += 1;
        assert(out@ =~= b@.take(i as int).map_values(|x: u8| if x == 0x5c { 0x2fu8 } else { x }));
    }
    assert(b@.take(i as int) =~= b@);
    out
}

fn seen_before(seen: &Vec<Vec<u8>>, key: &Vec<u8>) -> (r: bool)
    ensures
        r == exists|j: int| 0 <= j < seen@.len() && seen@[j]@ == key@,
{
    let mut j: usize = 0;
    while j < seen.len()
        invariant
            j <= seen@.len(),
            forall|i: int| 0 <= i < j ==> seen@[i]@ != key@,
        decreases seen@.len() - j,
    {
        if bytes_eq(seen[j].as_slice(), key.as_slice()) {
            return true;
        }
        j += 1;
    }
    false
}

/// The edits and creations of `input`, each resolved under `project_root`.
/// `exists` tells, entry by entry (the edits first), whether the resolved
/// path exists. The first entry that fails a check gives the error.
pub fn validate_input(project_root: &str, input: &BatchInput, exists: &[bool]) -> (r: Result<
    (Vec<ValidatedEdit>, Vec<ValidatedCreate>),
    BatchError,
>)
    requires
        exists@.len() == edits_of(*input).len() + creates_of(*input).len(),
    ensures
        (edits_of(*input).len() + creates_of(*input).len() == 0) ==> r matches Err(BatchError::EmptyTransaction),
        r matches Ok((ve, vc)) ==> {
            &&& edits_of(*input).len() + creates_of(*input).len() > 0
            &&& forall|k: int| 0 <= k < exists@.len() ==> fault_of(project_root@, *input, exists@, k) is None
            &&& ve@.len() == edits_of(*input).len()
            &&& vc@.len() == creates_of(*input).len()
            &&& forall|i: int| 0 <= i < ve@.len() ==> validated_edit(project_root@, edits_of(*input)[i], #[trigger] ve@[i])
            &&& forall|i: int| 0 <= i < vc@.len() ==> validated_create(project_root@, creates_of(*input)[i], #[trigger] vc@[i])
        },
        (edits_of(*input).len() + creates_of(*input).len() > 0 && forall|k: int| 0 <= k < exists@.len() ==> fault_of(project_root@, *input, exists@, k) is None) ==> r is Ok,
        r matches Err(e) ==> (edits_of(*input).len() + creates_of(*input).len() == 0) || exists|k: int|
            #[trigger] first_fault(project_root@, *input, exists@, k, e),
{
    let empty_e: Vec<EditOperation> = Vec::new();
    let empty_c: Vec<CreateOperation> = Vec::new();
    let edits: &Vec<EditOperation> = match &input.edits {
        Some(v) => v,
        None => &empty_e,
    };
    let creates: &Vec<CreateOperation> = match &input.creates {
        Some(v) => v,
        None => &empty_c,
    };
    assert(edits@ == edits_of(*input));
    assert(creates@ == creates_of(*input));
    if edits.len() == 0 && creates.len() == 0 {
        return Err(BatchError::EmptyTransaction);
    }
    let ghost root = project_root@;
    let ghost inp = *input;
    let ghost ex = exists@;
    let ne = edits.len();
    let total = exists.len();
    let mut seen: Vec<Vec<u8>> = Vec::new();
    let mut ve: Vec<ValidatedEdit> = Vec::new();
    let mut i: usize = 0;
    while i < ne
        invariant
            ne == edits@.len(),
            edits@ == edits_of(inp),
            creates@ == creates_of(inp),
            inp == *input,
            ex == exists@,
            root == project_root@,
            ex.len() == edits@.len() + creates@.len(),
            i <= ne,
            seen@.len() == i,
            forall|j: int| 0 <= j < i ==> (#[trigger] seen@[j])@ == path_key(entry_file(inp, j)),
            forall|k: int| 0 <= k < i ==> fault_of(root, inp, ex, k) is None,
            ve@.len() == i,
            forall|j: int| 0 <= j < i ==> validated_edit(root, edits_of(inp)[j], #[trigger] ve@[j]),
        decreases ne - i,
    {
        let e = &edits[i];
        assert(entry_file(inp, i as int) == e.file@);
        if e.content.is_some() && e.operations.is_some() {
            let err = BatchError::AmbiguousEdit(e.file.clone());
            proof {
                assert(fault_of(root, inp, ex, i as int) == Some(Fault::Ambiguous));
                assert(first_fault(root, inp, ex, i as int, err));
            }
            return Err(err);
        }
        if e.content.is_none() && e.operations.is_none() {
            let err = BatchError::EmptyEdit(e.file.clone());
            proof {
                assert(fault_of(root, inp, ex, i as int) == Some(Fault::Empty));
                assert(first_fault(root, inp, ex, i as int, err));
            }
            return Err(err);
        }
        let absolute_path = match resolve_within_root(project_root, e.file.as_str()) {
            Ok(p) => p,
            Err(_) => {
                let err = BatchError::PathTraversal(e.file.clone());
                proof {
                    assert(fault_of(root, inp, ex, i as int) == Some(Fault::Traversal));
                    assert(first_fault(root, inp, ex, i as int, err));
                }
                return Err(err);
            },
        };
        let key = key_of(e.file.as_str());
        if seen_before(&seen, &key) {
            proof {
                let j = choose|j: int| 0 <= j < seen@.len() && seen@[j]@ == key@;
                assert(path_key(entry_file(inp, j)) == path_key(entry_file(inp, i as int)));
                assert(fault_of(root, inp, ex, i as int) == Some(Fault::Duplicate));
            }
            let err = BatchError::DuplicatePath(e.file.clone());
            proof {
                assert(first_fault(root, inp, ex, i as int, err));
            }
            return Err(err);
        }
        proof {
            assert forall|j: int| 0 <= j < i implies path_key(entry_file(inp, j)) != path_key(entry_file(inp, i as int)) by {
                assert(seen@[j]@ == path_key(entry_file(inp, j)));
            }
        }
        if !exists[i] {
            let err = BatchError::FileNotFound(absolute_path);
            proof {
                assert(fault_of(root, inp, ex, i as int) == Some(Fault::Missing));
                assert(first_fault(root, inp, ex, i as int, err));
            }
            return Err(err);
        }
        let change = match &e.content {
            Some(c) => EditChange::FullContent(c.clone()),
            None => match &e.operations {
                Some(ops) => EditChange::AstOperations(copy_operations(ops)),
                None => EditChange::FullContent(String::new()),
            },
        };
        proof {
            assert(fault_of(root, inp, ex, i as int) is None);
        }
        let v = ValidatedEdit { absolute_path, relative_path: e.file.clone(), change };
        assert(edits_of(inp)[i as int] == *e);
        seen.push(key);
        ve.push(v);
        i += 1;
    }
    let mut vc: Vec<ValidatedCreate> = Vec::new();
    let mut c: usize = 0;
    while c < creates.len()
        invariant
            ne == edits@.len(),
            edits@ == edits_of(inp),
            creates@ == creates_of(inp),
            inp == *input,
            ex == exists@,
            root == project_root@,
            ex.len() == edits@.len() + creates@.len(),
            total == ex.len(),
            c <= creates@.len(),
            seen@.len() == ne + c,
            forall|j: int| 0 <= j < ne + c ==> (#[trigger] seen@[j])@ == path_key(entry_file(inp, j)),
            forall|k: int| 0 <= k < ne + c ==> fault_of(root, inp, ex, k) is None,
            ve@.len() == ne,
            forall|j: int| 0 <= j < ne ==> validated_edit(root, edits_of(inp)[j], #[trigger] ve@[j]),
            vc@.len() == c,
            forall|j: int| 0 <= j < c ==> validated_create(root, creates_of(inp)[j], #[trigger] vc@[j]),
        decreases creates@.len() - c,
    {
        let cr = &creates[c];
        let k = ne + c;
        assert(entry_file(inp, k as int) == cr.file@);
        let absolute_path = match resolve_within_root(project_root, cr.file.as_str()) {
            Ok(p) => p,
            Err(_) => {
                let err = BatchError::PathTraversal(cr.file.clone());
                proof {
                    assert(fault_of(root, inp, ex, k as int) == Some(Fault::Traversal));
                    assert(first_fault(root, inp, ex, k as int, err));
                }
                return Err(err);
            },
        };
        let key = key_of(cr.file.as_str());
        if seen_before(&seen, &key) {
            proof {
                let j = choose|j: int| 0 <= j < seen@.len() && seen@[j]@ == key@;
                assert(path_key(entry_file(inp, j)) == path_key(entry_file(inp, k as int)));
                assert(fault_of(root, inp, ex, k as int) == Some(Fault::Duplicate));
            }
            let err = BatchError::DuplicatePath(cr.file.clone());
            proof {
                assert(first_fault(root, inp, ex, k as int, err));
            }
            return Err(err);
        }
        proof {
            assert forall|j: int| 0 <= j < k implies path_key(entry_file(inp, j)) != path_key(entry_file(inp, k as int)) by {
                assert(seen@[j]@ == path_key(entry_file(inp, j)));
            }
        }
        if exists[k] {
            let err = BatchError::FileAlreadyExists(absolute_path);
            proof {
                assert(fault_of(root, inp, ex, k as int) == Some(Fault::Present));
                assert(first_fault(root, inp, ex, k as int, err));
            }
            return Err(err);
        }
        proof {
            assert(fault_of(root, inp, ex, k as int) is None);
        }
        seen.push(key);
        vc.push(ValidatedCreate { absolute_path, relative_path: cr.file.clone(), content: cr.content.clone() });
        c += 1;
    }
    Ok((ve, vc))
}

/// What became of verification.
#[derive(Debug, Clone, Copy, PartialEq, Eq, Structural)]
pub enum VerifyOutcome {
    /// Verification was not asked for.
    Off,
    Passed,
    Failed,
    /// A tool could not run or its output could not be read.
    Errored,
}

/// The status of a batch whose changes were applied, from how verification
/// went and whether to roll back on failure; the flag tells whether the
/// changes are rolled back.
pub fn batch_outcome(verification: VerifyOutcome, rollback_on_failure: bool) -> (r: (BatchStatus, bool))
    ensures
        r == (match verification {
            VerifyOutcome::Failed => if rollback_on_failure {
                (BatchStatus::RolledBack, true)
            } else {
                (BatchStatus::VerificationFailed, false)
            },
            _ => (BatchStatus::Success, false),
        }),
{
    match verification {
        VerifyOutcome::Failed => {
            if rollback_on_failure {
                (BatchStatus::RolledBack, true)
            } else {
                (BatchStatus::VerificationFailed, false)
            }
        },
        _ => (BatchStatus::Success, false),
    }
}

/// `b` is the request written back from the validated entries `ve`, `vc`:
/// each edit with its relative path and its change, each creation with its
/// relative path and content.
pub open spec fn written_back(b: BatchInput, ve: Seq<ValidatedEdit>, vc: Seq<ValidatedCreate>) -> bool {
    &&& edits_of(b).len() == ve.len()
    &&& creates_of(b).len() == vc.len()
    &&& forall|i: int| 0 <= i < ve.len() ==> {
        let e = #[trigger] edits_of(b)[i];
        &&& e.file == ve[i].relative_path
        &&& match ve[i].change {
            EditChange::FullContent(c) => e.content matches Some(x) && x@ == c@ && e.operations is None,
            EditChange::AstOperations(ops) => e.content is None && (e.operations matches Some(o) && o@ == ops@),
        }
    }
    &&& forall|i: int| 0 <= i < vc.len() ==> {
        let c = #[trigger] creates_of(b)[i];
        c.file == vc[i].relative_path && c.content == vc[i].content
    }
}

/// Validation is idempotent: writing a validated batch back as a request
/// and validating it again, with the files as they were (the same `exists`
/// flags), meets every condition under which `validate_input` succeeds, and
/// gives the same validated entries in the same order.
pub proof fn lemma_validation_idempotent(
    root: Seq<char>,
    a: BatchInput,
    b: BatchInput,
    exists: Seq<bool>,
    ve: Seq<ValidatedEdit>,
    vc: Seq<ValidatedCreate>,
)
    requires
        exists.len() == edits_of(a).len() + creates_of(a).len(),
        forall|k: int| 0 <= k < exists.len() ==> fault_of(root, a, exists, k) is None,
        ve.len() == edits_of(a).len(),
        vc.len() == creates_of(a).len(),
        forall|i: int| 0 <= i < ve.len() ==> validated_edit(root, edits_of(a)[i], #[trigger] ve[i]),
        forall|i: int| 0 <= i < vc.len() ==> validated_create(root, creates_of(a)[i], #[trigger] vc[i]),
        written_back(b, ve, vc),
    ensures
        exists.len() == edits_of(b).len() + creates_of(b).len(),
        forall|k: int| 0 <= k < exists.len() ==> fault_of(root, b, exists, k) is None,
        forall|i: int| 0 <= i < ve.len() ==> validated_edit(root, edits_of(b)[i], #[trigger] ve[i]),
        forall|i: int| 0 <= i < vc.len() ==> validated_create(root, creates_of(b)[i], #[trigger] vc[i]),
{
    let ne = edits_of(a).len() as int;
    assert forall|k: int| 0 <= k < exists.len() implies entry_file(b, k) == entry_file(a, k) by {
        if k < ne {
            assert(validated_edit(root, edits_of(a)[k], ve[k]));
            assert(edits_of(b)[k].file == ve[k].relative_path);
        } else {
            assert(validated_create(root, creates_of(a)[k - ne], vc[k - ne]));
            assert(creates_of(b)[k - ne].file == vc[k - ne].relative_path);
        }
    }
    assert forall|k: int| 0 <= k < exists.len() implies fault_of(root, b, exists, k) is None by {
        assert(fault_of(root, a, exists, k) is None);
        if k < ne {
            let ea = edits_of(a)[k];
            let eb = edits_of(b)[k];
            assert(validated_edit(root, ea, ve[k]));
            assert(written_back(b, ve, vc));
            assert(eb.file == ve[k].relative_path);
        }
        assert((exists|j: int| 0 <= j < k && path_key(entry_file(b, j)) == path_key(entry_file(b, k)))
            == (exists|j: int| 0 <= j < k && path_key(entry_file(a, j)) == path_key(entry_file(a, k))));
    }
    assert forall|i: int| 0 <= i < ve.len() implies validated_edit(root, edits_of(b)[i], #[trigger] ve[i]) by {
        assert(validated_edit(root, edits_of(a)[i], ve[i]));
    }
    assert forall|i: int| 0 <= i < vc.len() implies validated_create(root, creates_of(b)[i], #[trigger] vc[i]) by {
        assert(validated_create(root, creates_of(a)[i], vc[i]));
    }
}

/// How a finished verification went: passed when no step failed.
pub open spec fn outcome_of(s: VerificationSummary) -> VerifyOutcome {
    if passing(s) {
        VerifyOutcome::Passed
    } else {
        VerifyOutcome::Failed
    }
}

/// How a finished verification went.
pub fn summary_outcome(s: &VerificationSummary) -> (r: VerifyOutcome)
    ensures
        r == outcome_of(*s),
{
    if s.is_passing() {
        VerifyOutcome::Passed
    } else {
        VerifyOutcome::Failed
    }
}

/// A verification whose lint step failed counts as failed, so a batch that
/// asks to roll back on failure is rolled back.
pub proof fn lemma_failed_lint_rolls_back(s: VerificationSummary)
    requires
        s.lint.status@ == "fail"@,
    ensures
        outcome_of(s) == VerifyOutcome::Failed,
{
}

} // verus!
