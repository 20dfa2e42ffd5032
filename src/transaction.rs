//! The transaction lifecycle as types: each phase is a type parameter, and
//! each transition consumes the transaction in the phase before. A staged
//! transaction can be applied once; only an applied one can be committed or
//! rolled back. The file-system work between the transitions is done by the
//! caller.

use vstd::prelude::*;

use crate::batch::{
    VerifyOutcome,
    validate_input, Applied, BatchError, BatchErrorDetail, BatchInput, BatchResult, BatchStatus, Committed,
    Pending, RolledBack, Staged, ValidatedCreate, ValidatedEdit, edits_of, creates_of, fault_of,
};
use crate::verification::VerificationSummary;

verus! {

/// A batch in phase `S`.
pub struct Transaction<S> {
    project_root: String,
    edits: Vec<ValidatedEdit>,
    creates: Vec<ValidatedCreate>,
    verify: bool,
    rollback_on_failure: bool,
    state: S,
}

/// What a transaction holds, in any phase.
pub struct TransactionView {
    pub project_root: Seq<char>,
    pub edits: Seq<ValidatedEdit>,
    pub creates: Seq<ValidatedCreate>,
    pub verify: bool,
    pub rollback_on_failure: bool,
}

impl<S> View for Transaction<S> {
    type V = TransactionView;

    closed spec fn view(&self) -> TransactionView {
        TransactionView {
            project_root: self.project_root@,
            edits: self.edits@,
            creates: self.creates@,
            verify: self.verify,
            rollback_on_failure: self.rollback_on_failure,
        }
    }
}

/// The message of a batch error.
pub open spec fn batch_error_text(e: BatchError) -> Seq<char> {
    match e {
        BatchError::FileNotFound(p) => "File not found for edit: "@ + p@,
        BatchError::FileAlreadyExists(p) => "File already exists (cannot create): "@ + p@,
        BatchError::PathTraversal(p) => "Path escapes project root: "@ + p@,
        BatchError::DuplicatePath(p) => "Duplicate file in transaction: "@ + p@,
        BatchError::AmbiguousEdit(p) => "Edit specifies both 'content' and 'operations' for: "@ + p@,
        BatchError::EmptyEdit(p) => "Edit specifies neither 'content' nor 'operations' for: "@ + p@,
        BatchError::EmptyTransaction => "No edits or creates specified"@,
        BatchError::ReadError { path, message } => "Failed to read file "@ + path@ + ": "@ + message@,
        BatchError::WriteError { path, message } => "Failed to write file "@ + path@ + ": "@ + message@,
        BatchError::MkdirError { path, message } => "Failed to create directory "@ + path@ + ": "@ + message@,
        BatchError::BackupError { path, message } => "Failed to backup file "@ + path@ + ": "@ + message@,
        BatchError::RenameError { path, message } => "Atomic rename failed for "@ + path@ + ": "@ + message@,
        BatchError::StagingError(m) => "Staging area creation failed: "@ + m@,
        BatchError::VerificationError(m) => "Verification pipeline failed: "@ + m@,
        BatchError::ToolNotFound { tool } => "Verification tool not found: "@ + tool@ + ". Install it or set verify=false."@,
        BatchError::RollbackError { path, message } => "CRITICAL: Rollback failed for "@ + path@ + ": "@ + message@
            + ". Manual intervention required."@,
        BatchError::Internal(m) => "Internal error: "@ + m@,
    }
}

fn joined2(a: &str, b: &str) -> (r: String)
    ensures
        r@ == a@ + b@,
{
    let mut s = a.to_owned();
    s.append(b);
    s
}

fn joined4(a: &str, b: &str, c: &str, d: &str) -> (r: String)
    ensures
        r@ == a@ + b@ + c@ + d@,
{
    let mut s = a.to_owned();
    s.append(b);
    s.append(c);
    s.append(d);
    s
}

impl BatchError {
    /// The message of the error, for the caller.
    pub fn message(&self) -> (r: String)
        ensures
            r@ == batch_error_text(*self),
    {
        match self {
            BatchError::FileNotFound(p) => joined2("File not found for edit: ", p.as_str()),
            BatchError::FileAlreadyExists(p) => joined2("File already exists (cannot create): ", p.as_str()),
            BatchError::PathTraversal(p) => joined2("Path escapes project root: ", p.as_str()),
            BatchError::DuplicatePath(p) => joined2("Duplicate file in transaction: ", p.as_str()),
            BatchError::AmbiguousEdit(p) => joined2("Edit specifies both 'content' and 'operations' for: ", p.as_str()),
            BatchError::EmptyEdit(p) => joined2("Edit specifies neither 'content' nor 'operations' for: ", p.as_str()),
            BatchError::EmptyTransaction => "No edits or creates specified".to_owned(),
            BatchError::ReadError { path, message } => joined4("Failed to read file ", path.as_str(), ": ", message.as_str()),
            BatchError::WriteError { path, message } => joined4("Failed to write file ", path.as_str(), ": ", message.as_str()),
            BatchError::MkdirError { path, message } => joined4("Failed to create directory ", path.as_str(), ": ", message.as_str()),
            BatchError::BackupError { path, message } => joined4("Failed to backup file ", path.as_str(), ": ", message.as_str()),
            BatchError::RenameError { path, message } => joined4("Atomic rename failed for ", path.as_str(), ": ", message.as_str()),
            BatchError::StagingError(m) => joined2("Staging area creation failed: ", m.as_str()),
            BatchError::VerificationError(m) => joined2("Verification pipeline failed: ", m.as_str()),
            BatchError::ToolNotFound { tool } => {
                let mut s = joined2("Verification tool not found: ", tool.as_str());
                s.append(". Install it or set verify=false.");
                s
            },
            BatchError::RollbackError { path, message } => {
                let mut s = joined4("CRITICAL: Rollback failed for ", path.as_str(), ": ", message.as_str());
                s.append(". Manual intervention required.");
                s
            },
            BatchError::Internal(m) => joined2("Internal error: ", m.as_str()),
        }
    }
}

fn relative_paths(edits: &Vec<ValidatedEdit>, creates: &Vec<ValidatedCreate>) -> (r: (Vec<String>, Vec<String>))
    ensures
        r.0@.len() == edits@.len(),
        forall|i: int| 0 <= i < edits@.len() ==> #[trigger] r.0@[i] == edits@[i].relative_path,
        r.1@.len() == creates@.len(),
        forall|i: int| 0 <= i < creates@.len() ==> #[trigger] r.1@[i] == creates@[i].relative_path,
{
    let mut m: Vec<String> = Vec::new();
    let mut i: usize = 0;
    while i < edits.len()
        invariant
            i <= edits@.len(),
            m@.len() == i,
            forall|j: int| 0 <= j < i ==> #[trigger] m@[j] == edits@[j].relative_path,
        decreases edits@.len() - i,
    {
        m.push(edits[i].relative_path.clone());
        i += 1;
    }
    let mut c: Vec<String> = Vec::new();
    let mut k: usize = 0;
    while k < creates.len()
        invariant
            k <= creates@.len(),
            c@.len() == k,
            forall|j: int| 0 <= j < k ==> #[trigger] c@[j] == creates@[j].relative_path,
        decreases creates@.len() - k,
    {
        c.push(creates[k].relative_path.clone());
        k += 1;
    }
    (m, c)
}

impl Transaction<Pending> {
    /// Validates the request (`exists` tells, entry by entry, whether the
    /// resolved path exists) into a pending transaction.
    pub fn new(project_root: String, input: BatchInput, exists: &[bool]) -> (r: Result<Transaction<Pending>, BatchError>)
        requires
            exists@.len() == edits_of(input).len() + creates_of(input).len(),
        ensures
            r is Ok <==> (edits_of(input).len() + creates_of(input).len() > 0 && forall|k: int| 0 <= k < exists@.len() ==> fault_of(project_root@, input, exists@, k) is None),
            r matches Ok(t) ==> t@.project_root == project_root@ && t@.edits.len() == edits_of(input).len()
                && t@.creates.len() == creates_of(input).len()
                && t@.verify == (match input.verify { Some(v) => v, None => true })
                && t@.rollback_on_failure == (match input.rollback_on_failure { Some(v) => v, None => true }),
    {
        let verify = input.verify_enabled();
        let rollback_on_failure = input.rollback_on_failure();
        match validate_input(project_root.as_str(), &input, exists) {
            Ok((edits, creates)) => Ok(Transaction { project_root, edits, creates, verify, rollback_on_failure, state: Pending }),
            Err(e) => Err(e),
        }
    }

    /// The content is staged.
    pub fn stage(self) -> (r: Transaction<Staged>)
        ensures
            r@ == self@,
    {
        Transaction {
            project_root: self.project_root,
            edits: self.edits,
            creates: self.creates,
            verify: self.verify,
            rollback_on_failure: self.rollback_on_failure,
            state: Staged,
        }
    }

    /// The validated edits.
    pub fn edits(&self) -> (r: &Vec<ValidatedEdit>)
        ensures
            r@ == self@.edits,
    {
        &self.edits
    }

    /// The validated creations.
    pub fn creates(&self) -> (r: &Vec<ValidatedCreate>)
        ensures
            r@ == self@.creates,
    {
        &self.creates
    }
}

impl Transaction<Staged> {
    /// The staged content is written to the working tree.
    pub fn apply(self) -> (r: Transaction<Applied>)
        ensures
            r@ == self@,
    {
        Transaction {
            project_root: self.project_root,
            edits: self.edits,
            creates: self.creates,
            verify: self.verify,
            rollback_on_failure: self.rollback_on_failure,
            state: Applied,
        }
    }
}

impl Transaction<Applied> {
    pub fn verify_enabled(&self) -> (r: bool)
        ensures
            r == self@.verify,
    {
        self.verify
    }

    pub fn rollback_on_failure(&self) -> (r: bool)
        ensures
            r == self@.rollback_on_failure,
    {
        self.rollback_on_failure
    }

    pub fn project_root(&self) -> (r: &str)
        ensures
            r@ == self@.project_root,
    {
        self.project_root.as_str()
    }

    /// The absolute paths of the edited files, then of the created ones.
    pub fn affected_files(&self) -> (r: Vec<String>)
        ensures
            r@.len() == self@.edits.len() + self@.creates.len(),
            forall|i: int| 0 <= i < self@.edits.len() ==> #[trigger] r@[i] == self@.edits[i].absolute_path,
            forall|i: int| 0 <= i < self@.creates.len() ==> #[trigger] r@[self@.edits.len() + i] == self@.creates[i].absolute_path,
    {
        let mut files: Vec<String> = Vec::new();
        let mut i: usize = 0;
        while i < self.edits.len()
            invariant
                i <= self.edits@.len(),
                files@.len() == i,
                forall|j: int| 0 <= j < i ==> #[trigger] files@[j] == self.edits@[j].absolute_path,
            decreases self.edits@.len() - i,
        {
            files.push(self.edits[i].absolute_path.clone());
            i += 1;
        }
        let ne = self.edits.len();
        let mut k: usize = 0;
        while k < self.creates.len()
            invariant
                ne == self.edits@.len(),
                k <= self.creates@.len(),
                files@.len() == ne + k,
                forall|j: int| 0 <= j < ne ==> #[trigger] files@[j] == self.edits@[j].absolute_path,
                forall|j: int| 0 <= j < k ==> #[trigger] files@[ne + j] == self.creates@[j].absolute_path,
            decreases self.creates@.len() - k,
        {
            files.push(self.creates[k].absolute_path.clone());
            k += 1;
        }
        files
    }

    /// The changes stay; the backups are discarded.
    pub fn commit(self) -> (r: Transaction<Committed>)
        ensures
            r@ == self@,
    {
        Transaction {
            project_root: self.project_root,
            edits: self.edits,
            creates: self.creates,
            verify: self.verify,
            rollback_on_failure: self.rollback_on_failure,
            state: Committed,
        }
    }

    /// The working tree was restored from the backups.
    pub fn rollback(self) -> (r: Transaction<RolledBack>)
        ensures
            r@ == self@,
    {
        Transaction {
            project_root: self.project_root,
            edits: self.edits,
            creates: self.creates,
            verify: self.verify,
            rollback_on_failure: self.rollback_on_failure,
            state: RolledBack,
        }
    }
}

impl Transaction<Committed> {
    /// A committed batch: every file listed by its path in the request.
    pub fn into_result(self, verification: Option<VerificationSummary>) -> (r: BatchResult)
        ensures
            r.status == BatchStatus::Success,
            r.files_modified@.len() == self@.edits.len(),
            forall|i: int| 0 <= i < self@.edits.len() ==> #[trigger] r.files_modified@[i] == self@.edits[i].relative_path,
            r.files_created@.len() == self@.creates.len(),
            forall|i: int| 0 <= i < self@.creates.len() ==> #[trigger] r.files_created@[i] == self@.creates[i].relative_path,
            r.verification == verification,
            r.errors@.len() == 0,
            !r.rolled_back,
    {
        let (files_modified, files_created) = relative_paths(&self.edits, &self.creates);
        BatchResult { status: BatchStatus::Success, files_modified, files_created, verification, errors: Vec::new(), rolled_back: false }
    }

    /// A committed batch whose verification failed.
    pub fn into_result_with_warnings(self, verification: Option<VerificationSummary>) -> (r: BatchResult)
        ensures
            r.status == BatchStatus::VerificationFailed,
            r.files_modified@.len() == self@.edits.len(),
            forall|i: int| 0 <= i < self@.edits.len() ==> #[trigger] r.files_modified@[i] == self@.edits[i].relative_path,
            r.files_created@.len() == self@.creates.len(),
            forall|i: int| 0 <= i < self@.creates.len() ==> #[trigger] r.files_created@[i] == self@.creates[i].relative_path,
            r.verification == verification,
            r.errors@.len() == 0,
            !r.rolled_back,
    {
        let (files_modified, files_created) = relative_paths(&self.edits, &self.creates);
        BatchResult {
            status: BatchStatus::VerificationFailed,
            files_modified,
            files_created,
            verification,
            errors: Vec::new(),
            rolled_back: false,
        }
    }
}

impl Transaction<RolledBack> {
    /// A rolled-back batch: nothing modified or created.
    pub fn into_result(self, verification: Option<VerificationSummary>) -> (r: BatchResult)
        ensures
            r.status == BatchStatus::RolledBack,
            r.files_modified@.len() == 0,
            r.files_created@.len() == 0,
            r.verification == verification,
            r.errors@.len() == 0,
            r.rolled_back,
    {
        BatchResult {
            status: BatchStatus::RolledBack,
            files_modified: Vec::new(),
            files_created: Vec::new(),
            verification,
            errors: Vec::new(),
            rolled_back: true,
        }
    }

    /// A rolled-back batch, with the error of its verification.
    pub fn into_error_result(self, error: BatchError) -> (r: BatchResult)
        ensures
            r.status == BatchStatus::RolledBack,
            r.files_modified@.len() == 0,
            r.files_created@.len() == 0,
            r.verification is None,
            r.errors@.len() == 1,
            r.errors@[0].file is None,
            r.errors@[0].phase@ == "verify"@,
            r.errors@[0].message@ == batch_error_text(error),
            r.rolled_back,
    {
        let mut errors: Vec<BatchErrorDetail> = Vec::new();
        errors.push(BatchErrorDetail { file: None, phase: "verify".to_owned(), message: error.message() });
        BatchResult {
            status: BatchStatus::RolledBack,
            files_modified: Vec::new(),
            files_created: Vec::new(),
            verification: None,
            errors,
            rolled_back: true,
        }
    }
}

impl Transaction<Applied> {
    /// Ends the batch from how verification went: rolled back when it
    /// failed and rollback on failure is on (the flag tells the caller to
    /// restore the backups), else committed, with a verification failure
    /// reported as such.
    pub fn conclude(self, outcome: VerifyOutcome, summary: Option<VerificationSummary>) -> (r: (BatchResult, bool))
        ensures
            r.1 == (outcome == VerifyOutcome::Failed && self@.rollback_on_failure),
            r.0.verification == summary,
            r.0.errors@.len() == 0,
            r.1 ==> r.0.status == BatchStatus::RolledBack && r.0.rolled_back && r.0.files_modified@.len() == 0
                && r.0.files_created@.len() == 0,
            !r.1 ==> {
                &&& r.0.status == (if outcome == VerifyOutcome::Failed { BatchStatus::VerificationFailed } else { BatchStatus::Success })
                &&& !r.0.rolled_back
                &&& r.0.files_modified@.len() == self@.edits.len()
                &&& forall|i: int| 0 <= i < self@.edits.len() ==> #[trigger] r.0.files_modified@[i] == self@.edits[i].relative_path
                &&& r.0.files_created@.len() == self@.creates.len()
                &&& forall|i: int| 0 <= i < self@.creates.len() ==> #[trigger] r.0.files_created@[i] == self@.creates[i].relative_path
            },
    {
        let failed = match outcome {
            VerifyOutcome::Failed => true,
            _ => false,
        };
        if failed && self.rollback_on_failure {
            (self.rollback().into_result(summary), true)
        } else if failed {
            (self.commit().into_result_with_warnings(summary), false)
        } else {
            (self.commit().into_result(summary), false)
        }
    }
}

} // verus!
