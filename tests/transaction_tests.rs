use fe_edit::batch::{summary_outcome, VerifyOutcome};
use fe_edit::verification::{StepResult, VerificationSummary};
use fe_edit::batch::{BatchError, BatchInput, BatchStatus, CreateOperation, EditOperation};
use fe_edit::plan::{rollback_steps, FileBackup, RollbackStep};
use fe_edit::transaction::Transaction;

fn input() -> BatchInput {
    BatchInput {
        edits: Some(vec![EditOperation { file: "a.ts".to_string(), content: Some("new".to_string()), operations: None }]),
        creates: Some(vec![CreateOperation { file: "b.ts".to_string(), content: "x".to_string() }]),
        verify: Some(false),
        rollback_on_failure: None,
    }
}

#[test]
fn lifecycle_commit_lists_files() {
    let tx = Transaction::new("/p".to_string(), input(), &[true, false]).unwrap();
    let tx = tx.stage().apply();
    assert!(!tx.verify_enabled());
    assert!(tx.rollback_on_failure());
    assert_eq!(tx.affected_files(), vec!["/p/a.ts".to_string(), "/p/b.ts".to_string()]);
    let r = tx.commit().into_result(None);
    assert_eq!(r.status, BatchStatus::Success);
    assert_eq!(r.files_modified, vec!["a.ts".to_string()]);
    assert_eq!(r.files_created, vec!["b.ts".to_string()]);
    assert!(!r.rolled_back);
}

#[test]
fn lifecycle_rollback_reports_nothing_changed() {
    let tx = Transaction::new("/p".to_string(), input(), &[true, false]).unwrap().stage().apply();
    let r = tx.rollback().into_error_result(BatchError::VerificationError("lint".to_string()));
    assert_eq!(r.status, BatchStatus::RolledBack);
    assert!(r.rolled_back);
    assert_eq!(r.errors[0].message, "Verification pipeline failed: lint");
    assert_eq!(r.errors[0].phase, "verify");
}

#[test]
fn invalid_request_has_no_transaction() {
    assert!(Transaction::new("/p".to_string(), input(), &[false, false]).is_err());
}

#[test]
fn rollback_deletes_creations_before_restoring_backups() {
    let backups = vec![
        FileBackup { original_path: "/p/a".to_string(), backup_path: "/t/0".to_string() },
        FileBackup { original_path: "/p/b".to_string(), backup_path: "/t/1".to_string() },
    ];
    let created = vec!["/p/c".to_string(), "/p/d".to_string()];
    let steps = rollback_steps(&backups, &created);
    assert_eq!(steps.len(), 4);
    assert!(matches!(&steps[0], RollbackStep::Delete(p) if p == "/p/d"));
    assert!(matches!(&steps[1], RollbackStep::Delete(p) if p == "/p/c"));
    assert!(matches!(&steps[2], RollbackStep::Restore { original, backup } if original == "/p/b" && backup == "/t/1"));
    assert!(matches!(&steps[3], RollbackStep::Restore { original, .. } if original == "/p/a"));
}

#[test]
fn error_messages() {
    assert_eq!(BatchError::EmptyTransaction.message(), "No edits or creates specified");
    assert_eq!(
        BatchError::RollbackError { path: "/p/a".to_string(), message: "denied".to_string() }.message(),
        "CRITICAL: Rollback failed for /p/a: denied. Manual intervention required."
    );
}

#[test]
fn failed_verification_concludes_with_rollback() {
    let mut s = VerificationSummary::new();
    s.record_lint(StepResult { status: "fail".to_string(), error_count: 1, warning_count: 0, errors: vec![] });
    let outcome = summary_outcome(&s);
    assert_eq!(outcome, VerifyOutcome::Failed);
    let tx = Transaction::new("/p".to_string(), input(), &[true, false]).unwrap().stage().apply();
    let (r, undo) = tx.conclude(outcome, Some(s));
    assert!(undo);
    assert_eq!(r.status, BatchStatus::RolledBack);
    assert!(r.rolled_back && r.files_modified.is_empty() && r.files_created.is_empty());
    let tx = Transaction::new("/p".to_string(), input(), &[true, false]).unwrap().stage().apply();
    let (r, undo) = tx.conclude(VerifyOutcome::Passed, None);
    assert!(!undo);
    assert_eq!(r.status, BatchStatus::Success);
}
