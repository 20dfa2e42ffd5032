use fe_edit::batch::{batch_outcome, validate_input, BatchError, BatchInput, BatchStatus, CreateOperation, EditChange, EditOperation, VerifyOutcome};

fn edit(file: &str, content: Option<&str>) -> EditOperation {
    EditOperation { file: file.to_string(), content: content.map(|c| c.to_string()), operations: None }
}

fn create(file: &str) -> CreateOperation {
    CreateOperation { file: file.to_string(), content: "new".to_string() }
}

fn input(edits: Vec<EditOperation>, creates: Vec<CreateOperation>) -> BatchInput {
    BatchInput {
        edits: if edits.is_empty() { None } else { Some(edits) },
        creates: if creates.is_empty() { None } else { Some(creates) },
        verify: None,
        rollback_on_failure: None,
    }
}

#[test]
fn empty_batch_rejected() {
    assert!(matches!(validate_input("/p", &input(vec![], vec![]), &[]), Err(BatchError::EmptyTransaction)));
}

#[test]
fn valid_batch_resolves_paths() {
    let inp = input(vec![edit("src/a.ts", Some("x"))], vec![create("src/b.ts")]);
    let (ve, vc) = validate_input("/p", &inp, &[true, false]).unwrap();
    assert_eq!(ve[0].absolute_path, "/p/src/a.ts");
    assert_eq!(ve[0].relative_path, "src/a.ts");
    assert!(matches!(&ve[0].change, EditChange::FullContent(c) if c == "x"));
    assert_eq!(vc[0].absolute_path, "/p/src/b.ts");
    assert_eq!(vc[0].content, "new");
    assert!(inp.verify_enabled());
    assert!(inp.rollback_on_failure());
}

#[test]
fn each_validation_error() {
    let both = EditOperation { file: "a.ts".to_string(), content: Some("x".to_string()), operations: Some(vec![]) };
    assert!(matches!(validate_input("/p", &input(vec![both], vec![]), &[true]), Err(BatchError::AmbiguousEdit(f)) if f == "a.ts"));
    assert!(matches!(validate_input("/p", &input(vec![edit("a.ts", None)], vec![]), &[true]), Err(BatchError::EmptyEdit(_))));
    assert!(matches!(validate_input("/p", &input(vec![edit("../x.ts", Some("x"))], vec![]), &[true]), Err(BatchError::PathTraversal(_))));
    assert!(matches!(validate_input("/p", &input(vec![edit("a.ts", Some("x"))], vec![]), &[false]), Err(BatchError::FileNotFound(p)) if p == "/p/a.ts"));
    assert!(matches!(validate_input("/p", &input(vec![], vec![create("a.ts")]), &[true]), Err(BatchError::FileAlreadyExists(_))));
    let dup = input(vec![edit("src\\a.ts", Some("x"))], vec![create("src/a.ts")]);
    assert!(matches!(validate_input("/p", &dup, &[true, false]), Err(BatchError::DuplicatePath(f)) if f == "src/a.ts"));
}

#[test]
fn outcome_table() {
    assert_eq!(batch_outcome(VerifyOutcome::Off, true), (BatchStatus::Success, false));
    assert_eq!(batch_outcome(VerifyOutcome::Passed, true), (BatchStatus::Success, false));
    assert_eq!(batch_outcome(VerifyOutcome::Failed, true), (BatchStatus::RolledBack, true));
    assert_eq!(batch_outcome(VerifyOutcome::Failed, false), (BatchStatus::VerificationFailed, false));
    assert_eq!(batch_outcome(VerifyOutcome::Errored, true), (BatchStatus::Success, false));
}
