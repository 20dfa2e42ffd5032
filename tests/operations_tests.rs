use fe_edit::mcp::{nearest_marked, FileOutcome, SurgeonResult};
use fe_edit::edit::EditConflict;
use fe_edit::protocol::{error_code, single_file_response};
use fe_edit::operations::{operation_to_executable, Executable, Operation, 
    default_match_mode, default_position, default_var_kind, is_statement_kind, AddParameter, MatchMode,
    OperationError, ParamPosition, RenameSymbol, VarKind, WrapInBlock, WrapKind,
};

#[test]
fn rename_to_same_name_is_no_edit() {
    let r = RenameSymbol::new("useAuth".to_string(), "useAuth".to_string(), None);
    assert_eq!(r.precheck().unwrap().unwrap().len(), 0);
    let r = RenameSymbol::new("a".to_string(), "b".to_string(), None);
    assert!(r.precheck().unwrap().is_none());
    let r = RenameSymbol::new(String::new(), "b".to_string(), None);
    assert!(matches!(r.precheck(), Err(OperationError::InvalidParams { .. })));
}

#[test]
fn var_kinds_and_modes() {
    assert_eq!(VarKind::from_str("LET").unwrap(), VarKind::Let);
    assert_eq!(VarKind::Const.keyword(), "const");
    match VarKind::from_str("Var") {
        Err(OperationError::InvalidParams { message }) => {
            assert_eq!(message, "Invalid var_kind 'var', expected 'const' or 'let'")
        }
        other => panic!("unexpected {:?}", other),
    }
    assert_eq!(MatchMode::from_str("Prefix").unwrap(), MatchMode::Prefix);
    assert!(MatchMode::from_str("fuzzy").is_err());
    assert_eq!(default_var_kind(), "const");
    assert_eq!(default_match_mode(), "exact");
    assert_eq!(default_position(), "last");
}

#[test]
fn positions() {
    assert_eq!(ParamPosition::from_str("First").unwrap(), ParamPosition::First);
    assert_eq!(ParamPosition::from_str("last").unwrap(), ParamPosition::Last);
    assert_eq!(ParamPosition::from_str("2").unwrap(), ParamPosition::Index(2));
    match ParamPosition::from_str("middle") {
        Err(OperationError::InvalidParams { message }) => {
            assert_eq!(message, "Invalid position 'middle', expected 'first', 'last', or a number")
        }
        other => panic!("unexpected {:?}", other),
    }
}

#[test]
fn parameter_text() {
    let p = AddParameter::new("f".into(), "x".into(), Some("string".into()), Some("'a'".into()), ParamPosition::Last);
    assert_eq!(p.format_param(), "x: string = 'a'");
    let q = AddParameter::new("f".into(), "y".into(), None, None, ParamPosition::First);
    assert_eq!(q.format_param(), "y");
}

#[test]
fn wrap_names_and_statement_kinds() {
    assert_eq!(WrapInBlock::new(1, 2, WrapKind::TryCatch { catch_param: "e".into() }).wrap_kind_name(), "try-catch");
    assert_eq!(WrapInBlock::new(1, 2, WrapKind::Block).wrap_kind_name(), "block");
    assert!(is_statement_kind("return_statement"));
    assert!(!is_statement_kind("identifier"));
}

#[test]
fn operation_compiles_with_defaults_and_errors() {
    let op = Operation::WrapInBlock {
        file: None,
        start_line: 1,
        end_line: 2,
        wrap_kind: "if".into(),
        condition: None,
        item: None,
        iterable: None,
    };
    match operation_to_executable(&op) {
        Err(OperationError::InvalidParams { message }) => {
            assert_eq!(message, "wrap_in_block with kind 'if' requires 'condition'")
        }
        _ => panic!("expected an error"),
    }
    let op = Operation::UpdateImportPaths { file: None, old_path: "a".into(), new_path: "b".into(), match_mode: "PREFIX".into() };
    assert!(matches!(operation_to_executable(&op), Ok(Executable::UpdateImportPaths(u)) if u.match_mode == MatchMode::Prefix));
}

#[test]
fn error_codes_and_messages() {
    let e = OperationError::EditConflict(EditConflict::Overlapping {
        a_label: "x".into(),
        a_start: 3,
        a_end: 8,
        b_label: "y".into(),
        b_start: 5,
        b_end: 10,
    });
    assert_eq!(error_code(&e), "EDIT_CONFLICT");
    assert_eq!(e.message(), "Edit conflict: Edits overlap: 'x' [3..8) and 'y' [5..10)");
    let r = single_file_response(Err(e), false);
    assert!(r.error);
    assert_eq!(r.status, "error");
    assert_eq!(r.operation_errors[0].code, "EDIT_CONFLICT");
}

#[test]
fn operations_grouped_by_file_in_order() {
    let ops = vec![
        Operation::MakeAsync { file: Some("a.ts".into()), function_name: "f".into() },
        Operation::MakeAsync { file: Some("b.ts".into()), function_name: "g".into() },
        Operation::MakeAsync { file: Some("a.ts".into()), function_name: "h".into() },
    ];
    let groups = fe_edit::mcp::group_by_file(&ops).unwrap();
    assert_eq!(groups.len(), 2);
    assert_eq!(groups[0].0, "a.ts");
    assert_eq!(groups[0].1, vec![0, 2]);
    assert_eq!(groups[1].1, vec![1]);
    let missing = vec![Operation::MakeAsync { file: None, function_name: "f".into() }];
    assert!(fe_edit::mcp::group_by_file(&missing).is_none());
}

#[test]
fn tool_results() {
    let ok = fe_edit::mcp::ToolCallResult::text("done".to_string());
    assert!(!ok.is_error);
    assert_eq!(ok.content[0].content_type, "text");
    let err = fe_edit::mcp::ToolCallResult::error("bad".to_string());
    assert!(err.is_error);
    assert_eq!(err.content[0].text, "bad");
}

#[test]
fn surgeon_result_tally_and_nearest_marker() {
    let mut r = SurgeonResult::new(false);
    r.record("a.ts".to_string(), FileOutcome::Edited { changes: vec![], warnings: vec![] });
    r.record("b.css".to_string(), FileOutcome::Skipped { message: "skip".to_string() });
    assert_eq!(r.status, "success");
    r.record("c.ts".to_string(), FileOutcome::Failed { message: "bad".to_string() });
    assert_eq!(r.status, "error");
    assert_eq!(r.files_modified, vec!["a.ts".to_string()]);
    assert_eq!(r.warnings, vec!["skip".to_string(), "bad".to_string()]);
    let dirs = vec!["/a/b".to_string(), "/a".to_string(), "/".to_string()];
    assert_eq!(nearest_marked(&dirs, &[false, true, true]), Some("/a".to_string()));
    assert_eq!(nearest_marked(&dirs, &[false, false, false]), None);
}
