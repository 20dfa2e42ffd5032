use fe_edit::protocol::{process_batch, BatchFileEntry, BatchRequest};
use fe_edit::edit::EditSet;
use fe_edit::lang::SupportedLanguage;
use fe_edit::operations::{Operation, OperationError, RenameSymbol, WrapInBlock, WrapKind};
use fe_edit::surgeon::{accept_result, execute_operations, line_and_column};
use fe_edit::syntax::{ceil_char_boundary, flatten_tree, floor_char_boundary, parse_best_effort, verify_parse, SyntaxNode};

fn nodes(source: &str, lang: SupportedLanguage) -> Vec<SyntaxNode> {
    let tree = parse_best_effort(source, lang).ok().unwrap();
    flatten_tree(&tree)
}

fn rename(source: &str, lang: SupportedLanguage, from: &str, to: &str) -> Result<Vec<fe_edit::edit::TextEdit>, OperationError> {
    let op = RenameSymbol::new(from.into(), to.into(), None);
    op.compute_edits(source, &nodes(source, lang))
}

fn clean(source: &str) -> bool {
    verify_parse(source, SupportedLanguage::TypeScript).is_ok()
}

#[test]
fn test_basic_rename() {
    let source = "const useAuth = () => {};\nconst result = useAuth();";
    let edits = rename(source, SupportedLanguage::TypeScript, "useAuth", "useSession").unwrap();
    assert_eq!(edits.len(), 2);
    let edit_set = EditSet::new(edits, source.len()).unwrap();
    let result = edit_set.apply(source);
    assert_eq!(result, "const useSession = () => {};\nconst result = useSession();");
}

#[test]
fn test_rename_skips_strings() {
    let source = "const useAuth = () => {};\nconst msg = \"useAuth is deprecated\";";
    let edits = rename(source, SupportedLanguage::TypeScript, "useAuth", "useSession").unwrap();
    assert_eq!(edits.len(), 1);
    let edit_set = EditSet::new(edits, source.len()).unwrap();
    let result = edit_set.apply(source);
    assert!(result.contains("useSession"));
    assert!(result.contains("\"useAuth is deprecated\""));
}

#[test]
fn test_rename_not_found() {
    let source = "const foo = 1;";
    let result = rename(source, SupportedLanguage::TypeScript, "bar", "baz");
    assert!(result.is_err());
    match result.unwrap_err() {
        OperationError::TargetNotFound { .. } => {}
        other => panic!("Expected TargetNotFound, got {:?}", other),
    }
}

#[test]
fn test_rename_noop_same_name() {
    let source = "const foo = 1;";
    let edits = rename(source, SupportedLanguage::TypeScript, "foo", "foo").unwrap();
    assert!(edits.is_empty());
}

#[test]
fn test_rename_in_import() {
    let source = "import { useAuth } from './hooks';";
    let edits = rename(source, SupportedLanguage::TypeScript, "useAuth", "useSession").unwrap();
    assert_eq!(edits.len(), 1);
    let result = EditSet::new(edits, source.len()).unwrap().apply(source);
    assert_eq!(result, "import { useSession } from './hooks';");
}

#[test]
fn test_rename_in_export() {
    let source = "export { useAuth } from './hooks';";
    let edits = rename(source, SupportedLanguage::TypeScript, "useAuth", "useSession").unwrap();
    assert_eq!(edits.len(), 1);
    let result = EditSet::new(edits, source.len()).unwrap().apply(source);
    assert_eq!(result, "export { useSession } from './hooks';");
}

#[test]
fn test_rename_in_tsx_jsx() {
    let source = "import { Button } from './Button';\nfunction App() {\n  return <Button onClick={() => {}}>Click</Button>;\n}";
    let edits = rename(source, SupportedLanguage::Tsx, "Button", "PrimaryButton").unwrap();
    assert!(edits.len() >= 3);
    let result = EditSet::new(edits, source.len()).unwrap().apply(source);
    assert!(result.contains("import { PrimaryButton }"));
    assert!(result.contains("<PrimaryButton"));
    assert!(result.contains("</PrimaryButton>"));
}

#[test]
fn test_rename_preserves_formatting() {
    let source = "// This is a comment about useAuth\nconst useAuth = () => {\n  // Internal logic\n  return { user: null };\n};";
    let edits = rename(source, SupportedLanguage::TypeScript, "useAuth", "useSession").unwrap();
    let result = EditSet::new(edits, source.len()).unwrap().apply(source);
    assert!(result.contains("// This is a comment about useAuth"));
    assert!(result.contains("const useSession = () => {"));
    assert!(result.contains("  // Internal logic"));
}

#[test]
fn test_rename_multiple_occurrences() {
    let source = "function useAuth() { return useAuth.cache; }\nuseAuth(); useAuth();";
    let edits = rename(source, SupportedLanguage::TypeScript, "useAuth", "useSession").unwrap();
    assert!(edits.len() >= 4);
    let result = EditSet::new(edits, source.len()).unwrap().apply(source);
    assert!(!result.contains("useAuth"));
    assert!(result.contains("useSession"));
    assert!(clean(&result));
}

#[test]
fn test_parser_for_typescript() {
    let tree = parse_best_effort("const a = 1;", SupportedLanguage::TypeScript).ok();
    assert!(tree.is_some());
}

#[test]
fn test_parser_for_tsx() {
    let tree = parse_best_effort("const a = <div />;", SupportedLanguage::Tsx).ok();
    assert!(tree.is_some());
}

#[test]
fn rename_within_scope_only() {
    let source = "function a() { x(); }\nfunction b() { x(); }";
    let op = RenameSymbol::new("x".into(), "y".into(), Some("b".into()));
    let edits = op.compute_edits(source, &nodes(source, SupportedLanguage::TypeScript)).unwrap();
    let result = EditSet::new(edits, source.len()).unwrap().apply(source);
    assert_eq!(result, "function a() { x(); }\nfunction b() { y(); }");
}

#[test]
fn simple_rename_scenario_through_driver() {
    let source = "const useAuth = () => {};\nconst r = useAuth();";
    let lang = SupportedLanguage::TypeScript;
    let ops = vec![Operation::RenameSymbol { file: None, from: "useAuth".into(), to: "useSession".into(), scope: None }];
    let res = execute_operations(source, &nodes(source, SupportedLanguage::TypeScript), &ops, lang).unwrap();
    assert_eq!(res.content, "const useSession = () => {};\nconst r = useSession();");
    assert_eq!(res.changes.len(), 2);
    assert_eq!((res.changes[1].line, res.changes[1].column), (2, 11));
    assert!(clean(&res.content));
}

#[test]
fn driver_without_operations_keeps_source() {
    let source = "let a = 1;";
    let lang = SupportedLanguage::TypeScript;
    let res = execute_operations(source, &nodes(source, SupportedLanguage::TypeScript), &[], lang).unwrap();
    assert_eq!(res.content, source);
}

#[test]
fn driver_wraps_lines() {
    let source = "function f() {\n  a();\n}\n";
    let lang = SupportedLanguage::TypeScript;
    let ops = vec![Operation::WrapInBlock {
        file: None,
        start_line: 2,
        end_line: 2,
        wrap_kind: "try_catch".into(),
        condition: None,
        item: None,
        iterable: None,
    }];
    let res = execute_operations(source, &nodes(source, SupportedLanguage::TypeScript), &ops, lang).unwrap();
    assert!(res.content.contains("} catch (error) {"));
    let _ = WrapInBlock::new(1, 1, WrapKind::Block);
}

#[test]
fn unclean_result_rejected() {
    let r = accept_result("const = ;".to_string(), vec![], SupportedLanguage::TypeScript);
    assert!(matches!(r, Err(OperationError::InvalidResult { .. })));
    let ok = accept_result("const a = 1;".to_string(), vec![], SupportedLanguage::TypeScript);
    assert!(ok.is_ok());
    assert!(!clean("function ("));
}

#[test]
fn positions_and_boundaries() {
    assert_eq!(line_and_column("ab\ncd", 4), (2, 2));
    assert_eq!(line_and_column("ab\ncd", 0), (1, 1));
    let s = "aé";
    assert_eq!(floor_char_boundary(s, 2), 1);
    assert_eq!(ceil_char_boundary(s, 2), 3);
    assert_eq!(floor_char_boundary(s, 9), 3);
}

#[test]
fn error_count_and_grammar_lookup() {
    assert_eq!(fe_edit::syntax::count_errors(&nodes("const a = 1;", SupportedLanguage::TypeScript)), 0);
    assert!(fe_edit::syntax::count_errors(&nodes("function (", SupportedLanguage::TypeScript)) > 0);
    assert!(fe_edit::syntax::get_language("TSX").is_ok());
    assert!(fe_edit::syntax::get_language("rust").is_err());
}

#[test]
fn indent_context_of_a_node() {
    let source = "function f() {\n    return 1;\n}\n";
    let ns = nodes(source, SupportedLanguage::TypeScript);
    let i = ns.iter().position(|n| n.kind == "return_statement").unwrap();
    let ctx = fe_edit::format::indent_context_at(source, &ns, i);
    assert_eq!(ctx.sibling_prefix, "    ");
    assert_eq!(ctx.style, fe_edit::format::IndentStyle::Spaces(4));
}

#[test]
fn comments_attached_to_a_statement() {
    let source = "// first\n// second\nconst a = 1; // tail\nconst b = 2;\n";
    let ns = nodes(source, SupportedLanguage::TypeScript);
    let i = ns.iter().position(|n| n.kind == "lexical_declaration").unwrap();
    let c = fe_edit::format::find_attached_comments(source, &ns, i);
    assert_eq!(c.leading.len(), 1);
    assert_eq!(c.leading[0].text, "// second");
    assert_eq!(c.trailing.unwrap().text, "// tail");
}

#[test]
fn driver_keeps_source_when_no_edit() {
    let source = "const foo = 1;";
    let lang = SupportedLanguage::TypeScript;
    let ops = vec![Operation::RenameSymbol { file: None, from: "foo".into(), to: "foo".into(), scope: None }];
    let res = execute_operations(source, &nodes(source, SupportedLanguage::TypeScript), &ops, lang).unwrap();
    assert_eq!(res.content, source);
    assert!(res.changes.is_empty());
}

#[test]
fn driver_returns_first_failing_operation() {
    let source = "const foo = 1;";
    let lang = SupportedLanguage::TypeScript;
    let ops = vec![
        Operation::MakeAsync { file: None, function_name: "missing".into() },
        Operation::RenameSymbol { file: None, from: "".into(), to: "x".into(), scope: None },
    ];
    let r = execute_operations(source, &nodes(source, SupportedLanguage::TypeScript), &ops, lang);
    assert!(matches!(r, Err(OperationError::TargetNotFound { .. })));
}

#[test]
fn batch_of_files() {
    let entry = |path: &str, lang: &str, content: &str| BatchFileEntry {
        path: path.to_string(),
        content: content.to_string(),
        language: lang.to_string(),
        operations: vec![Operation::RenameSymbol { file: None, from: "a".into(), to: "b".into(), scope: None }],
    };
    let req = BatchRequest {
        files: vec![entry("x.ts", "typescript", "let a = 1;"), entry("y.rs", "rust", "fn a() {}"), entry("z.ts", "ts", "let c = 1;")],
        dry_run: true,
    };
    let r = process_batch(&req);
    assert_eq!(r.status, "partial");
    assert_eq!(r.results.len(), 1);
    assert_eq!(r.results[0].content, "let a = 1;");
    assert_eq!(r.total_edits, 1);
    assert_eq!(r.errors.len(), 2);
    assert_eq!(r.errors[0].code, "UNSUPPORTED_LANGUAGE");
    assert_eq!(r.errors[0].error, "Unsupported language: rust");
    assert_eq!(r.errors[1].code, "SYMBOL_NOT_FOUND");
}

#[test]
fn parse_verdicts_and_file_messages() {
    assert_eq!(fe_edit::syntax::parse_clean("const a = 1;", SupportedLanguage::TypeScript), Some(true));
    assert_eq!(fe_edit::syntax::parse_clean("const = ;", SupportedLanguage::TypeScript), Some(false));
    let e = OperationError::TargetNotFound { description: "f".to_string() };
    assert_eq!(e.file_message("a.ts"), "a.ts: Target not found: f");
    let e = OperationError::InvalidResult { errors: vec![] };
    assert_eq!(e.file_message("a.ts"), "a.ts: Operation produced invalid syntax (0 errors)");
}
