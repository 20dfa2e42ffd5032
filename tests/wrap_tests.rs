use fe_edit::edit::{EditSet, TextEdit};
use fe_edit::operations::{OperationError, WrapInBlock, WrapKind};

fn apply(source: &str, edits: Vec<TextEdit>) -> String {
    if edits.is_empty() {
        return source.to_string();
    }
    let edit_set = EditSet::new(edits, source.len()).unwrap();
    edit_set.apply(source)
}

fn parses_cleanly(source: &str) -> bool {
    let mut parser = tree_sitter::Parser::new();
    let lang: tree_sitter::Language = tree_sitter_typescript::LANGUAGE_TYPESCRIPT.into();
    parser.set_language(&lang).unwrap();
    let tree = parser.parse(source, None).unwrap();
    !tree.root_node().has_error()
}

#[test]
fn test_wrap_in_if() {
    let source = "function foo() {\n  doA();\n  doB();\n}\n";
    let op = WrapInBlock::new(2, 3, WrapKind::If { condition: "isReady".to_string() });
    let edits = op.compute_edits(source).unwrap();
    let result = apply(source, edits);
    assert!(result.contains("if (isReady) {"));
    assert!(result.contains("    doA();"));
    assert!(result.contains("    doB();"));
}

#[test]
fn test_wrap_in_try_catch() {
    let source = "function foo() {\n  riskyCall();\n}\n";
    let op = WrapInBlock::new(2, 2, WrapKind::TryCatch { catch_param: "error".to_string() });
    let edits = op.compute_edits(source).unwrap();
    let result = apply(source, edits);
    assert!(result.contains("try {"));
    assert!(result.contains("} catch (error) {"));
    assert!(result.contains("    riskyCall();"));
}

#[test]
fn test_wrap_in_for_of() {
    let source = "function process() {\n  console.log(item);\n}\n";
    let op = WrapInBlock::new(2, 2, WrapKind::ForOf { item: "item".to_string(), iterable: "items".to_string() });
    let edits = op.compute_edits(source).unwrap();
    let result = apply(source, edits);
    assert!(result.contains("for (const item of items) {"));
}

#[test]
fn test_wrap_in_plain_block() {
    let source = "function foo() {\n  const a = 1;\n  const b = 2;\n}\n";
    let op = WrapInBlock::new(2, 3, WrapKind::Block);
    let edits = op.compute_edits(source).unwrap();
    let result = apply(source, edits);
    assert!(result.contains("  {\n    const a = 1;\n    const b = 2;\n  }"));
}

#[test]
fn test_wrap_invalid_range() {
    let source = "function foo() {}\n";
    let op = WrapInBlock::new(3, 1, WrapKind::Block);
    let result = op.compute_edits(source);
    assert!(result.is_err());
}

#[test]
fn test_wrap_result_parses_cleanly() {
    let source = "function foo() {\n  const x = fetchData();\n  processData(x);\n}\n";
    let op = WrapInBlock::new(2, 3, WrapKind::TryCatch { catch_param: "e".to_string() });
    let edits = op.compute_edits(source).unwrap();
    let result = apply(source, edits);
    assert!(parses_cleanly(&result), "Result has syntax errors:\n{}", result);
}

#[test]
fn wrap_edit_range_label_and_text() {
    let source = "a();\n  b();\n  c();\n";
    let op = WrapInBlock::new(2, 3, WrapKind::Block);
    let edits = op.compute_edits(source).unwrap();
    assert_eq!(edits.len(), 1);
    assert_eq!((edits[0].start, edits[0].end), (5, 18));
    assert_eq!(edits[0].label, "wrap lines 2-3 in \"block\"");
    assert_eq!(edits[0].replacement, "  {\n    b();\n    c();\n  }");
}

#[test]
fn wrap_errors_name_the_range() {
    let source = "a();\nb();\n";
    match WrapInBlock::new(0, 1, WrapKind::Block).compute_edits(source) {
        Err(OperationError::InvalidParams { message }) => {
            assert_eq!(message, "Invalid line range: 0-1 (1-indexed, start <= end)")
        }
        other => panic!("unexpected {:?}", other),
    }
    match WrapInBlock::new(1, 12, WrapKind::Block).compute_edits(source) {
        Err(OperationError::InvalidParams { message }) => {
            assert_eq!(message, "Line 12 is out of range (file has 2 lines)")
        }
        other => panic!("unexpected {:?}", other),
    }
}
