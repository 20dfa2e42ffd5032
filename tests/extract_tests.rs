use fe_edit::edit::{EditSet, TextEdit};
use fe_edit::lang::SupportedLanguage;
use fe_edit::operations::{ExtractToVariable, VarKind};
use fe_edit::syntax::{flatten_tree, parse_best_effort, verify_parse, SyntaxNode};

fn nodes(source: &str) -> Vec<SyntaxNode> {
    let tree = parse_best_effort(source, SupportedLanguage::TypeScript).ok().unwrap();
    flatten_tree(&tree)
}

fn apply(source: &str, edits: Vec<TextEdit>) -> String {
    if edits.is_empty() {
        return source.to_string();
    }
    EditSet::new(edits, source.len()).unwrap().apply(source)
}

fn run(source: &str, expr: &str, name: &str, kind: VarKind, ty: Option<&str>) -> String {
    let op = ExtractToVariable::new(expr.to_string(), name.to_string(), kind, ty.map(|t| t.to_string()));
    apply(source, op.compute_edits(source, &nodes(source)).unwrap())
}

#[test]
fn test_extract_simple_expression() {
    let source = "function foo() {\n  console.log(1 + 2);\n}\n";
    let result = run(source, "1 + 2", "sum", VarKind::Const, None);
    assert!(result.contains("const sum = 1 + 2;"));
    assert!(result.contains("console.log(sum)"));
}

#[test]
fn test_extract_with_type_annotation() {
    let source = "function foo() {\n  return getData();\n}\n";
    let result = run(source, "getData()", "data", VarKind::Const, Some("Data"));
    assert!(result.contains("const data: Data = getData();"));
    assert!(result.contains("return data;"));
}

#[test]
fn test_extract_with_let() {
    let source = "function foo() {\n  process(getItems());\n}\n";
    let result = run(source, "getItems()", "items", VarKind::Let, None);
    assert!(result.contains("let items = getItems();"));
    assert!(result.contains("process(items)"));
}

#[test]
fn test_extract_not_found() {
    let source = "function foo() {\n  console.log('hello');\n}\n";
    let op = ExtractToVariable::new("nonexistent".to_string(), "x".to_string(), VarKind::Const, None);
    assert!(op.compute_edits(source, &nodes(source)).is_err());
}

#[test]
fn test_extract_result_parses_cleanly() {
    let source = "function calculate() {\n  return Math.sqrt(a * a + b * b);\n}\n";
    let result = run(source, "a * a + b * b", "sumOfSquares", VarKind::Const, Some("number"));
    assert!(verify_parse(&result, SupportedLanguage::TypeScript).is_ok(), "Result has syntax errors:\n{}", result);
}

#[test]
fn declaration_keeps_statement_indentation() {
    let source = "function foo() {\n    return 1 + 2;\n}\n";
    assert_eq!(run(source, "1 + 2", "three", VarKind::Const, None), "function foo() {\n    const three = 1 + 2;\n    return three;\n}\n");
}
