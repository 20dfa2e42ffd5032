use fe_edit::edit::{EditSet, TextEdit};
use fe_edit::lang::SupportedLanguage;
use fe_edit::operations::{AddParameter, ParamPosition, RemoveParameter};
use fe_edit::syntax::{flatten_tree, parse_best_effort, verify_parse, SyntaxNode};

fn nodes(source: &str) -> Vec<SyntaxNode> {
    let tree = parse_best_effort(source, SupportedLanguage::TypeScript).ok().unwrap();
    flatten_tree(&tree)
}

fn apply(source: &str, edits: Vec<TextEdit>) -> String {
    if edits.is_empty() {
        return source.to_string();
    }
    EditSet::new(edits, source.len()).unwrap().apply(source)
}

fn clean(source: &str) -> bool {
    verify_parse(source, SupportedLanguage::TypeScript).is_ok()
}

fn add(source: &str, f: &str, p: &str, ty: Option<&str>, d: Option<&str>, pos: ParamPosition) -> String {
    let op = AddParameter::new(f.to_string(), p.to_string(), ty.map(|t| t.to_string()), d.map(|t| t.to_string()), pos);
    apply(source, op.compute_edits(source, &nodes(source)).unwrap())
}

fn remove(source: &str, f: &str, p: &str) -> String {
    let op = RemoveParameter::new(f.to_string(), p.to_string());
    apply(source, op.compute_edits(source, &nodes(source)).unwrap())
}

#[test]
fn test_add_param_to_empty_function() {
    let source = "function greet() {\n  console.log('hi');\n}\n";
    let result = add(source, "greet", "name", Some("string"), None, ParamPosition::Last);
    assert!(result.contains("function greet(name: string)"));
}

#[test]
fn test_add_param_last() {
    let source = "function add(a: number, b: number) {\n  return a + b;\n}\n";
    let result = add(source, "add", "c", Some("number"), Some("0"), ParamPosition::Last);
    assert!(result.contains("a: number, b: number, c: number = 0"));
}

#[test]
fn test_add_param_first() {
    let source = "function greet(name: string) {}\n";
    let result = add(source, "greet", "prefix", Some("string"), None, ParamPosition::First);
    assert!(result.contains("(prefix: string, name: string)"));
}

#[test]
fn test_add_param_duplicate_is_noop() {
    let source = "function greet(name: string) {}\n";
    let op = AddParameter::new("greet".to_string(), "name".to_string(), Some("string".to_string()), None, ParamPosition::Last);
    let edits = op.compute_edits(source, &nodes(source)).unwrap();
    assert!(edits.is_empty());
}

#[test]
fn test_add_param_to_arrow_function() {
    let source = "const greet = (name: string) => {\n  console.log(name);\n};\n";
    let result = add(source, "greet", "loud", Some("boolean"), Some("false"), ParamPosition::Last);
    assert!(result.contains("name: string, loud: boolean = false"));
}

#[test]
fn test_add_param_not_found() {
    let source = "function greet() {}\n";
    let op = AddParameter::new("nonexistent".to_string(), "x".to_string(), None, None, ParamPosition::Last);
    let result = op.compute_edits(source, &nodes(source));
    assert!(result.is_err());
}

#[test]
fn test_remove_only_param() {
    let source = "function greet(name: string) {}\n";
    let result = remove(source, "greet", "name");
    assert!(result.contains("function greet()"));
}

#[test]
fn test_remove_first_param() {
    let source = "function add(a: number, b: number) {}\n";
    let result = remove(source, "add", "a");
    assert!(result.contains("(b: number)"));
    assert!(!result.contains("a:"));
}

#[test]
fn test_remove_last_param() {
    let source = "function add(a: number, b: number) {}\n";
    let result = remove(source, "add", "b");
    assert!(result.contains("(a: number)"));
    assert!(!result.contains("b:"));
}

#[test]
fn test_remove_middle_param() {
    let source = "function calc(a: number, b: number, c: number) {}\n";
    let result = remove(source, "calc", "b");
    assert!(result.contains("(a: number, c: number)"));
}

#[test]
fn test_remove_param_not_found() {
    let source = "function greet(name: string) {}\n";
    let op = RemoveParameter::new("greet".to_string(), "age".to_string());
    let result = op.compute_edits(source, &nodes(source));
    assert!(result.is_err());
}

#[test]
fn test_remove_param_from_arrow() {
    let source = "const greet = (name: string, loud: boolean) => {};\n";
    let result = remove(source, "greet", "loud");
    assert!(result.contains("(name: string)"));
    assert!(!result.contains("loud"));
}

#[test]
fn test_add_param_result_parses_cleanly() {
    let source = "export function fetchData(url: string) {\n  return fetch(url);\n}\n";
    let result = add(source, "fetchData", "options", Some("RequestInit"), Some("{}"), ParamPosition::Last);
    assert!(clean(&result), "Result has syntax errors:\n{}", result);
}

#[test]
fn test_remove_param_result_parses_cleanly() {
    let source = "export function fetchData(url: string, options: RequestInit) {\n  return fetch(url, options);\n}\n";
    let result = remove(source, "fetchData", "options");
    assert!(clean(&result), "Result has syntax errors:\n{}", result);
}

#[test]
fn lone_parameter_leaves_empty_parentheses() {
    let source = "function f(x) { return 1; }";
    assert_eq!(remove(source, "f", "x"), "function f() { return 1; }");
}

#[test]
fn insert_at_clamped_index() {
    let source = "function f(a, b) {}";
    assert_eq!(add(source, "f", "z", None, None, ParamPosition::Index(9)), "function f(a, b, z) {}");
    assert_eq!(add(source, "f", "z", None, None, ParamPosition::Index(1)), "function f(a, z, b) {}");
}
