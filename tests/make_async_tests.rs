use fe_edit::edit::{EditSet, TextEdit};
use fe_edit::lang::SupportedLanguage;
use fe_edit::operations::MakeAsync;
use fe_edit::syntax::{flatten_tree, parse_best_effort, verify_parse, SyntaxNode};

fn nodes(source: &str) -> Vec<SyntaxNode> {
    let tree = parse_best_effort(source, SupportedLanguage::TypeScript).ok().unwrap();
    flatten_tree(&tree)
}

fn apply(source: &str, edits: Vec<TextEdit>) -> String {
    if edits.is_empty() {
        return source.to_string();
    }
    EditSet::new(edits, source.len()).unwrap().apply(source)
}

fn run(source: &str, name: &str) -> String {
    let op = MakeAsync::new(name.to_string());
    apply(source, op.compute_edits(source, &nodes(source)).unwrap())
}

#[test]
fn test_make_function_async() {
    let source = "function fetchData(url: string) {\n  return fetch(url);\n}\n";
    assert!(run(source, "fetchData").contains("async function fetchData"));
}

#[test]
fn test_make_arrow_async() {
    let source = "const fetchData = (url: string) => {\n  return fetch(url);\n};\n";
    assert!(run(source, "fetchData").contains("async (url: string) =>"));
}

#[test]
fn test_already_async_is_noop() {
    let source = "async function fetchData(url: string) {\n  return fetch(url);\n}\n";
    let op = MakeAsync::new("fetchData".to_string());
    let edits = op.compute_edits(source, &nodes(source)).unwrap();
    assert!(edits.is_empty());
}

#[test]
fn test_make_async_wraps_return_type() {
    let source = "function fetchData(url: string): Response {\n  return fetch(url);\n}\n";
    let result = run(source, "fetchData");
    assert!(result.contains("async function fetchData"));
    assert!(result.contains("Promise<Response>"));
}

#[test]
fn test_make_async_already_promise_return_type() {
    let source = "function fetchData(url: string): Promise<Response> {\n  return fetch(url);\n}\n";
    let result = run(source, "fetchData");
    assert!(result.contains("async function fetchData"));
    assert!(result.contains("Promise<Response>"));
    assert!(!result.contains("Promise<Promise<"));
}

#[test]
fn test_make_async_not_found() {
    let source = "function foo() {}\n";
    let op = MakeAsync::new("bar".to_string());
    assert!(op.compute_edits(source, &nodes(source)).is_err());
}

#[test]
fn test_make_async_exported_function() {
    let source = "export function fetchData(url: string) {\n  return fetch(url);\n}\n";
    assert!(run(source, "fetchData").contains("async function fetchData"));
}

#[test]
fn test_make_async_result_parses_cleanly() {
    let source = "export function fetchData(url: string): Response {\n  return fetch(url);\n}\n";
    let result = run(source, "fetchData");
    assert!(verify_parse(&result, SupportedLanguage::TypeScript).is_ok(), "Result has syntax errors:\n{}", result);
}

#[test]
fn method_becomes_async_before_its_name() {
    let source = "class A {\n  load() {\n    return 1;\n  }\n}\n";
    assert_eq!(run(source, "load"), "class A {\n  async load() {\n    return 1;\n  }\n}\n");
}
