use fe_edit::edit::{EditSet, TextEdit};
use fe_edit::lang::SupportedLanguage;
use fe_edit::operations::{MatchMode, UpdateImportPaths};
use fe_edit::syntax::{flatten_tree, parse_best_effort, verify_parse, SyntaxNode};

fn nodes(source: &str, lang: SupportedLanguage) -> Vec<SyntaxNode> {
    let tree = parse_best_effort(source, lang).ok().unwrap();
    flatten_tree(&tree)
}

fn apply(source: &str, edits: Vec<TextEdit>) -> String {
    EditSet::new(edits, source.len()).unwrap().apply(source)
}

fn run(source: &str, lang: SupportedLanguage, old: &str, new: &str, mode: MatchMode) -> String {
    let op = UpdateImportPaths::new(old.to_string(), new.to_string(), mode);
    apply(source, op.compute_edits(source, &nodes(source, lang)).unwrap())
}

#[test]
fn test_exact_match_single_import() {
    let source = "import { foo } from './utils';\n";
    let result = run(source, SupportedLanguage::TypeScript, "./utils", "./lib/utils", MatchMode::Exact);
    assert!(result.contains("from './lib/utils'"));
    assert!(!result.contains("from './utils'"));
}

#[test]
fn test_exact_match_multiple_imports() {
    let source = "import { a } from './utils';\nimport { b } from './utils';\nimport { c } from './other';\n";
    let result = run(source, SupportedLanguage::TypeScript, "./utils", "./helpers", MatchMode::Exact);
    assert_eq!(result.matches("'./helpers'").count(), 2);
    assert_eq!(result.matches("'./utils'").count(), 0);
    assert!(result.contains("'./other'"));
}

#[test]
fn test_prefix_match() {
    let source = "import { a } from './components/Button';\nimport { b } from './components/Input';\nimport { c } from './utils';\n";
    let result = run(source, SupportedLanguage::TypeScript, "./components", "./ui/components", MatchMode::Prefix);
    assert!(result.contains("'./ui/components/Button'"));
    assert!(result.contains("'./ui/components/Input'"));
    assert!(result.contains("'./utils'"));
}

#[test]
fn test_export_statement() {
    let source = "export { default } from './old-module';\n";
    let result = run(source, SupportedLanguage::TypeScript, "./old-module", "./new-module", MatchMode::Exact);
    assert!(result.contains("from './new-module'"));
}

#[test]
fn test_no_match_returns_error() {
    let source = "import { foo } from './utils';\n";
    let op = UpdateImportPaths::new("./nonexistent".to_string(), "./whatever".to_string(), MatchMode::Exact);
    let result = op.compute_edits(source, &nodes(source, SupportedLanguage::TypeScript));
    assert!(result.is_err());
}

#[test]
fn test_preserves_quote_style() {
    let source = "import { foo } from \"./utils\";\n";
    let result = run(source, SupportedLanguage::TypeScript, "./utils", "./lib/utils", MatchMode::Exact);
    assert!(result.contains("from \"./lib/utils\""));
}

#[test]
fn test_result_parses_cleanly() {
    let source = "import { useState } from 'react';\nimport { Button } from './components/Button';\n\nexport function App() {\n  return <Button />;\n}\n";
    let result = run(source, SupportedLanguage::Tsx, "./components/Button", "./ui/Button", MatchMode::Exact);
    assert!(verify_parse(&result, SupportedLanguage::Tsx).is_ok(), "Result has syntax errors:\n{}", result);
}

#[test]
fn dynamic_import_and_label() {
    let source = "const m = import('./a');\n";
    let op = UpdateImportPaths::new("./a".to_string(), "./b".to_string(), MatchMode::Exact);
    let edits = op.compute_edits(source, &nodes(source, SupportedLanguage::TypeScript)).unwrap();
    assert_eq!(edits.len(), 1);
    assert_eq!(edits[0].label, "update path './a' \u{2192} './b'");
    assert_eq!(edits[0].replacement, "'./b'");
    assert_eq!(apply(source, edits), "const m = import('./b');\n");
}
