use fe_edit::edit::{EditSet, TextEdit};
use fe_edit::lang::SupportedLanguage;
use fe_edit::operations::{AddImport, Operation};
use fe_edit::surgeon::execute_operations;
use fe_edit::syntax::{flatten_tree, parse_best_effort, verify_parse, SyntaxNode};

fn nodes(source: &str, lang: SupportedLanguage) -> Vec<SyntaxNode> {
    let tree = parse_best_effort(source, lang).ok().unwrap();
    flatten_tree(&tree)
}

fn apply(source: &str, edits: Vec<TextEdit>) -> String {
    if edits.is_empty() {
        return source.to_string();
    }
    EditSet::new(edits, source.len()).unwrap().apply(source)
}

fn add(source: &str, lang: SupportedLanguage, module: &str, specs: &[&str], default: Option<&str>, type_only: bool) -> Vec<TextEdit> {
    let op = AddImport::new(
        module.to_string(),
        specs.iter().map(|s| s.to_string()).collect(),
        default.map(|d| d.to_string()),
        type_only,
    );
    op.compute_edits(source, &nodes(source, lang)).unwrap()
}

#[test]
fn test_add_new_import_to_file_with_imports() {
    let source = "import { useState } from 'react';\n\nconst App = () => {};";
    let result = apply(source, add(source, SupportedLanguage::TypeScript, "./utils", &["formatDate"], None, false));
    assert!(result.contains("import { formatDate } from './utils';"));
    assert!(result.contains("import { useState } from 'react';"));
    let react_pos = result.find("import { useState }").unwrap();
    let utils_pos = result.find("import { formatDate }").unwrap();
    assert!(utils_pos > react_pos);
}

#[test]
fn test_add_import_to_empty_file() {
    let source = "const foo = 1;";
    let result = apply(source, add(source, SupportedLanguage::TypeScript, "react", &["useState"], None, false));
    assert!(result.starts_with("import { useState } from 'react'"));
    assert!(result.contains("const foo = 1;"));
}

#[test]
fn test_merge_into_existing_import() {
    let source = "import { useState } from 'react';\n";
    let edits = add(source, SupportedLanguage::TypeScript, "react", &["useEffect"], None, false);
    assert_eq!(edits.len(), 1);
    let result = apply(source, edits);
    assert!(result.contains("useState"));
    assert!(result.contains("useEffect"));
    let import_count = result.matches("import").count();
    assert_eq!(import_count, 1, "Should still be one import statement");
    assert_eq!(result, "import { useState , useEffect} from 'react';\n");
}

#[test]
fn test_add_already_existing_specifier_is_noop() {
    let source = "import { useState } from 'react';\n";
    let edits = add(source, SupportedLanguage::TypeScript, "react", &["useState"], None, false);
    assert!(edits.is_empty(), "Should be no-op for existing specifier");
}

#[test]
fn test_add_import_matches_double_quotes() {
    let source = "import { useState } from \"react\";\n";
    let result = apply(source, add(source, SupportedLanguage::TypeScript, "./utils", &["formatDate"], None, false));
    assert!(result.contains("from \"./utils\""));
}

#[test]
fn test_add_type_only_import() {
    let source = "import { useState } from 'react';\n";
    let result = apply(source, add(source, SupportedLanguage::TypeScript, "./types", &["User"], None, true));
    assert!(result.contains("import type { User } from './types'"));
}

#[test]
fn test_add_default_import() {
    let source = "import { useState } from 'react';\n";
    let result = apply(source, add(source, SupportedLanguage::TypeScript, "react", &[], Some("React"), false));
    assert!(result.contains("React"));
    assert_eq!(result, "import React, { useState } from 'react';\n");
}

#[test]
fn test_add_multiple_specifiers() {
    let source = "const foo = 1;\n";
    let result = apply(source, add(source, SupportedLanguage::TypeScript, "react", &["useState", "useEffect", "useCallback"], None, false));
    assert!(result.contains("useState"));
    assert!(result.contains("useEffect"));
    assert!(result.contains("useCallback"));
}

#[test]
fn test_add_import_result_parses_cleanly() {
    let source = "import { useState } from 'react';\n\nexport function App() {\n  const [x, setX] = useState(0);\n  return <div>{x}</div>;\n}\n";
    let result = apply(source, add(source, SupportedLanguage::Tsx, "react", &["useEffect"], None, false));
    assert!(verify_parse(&result, SupportedLanguage::Tsx).is_ok(), "Result has syntax errors:\n{}", result);
}

#[test]
fn add_import_needs_something_to_import() {
    let source = "const a = 1;";
    let op = AddImport::new("react".to_string(), vec![], None, false);
    assert!(op.compute_edits(source, &nodes(source, SupportedLanguage::TypeScript)).is_err());
}

#[test]
fn new_import_after_shebang() {
    let source = "#!/usr/bin/env node\nrun();\n";
    let result = apply(source, add(source, SupportedLanguage::JavaScript, "fs", &["readFile"], None, false));
    assert_eq!(result, "#!/usr/bin/env node\nimport { readFile } from 'fs';\nrun();\n");
}

#[test]
fn merge_imports_scenario_through_driver() {
    let source = "import { useState } from 'react';\n";
    let lang = SupportedLanguage::TypeScript;
    let ops = vec![Operation::AddImport {
        file: None,
        source: "react".into(),
        specifiers: vec!["useEffect".into()],
        default_import: None,
        type_only: false,
    }];
    let res = execute_operations(source, &nodes(source, SupportedLanguage::TypeScript), &ops, lang).unwrap();
    assert_eq!(res.changes.len(), 1);
    assert_eq!(res.content, "import { useState , useEffect} from 'react';\n");
    assert_eq!(res.content.matches("import").count(), 1);
}

fn remove(source: &str, module: &str, specs: &[&str]) -> Result<Vec<TextEdit>, fe_edit::operations::OperationError> {
    let op = fe_edit::operations::RemoveImport::new(module.to_string(), specs.iter().map(|s| s.to_string()).collect());
    op.compute_edits(source, &nodes(source, SupportedLanguage::TypeScript))
}

#[test]
fn test_remove_entire_import() {
    let source = "import { useState } from 'react';\nimport { Button } from './Button';\n";
    let result = apply(source, remove(source, "react", &[]).unwrap());
    assert!(!result.contains("react"));
    assert!(result.contains("Button"));
}

#[test]
fn test_remove_specific_specifier() {
    let source = "import { useState, useEffect } from 'react';\n";
    let result = apply(source, remove(source, "react", &["useState"]).unwrap());
    assert!(!result.contains("useState"));
    assert!(result.contains("useEffect"));
    assert!(result.contains("react"));
}

#[test]
fn test_remove_last_specifier_removes_import() {
    let source = "import { useState } from 'react';\nconst x = 1;\n";
    let result = apply(source, remove(source, "react", &["useState"]).unwrap());
    assert!(!result.contains("import"));
    assert!(result.contains("const x = 1;"));
    assert_eq!(result, "const x = 1;\n");
}

#[test]
fn test_remove_nonexistent_import_errors() {
    let source = "import { useState } from 'react';\n";
    assert!(remove(source, "./nonexistent", &[]).is_err());
}

#[test]
fn test_import_insertion_point_after_imports() {
    let source = "import { useState } from 'react';\nimport { Button } from './Button';\n\nconst App = () => {};";
    let point = fe_edit::imports::import_insertion_point(source, &nodes(source, SupportedLanguage::TypeScript));
    assert!(point > 0);
    assert_eq!(&source[point..point + 1], "\n");
}

#[test]
fn test_import_insertion_point_no_imports() {
    let source = "const foo = 1;\nconst bar = 2;";
    let point = fe_edit::imports::import_insertion_point(source, &nodes(source, SupportedLanguage::TypeScript));
    assert_eq!(point, 0);
}
