use fe_edit::lang::{detect_language, LangError, SupportedLanguage};
use fe_edit::style::{detect_quote_style, detect_semicolons};

#[test]
fn test_detect_typescript() {
    assert_eq!(detect_language("src/hooks/useAuth.ts").unwrap(), SupportedLanguage::TypeScript);
}

#[test]
fn test_detect_tsx() {
    assert_eq!(detect_language("src/components/App.tsx").unwrap(), SupportedLanguage::Tsx);
}

#[test]
fn test_detect_javascript() {
    assert_eq!(detect_language("config.js").unwrap(), SupportedLanguage::JavaScript);
}

#[test]
fn test_detect_jsx() {
    assert_eq!(detect_language("App.jsx").unwrap(), SupportedLanguage::Jsx);
}

#[test]
fn test_detect_css() {
    assert_eq!(detect_language("styles.css").unwrap(), SupportedLanguage::Css);
}

#[test]
fn test_detect_unsupported() {
    assert!(detect_language("data.json").is_err());
}

#[test]
fn test_detect_single_quotes() {
    let source = "import { a } from './a';\nimport { b } from './b';";
    assert_eq!(detect_quote_style(source), '\'');
}

#[test]
fn test_detect_double_quotes() {
    let source = "import { a } from \"./a\";\nimport { b } from \"./b\";";
    assert_eq!(detect_quote_style(source), '"');
}

#[test]
fn test_detect_semicolons_true() {
    let source = "import { a } from './a';\nconst x = 1;\nconst y = 2;";
    assert!(detect_semicolons(source));
}

#[test]
fn semicolons_false_when_most_lines_lack_them() {
    let source = "import { a } from './a'\nconst x = 1\nconst y = 2;\n// note\n}";
    assert!(!detect_semicolons(source));
}

#[test]
fn language_names_in_any_case() {
    assert_eq!(SupportedLanguage::from_str("TypeScript").unwrap(), SupportedLanguage::TypeScript);
    assert_eq!(SupportedLanguage::from_str("js").unwrap(), SupportedLanguage::JavaScript);
    match SupportedLanguage::from_str("Rust") {
        Err(LangError::Unsupported(name)) => assert_eq!(name, "rust"),
        other => panic!("unexpected {:?}", other),
    }
}

#[test]
fn extensions_with_dots_and_case() {
    assert_eq!(SupportedLanguage::from_extension(".MJS").unwrap(), SupportedLanguage::JavaScript);
    assert_eq!(SupportedLanguage::from_extension("..cjs").unwrap(), SupportedLanguage::JavaScript);
    match SupportedLanguage::from_extension(".Json") {
        Err(LangError::Unsupported(name)) => assert_eq!(name, "json"),
        other => panic!("unexpected {:?}", other),
    }
}

#[test]
fn no_extension_is_unsupported() {
    match detect_language("Makefile") {
        Err(LangError::Unsupported(name)) => assert_eq!(name, ""),
        other => panic!("unexpected {:?}", other),
    }
}

#[test]
fn semicolon_vote_trims_unicode_whitespace() {
    assert!(detect_semicolons("const a = 1;\u{3000}\nconst b = 2;\u{a0}\nlet c = 3"));
}
