use fe_edit::tsc::{parse_number, parse_tsc_output, parse_usize};

#[test]
fn test_parse_clean() {
    let result = parse_tsc_output("");
    assert_eq!(result.status, "pass");
    assert_eq!(result.error_count, 0);
}

#[test]
fn test_parse_type_errors() {
    let output = r#"src/components/UserProfile.tsx(10,5): error TS2345: Argument of type 'string' is not assignable to parameter of type 'number'.
src/hooks/useAuth.ts(22,3): error TS2322: Type 'undefined' is not assignable to type 'User'."#;
    let result = parse_tsc_output(output);
    assert_eq!(result.status, "fail");
    assert_eq!(result.error_count, 2);
    assert_eq!(result.errors.len(), 2);
    assert_eq!(result.errors[0].file, "src/components/UserProfile.tsx");
    assert_eq!(result.errors[0].line, 10);
    assert_eq!(result.errors[0].column, 5);
    assert_eq!(result.errors[0].rule.as_deref(), Some("TS2345"));
}

#[test]
fn test_ignores_non_error_lines() {
    let output = "Found 2 errors in 1 file.\n\nErrors  Files\n     2  src/App.tsx";
    let result = parse_tsc_output(output);
    assert_eq!(result.status, "pass");
    assert_eq!(result.errors.len(), 0);
}

#[test]
fn warnings_counted_apart_and_lines_trimmed() {
    let output = "  a.ts(1,2): warning TS6133: 'x' is declared but never used.  \r\nb.ts(3,4): error TS1005: ';' expected.\n";
    let result = parse_tsc_output(output);
    assert_eq!(result.status, "fail");
    assert_eq!(result.error_count, 1);
    assert_eq!(result.warning_count, 1);
    assert_eq!(result.errors[0].file, "a.ts");
    assert_eq!(result.errors[0].severity, "warning");
    assert_eq!(result.errors[0].message, "'x' is declared but never used.");
    assert_eq!(result.errors[1].line, 3);
}

#[test]
fn numbers_parse_like_std() {
    assert_eq!(parse_usize("42"), Some(42));
    assert_eq!(parse_usize("+7"), Some(7));
    assert_eq!(parse_usize(""), None);
    assert_eq!(parse_usize("4a"), None);
    assert_eq!(parse_usize("99999999999999999999999"), None);
    assert_eq!(parse_number("18446744073709551615"), 18446744073709551615);
    assert_eq!(parse_number("x"), 0);
}
