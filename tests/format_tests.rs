use fe_edit::format::{count_leading_spaces, extract_line_prefix, indent_code, indent_deeper, infer_indent_style, IndentStyle};

#[test]
fn test_infer_2_spaces() {
    let source = "function foo() {\n  const x = 1;\n  if (true) {\n    return x;\n  }\n}";
    assert_eq!(infer_indent_style(source), IndentStyle::Spaces(2));
}

#[test]
fn test_infer_4_spaces() {
    let source = "function foo() {\n    const x = 1;\n    if (true) {\n        return x;\n    }\n}";
    assert_eq!(infer_indent_style(source), IndentStyle::Spaces(4));
}

#[test]
fn test_infer_tabs() {
    let source = "function foo() {\n\tconst x = 1;\n\tif (true) {\n\t\treturn x;\n\t}\n}";
    assert_eq!(infer_indent_style(source), IndentStyle::Tabs);
}

#[test]
fn test_extract_line_prefix() {
    let source = "  const x = 1;\n    const y = 2;";
    assert_eq!(extract_line_prefix(source, 15), "    ");
}

#[test]
fn test_indent_code() {
    let code = "if (true) {\n  return 1;\n}";
    let result = indent_code(code, "  ");
    assert_eq!(result, "if (true) {\n    return 1;\n  }");
}

#[test]
fn test_indent_deeper() {
    assert_eq!(indent_deeper("  ", &IndentStyle::Spaces(2)), "    ");
    assert_eq!(indent_deeper("\t", &IndentStyle::Tabs), "\t\t");
}

#[test]
fn infer_without_indentation_picks_widest_tie() {
    assert_eq!(infer_indent_style("a\nb\nc"), IndentStyle::Spaces(8));
    assert_eq!(infer_indent_style(""), IndentStyle::Spaces(8));
}

#[test]
fn indent_code_keeps_blank_lines_bare_and_final_newline() {
    assert_eq!(indent_code("a\n\nb\n", "--"), "a\n\n--b\n");
    assert_eq!(indent_code("a\r\nb", "  "), "a\n  b");
    assert_eq!(indent_code("", "  "), "");
}

#[test]
fn line_prefix_of_first_line_and_blank_prefix() {
    assert_eq!(extract_line_prefix("\t x", 3), "\t ");
    assert_eq!(extract_line_prefix("abc", 1), "");
}

#[test]
fn leading_spaces_counted() {
    assert_eq!(count_leading_spaces("   x "), 3);
    assert_eq!(count_leading_spaces("\t x"), 0);
}

#[test]
fn line_prefix_takes_unicode_whitespace() {
    let source = "a\n\u{3000}\u{a0}\tx";
    assert_eq!(extract_line_prefix(source, 2), "\u{3000}\u{a0}\t");
}
