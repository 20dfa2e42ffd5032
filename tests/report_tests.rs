use fe_edit::lint_reports::{step_from_lint, LintFileReport, LintMessage};
use fe_edit::test_reports::{json_start, report_failure, step_from_report, AssertionReport, SuiteReport, TestReport};

fn assertion(ancestors: &[&str], title: &str, status: &str, messages: &[&str]) -> AssertionReport {
    AssertionReport {
        ancestor_titles: ancestors.iter().map(|s| s.to_string()).collect(),
        title: title.to_string(),
        status: status.to_string(),
        failure_messages: messages.iter().map(|s| s.to_string()).collect(),
    }
}

#[test]
fn test_report_lists_failures_with_full_names() {
    let report = TestReport {
        num_total_tests: 3,
        num_passed_tests: 1,
        num_failed_tests: 2,
        test_results: vec![SuiteReport {
            name: "src/a.test.ts".to_string(),
            assertion_results: Some(vec![
                assertion(&["math", "add"], "sums", "failed", &["expected 3"]),
                assertion(&[], "ok", "passed", &[]),
                assertion(&[], "plain", "failed", &[]),
            ]),
        }],
    };
    let r = step_from_report(&report);
    assert_eq!(r.status, "fail");
    assert_eq!((r.ran, r.passed, r.failed), (3, 1, 2));
    assert_eq!(r.failures.len(), 2);
    assert_eq!(r.failures[0].test_name, "math > add > sums");
    assert_eq!(r.failures[0].message, "expected 3");
    assert_eq!(r.failures[1].test_name, "plain");
    assert_eq!(r.failures[1].message, "");
    assert_eq!(r.failures[1].file, "src/a.test.ts");
}

#[test]
fn test_report_json_start_and_failure() {
    assert_eq!(json_start("noise {\"a\":1}"), Some(6));
    assert_eq!(json_start("none"), None);
    let f = report_failure("No JSON found in Jest output".to_string());
    assert_eq!((f.status.as_str(), f.failed), ("fail", 1));
    assert_eq!(f.failures[0].test_name, "<parse error>");
}

#[test]
fn lint_report_counts_and_severities() {
    let files = vec![LintFileReport {
        file_path: "/src/App.tsx".to_string(),
        messages: vec![
            LintMessage { rule_id: Some("no-unused-vars".to_string()), severity: 2, message: "'x' is unused.".to_string(), line: 3, column: 7 },
            LintMessage { rule_id: None, severity: 1, message: "w".to_string(), line: 4, column: 1 },
        ],
        error_count: 1,
        warning_count: 1,
    }];
    let r = step_from_lint(&files);
    assert_eq!(r.status, "fail");
    assert_eq!((r.error_count, r.warning_count), (1, 1));
    assert_eq!(r.errors[0].severity, "error");
    assert_eq!(r.errors[1].severity, "warning");
    assert_eq!(r.errors[0].rule.as_deref(), Some("no-unused-vars"));
    let clean = step_from_lint(&vec![LintFileReport { file_path: "/a".to_string(), messages: vec![], error_count: 0, warning_count: 0 }]);
    assert_eq!(clean.status, "pass");
    let big = step_from_lint(&vec![
        LintFileReport { file_path: "/a".to_string(), messages: vec![], error_count: usize::MAX, warning_count: 0 },
        LintFileReport { file_path: "/b".to_string(), messages: vec![], error_count: 5, warning_count: 0 },
    ]);
    assert_eq!(big.error_count, usize::MAX);
}
