use fe_edit::verification::{
    detect_tools, LinterKind, StepResult, TestRunnerKind, TestStepResult, ToolProbe, TypeCheckerKind,
    VerificationPipeline, VerificationSummary,
};

fn probe() -> ToolProbe {
    ToolProbe {
        biome_config: false,
        eslint_config: false,
        tsconfig: false,
        vitest_config: false,
        jest_config: false,
        biome_bin: None,
        eslint_bin: None,
        tsc_bin: None,
        vitest_bin: None,
        jest_bin: None,
    }
}

fn failing_step() -> StepResult {
    StepResult { status: "fail".to_string(), error_count: 1, warning_count: 0, errors: vec![] }
}

#[test]
fn skipped_steps_carry_the_reason() {
    assert_eq!(StepResult::skipped("no tool").status, "skipped: no tool");
    assert_eq!(TestStepResult::skipped("no tool").status, "skipped: no tool");
    assert_eq!(StepResult::pass().status, "pass");
    assert!(!StepResult::pass().has_errors());
    assert!(failing_step().has_errors());
}

#[test]
fn finalize_sets_pass_or_fail_with_hint() {
    let mut s = VerificationSummary::new();
    s.finalize();
    assert_eq!(s.status, "pass");
    assert!(s.suggestion.is_none());
    let mut f = VerificationSummary::new();
    f.types = failing_step();
    assert!(!f.is_passing());
    f.finalize();
    assert_eq!(f.status, "fail");
    assert_eq!(
        f.suggestion.as_deref(),
        Some("Call fe_doctor with the errors above for structured fix suggestions")
    );
}

#[test]
fn failed_lint_skips_types_and_tests() {
    let mut s = VerificationSummary::new();
    assert!(!s.record_lint(failing_step()));
    assert_eq!(s.status, "fail");
    assert_eq!(s.types.status, "skipped: Skipped due to lint errors");
    assert_eq!(s.tests.status, "skipped: Skipped due to lint errors");
}

#[test]
fn failed_types_skip_tests() {
    let mut s = VerificationSummary::new();
    assert!(s.record_lint(StepResult::pass()));
    assert!(!s.record_types(failing_step()));
    assert_eq!(s.tests.status, "skipped: Skipped due to type errors");
    assert_eq!(s.status, "fail");
}

#[test]
fn all_steps_pass() {
    let mut s = VerificationSummary::new();
    assert!(s.record_lint(StepResult::pass()));
    assert!(s.record_types(StepResult::pass()));
    s.record_tests(TestStepResult { status: "pass".to_string(), ran: 3, passed: 3, failed: 0, failures: vec![] });
    assert_eq!(s.status, "pass");
    assert_eq!(s.tests.ran, 3);
}

#[test]
fn biome_preferred_over_eslint() {
    let mut p = probe();
    p.biome_config = true;
    p.eslint_config = true;
    p.biome_bin = Some("/bin/biome".to_string());
    p.eslint_bin = Some("/bin/eslint".to_string());
    match detect_tools(&p).linter {
        Some(LinterKind::Biome { bin }) => assert_eq!(bin, "/bin/biome"),
        other => panic!("unexpected {:?}", other),
    }
    p.biome_bin = None;
    match detect_tools(&p).linter {
        Some(LinterKind::ESLint { bin }) => assert_eq!(bin, "/bin/eslint"),
        other => panic!("unexpected {:?}", other),
    }
}

#[test]
fn type_checker_and_test_runner_need_config_and_binary() {
    let mut p = probe();
    p.tsc_bin = Some("tsc".to_string());
    assert!(detect_tools(&p).type_checker.is_none());
    p.tsconfig = true;
    assert!(matches!(detect_tools(&p).type_checker, Some(TypeCheckerKind::Tsc { .. })));
    p.jest_config = true;
    p.jest_bin = Some("jest".to_string());
    p.vitest_config = true;
    assert!(matches!(detect_tools(&p).test_runner, Some(TestRunnerKind::Jest { .. })));
    p.vitest_bin = Some("vitest".to_string());
    assert!(matches!(detect_tools(&p).test_runner, Some(TestRunnerKind::Vitest { .. })));
}

#[test]
fn pipeline_knows_whether_it_has_tools() {
    let none = VerificationPipeline::from_detected(detect_tools(&probe()));
    assert!(!none.has_any_tools());
    let mut p = probe();
    p.tsconfig = true;
    p.tsc_bin = Some("tsc".to_string());
    assert!(VerificationPipeline::from_detected(detect_tools(&p)).has_any_tools());
}
