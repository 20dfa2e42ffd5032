//! The verification pipeline: the tools found in a project, the result of
//! each step (lint, types, tests), and the cascade that stops at the first
//! failing step.

use vstd::prelude::*;

use crate::text::str_eq;

verus! {

/// One diagnostic of a lint or type-check step.
#[derive(Debug, Clone)]
pub struct DiagnosticItem {
    pub file: String,
    pub line: usize,
    pub column: usize,
    pub message: String,
    pub rule: Option<String>,
    pub severity: String,
    pub suggestion: Option<String>,
}

/// One failing test.
#[derive(Debug, Clone)]
pub struct TestFailure {
    pub test_name: String,
    pub file: String,
    pub message: String,
}

/// The result of a lint or type-check step.
#[derive(Debug, Clone)]
pub struct StepResult {
    pub status: String,
    pub error_count: usize,
    pub warning_count: usize,
    pub errors: Vec<DiagnosticItem>,
}

/// The result of the test step.
#[derive(Debug, Clone)]
pub struct TestStepResult {
    pub status: String,
    pub ran: usize,
    pub passed: usize,
    pub failed: usize,
    pub failures: Vec<TestFailure>,
}

/// The results of all three steps, with the overall status.
#[derive(Debug, Clone)]
pub struct VerificationSummary {
    pub status: String,
    pub lint: StepResult,
    pub types: StepResult,
    pub tests: TestStepResult,
    pub suggestion: Option<String>,
}

/// Why a verification tool could not give a result.
#[derive(Debug)]
pub enum VerifyError {
    ToolNotFound { tool: String },
    ToolExecution { tool: String, message: String },
    ParseError { tool: String, message: String },
    Timeout { seconds: u64 },
}

/// A step result that ran nothing.
pub open spec fn is_empty_step(s: StepResult, status: Seq<char>) -> bool {
    s.status@ == status && s.error_count == 0 && s.warning_count == 0 && s.errors@.len() == 0
}

/// A test result that ran nothing.
pub open spec fn is_empty_tests(s: TestStepResult, status: Seq<char>) -> bool {
    s.status@ == status && s.ran == 0 && s.passed == 0 && s.failed == 0 && s.failures@.len() == 0
}

/// The status of a step that was skipped for `reason`.
pub open spec fn skipped_status(reason: Seq<char>) -> Seq<char> {
    "skipped: "@ + reason
}

/// The hint left for the caller when verification fails.
pub open spec fn failure_hint() -> Seq<char> {
    "Call fe_doctor with the errors above for structured fix suggestions"@
}

impl StepResult {
    /// A step that did not run.
    pub fn skipped_default() -> (r: StepResult)
        ensures
            is_empty_step(r, "skipped"@),
    {
        StepResult { status: "skipped".to_owned(), error_count: 0, warning_count: 0, errors: Vec::new() }
    }

    /// A step that passed with nothing to report.
    pub fn pass() -> (r: StepResult)
        ensures
            is_empty_step(r, "pass"@),
    {
        StepResult { status: "pass".to_owned(), error_count: 0, warning_count: 0, errors: Vec::new() }
    }

    /// A step skipped for `reason`.
    pub fn skipped(reason: &str) -> (r: StepResult)
        ensures
            is_empty_step(r, skipped_status(reason@)),
    {
        let mut status = "skipped: ".to_owned();
        status.append(reason);
        StepResult { status, error_count: 0, warning_count: 0, errors: Vec::new() }
    }

    /// Whether the step found errors.
    pub fn has_errors(&self) -> (r: bool)
        ensures
            r == (self.error_count > 0),
    {
        self.error_count > 0
    }
}

impl TestStepResult {
    /// A test step that did not run.
    pub fn skipped_default() -> (r: TestStepResult)
        ensures
            is_empty_tests(r, "skipped"@),
    {
        TestStepResult { status: "skipped".to_owned(), ran: 0, passed: 0, failed: 0, failures: Vec::new() }
    }

    /// A test step skipped for `reason`.
    pub fn skipped(reason: &str) -> (r: TestStepResult)
        ensures
            is_empty_tests(r, skipped_status(reason@)),
    {
        let mut status = "skipped: ".to_owned();
        status.append(reason);
        TestStepResult { status, ran: 0, passed: 0, failed: 0, failures: Vec::new() }
    }
}

/// No step of the summary failed.
pub open spec fn passing(s: VerificationSummary) -> bool {
    s.lint.status@ != "fail"@ && s.types.status@ != "fail"@ && s.tests.status@ != "fail"@
}

/// `after` is `before` with its overall status set from its steps.
pub open spec fn finalized(before: VerificationSummary, after: VerificationSummary) -> bool {
    &&& after.lint == before.lint
    &&& after.types == before.types
    &&& after.tests == before.tests
    &&& (passing(before) ==> after.status@ == "pass"@ && after.suggestion == before.suggestion)
    &&& (!passing(before) ==> after.status@ == "fail"@ && (after.suggestion matches Some(h)
        && h@ == failure_hint()))
}

/// Why the type and test steps are skipped after a failed lint.
pub open spec fn lint_skip_reason() -> Seq<char> {
    "Skipped due to lint errors"@
}

/// Why the test step is skipped after failed type checks.
pub open spec fn types_skip_reason() -> Seq<char> {
    "Skipped due to type errors"@
}

impl VerificationSummary {
    /// A summary before any step: every step skipped, no status yet.
    pub fn new() -> (r: VerificationSummary)
        ensures
            r.status@ == Seq::<char>::empty(),
            is_empty_step(r.lint, "skipped"@),
            is_empty_step(r.types, "skipped"@),
            is_empty_tests(r.tests, "skipped"@),
            r.suggestion is None,
    {
        VerificationSummary {
            status: String::new(),
            lint: StepResult::skipped_default(),
            types: StepResult::skipped_default(),
            tests: TestStepResult::skipped_default(),
            suggestion: None,
        }
    }

    /// Whether no step failed.
    pub fn is_passing(&self) -> (r: bool)
        ensures
            r == passing(*self),
    {
        !str_eq(self.lint.status.as_str(), "fail") && !str_eq(self.types.status.as_str(), "fail")
            && !str_eq(self.tests.status.as_str(), "fail")
    }

    /// Sets the overall status, and on failure the hint for the caller.
    pub fn finalize(&mut self)
        ensures
            finalized(*old(self), *final(self)),
    {
        if self.is_passing() {
            self.status = "pass".to_owned();
        } else {
            self.status = "fail".to_owned();
            self.suggestion = Some(
                "Call fe_doctor with the errors above for structured fix suggestions".to_owned(),
            );
        }
    }

    /// Records the lint result. A failed lint skips the other steps and
    /// closes the summary; the result tells whether to go on.
    pub fn record_lint(&mut self, step: StepResult) -> (go_on: bool)
        ensures
            go_on == (step.status@ != "fail"@),
            final(self).lint == step,
            go_on ==> final(self).types == old(self).types && final(self).tests == old(self).tests
                && final(self).status == old(self).status && final(self).suggestion == old(self).suggestion,
            !go_on ==> exists|mid: VerificationSummary|
                {
                    &&& mid.lint == step
                    &&& is_empty_step(mid.types, skipped_status(lint_skip_reason()))
                    &&& is_empty_tests(mid.tests, skipped_status(lint_skip_reason()))
                    &&& mid.suggestion == old(self).suggestion
                    &&& finalized(mid, *final(self))
                },
    {
        let failed = str_eq(step.status.as_str(), "fail");
        self.lint = step;
        if failed {
            self.types = StepResult::skipped("Skipped due to lint errors");
            self.tests = TestStepResult::skipped("Skipped due to lint errors");
            let ghost mid = *self;
            self.finalize();
            assert(finalized(mid, *self));
            false
        } else {
            true
        }
    }

    /// Records the type-check result. Failed type checks skip the tests and
    /// close the summary; the result tells whether to go on.
    pub fn record_types(&mut self, step: StepResult) -> (go_on: bool)
        ensures
            go_on == (step.status@ != "fail"@),
            final(self).types == step,
            go_on ==> final(self).lint == old(self).lint && final(self).tests == old(self).tests
                && final(self).status == old(self).status && final(self).suggestion == old(self).suggestion,
            !go_on ==> exists|mid: VerificationSummary|
                {
                    &&& mid.lint == old(self).lint
                    &&& mid.types == step
                    &&& is_empty_tests(mid.tests, skipped_status(types_skip_reason()))
                    &&& mid.suggestion == old(self).suggestion
                    &&& finalized(mid, *final(self))
                },
    {
        let failed = str_eq(step.status.as_str(), "fail");
        self.types = step;
        if failed {
            self.tests = TestStepResult::skipped("Skipped due to type errors");
            let ghost mid = *self;
            self.finalize();
            assert(finalized(mid, *self));
            false
        } else {
            true
        }
    }

    /// Records the test result and closes the summary.
    pub fn record_tests(&mut self, step: TestStepResult)
        ensures
            exists|mid: VerificationSummary|
                {
                    &&& mid.lint == old(self).lint
                    &&& mid.types == old(self).types
                    &&& mid.tests == step
                    &&& mid.suggestion == old(self).suggestion
                    &&& finalized(mid, *final(self))
                },
    {
        self.tests = step;
        let ghost mid = *self;
        self.finalize();
        assert(finalized(mid, *self));
    }
}

/// The linter a project uses, with its executable.
#[derive(Debug, Clone)]
pub enum LinterKind {
    ESLint { bin: String },
    Biome { bin: String },
}

/// The type checker a project uses, with its executable.
#[derive(Debug, Clone)]
pub enum TypeCheckerKind {
    Tsc { bin: String },
}

/// The test runner a project uses, with its executable.
#[derive(Debug, Clone)]
pub enum TestRunnerKind {
    Jest { bin: String },
    Vitest { bin: String },
}

/// The tools found in a project.
#[derive(Debug, Clone)]
pub struct DetectedTools {
    pub linter: Option<LinterKind>,
    pub type_checker: Option<TypeCheckerKind>,
    pub test_runner: Option<TestRunnerKind>,
}

/// What was found on disk: which configuration files exist, and where each
/// tool's executable is, if anywhere.
#[derive(Debug, Clone)]
pub struct ToolProbe {
    pub biome_config: bool,
    pub eslint_config: bool,
    pub tsconfig: bool,
    pub vitest_config: bool,
    pub jest_config: bool,
    pub biome_bin: Option<String>,
    pub eslint_bin: Option<String>,
    pub tsc_bin: Option<String>,
    pub vitest_bin: Option<String>,
    pub jest_bin: Option<String>,
}

/// Biome when it is configured and installed, else ESLint when it is, else none.
pub open spec fn linter_for(p: ToolProbe) -> Option<LinterKind> {
    if p.biome_config && p.biome_bin is Some {
        Some(LinterKind::Biome { bin: p.biome_bin->0 })
    } else if p.eslint_config && p.eslint_bin is Some {
        Some(LinterKind::ESLint { bin: p.eslint_bin->0 })
    } else {
        None
    }
}

/// tsc when the project has a tsconfig and tsc is installed.
pub open spec fn type_checker_for(p: ToolProbe) -> Option<TypeCheckerKind> {
    if p.tsconfig && p.tsc_bin is Some {
        Some(TypeCheckerKind::Tsc { bin: p.tsc_bin->0 })
    } else {
        None
    }
}

/// Vitest when it is configured and installed, else Jest when it is, else none.
pub open spec fn test_runner_for(p: ToolProbe) -> Option<TestRunnerKind> {
    if p.vitest_config && p.vitest_bin is Some {
        Some(TestRunnerKind::Vitest { bin: p.vitest_bin->0 })
    } else if p.jest_config && p.jest_bin is Some {
        Some(TestRunnerKind::Jest { bin: p.jest_bin->0 })
    } else {
        None
    }
}

/// The linter to use.
pub fn detect_linter(p: &ToolProbe) -> (r: Option<LinterKind>)
    ensures
        r == linter_for(*p),
{
    if p.biome_config {
        if let Some(bin) = &p.biome_bin {
            return Some(LinterKind::Biome { bin: bin.clone() });
        }
    }
    if p.eslint_config {
        if let Some(bin) = &p.eslint_bin {
            return Some(LinterKind::ESLint { bin: bin.clone() });
        }
    }
    None
}

/// The type checker to use.
pub fn detect_type_checker(p: &ToolProbe) -> (r: Option<TypeCheckerKind>)
    ensures
        r == type_checker_for(*p),
{
    if p.tsconfig {
        if let Some(bin) = &p.tsc_bin {
            return Some(TypeCheckerKind::Tsc { bin: bin.clone() });
        }
    }
    None
}

/// The test runner to use.
pub fn detect_test_runner(p: &ToolProbe) -> (r: Option<TestRunnerKind>)
    ensures
        r == test_runner_for(*p),
{
    if p.vitest_config {
        if let Some(bin) = &p.vitest_bin {
            return Some(TestRunnerKind::Vitest { bin: bin.clone() });
        }
    }
    if p.jest_config {
        if let Some(bin) = &p.jest_bin {
            return Some(TestRunnerKind::Jest { bin: bin.clone() });
        }
    }
    None
}

/// The tools to run, from what was found on disk.
pub fn detect_tools(p: &ToolProbe) -> (r: DetectedTools)
    ensures
        r.linter == linter_for(*p),
        r.type_checker == type_checker_for(*p),
        r.test_runner == test_runner_for(*p),
{
    DetectedTools {
        linter: detect_linter(p),
        type_checker: detect_type_checker(p),
        test_runner: detect_test_runner(p),
    }
}

/// The files whose presence configures Biome.
pub fn biome_config_files() -> (r: Vec<&'static str>)
    ensures
        r@.len() == 2,
        r@[0]@ == "biome.json"@,
        r@[1]@ == "biome.jsonc"@,
{
    vec!["biome.json", "biome.jsonc"]
}

/// The files whose presence configures ESLint.
pub fn eslint_config_files() -> (r: Vec<&'static str>)
    ensures
        r@.len() == 8,
        r@[0]@ == "eslint.config.js"@,
        r@[1]@ == "eslint.config.mjs"@,
        r@[2]@ == "eslint.config.cjs"@,
        r@[3]@ == ".eslintrc.js"@,
        r@[4]@ == ".eslintrc.json"@,
        r@[5]@ == ".eslintrc.yml"@,
        r@[6]@ == ".eslintrc.yaml"@,
        r@[7]@ == ".eslintrc"@,
{
    vec![
        "eslint.config.js",
        "eslint.config.mjs",
        "eslint.config.cjs",
        ".eslintrc.js",
        ".eslintrc.json",
        ".eslintrc.yml",
        ".eslintrc.yaml",
        ".eslintrc",
    ]
}

/// The files whose presence configures Vitest.
pub fn vitest_config_files() -> (r: Vec<&'static str>)
    ensures
        r@.len() == 4,
        r@[0]@ == "vitest.config.ts"@,
        r@[1]@ == "vitest.config.js"@,
        r@[2]@ == "vitest.config.mts"@,
        r@[3]@ == "vitest.config.mjs"@,
{
    vec!["vitest.config.ts", "vitest.config.js", "vitest.config.mts", "vitest.config.mjs"]
}

/// The files whose presence configures Jest.
pub fn jest_config_files() -> (r: Vec<&'static str>)
    ensures
        r@.len() == 4,
        r@[0]@ == "jest.config.js"@,
        r@[1]@ == "jest.config.ts"@,
        r@[2]@ == "jest.config.mjs"@,
        r@[3]@ == "jest.config.cjs"@,
{
    vec!["jest.config.js", "jest.config.ts", "jest.config.mjs", "jest.config.cjs"]
}

/// Runs Biome's linter.
#[derive(Debug, Clone)]
pub struct BiomeRunner {
    pub bin: String,
}

/// Runs ESLint.
#[derive(Debug, Clone)]
pub struct ESLintRunner {
    pub bin: String,
}

/// Runs tsc without emitting.
#[derive(Debug, Clone)]
pub struct TypeScriptRunner {
    pub bin: String,
}

/// Runs Vitest once.
#[derive(Debug, Clone)]
pub struct VitestRunner {
    pub bin: String,
}

/// Runs Jest.
#[derive(Debug, Clone)]
pub struct JestRunner {
    pub bin: String,
}

impl BiomeRunner {
    pub fn new(bin: String) -> (r: BiomeRunner)
        ensures
            r.bin == bin,
    {
        BiomeRunner { bin }
    }
}

impl ESLintRunner {
    pub fn new(bin: String) -> (r: ESLintRunner)
        ensures
            r.bin == bin,
    {
        ESLintRunner { bin }
    }
}

impl TypeScriptRunner {
    pub fn new(bin: String) -> (r: TypeScriptRunner)
        ensures
            r.bin == bin,
    {
        TypeScriptRunner { bin }
    }
}

impl VitestRunner {
    pub fn new(bin: String) -> (r: VitestRunner)
        ensures
            r.bin == bin,
    {
        VitestRunner { bin }
    }
}

impl JestRunner {
    pub fn new(bin: String) -> (r: JestRunner)
        ensures
            r.bin == bin,
    {
        JestRunner { bin }
    }
}

/// The steps to run, each with the tool that runs it.
#[derive(Debug, Clone)]
pub struct VerificationPipeline {
    pub linter: Option<LinterKind>,
    pub type_checker: Option<TypeCheckerKind>,
    pub test_runner: Option<TestRunnerKind>,
}

impl VerificationPipeline {
    /// The pipeline that runs the detected tools.
    pub fn from_detected(tools: DetectedTools) -> (r: VerificationPipeline)
        ensures
            r.linter == tools.linter,
            r.type_checker == tools.type_checker,
            r.test_runner == tools.test_runner,
    {
        VerificationPipeline {
            linter: tools.linter,
            type_checker: tools.type_checker,
            test_runner: tools.test_runner,
        }
    }

    /// Whether any step has a tool to run.
    pub fn has_any_tools(&self) -> (r: bool)
        ensures
            r == (self.linter is Some || self.type_checker is Some || self.test_runner is Some),
    {
        self.linter.is_some() || self.type_checker.is_some() || self.test_runner.is_some()
    }
}

} // verus!
