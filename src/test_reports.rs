//! Test-runner reports (Jest and Vitest write the same JSON shape), read
//! into the result of the test step.

use vstd::prelude::*;

use crate::text::{str_eq, text_bytes};
use crate::verification::{TestFailure, TestStepResult};

verus! {

/// One assertion of a test file.
#[derive(Debug, Clone)]
pub struct AssertionReport {
    pub ancestor_titles: Vec<String>,
    pub title: String,
    pub status: String,
    pub failure_messages: Vec<String>,
}

/// One test file.
#[derive(Debug, Clone)]
pub struct SuiteReport {
    pub name: String,
    pub assertion_results: Option<Vec<AssertionReport>>,
}

/// A whole run.
#[derive(Debug, Clone)]
pub struct TestReport {
    pub num_total_tests: usize,
    pub num_passed_tests: usize,
    pub num_failed_tests: usize,
    pub test_results: Vec<SuiteReport>,
}

/// Where the JSON of a report starts in a tool's output: its first `{`.
pub open spec fn json_start_of(s: Seq<u8>, i: int) -> Option<int>
    decreases s.len() - i,
{
    if i < 0 || i >= s.len() {
        None
    } else if s[i] == 0x7b {
        Some(i)
    } else {
        json_start_of(s, i + 1)
    }
}

/// The offset of the first `{` of `stdout`.
pub fn json_start(stdout: &str) -> (r: Option<usize>)
    ensures
        match r {
            Some(i) => json_start_of(text_bytes(stdout@), 0) == Some(i as int),
            None => json_start_of(text_bytes(stdout@), 0) is None,
        },
{
    let s = stdout.as_bytes();
    let mut i: usize = 0;
    while i < s.len()
        invariant
            i <= s@.len(),
            s@ == text_bytes(stdout@),
            json_start_of(s@, 0) == json_start_of(s@, i as int),
        decreases s@.len() - i,
    {
        if s[i] == 0x7b {
            return Some(i);
        }
        i += 1;
    }
    None
}

/// A test step that failed because the report could not be read.
pub fn report_failure(message: String) -> (r: TestStepResult)
    ensures
        r.status@ == "fail"@,
        r.ran == 0 && r.passed == 0 && r.failed == 1,
        r.failures@.len() == 1,
        r.failures@[0].test_name@ == "<parse error>"@,
        r.failures@[0].file@.len() == 0,
        r.failures@[0].message == message,
{
    let mut failures: Vec<TestFailure> = Vec::new();
    failures.push(TestFailure { test_name: "<parse error>".to_owned(), file: String::new(), message });
    TestStepResult { status: "fail".to_owned(), ran: 0, passed: 0, failed: 1, failures }
}

/// The titles joined by `" > "`.
pub open spec fn titles_joined(ts: Seq<String>) -> Seq<char>
    decreases ts.len(),
{
    if ts.len() == 0 {
        Seq::empty()
    } else if ts.len() == 1 {
        ts[0]@
    } else {
        titles_joined(ts.drop_last()) + " > "@ + ts.last()@
    }
}

/// The full name of a test: its ancestors' titles and its own.
pub open spec fn test_name_of(a: AssertionReport) -> Seq<char> {
    if a.ancestor_titles@.len() == 0 {
        a.title@
    } else {
        titles_joined(a.ancestor_titles@) + " > "@ + a.title@
    }
}

/// `f` reports failed assertion `a` of the file named `file`.
pub open spec fn failure_of(f: TestFailure, file: String, a: AssertionReport) -> bool {
    &&& f.test_name@ == test_name_of(a)
    &&& f.file == file
    &&& f.message@ == (if a.failure_messages@.len() > 0 { a.failure_messages@[0]@ } else { Seq::empty() })
}

/// The failed assertions among `assertions[..k]`.
pub open spec fn failed_upto(assertions: Seq<AssertionReport>, k: int) -> Seq<AssertionReport>
    decreases k,
{
    if k <= 0 {
        Seq::empty()
    } else if assertions[k - 1].status@ == "failed"@ {
        failed_upto(assertions, k - 1).push(assertions[k - 1])
    } else {
        failed_upto(assertions, k - 1)
    }
}

/// The failed assertions of a suite, each with the suite's file.
pub open spec fn suite_failures(s: SuiteReport) -> Seq<(String, AssertionReport)> {
    match s.assertion_results {
        Some(v) => failed_upto(v@, v@.len() as int).map_values(|a: AssertionReport| (s.name, a)),
        None => Seq::empty(),
    }
}

/// The failed assertions of the suites `ss[..k]`, in order.
pub open spec fn failures_upto(ss: Seq<SuiteReport>, k: int) -> Seq<(String, AssertionReport)>
    decreases k,
{
    if k <= 0 {
        Seq::empty()
    } else {
        failures_upto(ss, k - 1) + suite_failures(ss[k - 1])
    }
}

fn test_name(a: &AssertionReport) -> (r: String)
    ensures
        r@ == test_name_of(*a),
{
    let n = a.ancestor_titles.len();
    if n == 0 {
        return a.title.clone();
    }
    let mut s = a.ancestor_titles[0].clone();
    let mut i: usize = 1;
    while i < n
        invariant
            n == a.ancestor_titles@.len(),
            1 <= i <= n,
            s@ == titles_joined(a.ancestor_titles@.take(i as int)),
        decreases n - i,
    {
        s.append(" > ");
        s.append(a.ancestor_titles[i].as_str());
        proof {
            let t = a.ancestor_titles@.take(i + 1);
            assert(t.drop_last() =~= a.ancestor_titles@.take(i as int));
        }
        i += 1;
    }
    assert(a.ancestor_titles@.take(i as int) =~= a.ancestor_titles@);
    s.append(" > ");
    s.append(a.title.as_str());
    s
}

/// The result of the test step from a report: its counts, and one failure
/// per failed assertion, in order; the step fails when a test failed.
pub fn step_from_report(report: &TestReport) -> (r: TestStepResult)
    ensures
        r.status@ == (if report.num_failed_tests > 0 { "fail"@ } else { "pass"@ }),
        r.ran == report.num_total_tests,
        r.passed == report.num_passed_tests,
        r.failed == report.num_failed_tests,
        r.failures@.len() == failures_upto(report.test_results@, report.test_results@.len() as int).len(),
        forall|j: int| 0 <= j < r.failures@.len() ==> {
            let (file, a) = #[trigger] failures_upto(report.test_results@, report.test_results@.len() as int)[j];
            failure_of(r.failures@[j], file, a)
        },
{
    let ss = &report.test_results;
    let mut failures: Vec<TestFailure> = Vec::new();
    let mut k: usize = 0;
    while k < ss.len()
        invariant
            k <= ss@.len(),
            failures@.len() == failures_upto(ss@, k as int).len(),
            forall|j: int| 0 <= j < failures@.len() ==> {
                let (file, a) = #[trigger] failures_upto(ss@, k as int)[j];
                failure_of(failures@[j], file, a)
            },
        decreases ss@.len() - k,
    {
        let suite = &ss[k];
        let ghost prev = failures_upto(ss@, k as int);
        match &suite.assertion_results {
            Some(asserts) => {
                let mut i: usize = 0;
                while i < asserts.len()
                    invariant
                        i <= asserts@.len(),
                        prev == failures_upto(ss@, k as int),
                        failures@.len() == prev.len() + failed_upto(asserts@, i as int).len(),
                        forall|j: int| 0 <= j < prev.len() ==> {
                            let (file, a) = #[trigger] prev[j];
                            failure_of(failures@[j], file, a)
                        },
                        forall|j: int| 0 <= j < failed_upto(asserts@, i as int).len() ==> failure_of(
                            #[trigger] failures@[prev.len() + j],
                            suite.name,
                            failed_upto(asserts@, i as int)[j],
                        ),
                    decreases asserts@.len() - i,
                {
                    let a = &asserts[i];
                    if str_eq(a.status.as_str(), "failed") {
                        let message = if a.failure_messages.len() > 0 { a.failure_messages[0].clone() } else { String::new() };
                        failures.push(TestFailure { test_name: test_name(a), file: suite.name.clone(), message });
                    }
                    proof {
                        let now = failed_upto(asserts@, i + 1);
                        let before = failed_upto(asserts@, i as int);
                        assert forall|j: int| 0 <= j < before.len() implies now[j] == before[j] by {}
                    }
                    i += 1;
                }
                proof {
                    let now = failures_upto(ss@, k + 1);
                    let sf = suite_failures(*suite);
                    assert(now == prev + sf);
                    assert forall|j: int| 0 <= j < now.len() implies {
                        let (file, a) = #[trigger] now[j];
                        failure_of(failures@[j], file, a)
                    } by {
                        if j < prev.len() {
                            assert(now[j] == prev[j]);
                        } else {
                            let jj = j - prev.len();
                            let fl = failed_upto(asserts@, asserts@.len() as int);
                            assert(sf == fl.map_values(|a: AssertionReport| (suite.name, a)));
                            assert(now[j] == sf[jj]);
                            assert(sf[jj] == (suite.name, fl[jj]));
                            assert(failure_of(failures@[prev.len() + jj], suite.name, fl[jj]));
                        }
                    }
                }
            },
            None => {
                proof {
                    assert(failures_upto(ss@, k + 1) =~= prev);
                }
            },
        }
        k += 1;
    }
    let status = if report.num_failed_tests > 0 { "fail".to_owned() } else { "pass".to_owned() };
    TestStepResult {
        status,
        ran: report.num_total_tests,
        passed: report.num_passed_tests,
        failed: report.num_failed_tests,
        failures,
    }
}

} // verus!
