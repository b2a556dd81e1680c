//! Tests for the data model: statuses, identifiers and merging of runs.

use kare_core::model::{canonical_id, Status, TestResult, TestRun};

fn result(suite: &str, name: &str, time_us: u64, status: Status) -> TestResult {
    TestResult { suite: suite.to_string(), name: name.to_string(), time_us, status }
}

#[test]
fn status_text_round_trips() {
    for s in [Status::Passed, Status::Failed, Status::Error, Status::Skipped] {
        assert_eq!(Status::parse(s.as_str()), Some(s));
    }
    assert_eq!(Status::Passed.as_str(), "passed");
    assert_eq!(Status::Failed.as_str(), "failed");
    assert_eq!(Status::Error.as_str(), "error");
    assert_eq!(Status::Skipped.as_str(), "skipped");
}

#[test]
fn status_parse_rejects_unknown_text() {
    assert_eq!(Status::parse("PASSED"), None);
    assert_eq!(Status::parse(""), None);
    assert_eq!(Status::parse("passed "), None);
}

#[test]
fn canonical_id_joins_suite_and_name() {
    let r = result("App\\Tests\\CalculatorTest", "testAdd with data set \"zero\"", 0, Status::Passed);
    assert_eq!(r.canonical_id(), "App\\Tests\\CalculatorTest::testAdd with data set \"zero\"");
    assert_eq!(canonical_id("A", "b"), "A::b");
}

#[test]
fn merge_concatenates_results_and_keeps_first_timestamp() {
    let a = TestRun { results: vec![result("S", "a", 1_000, Status::Passed)], timestamp: None };
    let b = TestRun {
        results: vec![result("S", "b", 2_500, Status::Failed), result("S", "c", 500, Status::Skipped)],
        timestamp: Some("2026-07-01T00:00:00".to_string()),
    };
    let c = TestRun { results: vec![], timestamp: Some("2026-07-02T00:00:00".to_string()) };
    let merged = a.merge(b).merge(c);
    let names: Vec<&str> = merged.results.iter().map(|r| r.name.as_str()).collect();
    assert_eq!(names, vec!["a", "b", "c"]);
    assert_eq!(merged.timestamp.as_deref(), Some("2026-07-01T00:00:00"));
    assert_eq!(merged.total_time_us(), 4_000);
}

#[test]
fn empty_run_has_zero_total_time() {
    let run = TestRun::default();
    assert_eq!(run.total_time_us(), 0);
    assert!(run.timestamp.is_none());
}

#[test]
fn merge_grouping_does_not_matter() {
    let make = |name: &str, ts: Option<&str>| TestRun {
        results: vec![result("S", name, 10, Status::Passed)],
        timestamp: ts.map(|t| t.to_string()),
    };
    let left = make("a", None).merge(make("b", Some("t1"))).merge(make("c", Some("t2")));
    let right = make("a", None).merge(make("b", Some("t1")).merge(make("c", Some("t2"))));
    assert_eq!(left, right);
    assert_eq!(left.total_time_us(), 30);
}
