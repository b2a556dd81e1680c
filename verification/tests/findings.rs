//! Tests for the individual findings, the cost and the score.

use kare_core::analysis::{
    build_report, find_flaky, find_regressions, find_slow, score, status_of, HealthStatus,
};
use kare_core::config::{Config, Cost, Thresholds, Weights};
use kare_core::db::{RunSummary, StoredResult};
use kare_core::model::Status;

fn stored(name: &str, time_us: u64, status: Status) -> StoredResult {
    StoredResult {
        suite: "Suite".to_string(),
        name: name.to_string(),
        time_us,
        status,
    }
}

fn summary(total_time_us: u64) -> RunSummary {
    RunSummary {
        id: 1,
        run_at: "2026-07-01T00:00:00Z".to_string(),
        git_ref: None,
        total_time_us,
        total_tests: 1,
        total_failures: 0,
    }
}

#[test]
fn slow_threshold_is_inclusive_and_ties_keep_their_order() {
    let results = vec![
        stored("a", 999_999, Status::Passed),
        stored("b", 1_000_000, Status::Passed),
        stored("c", 3_000_000, Status::Failed),
        stored("d", 1_000_000, Status::Skipped),
    ];
    let slow = find_slow(&results, 1_000_000);
    let ids: Vec<&str> = slow.iter().map(|f| f.id.as_str()).collect();
    assert_eq!(ids, vec!["Suite::c", "Suite::b", "Suite::d"]);
    assert!(slow.iter().all(|f| f.threshold_us == 1_000_000));
}

#[test]
fn flaky_needs_both_a_failure_and_a_pass() {
    let window = vec![
        vec![
            stored("always_fails", 1, Status::Failed),
            stored("mixed", 1, Status::Error),
            stored("once", 1, Status::Passed),
            stored("skip_then_fail", 1, Status::Skipped),
        ],
        vec![
            stored("always_fails", 1, Status::Error),
            stored("mixed", 1, Status::Passed),
            stored("once", 1, Status::Failed),
            stored("skip_then_fail", 1, Status::Failed),
        ],
        vec![stored("mixed", 1, Status::Failed), stored("once", 1, Status::Passed)],
    ];
    let flaky = find_flaky(&window);
    assert_eq!(flaky.len(), 2);
    assert_eq!(flaky[0].id, "Suite::mixed");
    assert_eq!((flaky[0].failed_runs, flaky[0].window_runs), (2, 3));
    assert_eq!(flaky[1].id, "Suite::once");
    assert_eq!((flaky[1].failed_runs, flaky[1].window_runs), (1, 3));
}

#[test]
fn regression_factor_and_minimum_growth() {
    let th = Thresholds::default();
    let prev = vec![
        stored("doubled", 500_000, Status::Passed),
        stored("tiny", 100_000, Status::Passed),
        stored("zero", 0, Status::Passed),
        stored("tripled", 1_000_000, Status::Passed),
    ];
    let current = vec![
        stored("doubled", 1_000_000, Status::Passed),
        stored("tiny", 500_000, Status::Passed),
        stored("zero", 5_000_000, Status::Passed),
        stored("tripled", 3_000_000, Status::Passed),
        stored("new", 9_000_000, Status::Passed),
    ];
    let found = find_regressions(&prev, &current, &th);
    let ids: Vec<&str> = found.iter().map(|f| f.id.as_str()).collect();
    assert_eq!(ids, vec!["Suite::tripled", "Suite::doubled"]);
    assert_eq!(found[0].factor_millionths, 3_000_000);
    assert_eq!(found[1].factor_millionths, 2_000_000);
    assert_eq!((found[1].prev_us, found[1].current_us), (500_000, 1_000_000));
}

#[test]
fn regression_factor_is_rounded_down() {
    let th = Thresholds {
        regression_factor_millionths: 1_000_000,
        regression_min_us: 0,
        ..Thresholds::default()
    };
    let found = find_regressions(
        &vec![stored("t", 3, Status::Passed)],
        &vec![stored("t", 10, Status::Passed)],
        &th,
    );
    assert_eq!(found[0].factor_millionths, 3_333_333);
}

#[test]
fn score_bands_and_saturation() {
    let w = Weights::default();
    assert_eq!(score(0, 0, 0, &w), 100);
    assert_eq!(score(1, 1, 1, &w), 86);
    assert_eq!(score(4, 10, 4, &w), 32);
    assert_eq!(score(100, 100, 100, &w), 32);
    let heavy = Weights {
        flaky: u32::MAX,
        flaky_max: u32::MAX,
        ..Weights::default()
    };
    assert_eq!(score(3, 0, 0, &heavy), 0);
    assert_eq!(status_of(85), HealthStatus::Healthy);
    assert_eq!(status_of(84), HealthStatus::NeedsPruning);
    assert_eq!(status_of(60), HealthStatus::NeedsPruning);
    assert_eq!(status_of(59), HealthStatus::Overgrown);
}

#[test]
fn cost_is_reported_only_when_configured() {
    let config = Config {
        cost: Cost {
            per_min_millionths: 50_000,
        },
        ..Config::default()
    };
    let report = build_report(1, summary(738_000_000), &Vec::new(), &Vec::new(), None, &config);
    let cost = report.cost.expect("cost per minute is set");
    assert_eq!(cost.total_min_millionths, 12_300_000);
    assert_eq!(cost.amount_millionths, 615_000);

    let report = build_report(1, summary(738_000_000), &Vec::new(), &Vec::new(), None, &Config::default());
    assert!(report.cost.is_none());
}

#[test]
fn empty_history_note_uses_plural() {
    let report = build_report(0, summary(0), &Vec::new(), &Vec::new(), None, &Config::default());
    assert_eq!(report.insufficient_history.as_deref(), Some("insufficient history (0 runs)"));
    assert_eq!(report.score, 100);
    assert_eq!(report.status, HealthStatus::Healthy);
}

#[test]
fn findings_need_two_runs_but_slow_does_not() {
    let results = vec![stored("a", 2_000_000, Status::Failed)];
    let window = vec![vec![stored("a", 1, Status::Passed)], vec![stored("a", 1, Status::Failed)]];
    let prev = vec![stored("a", 100_000, Status::Passed)];
    let config = Config::default();

    let short = build_report(1, summary(2_000_000), &results, &window, Some(&prev), &config);
    assert_eq!(short.slow.len(), 1);
    assert!(short.flaky.is_empty());
    assert!(short.regression.is_empty());

    let full = build_report(2, summary(2_000_000), &results, &window, Some(&prev), &config);
    assert_eq!(full.slow.len(), 1);
    assert_eq!(full.flaky.len(), 1);
    assert_eq!(full.regression.len(), 1);
    assert_eq!(full.score, 100 - 8 - 2 - 4);
    assert!(full.insufficient_history.is_none());
}

#[test]
fn skipped_results_change_no_flaky_finding() {
    let with_skips = vec![
        vec![stored("t", 1, Status::Passed), stored("u", 1, Status::Skipped)],
        vec![stored("t", 1, Status::Skipped), stored("u", 1, Status::Failed)],
        vec![stored("t", 1, Status::Failed), stored("u", 1, Status::Passed)],
    ];
    let without = vec![
        vec![stored("t", 1, Status::Passed)],
        vec![stored("u", 1, Status::Failed)],
        vec![stored("t", 1, Status::Failed), stored("u", 1, Status::Passed)],
    ];
    let a: Vec<(String, u32, u32)> =
        find_flaky(&with_skips).into_iter().map(|f| (f.id, f.failed_runs, f.window_runs)).collect();
    let b: Vec<(String, u32, u32)> =
        find_flaky(&without).into_iter().map(|f| (f.id, f.failed_runs, f.window_runs)).collect();
    assert_eq!(a, b);
    assert_eq!(a.len(), 2);
}

#[test]
fn stricter_regression_thresholds_find_a_subset() {
    let prev = vec![stored("a", 100_000, Status::Passed), stored("b", 1_000_000, Status::Passed)];
    let current = vec![stored("a", 300_000, Status::Passed), stored("b", 2_500_000, Status::Passed)];
    let loose = Thresholds { regression_factor_millionths: 2_000_000, regression_min_us: 100_000, ..Thresholds::default() };
    let strict = Thresholds { regression_factor_millionths: 2_500_000, regression_min_us: 1_000_000, ..Thresholds::default() };
    let l: Vec<String> = find_regressions(&prev, &current, &loose).into_iter().map(|f| f.id).collect();
    let s: Vec<String> = find_regressions(&prev, &current, &strict).into_iter().map(|f| f.id).collect();
    assert_eq!(l, vec!["Suite::a".to_string(), "Suite::b".to_string()]);
    assert_eq!(s, vec!["Suite::b".to_string()]);
}
