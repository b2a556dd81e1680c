//! Tests for reading and writing history rows, and for the stored figures.

use kare_core::db::{
    check_integrity, corrupt_path, format_utc, count_from_value, first_column, migration_needed, normalize_timestamp, now_utc_rfc3339, result_row,
    results_from_rows, run_row, run_totals, stored_from_row, summaries_from_rows,
    summary_from_row, DbError, History, RunMeta, SqlParam, SqlValue,
};
use kare_core::model::{Status, TestResult, TestRun};

fn result(suite: &str, name: &str, time_us: u64, status: Status) -> TestResult {
    TestResult {
        suite: suite.to_string(),
        name: name.to_string(),
        time_us,
        status,
    }
}

fn meta(run_at: &str) -> RunMeta {
    RunMeta {
        run_at: run_at.to_string(),
        ingested_at: "2026-07-01T00:00:00Z".to_string(),
        git_ref: Some("abc123".to_string()),
        ci_job_url: None,
    }
}

fn text(s: &str) -> SqlValue {
    SqlValue::Text(s.to_string())
}

#[test]
fn integrity_check_passes_only_on_ok() {
    assert!(check_integrity(text("ok")).is_ok());
    match check_integrity(text("*** in database main ***")) {
        Err(DbError::Corrupt(m)) => assert_eq!(m, "*** in database main ***"),
        other => panic!("unexpected {other:?}"),
    }
    match check_integrity(SqlValue::Integer(0)) {
        Err(DbError::Corrupt(m)) => assert_eq!(m, "unexpected column type"),
        other => panic!("unexpected {other:?}"),
    }
}

#[test]
fn schema_version_decides_migration() {
    assert!(matches!(migration_needed(SqlValue::Integer(0)), Ok(true)));
    assert!(matches!(migration_needed(SqlValue::Integer(1)), Ok(false)));
    match migration_needed(SqlValue::Integer(7)) {
        Err(DbError::Corrupt(m)) => assert_eq!(m, "unsupported schema version 7"),
        other => panic!("unexpected {other:?}"),
    }
    match migration_needed(SqlValue::Integer(-3)) {
        Err(DbError::Corrupt(m)) => assert_eq!(m, "unsupported schema version -3"),
        other => panic!("unexpected {other:?}"),
    }
    assert!(matches!(migration_needed(SqlValue::Null), Err(DbError::Corrupt(_))));
}

#[test]
fn summary_row_is_read_field_by_field() {
    let row = vec![
        SqlValue::Integer(3),
        text("2026-07-01T00:00:00Z"),
        SqlValue::Null,
        SqlValue::Integer(1_500_000),
        SqlValue::Integer(12),
        SqlValue::Integer(2),
    ];
    let s = summary_from_row(row).expect("well-formed row");
    assert_eq!(s.id, 3);
    assert_eq!(s.run_at, "2026-07-01T00:00:00Z");
    assert_eq!(s.git_ref, None);
    assert_eq!(s.total_time_us, 1_500_000);
    assert_eq!(s.total_tests, 12);
    assert_eq!(s.total_failures, 2);
}

#[test]
fn summary_row_with_negative_duration_is_corrupt() {
    let row = vec![
        SqlValue::Integer(3),
        text("2026-07-01T00:00:00Z"),
        text("main"),
        SqlValue::Integer(-1),
        SqlValue::Integer(12),
        SqlValue::Integer(2),
    ];
    match summary_from_row(row) {
        Err(DbError::Corrupt(m)) => assert_eq!(m, "unexpected column type"),
        other => panic!("unexpected {other:?}"),
    }
}

#[test]
fn stored_row_with_unknown_status_names_it() {
    let row = vec![text("Suite"), text("testA"), SqlValue::Integer(5), text("flaky")];
    match stored_from_row(row) {
        Err(DbError::Corrupt(m)) => assert_eq!(m, "invalid status \"flaky\""),
        other => panic!("unexpected {other:?}"),
    }
    let row = vec![text("Suite"), text("testA"), SqlValue::Integer(5), text("skipped")];
    let r = stored_from_row(row).expect("known status");
    assert_eq!(r.suite, "Suite");
    assert_eq!(r.name, "testA");
    assert_eq!(r.time_us, 5);
    assert_eq!(r.status, Status::Skipped);
}

#[test]
fn rows_are_read_in_order_and_the_first_bad_row_fails() {
    let good = |name: &str, t: i64| vec![text("S"), text(name), SqlValue::Integer(t), text("passed")];
    let read = results_from_rows(vec![good("a", 1), good("b", 2)]).expect("rows read");
    assert_eq!(read.len(), 2);
    assert_eq!(read[0].name, "a");
    assert_eq!(read[1].time_us, 2);

    let bad = vec![text("S"), text("c"), SqlValue::Other, text("passed")];
    assert!(matches!(
        results_from_rows(vec![good("a", 1), bad, good("b", 2)]),
        Err(DbError::Corrupt(_))
    ));

    let summary = |id: i64| {
        vec![
            SqlValue::Integer(id),
            text("2026-07-01T00:00:00Z"),
            SqlValue::Null,
            SqlValue::Integer(0),
            SqlValue::Integer(0),
            SqlValue::Integer(0),
        ]
    };
    let runs = summaries_from_rows(vec![summary(2), summary(1)]).expect("rows read");
    assert_eq!(runs.iter().map(|r| r.id).collect::<Vec<_>>(), vec![2, 1]);
    assert!(summaries_from_rows(Vec::new()).expect("no rows").is_empty());
}

#[test]
fn run_totals_count_failures_and_sum_durations() {
    let run = TestRun {
        results: vec![
            result("S", "a", 1_000, Status::Passed),
            result("S", "b", 2_000, Status::Failed),
            result("S", "c", 3_000, Status::Error),
            result("S", "d", 4_000, Status::Skipped),
        ],
        timestamp: None,
    };
    let t = run_totals(&run);
    assert_eq!(t.total_tests, 4);
    assert_eq!(t.total_failures, 2);
    assert_eq!(t.total_time_us, 10_000);
}

#[test]
fn run_totals_saturate_the_stored_duration() {
    let run = TestRun {
        results: vec![
            result("S", "a", u64::MAX, Status::Passed),
            result("S", "b", 7, Status::Passed),
        ],
        timestamp: None,
    };
    assert_eq!(run_totals(&run).total_time_us, i64::MAX);
}

#[test]
fn statement_parameters_carry_the_run_and_its_results() {
    let run = TestRun {
        results: vec![result("S", "a", 1_000, Status::Failed)],
        timestamp: None,
    };
    let totals = run_totals(&run);
    let params = run_row(&meta("2026-07-02T00:00:00Z"), &totals);
    assert_eq!(params.len(), 7);
    assert!(matches!(&params[0], SqlParam::Text(t) if t == "2026-07-02T00:00:00Z"));
    assert!(matches!(&params[2], SqlParam::Text(t) if t == "abc123"));
    assert!(matches!(&params[3], SqlParam::Null));
    assert!(matches!(&params[4], SqlParam::Integer(1_000)));
    assert!(matches!(&params[6], SqlParam::Integer(1)));

    let params = result_row(9, &result("S", "a", u64::MAX, Status::Error));
    assert!(matches!(&params[0], SqlParam::Integer(9)));
    assert!(matches!(&params[3], SqlParam::Integer(i64::MAX)));
    assert!(matches!(&params[4], SqlParam::Text(t) if t == "error"));
}

#[test]
fn stored_results_read_back_what_was_written() {
    let mut history = History::open_in_memory().expect("open in-memory db");
    let run = TestRun {
        results: vec![
            result("App\\Tests\\CalculatorTest", "testAdd", 1_234, Status::Passed),
            result("App\\Tests\\CalculatorTest", "testSub", 198_766, Status::Failed),
        ],
        timestamp: None,
    };
    let id = history
        .insert_run(&run, &meta("2026-07-01T00:00:00Z"))
        .expect("insert");
    let mut stored = history.results_of_run(id).expect("results");
    stored.sort_by(|a, b| a.name.cmp(&b.name));
    assert_eq!(stored.len(), 2);
    assert_eq!(stored[0].name, "testAdd");
    assert_eq!(stored[0].time_us, 1_234);
    assert_eq!(stored[0].status, Status::Passed);
    assert_eq!(stored[1].time_us, 198_766);
    assert_eq!(stored[1].status, Status::Failed);

    let runs = history.recent_runs(10).expect("recent runs");
    assert_eq!(runs[0].git_ref.as_deref(), Some("abc123"));
    assert_eq!(runs[0].total_time_us, 200_000);
    assert_eq!(runs[0].total_failures, 1);
}

#[test]
fn overlapping_shards_in_one_run_are_upserted() {
    let mut history = History::open_in_memory().expect("open in-memory db");
    let run = TestRun {
        results: vec![
            result("S", "a", 1_000, Status::Failed),
            result("S", "a", 2_000, Status::Passed),
        ],
        timestamp: None,
    };
    let id = history
        .insert_run(&run, &meta("2026-07-01T00:00:00Z"))
        .expect("overlapping results never fail");
    let stored = history.results_of_run(id).expect("results");
    assert_eq!(stored.len(), 1);
    assert_eq!(stored[0].time_us, 2_000);
    assert_eq!(stored[0].status, Status::Passed);
    assert!(history.results_of_run(id + 1).expect("no such run").is_empty());
}

#[test]
fn recent_runs_respects_the_limit() {
    let mut history = History::open_in_memory().expect("open in-memory db");
    let run = TestRun::default();
    for day in ["01", "03", "02"] {
        history
            .insert_run(&run, &meta(&format!("2026-07-{day}T00:00:00Z")))
            .expect("insert");
    }
    assert_eq!(history.run_count().expect("count"), 3);
    let runs = history.recent_runs(2).expect("recent runs");
    assert_eq!(runs.len(), 2);
    assert_eq!(runs[0].run_at, "2026-07-03T00:00:00Z");
    assert_eq!(runs[1].run_at, "2026-07-02T00:00:00Z");
}

#[test]
fn corrupt_path_appends_suffix() {
    assert_eq!(corrupt_path(".kare/history.db"), ".kare/history.db.corrupt");
    assert_eq!(corrupt_path(""), ".corrupt");
}

#[test]
fn timestamps_are_normalized_to_utc() {
    assert_eq!(
        normalize_timestamp("2026-07-01T09:00:00-02:30").expect("rfc3339"),
        "2026-07-01T11:30:00Z"
    );
    assert_eq!(
        normalize_timestamp("2026-12-31T23:59:59").expect("naive"),
        "2026-12-31T23:59:59Z"
    );
    match normalize_timestamp("2026-07-01 09:00") {
        Err(DbError::InvalidTimestamp(s)) => assert_eq!(s, "2026-07-01 09:00"),
        other => panic!("unexpected {other:?}"),
    }
}

#[test]
fn current_time_is_written_in_utc() {
    let now = now_utc_rfc3339().expect("the current time formats");
    assert!(now.ends_with('Z'));
    assert_eq!(normalize_timestamp(&now).expect("reads back"), now);
}

#[test]
fn count_and_first_column_are_read_from_the_answer() {
    assert!(matches!(count_from_value(SqlValue::Integer(4)), Ok(4)));
    match count_from_value(text("4")) {
        Err(DbError::Corrupt(m)) => assert_eq!(m, "unexpected column type"),
        other => panic!("unexpected {other:?}"),
    }
    assert!(matches!(
        first_column(vec![vec![SqlValue::Integer(7), SqlValue::Null], vec![SqlValue::Integer(8)]]),
        Ok(SqlValue::Integer(7))
    ));
    assert!(matches!(first_column(Vec::new()), Err(DbError::Corrupt(_))));
    assert!(matches!(first_column(vec![Vec::new()]), Err(DbError::Corrupt(_))));
}

#[test]
fn instants_are_written_in_utc() {
    assert_eq!(format_utc(0).expect("epoch"), "1970-01-01T00:00:00Z");
    assert_eq!(
        format_utc(1_546_300_800_500_000_000).expect("2019"),
        "2019-01-01T00:00:00.5Z"
    );
    assert!(matches!(format_utc(i128::MAX), Err(DbError::InvalidTimestamp(_))));
}

#[test]
fn recent_runs_order_by_instant_with_fractions() {
    let mut history = History::open_in_memory().expect("open in-memory db");
    let run = TestRun::default();
    for at in ["2026-07-01T00:00:00.5Z", "2026-07-01T00:00:00Z", "2026-07-01T00:00:01Z"] {
        history.insert_run(&run, &meta(at)).expect("insert");
    }
    let runs = history.recent_runs(10).expect("recent runs");
    let order: Vec<&str> = runs.iter().map(|r| r.run_at.as_str()).collect();
    assert_eq!(
        order,
        vec!["2026-07-01T00:00:01Z", "2026-07-01T00:00:00.5Z", "2026-07-01T00:00:00Z"]
    );
}
