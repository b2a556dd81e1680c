//! SQLite-backed history storage.
//!
//! Schema is versioned via `PRAGMA user_version` so future migrations can
//! detect and upgrade older databases in place. Durations are stored in
//! seconds (`REAL` columns) and read back rounded to whole microseconds.

use vstd::prelude::*;

use time::format_description::well_known::Rfc3339;
use time::{OffsetDateTime, PrimitiveDateTime, UtcOffset};

use crate::text::str_eq;

use crate::model::{is_failure, status_from_text, times_sum, Status, TestResultView, TestRun, TestRunView};
use crate::text::{int_text, push_int};

verus! {

#[verifier::external_type_specification]
#[verifier::external_body]
pub struct ExSqliteError(rusqlite::Error);

#[verifier::external_type_specification]
#[verifier::external_body]
pub struct ExIoError(std::io::Error);

/// Why a history operation failed.
#[derive(Debug)]
pub enum DbError {
    Sqlite(rusqlite::Error),
    Io(std::io::Error),
    Corrupt(String),
    InvalidTimestamp(String),
}

pub ghost enum DbErrorView {
    Sqlite,
    Io,
    Corrupt(Seq<char>),
    InvalidTimestamp(Seq<char>),
}

impl View for DbError {
    type V = DbErrorView;

    open spec fn view(&self) -> DbErrorView {
        match self {
            DbError::Sqlite(_) => DbErrorView::Sqlite,
            DbError::Io(_) => DbErrorView::Io,
            DbError::Corrupt(m) => DbErrorView::Corrupt(m@),
            DbError::InvalidTimestamp(m) => DbErrorView::InvalidTimestamp(m@),
        }
    }
}

/// Run-level metadata supplied by the caller at ingest time.
pub struct RunMeta {
    pub run_at: String,
    pub ingested_at: String,
    pub git_ref: Option<String>,
    pub ci_job_url: Option<String>,
}

/// Summary row for listing recent runs.
#[derive(Debug, Clone)]
pub struct RunSummary {
    pub id: i64,
    pub run_at: String,
    pub git_ref: Option<String>,
    pub total_time_us: u64,
    pub total_tests: i64,
    pub total_failures: i64,
}

pub ghost struct RunSummaryView {
    pub id: i64,
    pub run_at: Seq<char>,
    pub git_ref: Option<Seq<char>>,
    pub total_time_us: u64,
    pub total_tests: i64,
    pub total_failures: i64,
}

impl View for RunSummary {
    type V = RunSummaryView;

    open spec fn view(&self) -> RunSummaryView {
        RunSummaryView {
            id: self.id,
            run_at: self.run_at@,
            git_ref: match self.git_ref {
                Some(g) => Some(g@),
                None => None,
            },
            total_time_us: self.total_time_us,
            total_tests: self.total_tests,
            total_failures: self.total_failures,
        }
    }
}

impl RunSummary {
    /// A field-by-field copy.
    pub fn duplicate(&self) -> (r: RunSummary)
        ensures
            r@ == self@,
    {
        RunSummary {
            id: self.id,
            run_at: self.run_at.clone(),
            git_ref: match &self.git_ref {
                Some(g) => Some(g.clone()),
                None => None,
            },
            total_time_us: self.total_time_us,
            total_tests: self.total_tests,
            total_failures: self.total_failures,
        }
    }
}

/// A single stored test result row, as read back from `test_results`.
#[derive(Debug, Clone)]
pub struct StoredResult {
    pub suite: String,
    pub name: String,
    pub time_us: u64,
    pub status: Status,
}

impl View for StoredResult {
    type V = TestResultView;

    open spec fn view(&self) -> TestResultView {
        TestResultView {
            suite: self.suite@,
            name: self.name@,
            time_us: self.time_us,
            status: self.status,
        }
    }
}

pub open spec fn stored_view(v: Seq<StoredResult>) -> Seq<TestResultView> {
    v.map_values(|r: StoredResult| r@)
}

/// Result of opening a history database, surfacing whether it had to be
/// recreated.
pub struct Opened {
    pub history: History,
    pub recovered: bool,
}

/// Connection wrapper for the history database, with a record of the
/// statements (other than queries) sent on it since it was prepared.
pub struct History {
    conn: rusqlite::Connection,
    db: Ghost<int>,
    sent: Ghost<Seq<SqlStatement>>,
}

impl History {
    /// The statements other than queries sent on this connection since it
    /// was prepared, in the order they were sent.
    pub closed spec fn sent(&self) -> Seq<SqlStatement> {
        self.sent@
    }

    /// The identity of the database this history is connected to: answers
    /// are recorded under it. Nothing states its value, so no two histories
    /// are known to share it.
    pub closed spec fn db(&self) -> int {
        self.db@
    }
}

#[verifier::external_type_specification]
#[verifier::external_body]
pub struct ExConnection(rusqlite::Connection);

#[verifier::external_type_specification]
#[verifier::external_body]
pub struct ExSqlValue(rusqlite::types::Value);

// ---------------------------------------------------------------------------
// SQLite, through rusqlite.

/// A column value read back from SQLite, as far as this library reads it.
pub enum SqlValue {
    Null,
    Integer(i64),
    Text(String),
    /// A real number or a blob.
    Other,
}

pub ghost enum SqlValueView {
    Null,
    Integer(i64),
    Text(Seq<char>),
    Other,
}

impl View for SqlValue {
    type V = SqlValueView;

    open spec fn view(&self) -> SqlValueView {
        match self {
            SqlValue::Null => SqlValueView::Null,
            SqlValue::Integer(i) => SqlValueView::Integer(*i),
            SqlValue::Text(t) => SqlValueView::Text(t@),
            SqlValue::Other => SqlValueView::Other,
        }
    }
}

/// Opens a fresh in-memory database (`Connection::open_in_memory`).
#[verifier::external_body]
fn sqlite_open_in_memory() -> (r: Result<rusqlite::Connection, rusqlite::Error>) {
    rusqlite::Connection::open_in_memory()
}

/// A value bound to a statement parameter.
pub enum SqlParam {
    Null,
    Integer(i64),
    Text(String),
}

pub ghost enum SqlParamView {
    Null,
    Integer(i64),
    Text(Seq<char>),
}

impl View for SqlParam {
    type V = SqlParamView;

    open spec fn view(&self) -> SqlParamView {
        match self {
            SqlParam::Null => SqlParamView::Null,
            SqlParam::Integer(i) => SqlParamView::Integer(*i),
            SqlParam::Text(t) => SqlParamView::Text(t@),
        }
    }
}

pub open spec fn params_view(p: Seq<SqlParam>) -> Seq<SqlParamView> {
    p.map_values(|v: SqlParam| v@)
}

/// Turns a parameter into the rusqlite `Value` of the same variant
/// (`Value::Null`, `Value::Integer`, `Value::Text`).
#[verifier::external_body]
fn sql_param_value(p: SqlParam) -> (r: rusqlite::types::Value) {
    match p {
        SqlParam::Null => rusqlite::types::Value::Null,
        SqlParam::Integer(i) => rusqlite::types::Value::Integer(i),
        SqlParam::Text(t) => rusqlite::types::Value::Text(t),
    }
}

/// Tells the variants of a rusqlite `Value` apart.
#[verifier::external_body]
fn sql_classify(v: rusqlite::types::Value) -> (r: SqlValue) {
    match v {
        rusqlite::types::Value::Null => SqlValue::Null,
        rusqlite::types::Value::Integer(i) => SqlValue::Integer(i),
        rusqlite::types::Value::Text(t) => SqlValue::Text(t),
        rusqlite::types::Value::Real(_) => SqlValue::Other,
        rusqlite::types::Value::Blob(_) => SqlValue::Other,
    }
}

/// A statement sent to the database: its SQL text and its parameters.
pub ghost struct SqlStatement {
    pub sql: Seq<char>,
    pub params: Seq<SqlParamView>,
}

pub open spec fn statement(sql: Seq<char>, params: Seq<SqlParamView>) -> SqlStatement {
    SqlStatement { sql, params }
}

/// That the database `db` answered the query `sql`, with parameters
/// `params`, by the rows `rows`. It records an answer that was given; it is
/// no function of the query, which may be answered otherwise at another time.
pub uninterp spec fn answered(db: int, sql: Seq<char>, params: Seq<SqlParamView>, rows: Seq<Seq<SqlValueView>>) -> bool;

/// That the database `db`, after the statements `sent` were sent on it,
/// answered the rowid of its last insert by `id`. It records an answer that
/// was given.
pub uninterp spec fn rowid_answered(db: int, sent: Seq<SqlStatement>, id: i64) -> bool;

/// Takes an opened connection as a history that has sent nothing yet. The
/// identity its answers are recorded under is that connection's; nothing
/// states its value.
#[verifier::external_body]
fn adopt_connection(conn: rusqlite::Connection) -> (h: History)
    ensures
        h.sent() == Seq::<SqlStatement>::empty(),
{
    History { conn, db: Ghost(0int), sent: Ghost(Seq::empty()) }
}

/// Runs SQL statements that return no rows (`Connection::execute_batch`);
/// the text is recorded as sent, whatever the outcome.
#[verifier::external_body]
fn sqlite_execute_batch(h: &mut History, sql: &str) -> (r: Result<(), rusqlite::Error>)
    ensures
        final(h).sent() == old(h).sent().push(statement(sql@, Seq::empty())),
        final(h).db() == old(h).db(),
{
    h.conn.execute_batch(sql)
}

/// Runs one SQL statement with positional parameters (`Connection::execute`,
/// each parameter as the rusqlite `Value` of the same variant); the statement
/// is recorded as sent, whatever the outcome.
#[verifier::external_body]
fn sqlite_execute(h: &mut History, sql: &str, params: Vec<SqlParam>) -> (r: Result<usize, rusqlite::Error>)
    ensures
        final(h).sent() == old(h).sent().push(statement(sql@, params_view(params@))),
        final(h).db() == old(h).db(),
{
    let values: Vec<rusqlite::types::Value> = params.into_iter().map(sql_param_value).collect();
    h.conn.execute(sql, rusqlite::params_from_iter(values))
}

/// The rowid of the last successful insert on this connection
/// (`Connection::last_insert_rowid`).
#[verifier::external_body]
fn sqlite_last_insert_rowid(h: &History) -> (r: i64)
    ensures
        rowid_answered(h.db(), h.sent(), r),
{
    h.conn.last_insert_rowid()
}

/// Runs a query (`Connection::prepare`, `Statement::query`, each parameter
/// as the rusqlite `Value` of the same variant) and reads the first `columns`
/// columns of every row (`Rows::next`, `Row::get`); the rows it hands back
/// are the database's answer to that query, and each holds `columns` values.
#[verifier::external_body]
fn sqlite_query(h: &History, sql: &str, params: Vec<SqlParam>, columns: usize)
    -> (r: Result<Vec<Vec<SqlValue>>, rusqlite::Error>)
    ensures
        r matches Ok(rows) ==> answered(h.db(), sql@, params_view(params@), rows_view(rows@)),
        r matches Ok(rows) ==> forall|i: int| 0 <= i < rows@.len() ==> (#[trigger] rows@[i])@.len() == columns,
{
    let values: Vec<rusqlite::types::Value> = params.into_iter().map(sql_param_value).collect();
    let mut stmt = h.conn.prepare(sql)?;
    let mut rows = stmt.query(rusqlite::params_from_iter(values))?;
    let mut out = Vec::new();
    while let Some(row) = rows.next()? {
        let mut values = Vec::new();
        for i in 0..columns {
            values.push(sql_classify(row.get::<usize, rusqlite::types::Value>(i)?));
        }
        out.push(values);
    }
    Ok(out)
}

/// The text of `s` as std's `Debug` writes it: quoted, with escapes.
pub uninterp spec fn debug_text(s: Seq<char>) -> Seq<char>;

/// Quotes a string as std's `Debug` for `str` does (`format!("{:?}", s)`).
#[verifier::external_body]
fn debug_quoted(s: &str) -> (r: String)
    ensures
        r@ == debug_text(s@),
{
    format!("{:?}", s)
}

fn sqlite_err(e: rusqlite::Error) -> (r: DbError)
    ensures
        r == DbError::Sqlite(e),
        r@ == DbErrorView::Sqlite,
{
    DbError::Sqlite(e)
}

pub const SCHEMA_V1: &'static str = "
CREATE TABLE runs (
  id INTEGER PRIMARY KEY,
  run_at TEXT NOT NULL,
  ingested_at TEXT NOT NULL,
  git_ref TEXT,
  ci_job_url TEXT,
  total_time_sec REAL NOT NULL,
  total_tests INTEGER NOT NULL,
  total_failures INTEGER NOT NULL
);
CREATE TABLE test_results (
  run_id INTEGER NOT NULL REFERENCES runs(id) ON DELETE CASCADE,
  suite TEXT NOT NULL,
  name TEXT NOT NULL,
  time_sec REAL NOT NULL,
  status TEXT NOT NULL,
  PRIMARY KEY (run_id, suite, name)
);
CREATE INDEX idx_test_results_test ON test_results(suite, name);
";

// ---------------------------------------------------------------------------
// Reading rows and checking the database.

pub open spec fn unexpected_column() -> Seq<char> {
    "unexpected column type"@
}

/// What the integrity check's answer means: `ok` passes, any other text is
/// the reason the database is corrupt.
pub open spec fn integrity_spec(v: SqlValueView) -> Result<(), DbErrorView> {
    match v {
        SqlValueView::Text(t) => if t == "ok"@ { Ok(()) } else { Err(DbErrorView::Corrupt(t)) },
        _ => Err(DbErrorView::Corrupt(unexpected_column())),
    }
}

pub open spec fn unit_result_view(r: Result<(), DbError>) -> Result<(), DbErrorView> {
    match r {
        Ok(()) => Ok(()),
        Err(e) => Err(e@),
    }
}

/// Checks the answer of `PRAGMA quick_check` (see [`integrity_spec`]).
pub fn check_integrity(v: SqlValue) -> (r: Result<(), DbError>)
    ensures
        unit_result_view(r) == integrity_spec(v@),
{
    match v {
        SqlValue::Text(t) => {
            if crate::text::str_eq(t.as_str(), "ok") {
                Ok(())
            } else {
                Err(DbError::Corrupt(t))
            }
        },
        _ => Err(DbError::Corrupt(String::from_str("unexpected column type"))),
    }
}

/// What a schema version asks for: version 0 is a fresh database, which gets
/// the schema (`Ok(true)`); version 1 is current (`Ok(false)`); any other
/// version is not supported.
pub open spec fn migration_spec(v: SqlValueView) -> Result<bool, DbErrorView> {
    match v {
        SqlValueView::Integer(n) => if n == 0 {
            Ok(true)
        } else if n == 1 {
            Ok(false)
        } else {
            Err(DbErrorView::Corrupt("unsupported schema version "@ + int_text(n as int)))
        },
        _ => Err(DbErrorView::Corrupt(unexpected_column())),
    }
}

pub open spec fn bool_result_view(r: Result<bool, DbError>) -> Result<bool, DbErrorView> {
    match r {
        Ok(b) => Ok(b),
        Err(e) => Err(e@),
    }
}

/// Decides what to do with a database of schema version `v` (see
/// [`migration_spec`]).
pub fn migration_needed(v: SqlValue) -> (r: Result<bool, DbError>)
    ensures
        bool_result_view(r) == migration_spec(v@),
{
    match v {
        SqlValue::Integer(n) => {
            if n == 0 {
                Ok(true)
            } else if n == 1 {
                Ok(false)
            } else {
                let mut m = String::from_str("unsupported schema version ");
                push_int(&mut m, n);
                Err(DbError::Corrupt(m))
            }
        },
        _ => Err(DbError::Corrupt(String::from_str("unexpected column type"))),
    }
}

pub open spec fn row_view(row: Seq<SqlValue>) -> Seq<SqlValueView> {
    row.map_values(|v: SqlValue| v@)
}

/// A stored duration in microseconds: negative values are not durations.
pub open spec fn duration_spec(v: SqlValueView) -> Option<u64> {
    match v {
        SqlValueView::Integer(n) => if n >= 0 { Some(n as u64) } else { None },
        _ => None,
    }
}

/// The run summary that a row of the recent-runs query stands for: id,
/// `run_at`, `git_ref` (text or null), total time in microseconds, number of
/// tests and number of failures.
pub open spec fn summary_spec(row: Seq<SqlValueView>) -> Option<RunSummaryView> {
    if row.len() == 6 {
        match (row[0], row[1], row[2], duration_spec(row[3]), row[4], row[5]) {
            (SqlValueView::Integer(id), SqlValueView::Text(run_at), g, Some(t), SqlValueView::Integer(n), SqlValueView::Integer(f)) => {
                match g {
                    SqlValueView::Text(gr) => Some(RunSummaryView { id, run_at, git_ref: Some(gr), total_time_us: t, total_tests: n, total_failures: f }),
                    SqlValueView::Null => Some(RunSummaryView { id, run_at, git_ref: None, total_time_us: t, total_tests: n, total_failures: f }),
                    _ => None,
                }
            },
            _ => None,
        }
    } else {
        None
    }
}

fn take_value(row: &mut Vec<SqlValue>) -> (r: SqlValue)
    requires
        old(row)@.len() > 0,
    ensures
        r == old(row)@[0],
        final(row)@ == old(row)@.drop_first(),
{
    row.remove(0)
}

fn duration_of(v: SqlValue) -> (r: Option<u64>)
    ensures
        r == duration_spec(v@),
{
    match v {
        SqlValue::Integer(n) => if n >= 0 { Some(n as u64) } else { None },
        _ => None,
    }
}

/// Reads a row of the recent-runs query (see [`summary_spec`]); a row of
/// another shape is corrupt.
pub fn summary_from_row(row: Vec<SqlValue>) -> (r: Result<RunSummary, DbError>)
    ensures
        match r {
            Ok(s) => summary_spec(row_view(row@)) == Some(s@),
            Err(e) => summary_spec(row_view(row@)) is None && e@ == DbErrorView::Corrupt(unexpected_column()),
        },
{
    let ghost rv = row_view(row@);
    if row.len() != 6 {
        return Err(DbError::Corrupt(String::from_str("unexpected column type")));
    }
    let mut row = row;
    let ghost r0 = row@;
    let a = take_value(&mut row);
    let b = take_value(&mut row);
    let c = take_value(&mut row);
    let d = take_value(&mut row);
    let e = take_value(&mut row);
    let f = take_value(&mut row);
    assert(a@ == rv[0] && b@ == rv[1] && c@ == rv[2] && d@ == rv[3] && e@ == rv[4] && f@ == rv[5]);
    let t = duration_of(d);
    match (a, b, c, t, e, f) {
        (SqlValue::Integer(id), SqlValue::Text(run_at), g, Some(t), SqlValue::Integer(n), SqlValue::Integer(fl)) => {
            let git_ref = match g {
                SqlValue::Text(gr) => Some(gr),
                SqlValue::Null => None,
                _ => return Err(DbError::Corrupt(String::from_str("unexpected column type"))),
            };
            Ok(RunSummary { id, run_at, git_ref, total_time_us: t, total_tests: n, total_failures: fl })
        },
        _ => Err(DbError::Corrupt(String::from_str("unexpected column type"))),
    }
}

/// The stored result that a row of the results query stands for: suite,
/// name, duration in microseconds and status text; an unknown status is
/// corrupt with a message naming it.
pub open spec fn stored_spec(row: Seq<SqlValueView>) -> Result<TestResultView, DbErrorView> {
    if row.len() == 4 {
        match (row[0], row[1], duration_spec(row[2]), row[3]) {
            (SqlValueView::Text(suite), SqlValueView::Text(name), Some(t), SqlValueView::Text(st)) => {
                match status_from_text(st) {
                    Some(status) => Ok(TestResultView { suite, name, time_us: t, status }),
                    None => Err(DbErrorView::Corrupt("invalid status "@ + debug_text(st))),
                }
            },
            _ => Err(DbErrorView::Corrupt(unexpected_column())),
        }
    } else {
        Err(DbErrorView::Corrupt(unexpected_column()))
    }
}

/// Reads a row of the results query (see [`stored_spec`]).
pub fn stored_from_row(row: Vec<SqlValue>) -> (r: Result<StoredResult, DbError>)
    ensures
        match r {
            Ok(s) => stored_spec(row_view(row@)) == Ok::<TestResultView, DbErrorView>(s@),
            Err(e) => stored_spec(row_view(row@)) == Err::<TestResultView, DbErrorView>(e@),
        },
{
    let ghost rv = row_view(row@);
    if row.len() != 4 {
        return Err(DbError::Corrupt(String::from_str("unexpected column type")));
    }
    let mut row = row;
    let a = take_value(&mut row);
    let b = take_value(&mut row);
    let c = take_value(&mut row);
    let d = take_value(&mut row);
    assert(a@ == rv[0] && b@ == rv[1] && c@ == rv[2] && d@ == rv[3]);
    let t = duration_of(c);
    match (a, b, t, d) {
        (SqlValue::Text(suite), SqlValue::Text(name), Some(t), SqlValue::Text(st)) => {
            match Status::parse(st.as_str()) {
                Some(status) => Ok(StoredResult { suite, name, time_us: t, status }),
                None => {
                    let mut m = String::from_str("invalid status ");
                    let q = debug_quoted(st.as_str());
                    m.append(q.as_str());
                    Err(DbError::Corrupt(m))
                },
            }
        },
        _ => Err(DbError::Corrupt(String::from_str("unexpected column type"))),
    }
}

// ---------------------------------------------------------------------------
// Run totals.

/// Number of failed or errored results.
pub open spec fn failures_count(results: Seq<TestResultView>) -> nat
    decreases results.len(),
{
    if results.len() == 0 {
        0
    } else {
        failures_count(results.drop_last()) + if is_failure(results.last().status) { 1nat } else { 0nat }
    }
}

/// A count or duration as stored: saturated at `i64::MAX`.
pub open spec fn clip_i64(n: nat) -> i64 {
    if n <= i64::MAX { n as i64 } else { i64::MAX }
}

/// The run-level figures stored with a run.
#[derive(Debug, Clone, Copy)]
pub struct RunTotals {
    pub total_tests: i64,
    pub total_failures: i64,
    /// Sum of the results' durations, in microseconds.
    pub total_time_us: i64,
}

/// The figures stored for `run`: its number of results, of failed or errored
/// results, and the sum of their durations.
pub open spec fn totals_spec(run: TestRunView) -> RunTotals {
    RunTotals {
        total_tests: clip_i64(run.results.len()),
        total_failures: clip_i64(failures_count(run.results)),
        total_time_us: clip_i64(times_sum(run.results)),
    }
}

/// Computes the run-level figures of `run` (see [`totals_spec`]).
pub fn run_totals(run: &TestRun) -> (r: RunTotals)
    ensures
        r == totals_spec(run@),
{
    let ghost rs = run@.results;
    let mut failures: u64 = 0;
    let mut time: u64 = 0;
    let mut i: usize = 0;
    assert(rs.take(0) =~= Seq::<TestResultView>::empty());
    while i < run.results.len()
        invariant
            i <= run.results.len(),
            rs == run@.results,
            failures as nat == failures_count(rs.take(i as int)),
            failures <= i,
            time as nat == if times_sum(rs.take(i as int)) <= i64::MAX { times_sum(rs.take(i as int)) } else { i64::MAX as nat },
        decreases run.results.len() - i,
    {
        let r = &run.results[i];
        assert(rs.take(i + 1).drop_last() =~= rs.take(i as int));
        assert(rs.take(i + 1).last() == r@);
        if r.status == Status::Failed || r.status == Status::Error {
            failures = failures + 1;
        }
        let t = if r.time_us <= i64::MAX as u64 { r.time_us } else { i64::MAX as u64 };
        time = if time + t <= i64::MAX as u64 { time + t } else { i64::MAX as u64 };
        i = i + 1;
    }
    assert(rs.take(i as int) =~= rs);
    let n = run.results.len();
    RunTotals {
        total_tests: if n as u64 <= i64::MAX as u64 { n as i64 } else { i64::MAX },
        total_failures: if failures <= i64::MAX as u64 { failures as i64 } else { i64::MAX },
        total_time_us: time as i64,
    }
}

/// A duration as stored: saturated at `i64::MAX` microseconds.
fn stored_us(t: u64) -> (r: i64)
    ensures
        r == clip_i64(t as nat),
{
    if t <= i64::MAX as u64 { t as i64 } else { i64::MAX }
}

pub open spec fn opt_param(s: Option<Seq<char>>) -> SqlParamView {
    match s {
        Some(v) => SqlParamView::Text(v),
        None => SqlParamView::Null,
    }
}

fn opt_text(s: &Option<String>) -> (r: SqlParam)
    ensures
        r@ == opt_param(crate::model::opt_string_view(*s)),
{
    match s {
        Some(v) => SqlParam::Text(v.clone()),
        None => SqlParam::Null,
    }
}

/// The parameters of the statement that stores a run: `run_at`,
/// `ingested_at`, `git_ref` and `ci_job_url` (text or null), then the total
/// time in microseconds, the number of tests and the number of failures.
pub open spec fn run_row_spec(
    run_at: Seq<char>,
    ingested_at: Seq<char>,
    git_ref: Option<Seq<char>>,
    ci_job_url: Option<Seq<char>>,
    totals: RunTotals,
) -> Seq<SqlParamView> {
    seq![
        SqlParamView::Text(run_at),
        SqlParamView::Text(ingested_at),
        opt_param(git_ref),
        opt_param(ci_job_url),
        SqlParamView::Integer(totals.total_time_us),
        SqlParamView::Integer(totals.total_tests),
        SqlParamView::Integer(totals.total_failures),
    ]
}

/// Builds the parameters that store a run (see [`run_row_spec`]).
pub fn run_row(meta: &RunMeta, totals: &RunTotals) -> (r: Vec<SqlParam>)
    ensures
        params_view(r@) == run_row_spec(
            meta.run_at@,
            meta.ingested_at@,
            crate::model::opt_string_view(meta.git_ref),
            crate::model::opt_string_view(meta.ci_job_url),
            *totals,
        ),
{
    let r = vec![
        SqlParam::Text(meta.run_at.clone()),
        SqlParam::Text(meta.ingested_at.clone()),
        opt_text(&meta.git_ref),
        opt_text(&meta.ci_job_url),
        SqlParam::Integer(totals.total_time_us),
        SqlParam::Integer(totals.total_tests),
        SqlParam::Integer(totals.total_failures),
    ];
    assert(params_view(r@) =~= run_row_spec(
        meta.run_at@,
        meta.ingested_at@,
        crate::model::opt_string_view(meta.git_ref),
        crate::model::opt_string_view(meta.ci_job_url),
        *totals,
    ));
    r
}

/// The parameters of the statement that stores one result of run `run_id`:
/// the run, suite, name, duration in microseconds (saturated at `i64::MAX`)
/// and status text.
pub open spec fn result_row_spec(run_id: i64, r: TestResultView) -> Seq<SqlParamView> {
    seq![
        SqlParamView::Integer(run_id),
        SqlParamView::Text(r.suite),
        SqlParamView::Text(r.name),
        SqlParamView::Integer(clip_i64(r.time_us as nat)),
        SqlParamView::Text(crate::model::status_text(r.status)),
    ]
}

/// Builds the parameters that store one result (see [`result_row_spec`]).
pub fn result_row(run_id: i64, result: &crate::model::TestResult) -> (r: Vec<SqlParam>)
    ensures
        params_view(r@) == result_row_spec(run_id, result@),
{
    let r = vec![
        SqlParam::Integer(run_id),
        SqlParam::Text(result.suite.clone()),
        SqlParam::Text(result.name.clone()),
        SqlParam::Integer(stored_us(result.time_us)),
        SqlParam::Text(String::from_str(result.status.as_str())),
    ];
    assert(params_view(r@) =~= result_row_spec(run_id, result@));
    r
}

/// The value that a column stored from parameter `p` holds when it is read
/// back unchanged. (Durations are stored in seconds and selected again in
/// microseconds; that they come back unchanged rests on the database engine's
/// arithmetic, which nothing here states.)
pub open spec fn stored_value(p: SqlParamView) -> SqlValueView {
    match p {
        SqlParamView::Null => SqlValueView::Null,
        SqlParamView::Integer(i) => SqlValueView::Integer(i),
        SqlParamView::Text(t) => SqlValueView::Text(t),
    }
}

/// What is written for a result reads back as that result: the columns that
/// the results query selects (suite, name, duration, status), holding what
/// [`result_row_spec`] wrote, decode to the result itself, for any duration
/// up to `i64::MAX` microseconds.
pub proof fn stored_result_reads_back(run_id: i64, r: TestResultView)
    requires
        r.time_us <= i64::MAX,
    ensures
        ({
            let p = result_row_spec(run_id, r);
            stored_spec(seq![stored_value(p[1]), stored_value(p[2]), stored_value(p[3]), stored_value(p[4])])
                == Ok::<TestResultView, DbErrorView>(r)
        }),
{
    crate::model::status_text_round_trip(r.status);
}

/// What is written for a run reads back as its summary: the columns that
/// the recent-runs query selects (the row id, then `run_at`, `git_ref`, total
/// time, number of tests and of failures), holding what [`run_row_spec`]
/// wrote, decode to a summary of those figures.
pub proof fn stored_run_reads_back(
    id: i64,
    run_at: Seq<char>,
    ingested_at: Seq<char>,
    git_ref: Option<Seq<char>>,
    ci_job_url: Option<Seq<char>>,
    run: TestRunView,
)
    ensures
        ({
            let totals = totals_spec(run);
            let p = run_row_spec(run_at, ingested_at, git_ref, ci_job_url, totals);
            summary_spec(seq![
                SqlValueView::Integer(id),
                stored_value(p[0]),
                stored_value(p[2]),
                stored_value(p[4]),
                stored_value(p[5]),
                stored_value(p[6]),
            ]) == Some(RunSummaryView {
                id,
                run_at,
                git_ref,
                total_time_us: totals.total_time_us as u64,
                total_tests: totals.total_tests,
                total_failures: totals.total_failures,
            })
        }),
{
}

/// The run summaries that the rows of the recent-runs query stand for, in
/// row order; the first row of another shape makes the answer corrupt.
pub open spec fn summaries_spec(rows: Seq<Seq<SqlValueView>>) -> Result<Seq<RunSummaryView>, DbErrorView>
    decreases rows.len(),
{
    if rows.len() == 0 {
        Ok(Seq::empty())
    } else {
        match summary_spec(rows[0]) {
            None => Err(DbErrorView::Corrupt(unexpected_column())),
            Some(first) => match summaries_spec(rows.drop_first()) {
                Ok(rest) => Ok(seq![first] + rest),
                Err(e) => Err(e),
            },
        }
    }
}

pub open spec fn rows_view(rows: Seq<Vec<SqlValue>>) -> Seq<Seq<SqlValueView>> {
    rows.map_values(|row: Vec<SqlValue>| row_view(row@))
}

pub open spec fn summaries_view(r: Result<Vec<RunSummary>, DbError>) -> Result<Seq<RunSummaryView>, DbErrorView> {
    match r {
        Ok(v) => Ok(v@.map_values(|s: RunSummary| s@)),
        Err(e) => Err(e@),
    }
}

/// Reads the rows of the recent-runs query (see [`summaries_spec`]).
pub fn summaries_from_rows(rows: Vec<Vec<SqlValue>>) -> (r: Result<Vec<RunSummary>, DbError>)
    ensures
        summaries_view(r) == summaries_spec(rows_view(rows@)),
{
    let ghost all = rows_view(rows@);
    let mut pending = rows;
    let mut out: Vec<RunSummary> = Vec::new();
    while pending.len() > 0
        invariant
            all == rows_view(rows@),
            summaries_spec(all) == match summaries_spec(rows_view(pending@)) {
                Ok(rest) => Ok(out@.map_values(|s: RunSummary| s@) + rest),
                Err(e) => Err(e),
            },
        decreases pending@.len(),
    {
        let ghost before = pending@;
        let row = pending.remove(0);
        assert(rows_view(pending@) =~= rows_view(before).drop_first());
        assert(rows_view(before)[0] == row_view(row@));
        let ghost rv = row_view(row@);
        match summary_from_row(row) {
            Ok(summary) => {
                let ghost prev = out@;
                out.push(summary);
                assert(out@.map_values(|s: RunSummary| s@) =~= prev.map_values(|s: RunSummary| s@).push(summary@));
                proof {
                    let ov = prev.map_values(|s: RunSummary| s@);
                    match summaries_spec(rows_view(pending@)) {
                        Ok(rest) => {
                            assert(ov + (seq![summary@] + rest) =~= ov.push(summary@) + rest);
                        },
                        Err(_) => {},
                    }
                }
            },
            Err(e) => {
                assert(summaries_spec(rows_view(before)) == Err::<Seq<RunSummaryView>, DbErrorView>(DbErrorView::Corrupt(unexpected_column())));
                return Err(e);
            },
        }
    }
    assert(out@.map_values(|s: RunSummary| s@) + Seq::<RunSummaryView>::empty() =~= out@.map_values(|s: RunSummary| s@));
    Ok(out)
}

/// The stored results that the rows of the results query stand for, in row
/// order; the first row that does not read (see [`stored_spec`]) gives the
/// error.
pub open spec fn results_spec(rows: Seq<Seq<SqlValueView>>) -> Result<Seq<TestResultView>, DbErrorView>
    decreases rows.len(),
{
    if rows.len() == 0 {
        Ok(Seq::empty())
    } else {
        match stored_spec(rows[0]) {
            Err(e) => Err(e),
            Ok(first) => match results_spec(rows.drop_first()) {
                Ok(rest) => Ok(seq![first] + rest),
                Err(e) => Err(e),
            },
        }
    }
}

pub open spec fn stored_results_view(r: Result<Vec<StoredResult>, DbError>) -> Result<Seq<TestResultView>, DbErrorView> {
    match r {
        Ok(v) => Ok(stored_view(v@)),
        Err(e) => Err(e@),
    }
}

/// Reads the rows of the results query (see [`results_spec`]).
pub fn results_from_rows(rows: Vec<Vec<SqlValue>>) -> (r: Result<Vec<StoredResult>, DbError>)
    ensures
        stored_results_view(r) == results_spec(rows_view(rows@)),
{
    let ghost all = rows_view(rows@);
    let mut pending = rows;
    let mut out: Vec<StoredResult> = Vec::new();
    while pending.len() > 0
        invariant
            all == rows_view(rows@),
            results_spec(all) == match results_spec(rows_view(pending@)) {
                Ok(rest) => Ok(stored_view(out@) + rest),
                Err(e) => Err(e),
            },
        decreases pending@.len(),
    {
        let ghost before = pending@;
        let row = pending.remove(0);
        assert(rows_view(pending@) =~= rows_view(before).drop_first());
        assert(rows_view(before)[0] == row_view(row@));
        let ghost rv = row_view(row@);
        match stored_from_row(row) {
            Ok(stored) => {
                let ghost prev = out@;
                out.push(stored);
                assert(stored_view(out@) =~= stored_view(prev).push(stored@));
                proof {
                    let ov = stored_view(prev);
                    match results_spec(rows_view(pending@)) {
                        Ok(rest) => {
                            assert(ov + (seq![stored@] + rest) =~= ov.push(stored@) + rest);
                        },
                        Err(_) => {},
                    }
                }
            },
            Err(e) => {
                assert(results_spec(rows_view(before)) == Err::<Seq<TestResultView>, DbErrorView>(e@));
                return Err(e);
            },
        }
    }
    assert(stored_view(out@) + Seq::<TestResultView>::empty() =~= stored_view(out@));
    Ok(out)
}

pub const INSERT_RUN_SQL: &'static str = "INSERT INTO runs (run_at, ingested_at, git_ref, ci_job_url, total_time_sec, total_tests, total_failures)
 VALUES (?1, ?2, ?3, ?4, CAST(?5 AS REAL) / 1000000, ?6, ?7)";

pub const INSERT_RESULT_SQL: &'static str = "INSERT OR REPLACE INTO test_results (run_id, suite, name, time_sec, status)
 VALUES (?1, ?2, ?3, CAST(?4 AS REAL) / 1000000, ?5)";

pub const RECENT_RUNS_SQL: &'static str = "SELECT id, run_at, git_ref, CAST(round(total_time_sec * 1000000) AS INTEGER), total_tests, total_failures
 FROM runs
 ORDER BY julianday(run_at) DESC, run_at DESC, id DESC
 LIMIT ?1";

pub const RESULTS_OF_RUN_SQL: &'static str = "SELECT suite, name, CAST(round(time_sec * 1000000) AS INTEGER), status FROM test_results WHERE run_id = ?1";

pub const FOREIGN_KEYS_SQL: &'static str = "PRAGMA foreign_keys = ON";

pub const QUICK_CHECK_SQL: &'static str = "PRAGMA quick_check";

pub const USER_VERSION_SQL: &'static str = "PRAGMA user_version";

pub const SET_VERSION_SQL: &'static str = "PRAGMA user_version = 1";

pub const COUNT_RUNS_SQL: &'static str = "SELECT COUNT(*) FROM runs";

pub const BEGIN_SQL: &'static str = "BEGIN";

pub const COMMIT_SQL: &'static str = "COMMIT";

pub const ROLLBACK_SQL: &'static str = "ROLLBACK";

/// A call that failed inside SQLite.
pub open spec fn sqlite_failure<T>(r: Result<T, DbError>) -> bool {
    r matches Err(e) && e@ is Sqlite
}

/// The database `db` answered the parameterless query `sql`, and the first column
/// of its first row reads as `a` (see [`first_column_spec`]).
pub open spec fn first_answered(db: int, sql: Seq<char>, a: Result<SqlValueView, DbErrorView>) -> bool {
    exists|rows: Seq<Seq<SqlValueView>>| #[trigger] answered(db, sql, Seq::empty(), rows) && first_column_spec(rows) == a
}

/// What the answer to the count query reads as.
pub open spec fn count_answer(a: Result<SqlValueView, DbErrorView>) -> Result<i64, DbErrorView> {
    match a {
        Ok(v) => count_spec(v),
        Err(e) => Err(e),
    }
}

/// The database `db` answered the recent-runs query with `limit` by rows that
/// read as `a` (see [`summaries_spec`]).
pub open spec fn runs_answered(db: int, limit: usize, a: Result<Seq<RunSummaryView>, DbErrorView>) -> bool {
    exists|rows: Seq<Seq<SqlValueView>>|
        #[trigger] answered(db, RECENT_RUNS_SQL@, seq![SqlParamView::Integer(limit as i64)], rows) && summaries_spec(rows) == a
}

/// The database `db` answered the results query for `run_id` by rows that read
/// as `a` (see [`results_spec`]).
pub open spec fn results_answered(db: int, run_id: i64, a: Result<Seq<TestResultView>, DbErrorView>) -> bool {
    exists|rows: Seq<Seq<SqlValueView>>|
        #[trigger] answered(db, RESULTS_OF_RUN_SQL@, seq![SqlParamView::Integer(run_id)], rows) && results_spec(rows) == a
}

/// What the integrity answer `check` and the schema-version answer `version`
/// decide: an error, or whether the schema must be created.
pub open spec fn init_outcome(
    check: Result<SqlValueView, DbErrorView>,
    version: Result<SqlValueView, DbErrorView>,
) -> Result<bool, DbErrorView> {
    match check {
        Err(e) => Err(e),
        Ok(c) => match integrity_spec(c) {
            Err(e) => Err(e),
            Ok(_) => match version {
                Err(e) => Err(e),
                Ok(v) => migration_spec(v),
            },
        },
    }
}

/// The statements sent to prepare a connection: foreign keys on, then, when
/// the schema must be created, the schema and its version.
pub open spec fn init_statements(migrate: bool) -> Seq<SqlStatement> {
    seq![statement(FOREIGN_KEYS_SQL@, Seq::empty())] + if migrate {
        seq![statement(SCHEMA_V1@, Seq::empty()), statement(SET_VERSION_SQL@, Seq::empty())]
    } else {
        Seq::<SqlStatement>::empty()
    }
}

pub open spec fn history_result_error(r: Result<History, DbError>) -> Option<DbErrorView> {
    match r {
        Ok(_) => None,
        Err(e) => Some(e@),
    }
}

/// How preparing a connection ended: failed inside SQLite, or as the answers
/// to the integrity check and to the schema-version query decide (the
/// version is asked only once the check passed); a prepared history has sent
/// [`init_statements`], and the answers came from its own database.
pub open spec fn prepared(r: Result<History, DbError>) -> bool {
    ||| sqlite_failure(r)
    ||| exists|db: int, c: Result<SqlValueView, DbErrorView>, v: Result<SqlValueView, DbErrorView>|
        #![trigger init_outcome(c, v), first_answered(db, QUICK_CHECK_SQL@, c)] {
        &&& first_answered(db, QUICK_CHECK_SQL@, c)
        &&& (c matches Ok(cv) && integrity_spec(cv) is Ok ==> first_answered(db, USER_VERSION_SQL@, v))
        &&& match init_outcome(c, v) {
            Err(e) => history_result_error(r) == Some(e),
            Ok(m) => r matches Ok(h) && h.sent() == init_statements(m) && h.db() == db,
        }
    }
}

/// The statement that stores one result of run `run_id`.
pub open spec fn result_statement(run_id: i64, r: TestResultView) -> SqlStatement {
    statement(INSERT_RESULT_SQL@, result_row_spec(run_id, r))
}

/// The statements that store each of `results` for run `run_id`, in order.
pub open spec fn result_statements(run_id: i64, results: Seq<TestResultView>) -> Seq<SqlStatement> {
    Seq::new(results.len(), |i: int| result_statement(run_id, results[i]))
}

/// The statement that stores the run itself.
pub open spec fn run_statement(meta: RunMeta, run: TestRunView) -> SqlStatement {
    statement(
        INSERT_RUN_SQL@,
        run_row_spec(
            meta.run_at@,
            meta.ingested_at@,
            crate::model::opt_string_view(meta.git_ref),
            crate::model::opt_string_view(meta.ci_job_url),
            totals_spec(run),
        ),
    )
}

/// The statements of a stored run that got row id `run_id`: the run, then
/// each of its results in order.
pub open spec fn insert_statements(meta: RunMeta, run: TestRunView, run_id: i64) -> Seq<SqlStatement> {
    seq![run_statement(meta, run)] + result_statements(run_id, run.results)
}

impl History {
    /// Opens an in-memory DB. For tests only.
    pub fn open_in_memory() -> (r: Result<History, DbError>)
        ensures
            prepared(r),
            r matches Err(e) ==> (e@ is Sqlite || e@ is Corrupt),
    {
        match sqlite_open_in_memory() {
            Ok(conn) => History::init(conn),
            Err(e) => Err(sqlite_err(e)),
        }
    }

    /// Prepares a freshly opened connection: turns foreign keys on, runs the
    /// integrity check (see [`check_integrity`]) and brings the schema to the
    /// current version (see [`migration_needed`]); see [`prepared`].
    pub fn init(conn: rusqlite::Connection) -> (r: Result<History, DbError>)
        ensures
            prepared(r),
            r matches Err(e) ==> (e@ is Sqlite || e@ is Corrupt),
    {
        let mut h = adopt_connection(conn);
        let ghost db = h.db();
        if let Err(e) = sqlite_execute_batch(&mut h, FOREIGN_KEYS_SQL) {
            return Err(sqlite_err(e));
        }
        let check = match first_value(&h, QUICK_CHECK_SQL) {
            Ok(v) => v,
            Err(e) => {
                proof {
                    lemma_prepared_fails(db, Err(e), Err(e@), Err(e@));
                }
                return Err(e);
            },
        };
        let ghost c = Ok::<SqlValueView, DbErrorView>(check@);
        if let Err(e) = check_integrity(check) {
            proof {
                lemma_prepared_fails(db, Err(e), c, c);
            }
            return Err(e);
        }
        let version = match first_value(&h, USER_VERSION_SQL) {
            Ok(v) => v,
            Err(e) => {
                proof {
                    lemma_prepared_fails(db, Err(e), c, Err(e@));
                }
                return Err(e);
            },
        };
        let ghost v = Ok::<SqlValueView, DbErrorView>(version@);
        let migrate = match migration_needed(version) {
            Ok(m) => m,
            Err(e) => {
                proof {
                    lemma_prepared_fails(db, Err(e), c, v);
                }
                return Err(e);
            },
        };
        if migrate {
            if let Err(e) = sqlite_execute_batch(&mut h, SCHEMA_V1) {
                return Err(sqlite_err(e));
            }
            if let Err(e) = sqlite_execute_batch(&mut h, SET_VERSION_SQL) {
                return Err(sqlite_err(e));
            }
        }
        proof {
            assert(h.sent() =~= init_statements(migrate));
            assert(init_outcome(c, v) == Ok::<bool, DbErrorView>(migrate));
            assert(first_answered(db, QUICK_CHECK_SQL@, c));
        }
        Ok(h)
    }

    /// Inserts a run and its test results in one transaction. `test_results`
    /// rows are upserted (INSERT OR REPLACE) so re-ingesting a shard that
    /// overlaps a prior one in the same run never fails. The run row carries
    /// the figures of [`run_totals`]. The statements sent are `BEGIN`, those
    /// of [`insert_statements`] and `COMMIT`; on a failure after `BEGIN` the
    /// last one sent is `ROLLBACK`.
    pub fn insert_run(&mut self, run: &TestRun, meta: &RunMeta) -> (r: Result<i64, DbError>)
        ensures
            r matches Err(e) ==> e@ is Sqlite,
            final(self).db() == old(self).db(),
            r matches Ok(id) ==> rowid_answered(
                old(self).db(),
                old(self).sent().push(statement(BEGIN_SQL@, Seq::empty())).push(run_statement(*meta, run@)),
                id,
            ),
            r matches Ok(id) ==> final(self).sent() == old(self).sent().push(statement(BEGIN_SQL@, Seq::empty()))
                + insert_statements(*meta, run@, id) + seq![statement(COMMIT_SQL@, Seq::empty())],
            r is Err ==> {
                ||| final(self).sent() == old(self).sent().push(statement(BEGIN_SQL@, Seq::empty()))
                ||| {
                    &&& final(self).sent().len() >= old(self).sent().len() + 2
                    &&& final(self).sent().take(old(self).sent().len() + 1int)
                        == old(self).sent().push(statement(BEGIN_SQL@, Seq::empty()))
                    &&& final(self).sent().last() == statement(ROLLBACK_SQL@, Seq::empty())
                }
            },
    {
        let ghost before = self.sent();
        let ghost begun = before.push(statement(BEGIN_SQL@, Seq::empty()));
        let totals = run_totals(run);
        if let Err(e) = sqlite_execute_batch(self, BEGIN_SQL) {
            return Err(sqlite_err(e));
        }
        match self.insert_rows(run, meta, &totals) {
            Ok(id) => {
                let ghost mid = self.sent();
                match sqlite_execute_batch(self, COMMIT_SQL) {
                    Ok(()) => Ok(id),
                    Err(e) => {
                        let _ = sqlite_execute_batch(self, ROLLBACK_SQL);
                        assert(self.sent().take(before.len() + 1int) =~= begun);
                        Err(sqlite_err(e))
                    },
                }
            },
            Err(e) => {
                let ghost mid = self.sent();
                let _ = sqlite_execute_batch(self, ROLLBACK_SQL);
                assert(self.sent().take(before.len() + 1int) =~= mid.take(before.len() + 1int));
                assert(self.sent().take(before.len() + 1int) =~= begun);
                Err(e)
            },
        }
    }

    /// Stores the run row and each result row (see [`insert_statements`]);
    /// the run's row id is the one SQLite gives the run row.
    fn insert_rows(&mut self, run: &TestRun, meta: &RunMeta, totals: &RunTotals) -> (r: Result<i64, DbError>)
        requires
            *totals == totals_spec(run@),
        ensures
            r matches Err(e) ==> e@ is Sqlite,
            final(self).db() == old(self).db(),
            r matches Ok(id) ==> rowid_answered(old(self).db(), old(self).sent().push(run_statement(*meta, run@)), id),
            final(self).sent().len() > old(self).sent().len(),
            final(self).sent().take(old(self).sent().len() as int) == old(self).sent(),
            r matches Ok(id) ==> final(self).sent() == old(self).sent() + insert_statements(*meta, run@, id),
    {
        let ghost before = self.sent();
        let params = run_row(meta, totals);
        let r = sqlite_execute(self, INSERT_RUN_SQL, params);
        assert(self.sent().take(before.len() as int) =~= before);
        if let Err(e) = r {
            return Err(sqlite_err(e));
        }
        let run_id = sqlite_last_insert_rowid(self);
        let ghost rs = run@.results;
        let ghost head = before.push(run_statement(*meta, run@));
        assert(self.sent() == head);
        let mut i: usize = 0;
        while i < run.results.len()
            invariant
                i <= run.results.len(),
                rs == run@.results,
                before == old(self).sent(),
                self.db() == old(self).db(),
                head.len() == before.len() + 1,
                head.take(before.len() as int) == before,
                self.sent() =~= head + result_statements(run_id, rs.take(i as int)),
            decreases run.results.len() - i,
        {
            let ghost prev = self.sent();
            let params = result_row(run_id, &run.results[i]);
            let r = sqlite_execute(self, INSERT_RESULT_SQL, params);
            assert(result_statements(run_id, rs.take(i + 1)) =~= result_statements(run_id, rs.take(i as int)).push(
                result_statement(run_id, rs[i as int]),
            ));
            assert(self.sent() =~= head + result_statements(run_id, rs.take(i + 1)));
            if let Err(e) = r {
                assert(self.sent().take(before.len() as int) =~= before);
                return Err(sqlite_err(e));
            }
            i = i + 1;
        }
        assert(rs.take(i as int) =~= rs);
        assert(self.sent() =~= before + insert_statements(*meta, run@, run_id));
        assert(self.sent().take(before.len() as int) =~= before);
        Ok(run_id)
    }

    /// Number of runs in the history, as the database answers the count
    /// query (see [`count_from_value`]).
    pub fn run_count(&self) -> (r: Result<i64, DbError>)
        ensures
            sqlite_failure(r) || exists|a: Result<SqlValueView, DbErrorView>|
                #[trigger] first_answered(self.db(), COUNT_RUNS_SQL@, a) && count_result_view(r) == count_answer(a),
            r matches Err(e) ==> (e@ is Sqlite || e@ == DbErrorView::Corrupt(unexpected_column())),
    {
        let v = match first_value(self, COUNT_RUNS_SQL) {
            Ok(v) => v,
            Err(e) => {
                assert(first_answered(self.db(), COUNT_RUNS_SQL@, Err::<SqlValueView, DbErrorView>(e@)) || e@ is Sqlite);
                return Err(e);
            },
        };
        let ghost a = Ok::<SqlValueView, DbErrorView>(v@);
        let r = count_from_value(v);
        assert(first_answered(self.db(), COUNT_RUNS_SQL@, a));
        r
    }

    /// Runs ordered by the instant of `run_at` (then `id`) descending, not by
    /// ingest order, so out-of-order backfills still list newest-first, also
    /// when some timestamps carry fractions of a second; at most `limit`.
    /// The rows are the database's answer to the query with `limit`, read by
    /// [`summaries_from_rows`].
    pub fn recent_runs(&self, limit: usize) -> (r: Result<Vec<RunSummary>, DbError>)
        ensures
            sqlite_failure(r) || runs_answered(self.db(), limit, summaries_view(r)),
            r matches Err(e) ==> (e@ is Sqlite || e@ == DbErrorView::Corrupt(unexpected_column())),
    {
        let params = vec![SqlParam::Integer(limit as i64)];
        assert(params_view(params@) =~= seq![SqlParamView::Integer(limit as i64)]);
        let rows = match sqlite_query(self, RECENT_RUNS_SQL, params, 6) {
            Ok(rows) => rows,
            Err(e) => return Err(sqlite_err(e)),
        };
        let ghost rv = rows_view(rows@);
        let r = summaries_from_rows(rows);
        proof {
            lemma_summaries_errors(rv);
        }
        r
    }

    /// All test results stored for a given run: the database's answer to the
    /// results query for `run_id`, read by [`results_from_rows`].
    pub fn results_of_run(&self, run_id: i64) -> (r: Result<Vec<StoredResult>, DbError>)
        ensures
            sqlite_failure(r) || results_answered(self.db(), run_id, stored_results_view(r)),
            r matches Err(e) ==> (e@ is Sqlite || e@ is Corrupt),
    {
        let params = vec![SqlParam::Integer(run_id)];
        assert(params_view(params@) =~= seq![SqlParamView::Integer(run_id)]);
        let rows = match sqlite_query(self, RESULTS_OF_RUN_SQL, params, 4) {
            Ok(rows) => rows,
            Err(e) => return Err(sqlite_err(e)),
        };
        let ghost rv = rows_view(rows@);
        let r = results_from_rows(rows);
        proof {
            lemma_results_errors(rv);
        }
        r
    }
}

/// Preparing fails as `init_outcome` decides once the answers `c` and `v`
/// were given and decide an error.
proof fn lemma_prepared_fails(
    db: int,
    r: Result<History, DbError>,
    c: Result<SqlValueView, DbErrorView>,
    v: Result<SqlValueView, DbErrorView>,
)
    requires
        sqlite_failure(r) || {
            &&& first_answered(db, QUICK_CHECK_SQL@, c)
            &&& (c matches Ok(cv) && integrity_spec(cv) is Ok ==> first_answered(db, USER_VERSION_SQL@, v))
            &&& init_outcome(c, v) matches Err(e) && history_result_error(r) == Some(e)
        },
    ensures
        prepared(r),
{
    if !sqlite_failure(r) {
        assert(init_outcome(c, v) is Err);
        assert(first_answered(db, QUICK_CHECK_SQL@, c));
    }
}

proof fn lemma_summaries_errors(rows: Seq<Seq<SqlValueView>>)
    ensures
        summaries_spec(rows) matches Err(e) ==> e == DbErrorView::Corrupt(unexpected_column()),
    decreases rows.len(),
{
    if rows.len() > 0 {
        lemma_summaries_errors(rows.drop_first());
    }
}

proof fn lemma_stored_errors(row: Seq<SqlValueView>)
    ensures
        stored_spec(row) matches Err(e) ==> e is Corrupt,
{
}

proof fn lemma_results_errors(rows: Seq<Seq<SqlValueView>>)
    ensures
        results_spec(rows) matches Err(e) ==> e is Corrupt,
    decreases rows.len(),
{
    if rows.len() > 0 {
        lemma_stored_errors(rows[0]);
        lemma_results_errors(rows.drop_first());
    }
}

/// What a count query's answer means: an integer is the count; any other
/// value is corrupt.
pub open spec fn count_spec(v: SqlValueView) -> Result<i64, DbErrorView> {
    match v {
        SqlValueView::Integer(n) => Ok(n),
        _ => Err(DbErrorView::Corrupt(unexpected_column())),
    }
}

pub open spec fn count_result_view(r: Result<i64, DbError>) -> Result<i64, DbErrorView> {
    match r {
        Ok(n) => Ok(n),
        Err(e) => Err(e@),
    }
}

/// Reads the answer of a count query (see [`count_spec`]).
pub fn count_from_value(v: SqlValue) -> (r: Result<i64, DbError>)
    ensures
        count_result_view(r) == count_spec(v@),
{
    match v {
        SqlValue::Integer(n) => Ok(n),
        _ => Err(DbError::Corrupt(String::from_str("unexpected column type"))),
    }
}

/// The first column of the first row of a query's answer; an answer without
/// one is corrupt.
pub open spec fn first_column_spec(rows: Seq<Seq<SqlValueView>>) -> Result<SqlValueView, DbErrorView> {
    if rows.len() > 0 && rows[0].len() > 0 {
        Ok(rows[0][0])
    } else {
        Err(DbErrorView::Corrupt(unexpected_column()))
    }
}

pub open spec fn value_result_view(r: Result<SqlValue, DbError>) -> Result<SqlValueView, DbErrorView> {
    match r {
        Ok(v) => Ok(v@),
        Err(e) => Err(e@),
    }
}

/// Takes the first column of the first row (see [`first_column_spec`]).
pub fn first_column(rows: Vec<Vec<SqlValue>>) -> (r: Result<SqlValue, DbError>)
    ensures
        value_result_view(r) == first_column_spec(rows_view(rows@)),
{
    let ghost rv = rows_view(rows@);
    if rows.len() == 0 {
        return Err(DbError::Corrupt(String::from_str("unexpected column type")));
    }
    let mut rows = rows;
    let mut row = rows.remove(0);
    assert(rv[0] == row_view(row@));
    if row.len() == 0 {
        return Err(DbError::Corrupt(String::from_str("unexpected column type")));
    }
    Ok(row.remove(0))
}

/// The first column of the first row of the database's answer to the
/// parameterless query `sql`, read by [`first_column`].
fn first_value(h: &History, sql: &str) -> (r: Result<SqlValue, DbError>)
    ensures
        sqlite_failure(r) || first_answered(h.db(), sql@, value_result_view(r)),
        r matches Err(e) ==> (e@ is Sqlite || e@ == DbErrorView::Corrupt(unexpected_column())),
{
    let params: Vec<SqlParam> = Vec::new();
    assert(params_view(params@) =~= Seq::<SqlParamView>::empty());
    let rows = match sqlite_query(h, sql, params, 1) {
        Ok(rows) => rows,
        Err(e) => return Err(sqlite_err(e)),
    };
    let ghost rv = rows_view(rows@);
    let r = first_column(rows);
    assert(answered(h.db(), sql@, Seq::empty(), rv));
    r
}

// ---------------------------------------------------------------------------
// Timestamps, through the time crate.


/// A timestamp brought to UTC and written in RFC 3339.
pub enum UtcText {
    /// The input is not a timestamp of the expected form.
    Unparsed,
    /// The instant falls outside the years that the time crate represents once
    /// moved to UTC.
    OutOfRange,
    /// The UTC timestamp, `Z`-suffixed.
    Text(String),
    /// Writing the timestamp failed, with the time crate's message.
    FormatError(String),
}

pub ghost enum UtcTextView {
    Unparsed,
    OutOfRange,
    Text(Seq<char>),
    FormatError(Seq<char>),
}

impl View for UtcText {
    type V = UtcTextView;

    open spec fn view(&self) -> UtcTextView {
        match self {
            UtcText::Unparsed => UtcTextView::Unparsed,
            UtcText::OutOfRange => UtcTextView::OutOfRange,
            UtcText::Text(t) => UtcTextView::Text(t@),
            UtcText::FormatError(m) => UtcTextView::FormatError(m@),
        }
    }
}

/// What the time crate makes of `s` read as an RFC 3339 timestamp
/// (`OffsetDateTime::parse` with `Rfc3339`), moved to UTC
/// (`checked_to_offset`) and written as RFC 3339 (`format`).
pub uninterp spec fn rfc3339_utc(s: Seq<char>) -> UtcTextView;

/// What the time crate makes of `s` read as a naive
/// `[year]-[month]-[day]T[hour]:[minute]:[second]` timestamp
/// (`PrimitiveDateTime::parse`), taken as UTC (`assume_utc`) and written as
/// RFC 3339 (`format`).
pub uninterp spec fn naive_utc(s: Seq<char>) -> UtcTextView;

/// Reads `s` as RFC 3339 and writes it back in UTC with the time crate,
/// whose RFC 3339 form of a UTC instant ends in `Z`.
#[verifier::external_body]
fn rfc3339_to_utc(s: &str) -> (r: UtcText)
    ensures
        r@ == rfc3339_utc(s@),
        zulu(r@),
{
    match OffsetDateTime::parse(s, &Rfc3339) {
        Err(_) => UtcText::Unparsed,
        Ok(dt) => match dt.checked_to_offset(UtcOffset::UTC) {
            None => UtcText::OutOfRange,
            Some(u) => u.format(&Rfc3339).map_or_else(|e| UtcText::FormatError(e.to_string()), UtcText::Text),
        },
    }
}

/// Reads `s` as a naive timestamp, takes it as UTC and writes it as RFC 3339
/// with the time crate, which ends a UTC instant in `Z`. The format
/// description is a valid constant, so its parse (`format_description::parse`)
/// cannot fail.
#[verifier::external_body]
fn naive_to_utc(s: &str) -> (r: UtcText)
    ensures
        r@ == naive_utc(s@),
        zulu(r@),
{
    let format = time::format_description::parse("[year]-[month]-[day]T[hour]:[minute]:[second]")
        .expect("naive timestamp format description is valid");
    match PrimitiveDateTime::parse(s, &format) {
        Err(_) => UtcText::Unparsed,
        Ok(p) => p.assume_utc().format(&Rfc3339).map_or_else(|e| UtcText::FormatError(e.to_string()), UtcText::Text),
    }
}

/// What the time crate writes, as RFC 3339 in UTC (`format`), for the
/// instant `unix_nanos` nanoseconds after the Unix epoch
/// (`OffsetDateTime::from_unix_timestamp_nanos`).
pub uninterp spec fn instant_utc(unix_nanos: int) -> UtcTextView;

/// Makes the UTC instant `unix_nanos` nanoseconds after the Unix epoch
/// (`OffsetDateTime::from_unix_timestamp_nanos`, out of range for an instant
/// beyond the years the time crate represents) and writes it as RFC 3339
/// (`format`), which ends a UTC instant in `Z`.
#[verifier::external_body]
fn instant_to_utc(unix_nanos: i128) -> (r: UtcText)
    ensures
        r@ == instant_utc(unix_nanos as int),
        zulu(r@),
{
    match OffsetDateTime::from_unix_timestamp_nanos(unix_nanos) {
        Err(_) => UtcText::OutOfRange,
        Ok(u) => u.format(&Rfc3339).map_or_else(|e| UtcText::FormatError(e.to_string()), UtcText::Text),
    }
}

/// A written timestamp ends in the UTC designator `Z`.
pub open spec fn zulu(t: UtcTextView) -> bool {
    t matches UtcTextView::Text(v) ==> v.len() > 0 && v.last() == 'Z'
}

pub open spec fn out_of_range_message() -> Seq<char> {
    "local datetime out of valid range"@
}

/// The stored form of an instant already written by the time crate.
pub open spec fn utc_result(t: UtcTextView) -> Result<Seq<char>, DbErrorView> {
    match t {
        UtcTextView::Text(v) => Ok(v),
        UtcTextView::FormatError(m) => Err(DbErrorView::InvalidTimestamp(m)),
        _ => Err(DbErrorView::InvalidTimestamp(out_of_range_message())),
    }
}

/// The normalized form of a timestamp text: RFC 3339 if it reads as such,
/// else the naive form taken as UTC; anything else is an invalid timestamp.
pub open spec fn normalize_spec(s: Seq<char>) -> Result<Seq<char>, DbErrorView> {
    match rfc3339_utc(s) {
        UtcTextView::Unparsed => match naive_utc(s) {
            UtcTextView::Unparsed => Err(DbErrorView::InvalidTimestamp(s)),
            t => utc_result(t),
        },
        t => utc_result(t),
    }
}

pub open spec fn string_result_view(r: Result<String, DbError>) -> Result<Seq<char>, DbErrorView> {
    match r {
        Ok(v) => Ok(v@),
        Err(e) => Err(e@),
    }
}

fn utc_string(t: UtcText) -> (r: Result<String, DbError>)
    requires
        !(t@ is Unparsed),
    ensures
        string_result_view(r) == utc_result(t@),
        zulu(t@) ==> (r matches Ok(v) ==> v@.len() > 0 && v@.last() == 'Z'),
{
    match t {
        UtcText::Text(v) => Ok(v),
        UtcText::FormatError(m) => Err(DbError::InvalidTimestamp(m)),
        _ => Err(DbError::InvalidTimestamp(String::from_str("local datetime out of valid range"))),
    }
}

/// Normalizes a timestamp text to a UTC RFC 3339 string (see
/// [`normalize_spec`]).
pub fn normalize_timestamp(s: &str) -> (r: Result<String, DbError>)
    ensures
        string_result_view(r) == normalize_spec(s@),
        r matches Ok(v) ==> v@.len() > 0 && v@.last() == 'Z',
{
    let t = rfc3339_to_utc(s);
    if let UtcText::Unparsed = t {
        let n = naive_to_utc(s);
        if let UtcText::Unparsed = n {
            return Err(DbError::InvalidTimestamp(String::from_str(s)));
        }
        return utc_string(n);
    }
    utc_string(t)
}

/// Writes the instant `unix_nanos` nanoseconds after the Unix epoch as a
/// UTC RFC 3339 string.
pub fn format_utc(unix_nanos: i128) -> (r: Result<String, DbError>)
    ensures
        string_result_view(r) == utc_result(instant_utc(unix_nanos as int)),
        r matches Err(e) ==> e@ is InvalidTimestamp,
        r matches Ok(v) ==> v@.len() > 0 && v@.last() == 'Z',
{
    let t = instant_to_utc(unix_nanos);
    if let UtcText::Unparsed = t {
        return Err(DbError::InvalidTimestamp(String::from_str("local datetime out of valid range")));
    }
    utc_string(t)
}

/// The current instant, in nanoseconds after the Unix epoch, read from the
/// system clock (`OffsetDateTime::now_utc`, `unix_timestamp_nanos`). It
/// depends on when it is called, so nothing is stated of it.
#[verifier::external_body]
fn current_instant() -> (r: i128) {
    OffsetDateTime::now_utc().unix_timestamp_nanos()
}

/// The current time as a UTC RFC 3339 string (see [`format_utc`]).
pub fn now_utc_rfc3339() -> (r: Result<String, DbError>)
    ensures
        exists|t: int| string_result_view(r) == utc_result(#[trigger] instant_utc(t)),
        r matches Err(e) ==> e@ is InvalidTimestamp,
        r matches Ok(v) ==> v@.len() > 0 && v@.last() == 'Z',
{
    let t = current_instant();
    let r = format_utc(t);
    assert(string_result_view(r) == utc_result(instant_utc(t as int)));
    r
}

/// Resolves the `run_at` to store: explicit override > XML timestamp > now.
/// Accepts RFC 3339 or a seconds-precision naive form (assumed UTC), and
/// always returns a normalized UTC RFC 3339 (`Z`-suffixed) string.
pub fn resolve_run_at(explicit: Option<&str>, xml_timestamp: Option<&str>, now_unix_nanos: i128) -> (r: Result<String, DbError>)
    ensures
        (explicit is None && xml_timestamp is None) ==> string_result_view(r) == utc_result(instant_utc(now_unix_nanos as int)),
        explicit matches Some(s) ==> string_result_view(r) == normalize_spec(s@),
        explicit is None ==> (xml_timestamp matches Some(s) ==> string_result_view(r) == normalize_spec(s@)),
        (explicit is None && xml_timestamp is None) ==> (r matches Err(e) ==> e@ is InvalidTimestamp),
        r matches Ok(v) ==> v@.len() > 0 && v@.last() == 'Z',
{
    if let Some(s) = explicit {
        return normalize_timestamp(s);
    }
    if let Some(s) = xml_timestamp {
        return normalize_timestamp(s);
    }
    format_utc(now_unix_nanos)
}

/// The name of the file that a corrupt database at `path` is moved aside to.
pub fn corrupt_path(path: &str) -> (r: String)
    ensures
        r@ == path@ + ".corrupt"@,
{
    let mut p = String::from_str(path);
    p.append(".corrupt");
    p
}

} // verus!
