//! Data model shared by the parsers, the history store and the analysis.

use vstd::prelude::*;

use crate::text::str_eq;

verus! {

/// Outcome of a single test case execution.
#[derive(Debug, Clone, Copy, PartialEq, Eq, Structural)]
pub enum Status {
    Passed,
    Failed,
    Error,
    Skipped,
}

/// The stable text of each status, as stored in the history database.
pub open spec fn status_text(s: Status) -> Seq<char> {
    match s {
        Status::Passed => "passed"@,
        Status::Failed => "failed"@,
        Status::Error => "error"@,
        Status::Skipped => "skipped"@,
    }
}

/// The status whose stable text is `t`, if any.
pub open spec fn status_from_text(t: Seq<char>) -> Option<Status> {
    if t == "passed"@ {
        Some(Status::Passed)
    } else if t == "failed"@ {
        Some(Status::Failed)
    } else if t == "error"@ {
        Some(Status::Error)
    } else if t == "skipped"@ {
        Some(Status::Skipped)
    } else {
        None
    }
}

impl Status {
    /// Stable string form used for DB storage.
    pub fn as_str(&self) -> (r: &'static str)
        ensures
            r@ == status_text(*self),
    {
        match self {
            Status::Passed => "passed",
            Status::Failed => "failed",
            Status::Error => "error",
            Status::Skipped => "skipped",
        }
    }

    /// Inverse of [`Status::as_str`].
    pub fn parse(s: &str) -> (r: Option<Status>)
        ensures
            r == status_from_text(s@),
    {
        if str_eq(s, "passed") {
            Some(Status::Passed)
        } else if str_eq(s, "failed") {
            Some(Status::Failed)
        } else if str_eq(s, "error") {
            Some(Status::Error)
        } else if str_eq(s, "skipped") {
            Some(Status::Skipped)
        } else {
            None
        }
    }
}

/// Parsing the stored text of a status gives the status back.
pub proof fn status_text_round_trip(s: Status)
    ensures
        status_from_text(status_text(s)) == Some(s),
{
    reveal_strlit("passed");
    reveal_strlit("failed");
    reveal_strlit("error");
    reveal_strlit("skipped");
    assert("passed"@[0] == 'p' && "failed"@[0] == 'f' && "error"@[0] == 'e' && "skipped"@[0] == 's');
    assert("passed"@ != "failed"@ && "passed"@ != "error"@ && "passed"@ != "skipped"@);
    assert("failed"@ != "error"@ && "failed"@ != "skipped"@ && "error"@ != "skipped"@);
}

/// A text that parses as a status is exactly that status's stored text.
pub proof fn status_text_unique(t: Seq<char>, s: Status)
    requires
        status_from_text(t) == Some(s),
    ensures
        t == status_text(s),
{
}

/// Failed and errored results count as failures.
pub open spec fn is_failure(s: Status) -> bool {
    s == Status::Failed || s == Status::Error
}

/// Stable identifier of a test across runs and machines: the suite, `::`,
/// and the name.
pub open spec fn canonical_id_of(suite: Seq<char>, name: Seq<char>) -> Seq<char> {
    suite + "::"@ + name
}

/// Builds the stable identifier of a test from its suite and name.
pub fn canonical_id(suite: &str, name: &str) -> (r: String)
    ensures
        r@ == canonical_id_of(suite@, name@),
{
    let mut id = String::from_str(suite);
    id.append("::");
    id.append(name);
    id
}

/// A single test case result within one run. Durations are held in whole
/// microseconds.
#[derive(Debug, Clone, PartialEq, Eq)]
pub struct TestResult {
    /// Owning suite. For PHPUnit this is the test class FQCN taken from the
    /// `class` attribute, never the surrounding `<testsuite>` names, which
    /// contain machine-specific paths.
    pub suite: String,
    /// Test name as reported, including data set suffixes
    /// (e.g. `testAdd with data set "zero"`).
    pub name: String,
    pub time_us: u64,
    pub status: Status,
}

pub ghost struct TestResultView {
    pub suite: Seq<char>,
    pub name: Seq<char>,
    pub time_us: u64,
    pub status: Status,
}

impl View for TestResult {
    type V = TestResultView;

    open spec fn view(&self) -> TestResultView {
        TestResultView {
            suite: self.suite@,
            name: self.name@,
            time_us: self.time_us,
            status: self.status,
        }
    }
}

impl TestResult {
    /// Stable identifier for tracking the same test across runs and machines.
    pub fn canonical_id(&self) -> (r: String)
        ensures
            r@ == canonical_id_of(self.suite@, self.name@),
    {
        canonical_id(self.suite.as_str(), self.name.as_str())
    }

    /// A field-by-field copy.
    pub fn duplicate(&self) -> (r: TestResult)
        ensures
            r@ == self@,
    {
        TestResult {
            suite: self.suite.clone(),
            name: self.name.clone(),
            time_us: self.time_us,
            status: self.status,
        }
    }
}

pub open spec fn results_view(v: Seq<TestResult>) -> Seq<TestResultView> {
    v.map_values(|r: TestResult| r@)
}

pub open spec fn opt_string_view(o: Option<String>) -> Option<Seq<char>> {
    match o {
        Some(s) => Some(s@),
        None => None,
    }
}

/// Parsed contents of one or more report files belonging to a single CI run.
#[derive(Debug, Clone, PartialEq, Eq)]
pub struct TestRun {
    pub results: Vec<TestResult>,
    /// Timestamp reported by the tool, if any. PHPUnit emits none, so runs
    /// are usually dated at ingest time or via an explicit override.
    pub timestamp: Option<String>,
}

pub ghost struct TestRunView {
    pub results: Seq<TestResultView>,
    pub timestamp: Option<Seq<char>>,
}

impl View for TestRun {
    type V = TestRunView;

    open spec fn view(&self) -> TestRunView {
        TestRunView { results: results_view(self.results@), timestamp: opt_string_view(self.timestamp) }
    }
}

/// Sum of the durations of `results`, in microseconds.
pub open spec fn times_sum(results: Seq<TestResultView>) -> nat
    decreases results.len(),
{
    if results.len() == 0 {
        0
    } else {
        times_sum(results.drop_last()) + results.last().time_us as nat
    }
}

/// The run that [`TestRun::merge`] makes of `a` and `b`: the results of `a`
/// followed by those of `b`, and the first timestamp that is present.
pub open spec fn merged(a: TestRunView, b: TestRunView) -> TestRunView {
    TestRunView {
        results: a.results + b.results,
        timestamp: if a.timestamp is Some { a.timestamp } else { b.timestamp },
    }
}

proof fn lemma_times_sum_append(a: Seq<TestResultView>, b: Seq<TestResultView>)
    ensures
        times_sum(a + b) == times_sum(a) + times_sum(b),
    decreases b.len(),
{
    if b.len() == 0 {
        assert(a + b =~= a);
    } else {
        lemma_times_sum_append(a, b.drop_last());
        assert((a + b).drop_last() =~= a + b.drop_last());
    }
}

/// Merging sharded reports keeps every result: the total duration of the
/// merged run is the sum of the totals of its parts.
pub proof fn merge_adds_total_time(a: TestRunView, b: TestRunView)
    ensures
        times_sum(merged(a, b).results) == times_sum(a.results) + times_sum(b.results),
        merged(a, b).results.len() == a.results.len() + b.results.len(),
{
    lemma_times_sum_append(a.results, b.results);
}

/// Merging is associative, so shards may be combined in any grouping.
pub proof fn merge_associative(a: TestRunView, b: TestRunView, c: TestRunView)
    ensures
        merged(merged(a, b), c) == merged(a, merged(b, c)),
{
    assert((a.results + b.results) + c.results =~= a.results + (b.results + c.results));
}

impl TestRun {
    /// An empty run without a timestamp.
    pub fn new() -> (r: TestRun)
        ensures
            r@.results.len() == 0,
            r@.timestamp is None,
    {
        TestRun { results: Vec::new(), timestamp: None }
    }

    /// Sum of individual test case times, in microseconds. Suite-level `time`
    /// attributes are ignored on purpose: they are absent or inconsistent
    /// across dialects.
    pub fn total_time_us(&self) -> (r: u64)
        requires
            times_sum(self@.results) <= u64::MAX,
        ensures
            r == times_sum(self@.results),
    {
        let mut total: u64 = 0;
        let mut i: usize = 0;
        while i < self.results.len()
            invariant
                i <= self.results.len(),
                times_sum(self@.results) <= u64::MAX,
                total == times_sum(self@.results.take(i as int)),
            decreases self.results.len() - i,
        {
            proof {
                assert(self@.results.take(i + 1).drop_last() =~= self@.results.take(i as int));
                lemma_times_sum_append(self@.results.take(i + 1), self@.results.skip(i + 1));
                assert(self@.results.take(i + 1) + self@.results.skip(i + 1) =~= self@.results);
            }
            total = total + self.results[i].time_us;
            i = i + 1;
        }
        assert(self@.results.take(i as int) =~= self@.results);
        total
    }

    /// Combines reports from sharded CI jobs into one run.
    pub fn merge(self, other: TestRun) -> (r: TestRun)
        ensures
            r@ == merged(self@, other@),
    {
        let mut run = self;
        let mut other = other;
        let ghost a = run@;
        let ghost b = other@;
        run.results.append(&mut other.results);
        if run.timestamp.is_none() {
            run.timestamp = other.timestamp;
        }
        assert(run@.results =~= a.results + b.results);
        run
    }
}

impl Default for TestRun {
    fn default() -> (r: TestRun)
        ensures
            r@.results.len() == 0,
            r@.timestamp is None,
    {
        TestRun::new()
    }
}

} // verus!
