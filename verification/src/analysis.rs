//! Diagnostics: findings (slow / flaky / regression) and the overall health
//! score computed from history.

use vstd::prelude::*;

use crate::config::{Config, Thresholds, Weights};
use crate::text::{int_text, push_int};
use crate::db::{
    count_answer, first_answered, results_answered, runs_answered, stored_view, DbError, History, RunSummary,
    RunSummaryView, StoredResult, COUNT_RUNS_SQL,
};
use crate::model::{canonical_id, canonical_id_of, is_failure, Status, TestResultView};
use vstd::hash_map::StringHashMap;

use crate::sort::{is_sorted_desc, key_of, lemma_sort_desc, lemma_sort_desc_keeps, lemma_sort_desc_members, sort_by_key_desc, sort_desc, views, DescKey};

verus! {

/// Version of the [`Report`] output contract. Bump when the shape of
/// `Report` changes in a way that breaks consumers.
pub const SCHEMA_VERSION: u32 = 1;

/// The canonical id of a stored result.
pub open spec fn result_id(r: TestResultView) -> Seq<char> {
    canonical_id_of(r.suite, r.name)
}

// ---------------------------------------------------------------------------
// Slow tests.

#[derive(Debug, Clone)]
pub struct SlowFinding {
    pub id: String,
    pub time_us: u64,
    pub threshold_us: u64,
}

pub ghost struct SlowView {
    pub id: Seq<char>,
    pub time_us: u64,
    pub threshold_us: u64,
}

impl View for SlowFinding {
    type V = SlowView;

    open spec fn view(&self) -> SlowView {
        SlowView { id: self.id@, time_us: self.time_us, threshold_us: self.threshold_us }
    }
}

impl DescKey for SlowFinding {
    open spec fn view_key(v: SlowView) -> int {
        v.time_us as int
    }

    fn key(&self) -> (r: u64) {
        self.time_us
    }
}

/// The results at least `threshold` slow, in the order given.
pub open spec fn slow_candidates(results: Seq<TestResultView>, threshold: u64) -> Seq<SlowView>
    decreases results.len(),
{
    if results.len() == 0 {
        Seq::empty()
    } else {
        let rest = slow_candidates(results.drop_last(), threshold);
        let r = results.last();
        if r.time_us >= threshold {
            rest.push(SlowView { id: result_id(r), time_us: r.time_us, threshold_us: threshold })
        } else {
            rest
        }
    }
}

/// The slow findings of a run: its results at least `threshold` slow,
/// slowest first.
pub open spec fn slow_findings(results: Seq<TestResultView>, threshold: u64) -> Seq<SlowView> {
    sort_desc(slow_candidates(results, threshold), key_of::<SlowFinding>())
}

/// The slow findings among `results` (see [`slow_findings`]).
pub fn find_slow(results: &Vec<StoredResult>, threshold: u64) -> (r: Vec<SlowFinding>)
    ensures
        views(r@) == slow_findings(stored_view(results@), threshold),
{
    let ghost all = stored_view(results@);
    let mut cands: Vec<SlowFinding> = Vec::new();
    let mut i: usize = 0;
    assert(all.take(0) =~= Seq::<TestResultView>::empty());
    while i < results.len()
        invariant
            i <= results.len(),
            all == stored_view(results@),
            views(cands@) =~= slow_candidates(all.take(i as int), threshold),
        decreases results.len() - i,
    {
        let r = &results[i];
        assert(all.take(i + 1).drop_last() =~= all.take(i as int));
        assert(all.take(i + 1).last() == r@);
        if r.time_us >= threshold {
            let f = SlowFinding {
                id: canonical_id(r.suite.as_str(), r.name.as_str()),
                time_us: r.time_us,
                threshold_us: threshold,
            };
            let ghost before = views(cands@);
            cands.push(f);
            assert(views(cands@) =~= before.push(f@));
        }
        i = i + 1;
    }
    assert(all.take(i as int) =~= all);
    sort_by_key_desc(cands)
}

// ---------------------------------------------------------------------------
// Flaky tests.

#[derive(Debug, Clone)]
pub struct FlakyFinding {
    pub id: String,
    pub failed_runs: u32,
    pub window_runs: u32,
}

pub ghost struct FlakyView {
    pub id: Seq<char>,
    pub failed_runs: u32,
    pub window_runs: u32,
}

impl View for FlakyFinding {
    type V = FlakyView;

    open spec fn view(&self) -> FlakyView {
        FlakyView { id: self.id@, failed_runs: self.failed_runs, window_runs: self.window_runs }
    }
}

impl DescKey for FlakyFinding {
    open spec fn view_key(v: FlakyView) -> int {
        v.failed_runs as int
    }

    fn key(&self) -> (r: u64) {
        self.failed_runs as u64
    }
}

/// How often one test failed (or errored) among the times it ran.
pub ghost struct TallyView {
    pub id: Seq<char>,
    pub failed: nat,
    pub total: nat,
}

/// Index of the first tally of `id`, or `t.len()` when there is none.
pub open spec fn find_tally(t: Seq<TallyView>, id: Seq<char>) -> nat
    decreases t.len(),
{
    if t.len() == 0 {
        0
    } else if t[0].id == id {
        0
    } else {
        1 + find_tally(t.drop_first(), id)
    }
}

/// Per-test tallies of `items` in order of first appearance; skipped results
/// are left out entirely.
pub open spec fn tally(items: Seq<TestResultView>) -> Seq<TallyView>
    decreases items.len(),
{
    if items.len() == 0 {
        Seq::empty()
    } else {
        let t = tally(items.drop_last());
        let r = items.last();
        if r.status == Status::Skipped {
            t
        } else {
            let id = result_id(r);
            let f: nat = if is_failure(r.status) { 1 } else { 0 };
            let k = find_tally(t, id);
            if k < t.len() {
                t.update(k as int, TallyView { id, failed: t[k as int].failed + f, total: t[k as int].total + 1 })
            } else {
                t.push(TallyView { id, failed: f, total: 1 })
            }
        }
    }
}

/// All results of the window's runs, run after run.
pub open spec fn flatten_runs(window: Seq<Seq<TestResultView>>) -> Seq<TestResultView>
    decreases window.len(),
{
    if window.len() == 0 {
        Seq::empty()
    } else {
        flatten_runs(window.drop_last()) + window.last()
    }
}

/// A count as stored in a finding: saturated at `u32::MAX`.
pub open spec fn clip(n: nat) -> u32 {
    if n <= u32::MAX { n as u32 } else { u32::MAX }
}

/// Tallies that both passed and failed at least once.
pub open spec fn flaky_candidates(t: Seq<TallyView>) -> Seq<FlakyView>
    decreases t.len(),
{
    if t.len() == 0 {
        Seq::empty()
    } else {
        let rest = flaky_candidates(t.drop_last());
        let x = t.last();
        if 0 < clip(x.failed) && clip(x.failed) < clip(x.total) {
            rest.push(FlakyView { id: x.id, failed_runs: clip(x.failed), window_runs: clip(x.total) })
        } else {
            rest
        }
    }
}

/// The flaky findings of a window of runs: tests that show up both passing
/// and failing or erroring at least once, most failures first. Skipped
/// results are ignored entirely.
pub open spec fn flaky_findings(window: Seq<Seq<TestResultView>>) -> Seq<FlakyView> {
    sort_desc(flaky_candidates(tally(flatten_runs(window))), key_of::<FlakyFinding>())
}

proof fn lemma_find_tally(t: Seq<TallyView>, id: Seq<char>)
    ensures
        find_tally(t, id) <= t.len(),
        find_tally(t, id) < t.len() ==> t[find_tally(t, id) as int].id == id,
        forall|j: int| 0 <= j < find_tally(t, id) ==> t[j].id != id,
    decreases t.len(),
{
    if t.len() > 0 && t[0].id != id {
        lemma_find_tally(t.drop_first(), id);
        assert forall|j: int| 0 <= j < find_tally(t, id) implies t[j].id != id by {
            if j > 0 {
                assert(t[j] == t.drop_first()[j - 1]);
            }
        }
    }
}

proof fn lemma_find_tally_is(t: Seq<TallyView>, id: Seq<char>, k: nat)
    requires
        k <= t.len(),
        k < t.len() ==> t[k as int].id == id,
        forall|j: int| 0 <= j < k ==> t[j].id != id,
    ensures
        find_tally(t, id) == k,
{
    lemma_find_tally(t, id);
    if find_tally(t, id) < k {
        assert(t[find_tally(t, id) as int].id != id);
    } else if find_tally(t, id) > k {
        assert(t[k as int].id != id);
    }
}

/// Number of results of test `id` among `items` that failed or errored.
pub open spec fn failures_of(items: Seq<TestResultView>, id: Seq<char>) -> nat
    decreases items.len(),
{
    if items.len() == 0 {
        0
    } else {
        failures_of(items.drop_last(), id) + if result_id(items.last()) == id && is_failure(items.last().status) {
            1nat
        } else {
            0nat
        }
    }
}

/// Number of results of test `id` among `items` that passed.
pub open spec fn passes_of(items: Seq<TestResultView>, id: Seq<char>) -> nat
    decreases items.len(),
{
    if items.len() == 0 {
        0
    } else {
        passes_of(items.drop_last(), id) + if result_id(items.last()) == id && items.last().status == Status::Passed {
            1nat
        } else {
            0nat
        }
    }
}

pub open spec fn distinct_ids(t: Seq<TallyView>) -> bool {
    forall|i: int, j: int| 0 <= i < j < t.len() ==> t[i].id != t[j].id
}

/// The tally holds one entry per test that ran (was not skipped), counting
/// its failures and all its runs.
proof fn lemma_tally_counts(items: Seq<TestResultView>)
    ensures
        distinct_ids(tally(items)),
        forall|id: Seq<char>| #![trigger find_tally(tally(items), id)] {
            let t = tally(items);
            let k = find_tally(t, id);
            &&& (k < t.len() <==> failures_of(items, id) + passes_of(items, id) > 0)
            &&& k < t.len() ==> {
                &&& t[k as int].failed == failures_of(items, id)
                &&& t[k as int].total == failures_of(items, id) + passes_of(items, id)
            }
        },
    decreases items.len(),
{
    if items.len() > 0 {
        let prefix = items.drop_last();
        lemma_tally_counts(prefix);
        let t = tally(prefix);
        let t2 = tally(items);
        let r = items.last();
        if r.status == Status::Skipped {
            assert forall|id: Seq<char>| #![trigger find_tally(t2, id)] {
                let k = find_tally(t2, id);
                &&& (k < t2.len() <==> failures_of(items, id) + passes_of(items, id) > 0)
                &&& k < t2.len() ==> {
                    &&& t2[k as int].failed == failures_of(items, id)
                    &&& t2[k as int].total == failures_of(items, id) + passes_of(items, id)
                }
            } by {
                assert(find_tally(t, id) == find_tally(t2, id));
            }
        } else {
            let rid = result_id(r);
            lemma_find_tally(t, rid);
            let k0 = find_tally(t, rid);
            if k0 < t.len() {
                assert forall|i: int| 0 <= i < t2.len() implies #[trigger] t2[i].id == t[i].id by {}
                assert forall|id: Seq<char>| #![trigger find_tally(t2, id)] {
                    let k = find_tally(t2, id);
                    &&& (k < t2.len() <==> failures_of(items, id) + passes_of(items, id) > 0)
                    &&& k < t2.len() ==> {
                        &&& t2[k as int].failed == failures_of(items, id)
                        &&& t2[k as int].total == failures_of(items, id) + passes_of(items, id)
                    }
                } by {
                    lemma_find_tally(t, id);
                    lemma_find_tally_is(t2, id, find_tally(t, id));
                }
            } else {
                assert forall|i: int| 0 <= i < t.len() implies #[trigger] t2[i] == t[i] by {}
                assert forall|id: Seq<char>| #![trigger find_tally(t2, id)] {
                    let k = find_tally(t2, id);
                    &&& (k < t2.len() <==> failures_of(items, id) + passes_of(items, id) > 0)
                    &&& k < t2.len() ==> {
                        &&& t2[k as int].failed == failures_of(items, id)
                        &&& t2[k as int].total == failures_of(items, id) + passes_of(items, id)
                    }
                } by {
                    lemma_find_tally(t, id);
                    if find_tally(t, id) < t.len() {
                        lemma_find_tally_is(t2, id, find_tally(t, id));
                    } else if id == rid {
                        lemma_find_tally_is(t2, id, t.len());
                    } else {
                        lemma_find_tally_is(t2, id, t2.len());
                    }
                }
            }
        }
    }
}

/// With distinct ids, a tally gives a flaky candidate exactly when it both
/// failed and passed, and the candidate carries its counts.
proof fn lemma_flaky_candidates_ids(t: Seq<TallyView>, id: Seq<char>)
    requires
        distinct_ids(t),
    ensures
        ({
            let c = flaky_candidates(t);
            let k = find_tally(t, id);
            &&& (exists|i: int| 0 <= i < c.len() && #[trigger] c[i].id == id)
                <==> (k < t.len() && 0 < clip(t[k as int].failed) && clip(t[k as int].failed) < clip(t[k as int].total))
            &&& forall|i: int| 0 <= i < c.len() && #[trigger] c[i].id == id ==> {
                &&& k < t.len()
                &&& c[i].failed_runs == clip(t[k as int].failed)
                &&& c[i].window_runs == clip(t[k as int].total)
            }
        }),
    decreases t.len(),
{
    if t.len() > 0 {
        let t1 = t.drop_last();
        let x = t.last();
        assert(distinct_ids(t1));
        lemma_flaky_candidates_ids(t1, id);
        lemma_find_tally(t1, id);
        lemma_find_tally(t, id);
        let rest = flaky_candidates(t1);
        let c = flaky_candidates(t);
        if x.id == id {
            lemma_find_tally_is(t1, id, t1.len());
            lemma_find_tally_is(t, id, t1.len());
            assert(!(exists|i: int| 0 <= i < rest.len() && #[trigger] rest[i].id == id));
            if 0 < clip(x.failed) && clip(x.failed) < clip(x.total) {
                assert(c[c.len() - 1].id == id);
            }
        } else {
            if find_tally(t1, id) < t1.len() {
                lemma_find_tally_is(t, id, find_tally(t1, id));
            } else {
                assert forall|j: int| 0 <= j < t.len() implies #[trigger] t[j].id != id by {
                    if j < t1.len() {
                        assert(t[j] == t1[j]);
                    }
                }
                lemma_find_tally_is(t, id, t.len());
            }
            if exists|i: int| 0 <= i < c.len() && #[trigger] c[i].id == id {
                let i = choose|i: int| 0 <= i < c.len() && #[trigger] c[i].id == id;
                assert(i < rest.len() && rest[i] == c[i]);
            }
            if exists|i: int| 0 <= i < rest.len() && #[trigger] rest[i].id == id {
                let i = choose|i: int| 0 <= i < rest.len() && #[trigger] rest[i].id == id;
                assert(c[i] == rest[i]);
            }
            assert forall|i: int| 0 <= i < c.len() && #[trigger] c[i].id == id implies i < rest.len() && c[i] == rest[i] by {}
        }
    }
}

/// A test is flaky within a window exactly when, among the window's results,
/// it failed or errored at least once and passed at least once (skipped
/// results count for nothing); its finding counts those failures and all of
/// its results that were not skipped.
pub proof fn flaky_means_failed_and_passed(window: Seq<Seq<TestResultView>>, id: Seq<char>)
    requires
        failures_of(flatten_runs(window), id) + passes_of(flatten_runs(window), id) <= u32::MAX,
    ensures
        (exists|i: int| 0 <= i < flaky_findings(window).len() && #[trigger] flaky_findings(window)[i].id == id)
            <==> (failures_of(flatten_runs(window), id) > 0 && passes_of(flatten_runs(window), id) > 0),
        forall|i: int| 0 <= i < flaky_findings(window).len() && #[trigger] flaky_findings(window)[i].id == id ==> {
            &&& flaky_findings(window)[i].failed_runs == failures_of(flatten_runs(window), id)
            &&& flaky_findings(window)[i].window_runs
                == failures_of(flatten_runs(window), id) + passes_of(flatten_runs(window), id)
        },
{
    broadcast use vstd::seq_lib::group_to_multiset_ensures;

    let items = flatten_runs(window);
    let t = tally(items);
    lemma_tally_counts(items);
    let k = find_tally(t, id);
    lemma_find_tally(t, id);
    lemma_flaky_candidates_ids(t, id);
    let c = flaky_candidates(t);
    let key = key_of::<FlakyFinding>();
    let f = flaky_findings(window);
    assert(f == sort_desc(c, key));
    lemma_sort_desc(c, key);
    assert forall|i: int| 0 <= i < f.len() && #[trigger] f[i].id == id implies {
        &&& f[i].failed_runs == failures_of(items, id)
        &&& f[i].window_runs == failures_of(items, id) + passes_of(items, id)
        &&& exists|j: int| 0 <= j < c.len() && #[trigger] c[j].id == id
    } by {
        lemma_sort_desc_members(c, key, i);
        let j = choose|j: int| 0 <= j < c.len() && c[j] == f[i];
        assert(c[j].id == id);
    }
    if exists|j: int| 0 <= j < c.len() && #[trigger] c[j].id == id {
        let j = choose|j: int| 0 <= j < c.len() && #[trigger] c[j].id == id;
        assert(c.to_multiset().contains(c[j]));
        assert(f.to_multiset().contains(c[j]));
        assert(f.contains(c[j]));
        let i = choose|i: int| 0 <= i < f.len() && f[i] == c[j];
        assert(f[i].id == id);
    }
}

/// `items` without its skipped results, in order.
pub open spec fn unskipped(items: Seq<TestResultView>) -> Seq<TestResultView>
    decreases items.len(),
{
    if items.len() == 0 {
        Seq::empty()
    } else if items.last().status == Status::Skipped {
        unskipped(items.drop_last())
    } else {
        unskipped(items.drop_last()).push(items.last())
    }
}

/// Each run of `window` without its skipped results.
pub open spec fn strip_skipped(window: Seq<Seq<TestResultView>>) -> Seq<Seq<TestResultView>> {
    window.map_values(|run: Seq<TestResultView>| unskipped(run))
}

proof fn lemma_tally_unskipped(items: Seq<TestResultView>)
    ensures
        tally(unskipped(items)) == tally(items),
    decreases items.len(),
{
    if items.len() > 0 {
        lemma_tally_unskipped(items.drop_last());
        if items.last().status != Status::Skipped {
            let u = unskipped(items);
            assert(u.drop_last() =~= unskipped(items.drop_last()));
        }
    }
}

proof fn lemma_unskipped_append(a: Seq<TestResultView>, b: Seq<TestResultView>)
    ensures
        unskipped(a + b) == unskipped(a) + unskipped(b),
    decreases b.len(),
{
    if b.len() == 0 {
        assert(a + b =~= a);
        assert(unskipped(a) + unskipped(b) =~= unskipped(a));
    } else {
        lemma_unskipped_append(a, b.drop_last());
        assert((a + b).drop_last() =~= a + b.drop_last());
        assert((a + b).last() == b.last());
        if b.last().status != Status::Skipped {
            assert(unskipped(a) + unskipped(b.drop_last()).push(b.last())
                =~= (unskipped(a) + unskipped(b.drop_last())).push(b.last()));
        }
    }
}

proof fn lemma_flatten_unskipped(window: Seq<Seq<TestResultView>>)
    ensures
        flatten_runs(strip_skipped(window)) == unskipped(flatten_runs(window)),
    decreases window.len(),
{
    if window.len() > 0 {
        lemma_flatten_unskipped(window.drop_last());
        assert(strip_skipped(window).drop_last() =~= strip_skipped(window.drop_last()));
        lemma_unskipped_append(flatten_runs(window.drop_last()), window.last());
    } else {
        assert(strip_skipped(window) =~= Seq::<Seq<TestResultView>>::empty());
    }
}

/// Skipped results are ignored entirely: the flaky findings of a window are
/// those of the same window with every skipped result taken out.
pub proof fn flaky_ignores_skipped(window: Seq<Seq<TestResultView>>)
    ensures
        flaky_findings(strip_skipped(window)) == flaky_findings(window),
{
    lemma_flatten_unskipped(window);
    lemma_tally_unskipped(flatten_runs(window));
}

/// The exec tally: per-test counts saturated at `u32::MAX`, in order of first
/// appearance, with an index from id to position.
struct Tally {
    entries: Vec<(String, u32, u32)>,
    index: StringHashMap<usize>,
}

pub open spec fn tally_agrees(entries: Seq<(String, u32, u32)>, t: Seq<TallyView>) -> bool {
    &&& entries.len() == t.len()
    &&& forall|j: int| 0 <= j < t.len() ==> {
        &&& (#[trigger] entries[j]).0@ == t[j].id
        &&& entries[j].1 == clip(t[j].failed)
        &&& entries[j].2 == clip(t[j].total)
    }
}

pub open spec fn index_agrees(index: Map<Seq<char>, usize>, t: Seq<TallyView>) -> bool {
    forall|id: Seq<char>| {
        &&& #[trigger] index.contains_key(id) <==> find_tally(t, id) < t.len()
        &&& index.contains_key(id) ==> index[id] == find_tally(t, id)
    }
}

fn sat_inc(x: u32) -> (r: u32)
    ensures
        forall|n: nat| x == #[trigger] clip(n) ==> r == clip(n + 1),
{
    if x < u32::MAX { x + 1 } else { x }
}

fn count_runs(window: &Vec<Vec<StoredResult>>) -> (r: Tally)
    ensures
        tally_agrees(r.entries@, tally(flatten_runs(window@.map_values(|v: Vec<StoredResult>| stored_view(v@))))),
{
    let ghost w = window@.map_values(|v: Vec<StoredResult>| stored_view(v@));
    let mut entries: Vec<(String, u32, u32)> = Vec::new();
    let mut index: StringHashMap<usize> = StringHashMap::new();
    let mut i: usize = 0;
    assert(w.take(0) =~= Seq::<Seq<TestResultView>>::empty());
    assert(tally(Seq::<TestResultView>::empty()) =~= Seq::<TallyView>::empty());
    while i < window.len()
        invariant
            i <= window.len(),
            w == window@.map_values(|v: Vec<StoredResult>| stored_view(v@)),
            tally_agrees(entries@, tally(flatten_runs(w.take(i as int)))),
            index_agrees(index@, tally(flatten_runs(w.take(i as int)))),
        decreases window.len() - i,
    {
        let run = &window[i];
        let ghost prefix = flatten_runs(w.take(i as int));
        let ghost items = stored_view(run@);
        assert(w[i as int] == items);
        assert(w.take(i + 1).drop_last() =~= w.take(i as int));
        assert(flatten_runs(w.take(i + 1)) == prefix + items);
        let mut j: usize = 0;
        assert(prefix + items.take(0) =~= prefix);
        while j < run.len()
            invariant
                i < window.len(),
                run == &window[i as int],
                j <= run.len(),
                items == stored_view(run@),
                tally_agrees(entries@, tally(prefix + items.take(j as int))),
                index_agrees(index@, tally(prefix + items.take(j as int))),
            decreases run.len() - j,
        {
            let r = &run[j];
            let ghost before = prefix + items.take(j as int);
            let ghost after = prefix + items.take(j + 1);
            assert(after.drop_last() =~= before);
            assert(after.last() == r@);
            let ghost t = tally(before);
            proof { lemma_find_tally(t, result_id(r@)); }
            if r.status != Status::Skipped {
                let id = canonical_id(r.suite.as_str(), r.name.as_str());
                let failed = r.status == Status::Failed || r.status == Status::Error;
                match index.get(id.as_str()) {
                    Some(k) => {
                        let k = *k;
                        let (name, f, n) = entries.remove(k);
                        let f2 = if failed { sat_inc(f) } else { f };
                        let n2 = sat_inc(n);
                        entries.insert(k, (name, f2, n2));
                        proof {
                            let t2 = tally(after);
                            assert(t2 == t.update(k as int, TallyView {
                                id: result_id(r@),
                                failed: t[k as int].failed + if is_failure(r@.status) { 1nat } else { 0nat },
                                total: t[k as int].total + 1,
                            }));
                            assert forall|id2: Seq<char>| #[trigger] index@.contains_key(id2) implies index@[id2] == find_tally(t2, id2) by {
                                lemma_find_tally(t, id2);
                                lemma_find_tally_is(t2, id2, find_tally(t, id2));
                            }
                            assert forall|id2: Seq<char>| #[trigger] index@.contains_key(id2) <==> find_tally(t2, id2) < t2.len() by {
                                lemma_find_tally(t, id2);
                                lemma_find_tally_is(t2, id2, find_tally(t, id2));
                            }
                            assert forall|q: int| 0 <= q < t2.len() implies {
                                &&& (#[trigger] entries@[q]).0@ == t2[q].id
                                &&& entries@[q].1 == clip(t2[q].failed)
                                &&& entries@[q].2 == clip(t2[q].total)
                            } by {
                                if q == k {
                                    assert(f == clip(t[k as int].failed));
                                }
                            }
                        }
                    },
                    None => {
                        let pos = entries.len();
                        entries.push((id.clone(), if failed { 1 } else { 0 }, 1));
                        index.insert(id, pos);
                        proof {
                            let t2 = tally(after);
                            assert(t2 == t.push(TallyView {
                                id: result_id(r@),
                                failed: if is_failure(r@.status) { 1nat } else { 0nat },
                                total: 1,
                            }));
                            assert forall|id2: Seq<char>| #![trigger find_tally(t2, id2)] {
                                &&& index@.contains_key(id2) <==> find_tally(t2, id2) < t2.len()
                                &&& index@.contains_key(id2) ==> index@[id2] == find_tally(t2, id2)
                            } by {
                                lemma_find_tally(t, id2);
                                if find_tally(t, id2) < t.len() {
                                    lemma_find_tally_is(t2, id2, find_tally(t, id2));
                                } else if id2 == result_id(r@) {
                                    lemma_find_tally_is(t2, id2, t.len());
                                } else {
                                    lemma_find_tally_is(t2, id2, t2.len());
                                }
                            }
                        }
                    },
                }
            }
            j = j + 1;
        }
        assert(items.take(run@.len() as int) =~= items);
        i = i + 1;
    }
    assert(w.take(window@.len() as int) =~= w);
    Tally { entries, index }
}

pub open spec fn window_view(window: Seq<Vec<StoredResult>>) -> Seq<Seq<TestResultView>> {
    window.map_values(|v: Vec<StoredResult>| stored_view(v@))
}

/// The flaky findings of a window of runs' results (see [`flaky_findings`]).
pub fn find_flaky(window: &Vec<Vec<StoredResult>>) -> (r: Vec<FlakyFinding>)
    ensures
        views(r@) == flaky_findings(window_view(window@)),
{
    let counts = count_runs(window);
    let ghost t = tally(flatten_runs(window_view(window@)));
    let mut cands: Vec<FlakyFinding> = Vec::new();
    let mut i: usize = 0;
    assert(t.take(0) =~= Seq::<TallyView>::empty());
    while i < counts.entries.len()
        invariant
            i <= counts.entries.len(),
            tally_agrees(counts.entries@, t),
            views(cands@) =~= flaky_candidates(t.take(i as int)),
        decreases counts.entries.len() - i,
    {
        let e = &counts.entries[i];
        assert(t.take(i + 1).drop_last() =~= t.take(i as int));
        assert(t.take(i + 1).last() == t[i as int]);
        if 0 < e.1 && e.1 < e.2 {
            let f = FlakyFinding { id: e.0.clone(), failed_runs: e.1, window_runs: e.2 };
            let ghost before = views(cands@);
            cands.push(f);
            assert(views(cands@) =~= before.push(f@));
        }
        i = i + 1;
    }
    assert(t.take(i as int) =~= t);
    sort_by_key_desc(cands)
}

// ---------------------------------------------------------------------------
// Regressions.

#[derive(Debug, Clone)]
pub struct RegressionFinding {
    pub id: String,
    pub prev_us: u64,
    pub current_us: u64,
    /// `current_us / prev_us`, in millionths (rounded down).
    pub factor_millionths: u64,
}

pub ghost struct RegressionView {
    pub id: Seq<char>,
    pub prev_us: u64,
    pub current_us: u64,
    pub factor_millionths: u64,
}

impl View for RegressionFinding {
    type V = RegressionView;

    open spec fn view(&self) -> RegressionView {
        RegressionView {
            id: self.id@,
            prev_us: self.prev_us,
            current_us: self.current_us,
            factor_millionths: self.factor_millionths,
        }
    }
}

impl DescKey for RegressionFinding {
    open spec fn view_key(v: RegressionView) -> int {
        v.factor_millionths as int
    }

    fn key(&self) -> (r: u64) {
        self.factor_millionths
    }
}

/// The duration of each test in the previous run, by canonical id; a later
/// result of the same id overrides an earlier one.
pub open spec fn prev_times(prev: Seq<TestResultView>) -> Map<Seq<char>, u64>
    decreases prev.len(),
{
    if prev.len() == 0 {
        Map::empty()
    } else {
        prev_times(prev.drop_last()).insert(result_id(prev.last()), prev.last().time_us)
    }
}

/// A slowdown from `prev_us` to `current_us` is a regression when the
/// baseline is not zero, the growth factor reaches the threshold and the
/// growth reaches the minimum.
pub open spec fn regressed(prev_us: u64, current_us: u64, th: Thresholds) -> bool {
    &&& prev_us != 0
    &&& current_us * 1_000_000 >= th.regression_factor_millionths * prev_us
    &&& current_us - prev_us >= th.regression_min_us
}

/// The growth factor in millionths, rounded down and saturated.
pub open spec fn factor_of(prev_us: u64, current_us: u64) -> u64 {
    let f = (current_us * 1_000_000) / (prev_us as int);
    if f <= u64::MAX { f as u64 } else { u64::MAX }
}

/// The current results that regressed against `prev`, in the order given.
pub open spec fn regression_candidates(
    prev: Map<Seq<char>, u64>,
    current: Seq<TestResultView>,
    th: Thresholds,
) -> Seq<RegressionView>
    decreases current.len(),
{
    if current.len() == 0 {
        Seq::empty()
    } else {
        let rest = regression_candidates(prev, current.drop_last(), th);
        let r = current.last();
        let id = result_id(r);
        if prev.contains_key(id) && regressed(prev[id], r.time_us, th) {
            rest.push(RegressionView {
                id,
                prev_us: prev[id],
                current_us: r.time_us,
                factor_millionths: factor_of(prev[id], r.time_us),
            })
        } else {
            rest
        }
    }
}

/// The regression findings of a run against the previous run, largest
/// growth factor first.
pub open spec fn regression_findings(
    prev: Seq<TestResultView>,
    current: Seq<TestResultView>,
    th: Thresholds,
) -> Seq<RegressionView> {
    sort_desc(regression_candidates(prev_times(prev), current, th), key_of::<RegressionFinding>())
}

proof fn lemma_regressed_monotone(prev_us: u64, current_us: u64, loose: Thresholds, strict: Thresholds)
    requires
        strict.regression_factor_millionths >= loose.regression_factor_millionths,
        strict.regression_min_us >= loose.regression_min_us,
        regressed(prev_us, current_us, strict),
    ensures
        regressed(prev_us, current_us, loose),
{
    let fs = strict.regression_factor_millionths as int;
    let fl = loose.regression_factor_millionths as int;
    let p = prev_us as int;
    assert(fs * p >= fl * p) by (nonlinear_arith)
        requires fs >= fl, p >= 0;
}

proof fn lemma_candidates_monotone(pm: Map<Seq<char>, u64>, current: Seq<TestResultView>, loose: Thresholds, strict: Thresholds)
    requires
        strict.regression_factor_millionths >= loose.regression_factor_millionths,
        strict.regression_min_us >= loose.regression_min_us,
    ensures
        forall|x: RegressionView| regression_candidates(pm, current, strict).contains(x)
            ==> #[trigger] regression_candidates(pm, current, loose).contains(x),
    decreases current.len(),
{
    if current.len() > 0 {
        let rest_s = regression_candidates(pm, current.drop_last(), strict);
        let rest_l = regression_candidates(pm, current.drop_last(), loose);
        lemma_candidates_monotone(pm, current.drop_last(), loose, strict);
        let cs = regression_candidates(pm, current, strict);
        let cl = regression_candidates(pm, current, loose);
        let r = current.last();
        let id = result_id(r);
        if pm.contains_key(id) && regressed(pm[id], r.time_us, strict) {
            lemma_regressed_monotone(pm[id], r.time_us, loose, strict);
        }
        assert forall|x: RegressionView| cs.contains(x) implies #[trigger] cl.contains(x) by {
            let k = choose|k: int| 0 <= k < cs.len() && cs[k] == x;
            if k < rest_s.len() {
                assert(cs[k] == rest_s[k]);
                assert(rest_s.contains(x));
                assert(rest_l.contains(x));
                let j = choose|j: int| 0 <= j < rest_l.len() && rest_l[j] == x;
                assert(cl[j] == rest_l[j]);
            } else {
                assert(cl[cl.len() - 1] == x);
            }
        }
    }
}

/// Raising the regression thresholds never adds a regression: every finding
/// under the stricter thresholds is also a finding under the looser ones.
pub proof fn stricter_thresholds_find_no_more(
    prev: Seq<TestResultView>,
    current: Seq<TestResultView>,
    loose: Thresholds,
    strict: Thresholds,
    i: int,
)
    requires
        strict.regression_factor_millionths >= loose.regression_factor_millionths,
        strict.regression_min_us >= loose.regression_min_us,
        0 <= i < regression_findings(prev, current, strict).len(),
    ensures
        regression_findings(prev, current, loose).contains(regression_findings(prev, current, strict)[i]),
{
    broadcast use vstd::seq_lib::group_to_multiset_ensures;

    let pm = prev_times(prev);
    let key = key_of::<RegressionFinding>();
    let cs = regression_candidates(pm, current, strict);
    let cl = regression_candidates(pm, current, loose);
    let x = regression_findings(prev, current, strict)[i];
    lemma_sort_desc_members(cs, key, i);
    lemma_candidates_monotone(pm, current, loose, strict);
    assert(cl.contains(x));
    lemma_sort_desc(cl, key);
    assert(cl.to_multiset().contains(x));
    assert(sort_desc(cl, key).to_multiset().contains(x));
}

/// The regression findings of `current` against `prev` (see
/// [`regression_findings`]).
pub fn find_regressions(prev: &Vec<StoredResult>, current: &Vec<StoredResult>, th: &Thresholds) -> (r: Vec<RegressionFinding>)
    ensures
        views(r@) == regression_findings(stored_view(prev@), stored_view(current@), *th),
{
    let ghost pv = stored_view(prev@);
    let mut times: StringHashMap<u64> = StringHashMap::new();
    let mut i: usize = 0;
    assert(pv.take(0) =~= Seq::<TestResultView>::empty());
    assert(times@ =~= prev_times(pv.take(0)));
    while i < prev.len()
        invariant
            i <= prev.len(),
            pv == stored_view(prev@),
            times@ == prev_times(pv.take(i as int)),
        decreases prev.len() - i,
    {
        let r = &prev[i];
        assert(pv.take(i + 1).drop_last() =~= pv.take(i as int));
        assert(pv.take(i + 1).last() == r@);
        times.insert(canonical_id(r.suite.as_str(), r.name.as_str()), r.time_us);
        i = i + 1;
    }
    assert(pv.take(i as int) =~= pv);
    let ghost cv = stored_view(current@);
    let ghost pm = prev_times(pv);
    let mut cands: Vec<RegressionFinding> = Vec::new();
    let mut j: usize = 0;
    assert(cv.take(0) =~= Seq::<TestResultView>::empty());
    while j < current.len()
        invariant
            j <= current.len(),
            cv == stored_view(current@),
            times@ == pm,
            views(cands@) =~= regression_candidates(pm, cv.take(j as int), *th),
        decreases current.len() - j,
    {
        let r = &current[j];
        assert(cv.take(j + 1).drop_last() =~= cv.take(j as int));
        assert(cv.take(j + 1).last() == r@);
        let id = canonical_id(r.suite.as_str(), r.name.as_str());
        match times.get(id.as_str()) {
            Some(p) => {
                let p = *p;
                let c = r.time_us;
                proof { lemma_mul_fits(th.regression_factor_millionths, p); }
                if p != 0 && (c as u128) * 1_000_000 >= (th.regression_factor_millionths as u128) * (p as u128)
                    && c >= p && c - p >= th.regression_min_us {
                    let q = (c as u128) * 1_000_000 / (p as u128);
                    let factor: u64 = if q <= u64::MAX as u128 { q as u64 } else { u64::MAX };
                    let f = RegressionFinding { id, prev_us: p, current_us: c, factor_millionths: factor };
                    let ghost before = views(cands@);
                    cands.push(f);
                    assert(views(cands@) =~= before.push(f@));
                }
            },
            None => {},
        }
        j = j + 1;
    }
    assert(cv.take(j as int) =~= cv);
    sort_by_key_desc(cands)
}

proof fn lemma_mul_fits(a: u64, b: u64)
    ensures
        (a as int) * (b as int) <= u128::MAX,
        (a <= u32::MAX && b <= u32::MAX) ==> (a as int) * (b as int) <= u64::MAX,
{
    assert((a as int) * (b as int) <= (u64::MAX as int) * (u64::MAX as int)) by (nonlinear_arith)
        requires a <= u64::MAX, b <= u64::MAX, 0 <= a, 0 <= b;
    if a <= u32::MAX && b <= u32::MAX {
        assert((a as int) * (b as int) <= (u32::MAX as int) * (u32::MAX as int)) by (nonlinear_arith)
            requires a <= u32::MAX, b <= u32::MAX, 0 <= a, 0 <= b;
    }
}

// ---------------------------------------------------------------------------
// Cost and score.

#[derive(Debug, Clone, Copy)]
pub struct CostInfo {
    /// Total test time, in millionths of a minute.
    pub total_min_millionths: u64,
    /// Cost of the run, in millionths.
    pub amount_millionths: u64,
}

/// The cost of a run that took `total_us`, at `per_min` (millionths) per
/// minute; both rounded down, the amount saturated.
pub open spec fn cost_of(total_us: u64, per_min: u64) -> CostInfo {
    let amount = (total_us * per_min) / 60_000_000;
    CostInfo {
        total_min_millionths: (total_us / 60) as u64,
        amount_millionths: if amount <= u64::MAX { amount as u64 } else { u64::MAX },
    }
}

fn compute_cost(total_us: u64, per_min: u64) -> (r: CostInfo)
    ensures
        r == cost_of(total_us, per_min),
{
    proof { lemma_mul_fits(total_us, per_min); }
    let amount = (total_us as u128) * (per_min as u128) / 60_000_000;
    CostInfo {
        total_min_millionths: total_us / 60,
        amount_millionths: if amount <= u64::MAX as u128 { amount as u64 } else { u64::MAX },
    }
}

#[derive(Debug, Clone, Copy, PartialEq, Eq, Structural)]
pub enum HealthStatus {
    Healthy,
    NeedsPruning,
    Overgrown,
}

/// `count` findings at `weight` points each, saturated, then capped at `cap`.
pub open spec fn penalty(count: nat, weight: u32, cap: u32) -> u32 {
    let n = count as u32;
    let p = if n * weight <= u32::MAX { (n * weight) as u32 } else { u32::MAX };
    if p <= cap { p } else { cap }
}

pub open spec fn sat_add(a: u32, b: u32) -> u32 {
    if a + b <= u32::MAX { (a + b) as u32 } else { u32::MAX }
}

/// The health score: 100 less the capped penalties of all findings, never
/// below 0.
pub open spec fn health_score(flaky: nat, slow: nat, regression: nat, w: Weights) -> u32 {
    let total = sat_add(
        sat_add(penalty(flaky, w.flaky, w.flaky_max), penalty(slow, w.slow, w.slow_max)),
        penalty(regression, w.regression, w.regression_max),
    );
    if total >= 100 { 0 } else { (100 - total) as u32 }
}

/// 85 and above is healthy, 60 and above needs pruning, below is overgrown.
pub open spec fn health_status(score: u32) -> HealthStatus {
    if score >= 85 {
        HealthStatus::Healthy
    } else if score >= 60 {
        HealthStatus::NeedsPruning
    } else {
        HealthStatus::Overgrown
    }
}

fn compute_penalty(count: usize, weight: u32, cap: u32) -> (r: u32)
    ensures
        r == penalty(count as nat, weight, cap),
{
    let n = #[verifier::truncate] (count as u32);
    proof { lemma_mul_fits(n as u64, weight as u64); }
    let m = (n as u64) * (weight as u64);
    let p: u32 = if m <= u32::MAX as u64 { m as u32 } else { u32::MAX };
    if p <= cap { p } else { cap }
}

/// The health score of a report with the given numbers of findings.
pub fn score(flaky: usize, slow: usize, regression: usize, w: &Weights) -> (r: u32)
    ensures
        r == health_score(flaky as nat, slow as nat, regression as nat, *w),
        r <= 100,
{
    let total = compute_penalty(flaky, w.flaky, w.flaky_max)
        .saturating_add(compute_penalty(slow, w.slow, w.slow_max))
        .saturating_add(compute_penalty(regression, w.regression, w.regression_max));
    100u32.saturating_sub(total)
}

/// The health status that a score falls in.
pub fn status_of(score: u32) -> (r: HealthStatus)
    ensures
        r == health_status(score),
{
    if score >= 85 {
        HealthStatus::Healthy
    } else if score >= 60 {
        HealthStatus::NeedsPruning
    } else {
        HealthStatus::Overgrown
    }
}

// ---------------------------------------------------------------------------
// The report.

#[derive(Debug, Clone)]
pub struct Report {
    /// Version of the output contract this report conforms to.
    pub schema_version: u32,
    /// 0..=100.
    pub score: u32,
    pub status: HealthStatus,
    /// The run this report is about: the one with the latest `run_at`.
    pub run: RunSummary,
    /// Time-descending.
    pub slow: Vec<SlowFinding>,
    /// Failed-run-count-descending.
    pub flaky: Vec<FlakyFinding>,
    /// Factor-descending.
    pub regression: Vec<RegressionFinding>,
    pub cost: Option<CostInfo>,
    /// Set (and flaky/regression left empty) when history has fewer than 2
    /// runs, since both findings need a prior run to compare against.
    pub insufficient_history: Option<String>,
}

pub ghost struct ReportView {
    pub schema_version: u32,
    pub score: u32,
    pub status: HealthStatus,
    pub run: RunSummaryView,
    pub slow: Seq<SlowView>,
    pub flaky: Seq<FlakyView>,
    pub regression: Seq<RegressionView>,
    pub cost: Option<CostInfo>,
    pub insufficient_history: Option<Seq<char>>,
}

impl View for Report {
    type V = ReportView;

    open spec fn view(&self) -> ReportView {
        ReportView {
            schema_version: self.schema_version,
            score: self.score,
            status: self.status,
            run: self.run@,
            slow: views(self.slow@),
            flaky: views(self.flaky@),
            regression: views(self.regression@),
            cost: self.cost,
            insufficient_history: match self.insufficient_history {
                Some(m) => Some(m@),
                None => None,
            },
        }
    }
}

/// The note on a report of a history of `total_runs` runs, too short for
/// flaky and regression findings.
pub open spec fn insufficient_message(total_runs: i64) -> Seq<char> {
    "insufficient history ("@ + int_text(total_runs as int) + " "@ + (if total_runs == 1 {
        "run"@
    } else {
        "runs"@
    }) + ")"@
}

pub open spec fn opt_stored_view(prev: Option<&Vec<StoredResult>>) -> Option<Seq<TestResultView>> {
    match prev {
        Some(p) => Some(stored_view(p@)),
        None => None,
    }
}

/// The report on the run `target` of a history of `total_runs` runs, from
/// the target's results, the results of each run in the flaky window and
/// those of the previous run, if any.
pub open spec fn report_spec(
    total_runs: i64,
    target: RunSummaryView,
    results: Seq<TestResultView>,
    window: Seq<Seq<TestResultView>>,
    prev: Option<Seq<TestResultView>>,
    config: Config,
) -> ReportView {
    let slow = slow_findings(results, config.thresholds.slow_us);
    let flaky = if total_runs < 2 { Seq::empty() } else { flaky_findings(window) };
    let regression = if total_runs < 2 {
        Seq::empty()
    } else {
        match prev {
            Some(p) => regression_findings(p, results, config.thresholds),
            None => Seq::empty(),
        }
    };
    let score = health_score(flaky.len(), slow.len(), regression.len(), config.weights);
    ReportView {
        schema_version: SCHEMA_VERSION,
        score,
        status: health_status(score),
        run: target,
        slow,
        flaky,
        regression,
        cost: if config.cost.per_min_millionths > 0 {
            Some(cost_of(target.total_time_us, config.cost.per_min_millionths))
        } else {
            None
        },
        insufficient_history: if total_runs < 2 { Some(insufficient_message(total_runs)) } else { None },
    }
}

fn insufficient_note(total_runs: i64) -> (r: String)
    ensures
        r@ == insufficient_message(total_runs),
{
    let mut m = String::from_str("insufficient history (");
    push_int(&mut m, total_runs);
    m.append(" ");
    if total_runs == 1 {
        m.append("run");
    } else {
        m.append("runs");
    }
    m.append(")");
    m
}

/// Assembles the report on `target` from results already read from history
/// (see [`report_spec`]).
pub fn build_report(
    total_runs: i64,
    target: RunSummary,
    results: &Vec<StoredResult>,
    window: &Vec<Vec<StoredResult>>,
    prev: Option<&Vec<StoredResult>>,
    config: &Config,
) -> (r: Report)
    ensures
        r@ == report_spec(total_runs, target@, stored_view(results@), window_view(window@), opt_stored_view(prev), *config),
{
    let slow = find_slow(results, config.thresholds.slow_us);
    let ghost spec = report_spec(total_runs, target@, stored_view(results@), window_view(window@), opt_stored_view(prev), *config);
    let (flaky, regression, insufficient_history): (Vec<FlakyFinding>, Vec<RegressionFinding>, Option<String>) = if total_runs < 2 {
        let f: Vec<FlakyFinding> = Vec::new();
        let g: Vec<RegressionFinding> = Vec::new();
        assert(views(f@) =~= spec.flaky);
        assert(views(g@) =~= spec.regression);
        (f, g, Some(insufficient_note(total_runs)))
    } else {
        let flaky = find_flaky(window);
        let regression = match prev {
            Some(p) => find_regressions(p, results, &config.thresholds),
            None => {
                let g: Vec<RegressionFinding> = Vec::new();
                assert(views(g@) =~= spec.regression);
                g
            },
        };
        (flaky, regression, None)
    };
    assert(views(flaky@) == spec.flaky);
    assert(views(regression@) == spec.regression);
    let cost = if config.cost.per_min_millionths > 0 {
        Some(compute_cost(target.total_time_us, config.cost.per_min_millionths))
    } else {
        None
    };
    let score = score(flaky.len(), slow.len(), regression.len(), &config.weights);
    let status = status_of(score);
    let r = Report {
        schema_version: SCHEMA_VERSION,
        score,
        status,
        run: target,
        slow,
        flaky,
        regression,
        cost,
        insufficient_history,
    };
    r
}

// ---------------------------------------------------------------------------
// Analysis of a history.

/// Why no report could be made.
#[derive(Debug)]
pub enum AnalysisError {
    Db(DbError),
    NoRuns,
}

/// The runs a report is made from: the target (the newest run), the ids of
/// the runs in the flaky window and the id of the previous run, if any.
pub struct RunSelection {
    pub target: RunSummary,
    pub window: Vec<i64>,
    pub prev: Option<i64>,
}

pub ghost struct SelectionView {
    pub target: RunSummaryView,
    pub window: Seq<i64>,
    pub prev: Option<i64>,
}

impl View for RunSelection {
    type V = SelectionView;

    open spec fn view(&self) -> SelectionView {
        SelectionView { target: self.target@, window: self.window@, prev: self.prev }
    }
}

pub open spec fn summaries_of(runs: Seq<RunSummary>) -> Seq<RunSummaryView> {
    runs.map_values(|s: RunSummary| s@)
}

/// How many of the newest runs are fetched: enough for the flaky window and
/// for the one previous run that regressions compare against.
pub open spec fn fetch_limit(flaky_window_runs: usize) -> usize {
    if flaky_window_runs >= 2 { flaky_window_runs } else { 2 }
}

/// Which runs a history of `total_runs` runs whose newest runs are `runs`
/// (newest first) is analysed on: none when there is no run; else the newest
/// run as target and, once there are two runs or more, the first
/// `min(runs.len(), flaky_window_runs)` runs as the flaky window and the
/// second run as the previous one.
pub open spec fn selection_spec(total_runs: i64, runs: Seq<RunSummaryView>, flaky_window_runs: usize) -> Option<SelectionView> {
    if total_runs == 0 || runs.len() == 0 {
        None
    } else {
        let k = if runs.len() < flaky_window_runs { runs.len() } else { flaky_window_runs as nat };
        Some(SelectionView {
            target: runs[0],
            window: if total_runs >= 2 {
                runs.take(k as int).map_values(|s: RunSummaryView| s.id)
            } else {
                Seq::empty()
            },
            prev: if total_runs >= 2 && runs.len() > 1 { Some(runs[1].id) } else { None },
        })
    }
}

/// Chooses the runs to analyse (see [`selection_spec`]); no run at all is
/// `NoRuns`.
pub fn select_runs(total_runs: i64, runs: &Vec<RunSummary>, flaky_window_runs: usize) -> (r: Result<RunSelection, AnalysisError>)
    ensures
        match r {
            Ok(s) => selection_spec(total_runs, summaries_of(runs@), flaky_window_runs) == Some(s@),
            Err(e) => selection_spec(total_runs, summaries_of(runs@), flaky_window_runs) is None && e is NoRuns,
        },
{
    if total_runs == 0 || runs.len() == 0 {
        return Err(AnalysisError::NoRuns);
    }
    let ghost rv = summaries_of(runs@);
    let k = if runs.len() < flaky_window_runs { runs.len() } else { flaky_window_runs };
    let mut window: Vec<i64> = Vec::new();
    if total_runs >= 2 {
        let mut i: usize = 0;
        while i < k
            invariant
                i <= k <= runs.len(),
                rv == summaries_of(runs@),
                window@ =~= rv.take(i as int).map_values(|s: RunSummaryView| s.id),
            decreases k - i,
        {
            window.push(runs[i].id);
            i = i + 1;
        }
    }
    let prev = if total_runs >= 2 && runs.len() > 1 { Some(runs[1].id) } else { None };
    let target = runs[0].duplicate();
    let sel = RunSelection { target, window, prev };
    assert(sel@.window =~= selection_spec(total_runs, rv, flaky_window_runs)->0.window);
    Ok(sel)
}

/// The answers the database `db` gave to an analysis: `n` runs counted, `runs` as
/// the newest ones, and, for the runs chosen from them (see
/// [`selection_spec`]), `res` as the target's results, `win` as those of each
/// run of the flaky window and `prev` as those of the previous run.
pub open spec fn analysis_answers(
    db: int,
    n: i64,
    runs: Seq<RunSummaryView>,
    res: Seq<TestResultView>,
    win: Seq<Seq<TestResultView>>,
    prev: Option<Seq<TestResultView>>,
    flaky_window_runs: usize,
) -> bool {
    &&& exists|a| #[trigger] first_answered(db, COUNT_RUNS_SQL@, a) && count_answer(a) == Ok::<i64, crate::db::DbErrorView>(n)
    &&& runs_answered(db, fetch_limit(flaky_window_runs), Ok(runs))
    &&& selection_spec(n, runs, flaky_window_runs) matches Some(sel) && {
        &&& results_answered(db, sel.target.id, Ok(res))
        &&& win.len() == sel.window.len()
        &&& forall|i: int| 0 <= i < win.len() ==> results_answered(db, #[trigger] sel.window[i], Ok(win[i]))
        &&& match sel.prev {
            Some(p) => prev matches Some(pr) && results_answered(db, p, Ok(pr)),
            None => prev is None,
        }
    }
}

// ---------------------------------------------------------------------------
// Laws of the findings and of the run selection.

proof fn lemma_slow_candidates_count(results: Seq<TestResultView>, threshold: u64)
    ensures
        slow_candidates(results, threshold).len()
            == results.filter(|r: TestResultView| r.time_us >= threshold).len(),
        forall|i: int| 0 <= i < results.len() && results[i].time_us >= threshold ==>
            slow_candidates(results, threshold).contains(
                SlowView { id: result_id(#[trigger] results[i]), time_us: results[i].time_us, threshold_us: threshold },
            ),
    decreases results.len(),
{
    reveal(Seq::filter);
    if results.len() > 0 {
        let pre = results.drop_last();
        lemma_slow_candidates_count(pre, threshold);
        let rest = slow_candidates(pre, threshold);
        let c = slow_candidates(results, threshold);
        assert forall|i: int| 0 <= i < results.len() && results[i].time_us >= threshold implies
            c.contains(SlowView { id: result_id(#[trigger] results[i]), time_us: results[i].time_us, threshold_us: threshold }) by {
            let v = SlowView { id: result_id(results[i]), time_us: results[i].time_us, threshold_us: threshold };
            if i < pre.len() {
                assert(pre[i] == results[i]);
                assert(rest.contains(v));
                let k = choose|k: int| 0 <= k < rest.len() && rest[k] == v;
                assert(c[k] == rest[k]);
            } else {
                assert(c[c.len() - 1] == v);
            }
        }
    }
}

/// Every result of the run that is at least as slow as the threshold is a
/// slow finding, with its id, time and the threshold; there are exactly as
/// many findings as such results, and each finding is at least that slow.
/// They come slowest first.
pub proof fn slow_findings_are_every_slow_result(results: Seq<TestResultView>, threshold: u64)
    ensures
        slow_findings(results, threshold).len()
            == results.filter(|r: TestResultView| r.time_us >= threshold).len(),
        forall|i: int| 0 <= i < results.len() && results[i].time_us >= threshold ==>
            slow_findings(results, threshold).contains(
                SlowView { id: result_id(#[trigger] results[i]), time_us: results[i].time_us, threshold_us: threshold },
            ),
        forall|i: int| 0 <= i < slow_findings(results, threshold).len() ==>
            (#[trigger] slow_findings(results, threshold)[i]).time_us >= threshold,
        forall|i: int, j: int| 0 <= i <= j < slow_findings(results, threshold).len() ==>
            (#[trigger] slow_findings(results, threshold)[i]).time_us >= (#[trigger] slow_findings(results, threshold)[j]).time_us,
{
    broadcast use vstd::seq_lib::group_to_multiset_ensures;

    let c = slow_candidates(results, threshold);
    let key = key_of::<SlowFinding>();
    lemma_slow_candidates_count(results, threshold);
    lemma_slow_candidates(results, threshold);
    lemma_sort_desc(c, key);
    lemma_sort_desc_keeps(c, key, |v: SlowView| v.time_us >= threshold);
    let f = slow_findings(results, threshold);
    assert forall|i: int| 0 <= i < results.len() && results[i].time_us >= threshold implies
        f.contains(SlowView { id: result_id(#[trigger] results[i]), time_us: results[i].time_us, threshold_us: threshold }) by {
        let v = SlowView { id: result_id(results[i]), time_us: results[i].time_us, threshold_us: threshold };
        assert(c.contains(v));
        assert(c.to_multiset().contains(v));
        assert(f.to_multiset().contains(v));
    }
    assert forall|i: int, j: int| 0 <= i <= j < f.len() implies (#[trigger] f[i]).time_us >= (#[trigger] f[j]).time_us by {
        assert(key(f[i]) >= key(f[j]));
    }
}

/// Flaky findings come with the most failed runs first.
pub proof fn flaky_findings_most_failures_first(window: Seq<Seq<TestResultView>>)
    ensures
        forall|i: int, j: int| 0 <= i <= j < flaky_findings(window).len() ==>
            (#[trigger] flaky_findings(window)[i]).failed_runs >= (#[trigger] flaky_findings(window)[j]).failed_runs,
{
    let c = flaky_candidates(tally(flatten_runs(window)));
    let key = key_of::<FlakyFinding>();
    lemma_sort_desc(c, key);
    let f = flaky_findings(window);
    assert forall|i: int, j: int| 0 <= i <= j < f.len() implies (#[trigger] f[i]).failed_runs >= (#[trigger] f[j]).failed_runs by {
        assert(key(f[i]) >= key(f[j]));
    }
}

/// Regression findings come with the largest growth factor first.
pub proof fn regression_findings_largest_factor_first(
    prev: Seq<TestResultView>,
    current: Seq<TestResultView>,
    th: Thresholds,
)
    ensures
        forall|i: int, j: int| 0 <= i <= j < regression_findings(prev, current, th).len() ==>
            (#[trigger] regression_findings(prev, current, th)[i]).factor_millionths
                >= (#[trigger] regression_findings(prev, current, th)[j]).factor_millionths,
{
    let c = regression_candidates(prev_times(prev), current, th);
    let key = key_of::<RegressionFinding>();
    lemma_sort_desc(c, key);
    let f = regression_findings(prev, current, th);
    assert forall|i: int, j: int| 0 <= i <= j < f.len() implies
        (#[trigger] f[i]).factor_millionths >= (#[trigger] f[j]).factor_millionths by {
        assert(key(f[i]) >= key(f[j]));
    }
}

/// Of the newest-first runs of a history with two runs or more, the report
/// is about the newest one, regressions are measured against the one just
/// before it, and the flaky window is made of the newest runs, as many as
/// the window holds (or all of them), newest first.
pub proof fn selection_takes_newest_and_the_one_before(total_runs: i64, runs: Seq<RunSummaryView>, flaky_window_runs: usize)
    requires
        total_runs >= 2,
        runs.len() >= 2,
    ensures
        selection_spec(total_runs, runs, flaky_window_runs) matches Some(sel) && {
            &&& sel.target == runs[0]
            &&& sel.prev == Some(runs[1].id)
            &&& sel.window.len() == if runs.len() < flaky_window_runs { runs.len() } else { flaky_window_runs as nat }
            &&& forall|i: int| 0 <= i < sel.window.len() ==> #[trigger] sel.window[i] == runs[i].id
        },
{
}

/// In an analysis of a history of two runs or more, the results that
/// regressions are measured against are those the database gave for the run
/// just before the newest.
pub proof fn regressions_compare_with_the_run_before(
    db: int,
    n: i64,
    runs: Seq<RunSummaryView>,
    res: Seq<TestResultView>,
    win: Seq<Seq<TestResultView>>,
    prev: Option<Seq<TestResultView>>,
    flaky_window_runs: usize,
)
    requires
        analysis_answers(db, n, runs, res, win, prev, flaky_window_runs),
        n >= 2,
        runs.len() >= 2,
    ensures
        prev matches Some(p) && results_answered(db, runs[1].id, Ok(p)),
        results_answered(db, runs[0].id, Ok(res)),
{
    selection_takes_newest_and_the_one_before(n, runs, flaky_window_runs);
}

/// Analyzes the most recent run in `history` against `config`, producing a
/// [`Report`]. Errors if the history has no runs at all.
///
/// The run count, the most recent runs (enough to cover both the flaky
/// window and the single previous run needed for regression detection) and
/// the results of the runs chosen by [`select_runs`] are read from the
/// database in turn, and the report is assembled from those answers by
/// [`build_report`].
pub fn analyze(history: &History, config: &Config) -> (r: Result<Report, AnalysisError>)
    ensures
        r matches Ok(report) ==> report_consistent(report@, *config),
        r matches Ok(report) ==> exists|n: i64, runs: Seq<RunSummaryView>, res: Seq<TestResultView>,
            win: Seq<Seq<TestResultView>>, prev: Option<Seq<TestResultView>>|
            #![trigger analysis_answers(history.db(), n, runs, res, win, prev, config.thresholds.flaky_window_runs)]
            analysis_answers(history.db(), n, runs, res, win, prev, config.thresholds.flaky_window_runs)
                && report@ == report_spec(n, runs[0], res, win, prev, *config),
        r matches Err(e) && e is NoRuns ==> exists|a| #[trigger] first_answered(history.db(), COUNT_RUNS_SQL@, a) && {
            ||| count_answer(a) == Ok::<i64, crate::db::DbErrorView>(0)
            ||| count_answer(a) is Ok && runs_answered(
                history.db(),
                fetch_limit(config.thresholds.flaky_window_runs),
                Ok(Seq::<RunSummaryView>::empty()),
            )
        },
        r matches Err(AnalysisError::Db(e)) ==> {
            ||| e@ is Sqlite
            ||| exists|a| #[trigger] first_answered(history.db(), COUNT_RUNS_SQL@, a)
                && count_answer(a) == Err::<i64, crate::db::DbErrorView>(e@)
            ||| runs_answered(history.db(), fetch_limit(config.thresholds.flaky_window_runs), Err(e@))
            ||| exists|id: i64| #[trigger] results_answered(history.db(), id, Err(e@))
        },
{
    let total_runs = match history.run_count() {
        Ok(n) => n,
        Err(e) => return Err(AnalysisError::Db(e)),
    };
    if total_runs == 0 {
        return Err(AnalysisError::NoRuns);
    }
    let window = config.thresholds.flaky_window_runs;
    let fetch_limit = if window >= 2 { window } else { 2 };
    let runs = match history.recent_runs(fetch_limit) {
        Ok(v) => v,
        Err(e) => return Err(AnalysisError::Db(e)),
    };
    let ghost rv = summaries_of(runs@);
    assert(runs_answered(history.db(), fetch_limit, Ok(rv)));
    let sel = match select_runs(total_runs, &runs, window) {
        Ok(s) => s,
        Err(e) => {
            assert(rv.len() == 0);
            assert(rv =~= Seq::<RunSummaryView>::empty());
            return Err(e);
        },
    };
    let ghost selv = sel@;
    let results = match history.results_of_run(sel.target.id) {
        Ok(v) => v,
        Err(e) => return Err(AnalysisError::Db(e)),
    };
    let mut window_results: Vec<Vec<StoredResult>> = Vec::new();
    let mut i: usize = 0;
    while i < sel.window.len()
        invariant
            i <= sel.window.len(),
            selv == sel@,
            window_results@.len() == i,
            forall|j: int| 0 <= j < i ==> results_answered(history.db(), #[trigger] selv.window[j], Ok(stored_view(window_results@[j]@))),
        decreases sel.window.len() - i,
    {
        match history.results_of_run(sel.window[i]) {
            Ok(v) => window_results.push(v),
            Err(e) => return Err(AnalysisError::Db(e)),
        }
        i = i + 1;
    }
    let prev_results: Option<Vec<StoredResult>> = match sel.prev {
        Some(p) => match history.results_of_run(p) {
            Ok(v) => Some(v),
            Err(e) => return Err(AnalysisError::Db(e)),
        },
        None => None,
    };
    let prev_ref = prev_results.as_ref();
    let ghost res = stored_view(results@);
    let ghost win = window_view(window_results@);
    let ghost prev = opt_stored_view(prev_ref);
    proof {
        assert forall|j: int| 0 <= j < win.len() implies results_answered(history.db(), #[trigger] selv.window[j], Ok(win[j])) by {
            assert(win[j] == stored_view(window_results@[j]@));
        }
        assert(analysis_answers(history.db(), total_runs, rv, res, win, prev, window));
        report_is_consistent(total_runs, selv.target, res, win, prev, *config);
    }
    let report = build_report(total_runs, sel.target, &results, &window_results, prev_ref, config);
    Ok(report)
}

// ---------------------------------------------------------------------------
// What every report satisfies.

/// What holds of every report made with `config`: the score is within
/// 0..=100 and falls in the band its status names; each list is ordered as
/// documented and holds only findings that meet their thresholds; too short
/// a history has no flaky or regression findings; cost is reported exactly
/// when a cost per minute is configured.
pub open spec fn report_consistent(r: ReportView, config: Config) -> bool {
    &&& r.schema_version == SCHEMA_VERSION
    &&& r.score <= 100
    &&& r.score == health_score(r.flaky.len(), r.slow.len(), r.regression.len(), config.weights)
    &&& r.status == health_status(r.score)
    &&& is_sorted_desc(r.slow, key_of::<SlowFinding>())
    &&& is_sorted_desc(r.flaky, key_of::<FlakyFinding>())
    &&& is_sorted_desc(r.regression, key_of::<RegressionFinding>())
    &&& forall|i: int| 0 <= i < r.slow.len() ==> {
        &&& (#[trigger] r.slow[i]).time_us >= config.thresholds.slow_us
        &&& r.slow[i].threshold_us == config.thresholds.slow_us
    }
    &&& forall|i: int| 0 <= i < r.flaky.len() ==> {
        &&& 0 < (#[trigger] r.flaky[i]).failed_runs
        &&& r.flaky[i].failed_runs < r.flaky[i].window_runs
    }
    &&& forall|i: int| 0 <= i < r.regression.len() ==> {
        &&& regressed((#[trigger] r.regression[i]).prev_us, r.regression[i].current_us, config.thresholds)
        &&& r.regression[i].factor_millionths == factor_of(r.regression[i].prev_us, r.regression[i].current_us)
    }
    &&& r.insufficient_history is Some ==> r.flaky.len() == 0 && r.regression.len() == 0
    &&& (r.cost is Some <==> config.cost.per_min_millionths > 0)
}

proof fn lemma_slow_candidates(results: Seq<TestResultView>, threshold: u64)
    ensures
        forall|i: int| 0 <= i < slow_candidates(results, threshold).len() ==> {
            &&& (#[trigger] slow_candidates(results, threshold)[i]).time_us >= threshold
            &&& slow_candidates(results, threshold)[i].threshold_us == threshold
        },
    decreases results.len(),
{
    if results.len() > 0 {
        let rest = slow_candidates(results.drop_last(), threshold);
        lemma_slow_candidates(results.drop_last(), threshold);
        let c = slow_candidates(results, threshold);
        assert forall|i: int| 0 <= i < c.len() implies #[trigger] c[i].time_us >= threshold && c[i].threshold_us == threshold by {
            if i < rest.len() {
                assert(c[i] == rest[i]);
            }
        }
    }
}

proof fn lemma_flaky_candidates(t: Seq<TallyView>)
    ensures
        forall|i: int| 0 <= i < flaky_candidates(t).len() ==> {
            &&& 0 < (#[trigger] flaky_candidates(t)[i]).failed_runs
            &&& flaky_candidates(t)[i].failed_runs < flaky_candidates(t)[i].window_runs
        },
    decreases t.len(),
{
    if t.len() > 0 {
        let rest = flaky_candidates(t.drop_last());
        lemma_flaky_candidates(t.drop_last());
        let c = flaky_candidates(t);
        assert forall|i: int| 0 <= i < c.len() implies 0 < (#[trigger] c[i]).failed_runs && c[i].failed_runs < c[i].window_runs by {
            if i < rest.len() {
                assert(c[i] == rest[i]);
            }
        }
    }
}

proof fn lemma_regression_candidates(prev: Map<Seq<char>, u64>, current: Seq<TestResultView>, th: Thresholds)
    ensures
        forall|i: int| 0 <= i < regression_candidates(prev, current, th).len() ==> {
            &&& regressed((#[trigger] regression_candidates(prev, current, th)[i]).prev_us,
                regression_candidates(prev, current, th)[i].current_us, th)
            &&& regression_candidates(prev, current, th)[i].factor_millionths
                == factor_of(regression_candidates(prev, current, th)[i].prev_us,
                    regression_candidates(prev, current, th)[i].current_us)
        },
    decreases current.len(),
{
    if current.len() > 0 {
        let rest = regression_candidates(prev, current.drop_last(), th);
        lemma_regression_candidates(prev, current.drop_last(), th);
        let c = regression_candidates(prev, current, th);
        assert forall|i: int| 0 <= i < c.len() implies regressed((#[trigger] c[i]).prev_us, c[i].current_us, th)
            && c[i].factor_millionths == factor_of(c[i].prev_us, c[i].current_us) by {
            if i < rest.len() {
                assert(c[i] == rest[i]);
            }
        }
    }
}

proof fn lemma_health_score_bound(f: nat, s: nat, r: nat, w: Weights)
    ensures
        health_score(f, s, r, w) <= 100,
{
}

/// Every report that [`report_spec`] describes is consistent with its
/// configuration (see [`report_consistent`]).
pub proof fn report_is_consistent(
    total_runs: i64,
    target: RunSummaryView,
    results: Seq<TestResultView>,
    window: Seq<Seq<TestResultView>>,
    prev: Option<Seq<TestResultView>>,
    config: Config,
)
    ensures
        report_consistent(report_spec(total_runs, target, results, window, prev, config), config),
{
    let r = report_spec(total_runs, target, results, window, prev, config);
    let th = config.thresholds;
    let sc = slow_candidates(results, th.slow_us);
    lemma_slow_candidates(results, th.slow_us);
    lemma_sort_desc(sc, key_of::<SlowFinding>());
    lemma_sort_desc_keeps(sc, key_of::<SlowFinding>(), |v: SlowView| v.time_us >= th.slow_us && v.threshold_us == th.slow_us);
    assert(is_sorted_desc(r.slow, key_of::<SlowFinding>()));
    let fc = flaky_candidates(tally(flatten_runs(window)));
    lemma_flaky_candidates(tally(flatten_runs(window)));
    lemma_sort_desc(fc, key_of::<FlakyFinding>());
    lemma_sort_desc_keeps(fc, key_of::<FlakyFinding>(), |v: FlakyView| 0 < v.failed_runs && v.failed_runs < v.window_runs);
    if let Some(p) = prev {
        let rc = regression_candidates(prev_times(p), results, th);
        lemma_regression_candidates(prev_times(p), results, th);
        lemma_sort_desc(rc, key_of::<RegressionFinding>());
        lemma_sort_desc_keeps(rc, key_of::<RegressionFinding>(), |v: RegressionView|
            regressed(v.prev_us, v.current_us, th) && v.factor_millionths == factor_of(v.prev_us, v.current_us));
    }
    lemma_health_score_bound(r.flaky.len(), r.slow.len(), r.regression.len(), config.weights);
    if total_runs < 2 {
        assert(is_sorted_desc(r.flaky, key_of::<FlakyFinding>()));
        assert(is_sorted_desc(r.regression, key_of::<RegressionFinding>()));
    } else if prev is None {
        assert(is_sorted_desc(r.regression, key_of::<RegressionFinding>()));
    }
}

} // verus!
