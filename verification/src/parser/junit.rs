//! JUnit XML parser, PHPUnit dialect first.
//!
//! PHPUnit nests `<testsuite>` arbitrarily deep (config path, named suite,
//! class FQCN, data provider group) and marks outcomes with child elements:
//! `<failure>`, `<error>`, `<skipped/>`. A `<testcase>` with no child passed.

use vstd::prelude::*;

use crate::model::{Status, TestResult, TestResultView, TestRun, TestRunView};
use crate::parser::xml::{unescape_attr_value, xml_event_at, xml_unescape, XmlAttrView, XmlEvent, XmlEventView, XmlReader, XmlTag, XmlTagView};
use crate::parser::{ParseError, ParseErrorView, ReportParser};
use crate::text::str_eq;

verus! {

// ---------------------------------------------------------------------------
// Durations: the `time` attribute, in seconds, read into whole microseconds.

pub open spec fn is_digit(c: char) -> bool {
    '0' <= c && c <= '9'
}

pub open spec fn all_digits(s: Seq<char>) -> bool {
    forall|i: int| 0 <= i < s.len() ==> is_digit(#[trigger] s[i])
}

pub open spec fn digit_value(c: char) -> nat {
    (c as nat - '0' as nat) as nat
}

/// The number written by the decimal digits `s` (0 for no digits).
pub open spec fn digits_value(s: Seq<char>) -> nat
    decreases s.len(),
{
    if s.len() == 0 {
        0
    } else {
        digits_value(s.drop_last()) * 10 + digit_value(s.last())
    }
}

/// Index of the first `.` in `s`, or `s.len()` when there is none.
pub open spec fn first_dot(s: Seq<char>) -> nat
    decreases s.len(),
{
    if s.len() == 0 {
        0
    } else if s[0] == '.' {
        0
    } else {
        1 + first_dot(s.drop_first())
    }
}

/// The first six fractional digits `f`, padded with zeros, as microseconds.
pub open spec fn fraction_us(f: Seq<char>) -> nat {
    digits_value((f + seq!['0', '0', '0', '0', '0', '0']).take(6))
}

/// The duration in microseconds that the decimal text `t` states: an optional
/// `+`, integer digits, and an optional `.` with fractional digits (at least
/// one digit in all); digits past the sixth decimal are dropped.
pub open spec fn decimal_us(t: Seq<char>) -> Option<nat> {
    let u = if t.len() > 0 && t[0] == '+' { t.drop_first() } else { t };
    let k = first_dot(u) as int;
    let int_part = u.take(k);
    let frac_part = if k < u.len() { u.skip(k + 1) } else { Seq::<char>::empty() };
    if all_digits(int_part) && all_digits(frac_part) && int_part.len() + frac_part.len() > 0 {
        Some(digits_value(int_part) * 1_000_000 + fraction_us(frac_part))
    } else {
        None
    }
}

/// The duration recorded for a `time` attribute: its value in microseconds,
/// `u64::MAX` when it is larger than that, and 0 when it is not a decimal.
pub open spec fn time_us_of(t: Seq<char>) -> u64 {
    match decimal_us(t) {
        Some(v) => if v <= u64::MAX { v as u64 } else { u64::MAX },
        None => 0,
    }
}

/// The characters of a string slice, in order.
fn chars_of(s: &str) -> (r: Vec<char>)
    ensures
        r@ == s@,
{
    broadcast use vstd::string::axiom_spec_iter;

    let mut v: Vec<char> = Vec::new();
    for c in it: s.chars()
        invariant
            v@ == it.seq().take(it.index() as int),
    {
        v.push(c);
    }
    assert(v@ =~= s@);
    v
}

proof fn lemma_first_dot_facts(s: Seq<char>)
    ensures
        first_dot(s) <= s.len(),
        first_dot(s) < s.len() ==> s[first_dot(s) as int] == '.',
        forall|j: int| 0 <= j < first_dot(s) ==> s[j] != '.',
    decreases s.len(),
{
    if s.len() > 0 && s[0] != '.' {
        lemma_first_dot_facts(s.drop_first());
        assert forall|j: int| 0 <= j < first_dot(s) implies s[j] != '.' by {
            if j > 0 {
                assert(s[j] == s.drop_first()[j - 1]);
            }
        }
    }
}

const CAP: u128 = 18446744073709551616;

/// Reads the digits `cs[from..to]` as a number, capped at 2^64.
fn capped_digits(cs: &Vec<char>, from: usize, to: usize) -> (r: u128)
    requires
        from <= to <= cs@.len(),
        all_digits(cs@.subrange(from as int, to as int)),
    ensures
        r == if digits_value(cs@.subrange(from as int, to as int)) < CAP {
            digits_value(cs@.subrange(from as int, to as int)) as u128
        } else {
            CAP
        },
{
    let mut acc: u128 = 0;
    let mut i = from;
    while i < to
        invariant
            from <= i <= to <= cs@.len(),
            all_digits(cs@.subrange(from as int, to as int)),
            acc == if digits_value(cs@.subrange(from as int, i as int)) < CAP {
                digits_value(cs@.subrange(from as int, i as int)) as u128
            } else {
                CAP
            },
        decreases to - i,
    {
        let ghost prev = cs@.subrange(from as int, i as int);
        let ghost next = cs@.subrange(from as int, i + 1);
        assert(next.drop_last() =~= prev);
        assert(next.last() == cs@[i as int]);
        assert(cs@[i as int] == cs@.subrange(from as int, to as int)[i - from]);
        let c = cs[i];
        let d = (c as u32 - '0' as u32) as u128;
        assert(d == digit_value(c));
        let v = acc * 10 + d;
        acc = if v >= CAP { CAP } else { v };
        i = i + 1;
    }
    acc
}

/// Reads a `time` attribute into microseconds (see [`time_us_of`]).
pub fn parse_time_us(t: &str) -> (r: u64)
    ensures
        r == time_us_of(t@),
{
    let cs = chars_of(t);
    let n = cs.len();
    let start: usize = if n > 0 && cs[0] == '+' { 1 } else { 0 };
    let ghost u = if t@.len() > 0 && t@[0] == '+' { t@.drop_first() } else { t@ };
    assert(u =~= cs@.subrange(start as int, n as int));
    // Find the first `.` and check that everything else is a digit.
    let mut k = start;
    while k < n && cs[k] != '.'
        invariant
            start <= k <= n == cs@.len(),
            forall|j: int| start <= j < k ==> cs@[j] != '.',
        decreases n - k,
    {
        k = k + 1;
    }
    proof {
        lemma_first_dot_facts(u);
        assert(first_dot(u) == k - start) by {
            if first_dot(u) < k - start {
                assert(u[first_dot(u) as int] == cs@[start + first_dot(u)]);
            } else if first_dot(u) > k - start {
                assert(u[k - start] == cs@[k as int]);
            }
        }
    }
    let frac_from: usize = if k < n { k + 1 } else { n };
    let mut ok = true;
    let mut j = start;
    while j < n
        invariant
            start <= j <= n == cs@.len(),
            start <= k <= n,
            frac_from == if k < n { k + 1 } else { n as int },
            ok == (forall|m: int| start <= m < j && m != k ==> is_digit(cs@[m])),
        decreases n - j,
    {
        if j != k && !('0' <= cs[j] && cs[j] <= '9') {
            ok = false;
        }
        j = j + 1;
    }
    let ghost int_part = u.take((k - start) as int);
    let ghost frac_part = if k < n { u.skip((k - start) + 1) } else { Seq::<char>::empty() };
    assert(int_part =~= cs@.subrange(start as int, k as int));
    assert(frac_part =~= cs@.subrange(frac_from as int, n as int));
    proof {
        if ok {
            assert forall|i: int| 0 <= i < int_part.len() implies is_digit(#[trigger] int_part[i]) by {
                assert(int_part[i] == cs@[start + i]);
            }
            assert forall|i: int| 0 <= i < frac_part.len() implies is_digit(#[trigger] frac_part[i]) by {
                assert(frac_part[i] == cs@[frac_from + i]);
            }
        } else {
            let m = choose|m: int| start <= m < n && m != k && !is_digit(cs@[m]);
            if m < k {
                assert(int_part[m - start] == cs@[m]);
            } else {
                assert(frac_part[m - frac_from] == cs@[m]);
            }
        }
    }
    if !ok || (k - start) + (n - frac_from) == 0 {
        return 0;
    }
    let whole = capped_digits(&cs, start, k);
    // Six fractional digits, padded with zeros.
    let mut frac: u128 = 0;
    let mut i: usize = 0;
    let ghost padded = (frac_part + seq!['0', '0', '0', '0', '0', '0']).take(6);
    while i < 6
        invariant
            i <= 6,
            frac_from <= n == cs@.len(),
            frac_part =~= cs@.subrange(frac_from as int, n as int),
            all_digits(frac_part),
            padded == (frac_part + seq!['0', '0', '0', '0', '0', '0']).take(6),
            frac == digits_value(padded.take(i as int)),
            frac < 1_000_000,
            frac < pow10(i as nat),
        decreases 6 - i,
    {
        let c = if i < n - frac_from { cs[frac_from + i] } else { '0' };
        assert(c == padded[i as int]);
        assert(padded.take(i + 1).drop_last() =~= padded.take(i as int));
        assert(is_digit(c));
        let d = (c as u32 - '0' as u32) as u128;
        proof { lemma_pow10_step(i as nat); }
        frac = frac * 10 + d;
        i = i + 1;
    }
    assert(padded.take(6) =~= padded);
    let total: u128 = whole * 1_000_000 + frac;
    proof {
        let dv = digits_value(int_part);
        assert(decimal_us(t@) == Some(dv * 1_000_000 + fraction_us(frac_part)));
        if dv >= CAP {
            assert(dv * 1_000_000 >= CAP * 1_000_000) by (nonlinear_arith)
                requires dv >= CAP;
        }
    }
    if total > u64::MAX as u128 {
        u64::MAX
    } else {
        total as u64
    }
}

pub open spec fn pow10(n: nat) -> nat
    decreases n,
{
    if n == 0 {
        1
    } else {
        10 * pow10((n - 1) as nat)
    }
}

proof fn lemma_pow10_step(i: nat)
    requires
        i < 6,
    ensures
        pow10(i + 1) == 10 * pow10(i),
        pow10(i + 1) <= 1_000_000,
    decreases i,
{
    reveal_with_fuel(pow10, 7);
}

// ---------------------------------------------------------------------------
// Attributes, testcases and outcome markers.

pub open spec fn unescape_result(r: Result<Seq<char>, Seq<char>>) -> Result<Option<Seq<char>>, Seq<char>> {
    match r {
        Ok(v) => Ok(Some(v)),
        Err(m) => Err(m),
    }
}

/// The value of the first attribute named `key`, unescaped, or `None` when
/// there is no such attribute; a malformed attribute met before it, or a
/// value that does not unescape, is an error with its message.
pub open spec fn attr_lookup(attrs: Seq<XmlAttrView>, key: Seq<char>) -> Result<Option<Seq<char>>, Seq<char>>
    decreases attrs.len(),
{
    if attrs.len() == 0 {
        Ok(None)
    } else {
        match attrs[0] {
            XmlAttrView::Malformed(m) => Err(m),
            XmlAttrView::Pair(k, v) => if k == key {
                unescape_result(xml_unescape(v))
            } else {
                attr_lookup(attrs.drop_first(), key)
            },
        }
    }
}

pub open spec fn opt_result_view(r: Result<Option<String>, String>) -> Result<Option<Seq<char>>, Seq<char>> {
    match r {
        Ok(Some(v)) => Ok(Some(v@)),
        Ok(None) => Ok(None),
        Err(m) => Err(m@),
    }
}

/// Looks up the attribute `key` of `tag` (see [`attr_lookup`]).
pub fn attr(tag: &XmlTag, key: &str) -> (r: Result<Option<String>, String>)
    ensures
        opt_result_view(r) == attr_lookup(tag@.attrs, key@),
{
    let ghost all = tag@.attrs;
    let mut i: usize = 0;
    assert(all.skip(0) =~= all);
    while i < tag.attrs.len()
        invariant
            i <= tag.attrs.len(),
            all == tag@.attrs,
            all.len() == tag.attrs@.len(),
            attr_lookup(all, key@) == attr_lookup(all.skip(i as int), key@),
        decreases tag.attrs.len() - i,
    {
        assert(all.skip(i as int)[0] == all[i as int]);
        assert(all.skip(i as int).drop_first() =~= all.skip(i + 1));
        match &tag.attrs[i] {
            Err(m) => {
                return Err(m.clone());
            },
            Ok((k, v)) => {
                if str_eq(k.as_str(), key) {
                    return match unescape_attr_value(v.as_str()) {
                        Ok(u) => Ok(Some(u)),
                        Err(m) => Err(m),
                    };
                }
            },
        }
        i = i + 1;
    }
    assert(all.skip(i as int).len() == 0);
    Ok(None)
}

/// The result that a `<testcase>` element starts as: named by its `name`
/// attribute, owned by its `class` attribute or else by the innermost open
/// suite, timed by its `time` attribute, and `Passed`.
pub open spec fn new_result_spec(tag: XmlTagView, suites: Seq<Seq<char>>) -> Result<TestResultView, Seq<char>> {
    match attr_lookup(tag.attrs, "name"@) {
        Err(m) => Err(m),
        Ok(None) => Err("<testcase> without name"@),
        Ok(Some(name)) => match attr_lookup(tag.attrs, "class"@) {
            Err(m) => Err(m),
            Ok(class) => if class is None && suites.len() == 0 {
                Err("<testcase> outside <testsuite>"@)
            } else {
                match attr_lookup(tag.attrs, "time"@) {
                    Err(m) => Err(m),
                    Ok(time) => Ok(TestResultView {
                        suite: match class {
                            Some(c) => c,
                            None => suites.last(),
                        },
                        name,
                        time_us: match time {
                            Some(t) => time_us_of(t),
                            None => 0,
                        },
                        status: Status::Passed,
                    }),
                }
            },
        },
    }
}

pub open spec fn strings_view(v: Seq<String>) -> Seq<Seq<char>> {
    v.map_values(|s: String| s@)
}

/// Builds a result from a `<testcase>` element, initially `Passed`.
fn new_result(tag: &XmlTag, suites: &Vec<String>) -> (r: Result<TestResult, String>)
    ensures
        match r {
            Ok(t) => new_result_spec(tag@, strings_view(suites@)) == Ok::<TestResultView, Seq<char>>(t@),
            Err(m) => new_result_spec(tag@, strings_view(suites@)) == Err::<TestResultView, Seq<char>>(m@),
        },
{
    let name = match attr(tag, "name") {
        Err(m) => return Err(m),
        Ok(None) => return Err(String::from_str("<testcase> without name")),
        Ok(Some(n)) => n,
    };
    // Prefer the `class` attribute (PHPUnit: FQCN, machine-independent).
    // Surrounding suite names are only a fallback for dialects without it.
    let suite = match attr(tag, "class") {
        Err(m) => return Err(m),
        Ok(Some(c)) => c,
        Ok(None) => {
            if suites.len() == 0 {
                return Err(String::from_str("<testcase> outside <testsuite>"));
            }
            suites[suites.len() - 1].clone()
        },
    };
    let time_us = match attr(tag, "time") {
        Err(m) => return Err(m),
        Ok(Some(t)) => parse_time_us(t.as_str()),
        Ok(None) => 0,
    };
    Ok(TestResult { suite, name, time_us, status: Status::Passed })
}

/// Severity of an outcome: Error outranks Failed outranks Skipped outranks
/// Passed.
pub open spec fn rank(s: Status) -> nat {
    match s {
        Status::Passed => 0,
        Status::Skipped => 1,
        Status::Failed => 2,
        Status::Error => 3,
    }
}

/// The open testcase after an outcome marker `s`: its status becomes `s` when
/// `s` is more severe, so mixed markers keep the most severe one.
pub open spec fn escalated(current: Option<TestResultView>, s: Status) -> Option<TestResultView> {
    match current {
        Some(r) => if rank(s) > rank(r.status) {
            Some(TestResultView { status: s, ..r })
        } else {
            Some(r)
        },
        None => None,
    }
}

/// Outcome markers inside one testcase commute: two markers applied in
/// either order leave the same result, and its status is the most severe of
/// the testcase's own status and the two markers; repeating a marker changes
/// nothing, and a marker outside a testcase is ignored.
pub proof fn escalation_keeps_most_severe(current: Option<TestResultView>, a: Status, b: Status)
    ensures
        escalated(escalated(current, a), b) == escalated(escalated(current, b), a),
        escalated(escalated(current, a), a) == escalated(current, a),
        current is None ==> escalated(current, a) is None,
        current matches Some(r) ==> {
            let after = escalated(escalated(current, a), b)->0;
            &&& rank(after.status) >= rank(r.status)
            &&& rank(after.status) >= rank(a)
            &&& rank(after.status) >= rank(b)
            &&& (after.status == r.status || after.status == a || after.status == b)
            &&& after.suite == r.suite && after.name == r.name && after.time_us == r.time_us
        },
{
}

fn rank_of(s: Status) -> (r: u8)
    ensures
        r == rank(s),
{
    match s {
        Status::Passed => 0,
        Status::Skipped => 1,
        Status::Failed => 2,
        Status::Error => 3,
    }
}

/// Applies an outcome child element to the open testcase: its status
/// becomes `status` when that is more severe (see [`escalated`]); with no
/// open testcase nothing changes.
pub fn escalate(current: &mut Option<TestResult>, status: Status)
    ensures
        current_view(*final(current)) == escalated(current_view(*old(current)), status),
{
    if let Some(result) = current {
        if rank_of(status) > rank_of(result.status) {
            result.status = status;
        }
    }
}

pub open spec fn current_view(r: Option<TestResult>) -> Option<TestResultView> {
    match r {
        Some(t) => Some(t@),
        None => None,
    }
}

// ---------------------------------------------------------------------------
// The event-driven state machine.

/// What the parser holds between events: the run built so far, the names of
/// the open `<testsuite>` elements (outermost first) and the open `<testcase>`.
pub ghost struct JunitStateView {
    pub run: TestRunView,
    pub suites: Seq<Seq<char>>,
    pub current: Option<TestResultView>,
}

/// What one event does to the parser: go on with a new state, finish with a
/// run, or fail.
pub ghost enum StepView {
    Continue(JunitStateView),
    Done(TestRunView),
    Fail(ParseErrorView),
}

pub open spec fn initial_state() -> JunitStateView {
    JunitStateView {
        run: TestRunView { results: Seq::empty(), timestamp: None },
        suites: Seq::empty(),
        current: None,
    }
}

/// The outcome that an element named `name` marks, if it is a marker.
pub open spec fn marker_status(name: Seq<char>) -> Option<Status> {
    if name == "failure"@ {
        Some(Status::Failed)
    } else if name == "error"@ {
        Some(Status::Error)
    } else if name == "skipped"@ {
        Some(Status::Skipped)
    } else {
        None
    }
}

/// One step of the JUnit reader.
pub open spec fn junit_step(st: JunitStateView, ev: XmlEventView) -> StepView {
    match ev {
        XmlEventView::Tag { empty, tag } => if !empty && tag.name == "testsuite"@ {
            match attr_lookup(tag.attrs, "name"@) {
                Err(m) => StepView::Fail(ParseErrorView::InvalidStructure(m)),
                Ok(n) => {
                    let suites = st.suites.push(
                        match n {
                            Some(v) => v,
                            None => Seq::empty(),
                        },
                    );
                    if st.run.timestamp is None {
                        match attr_lookup(tag.attrs, "timestamp"@) {
                            Err(m) => StepView::Fail(ParseErrorView::InvalidStructure(m)),
                            Ok(ts) => StepView::Continue(
                                JunitStateView {
                                    run: TestRunView { timestamp: ts, ..st.run },
                                    suites,
                                    ..st
                                },
                            ),
                        }
                    } else {
                        StepView::Continue(JunitStateView { suites, ..st })
                    }
                },
            }
        } else if tag.name == "testcase"@ {
            match new_result_spec(tag, st.suites) {
                Err(m) => StepView::Fail(ParseErrorView::InvalidStructure(m)),
                Ok(r) => if empty {
                    StepView::Continue(
                        JunitStateView {
                            run: TestRunView { results: st.run.results.push(r), ..st.run },
                            ..st
                        },
                    )
                } else {
                    StepView::Continue(JunitStateView { current: Some(r), ..st })
                },
            }
        } else {
            match marker_status(tag.name) {
                Some(s) => StepView::Continue(
                    JunitStateView { current: escalated(st.current, s), ..st },
                ),
                None => StepView::Continue(st),
            }
        },
        XmlEventView::End(name) => if name == "testsuite"@ {
            StepView::Continue(
                JunitStateView {
                    suites: if st.suites.len() > 0 {
                        st.suites.drop_last()
                    } else {
                        st.suites
                    },
                    ..st
                },
            )
        } else if name == "testcase"@ {
            match st.current {
                Some(r) => StepView::Continue(
                    JunitStateView {
                        run: TestRunView { results: st.run.results.push(r), ..st.run },
                        current: None,
                        ..st
                    },
                ),
                None => StepView::Continue(st),
            }
        } else {
            StepView::Continue(st)
        },
        XmlEventView::Eof => StepView::Done(st.run),
        XmlEventView::Other => StepView::Continue(st),
        XmlEventView::Failed => StepView::Fail(ParseErrorView::Xml),
    }
}

/// Where the parser stands after the events `evs`: still going, or finished
/// at the first event that ended it.
pub open spec fn junit_scan(evs: Seq<XmlEventView>) -> StepView
    decreases evs.len(),
{
    if evs.len() == 0 {
        StepView::Continue(initial_state())
    } else {
        match junit_scan(evs.drop_last()) {
            StepView::Continue(st) => junit_step(st, evs.last()),
            other => other,
        }
    }
}

/// The outcome of the events `evs`, once one of them has ended the parse.
pub open spec fn junit_outcome(evs: Seq<XmlEventView>) -> Option<Result<TestRunView, ParseErrorView>> {
    match junit_scan(evs) {
        StepView::Continue(_) => None,
        StepView::Done(r) => Some(Ok(r)),
        StepView::Fail(e) => Some(Err(e)),
    }
}

/// The outcome of the events `evs` when the end of the sequence counts as the
/// end of input.
pub open spec fn junit_outcome_to_end(evs: Seq<XmlEventView>) -> Result<TestRunView, ParseErrorView> {
    match junit_scan(evs) {
        StepView::Continue(st) => Ok(st.run),
        StepView::Done(r) => Ok(r),
        StepView::Fail(e) => Err(e),
    }
}

/// The first `n` events of the token stream of `input`.
pub open spec fn xml_stream(input: Seq<u8>, n: nat) -> Seq<XmlEventView> {
    Seq::new(n, |i: int| xml_event_at(input, i as nat))
}

pub open spec fn parse_result_view(r: Result<TestRun, ParseError>) -> Result<TestRunView, ParseErrorView> {
    match r {
        Ok(run) => Ok(run@),
        Err(e) => Err(e@),
    }
}

pub open spec fn events_view(evs: Seq<XmlEvent>) -> Seq<XmlEventView> {
    evs.map_values(|e: XmlEvent| e@)
}

struct JunitState {
    run: TestRun,
    suites: Vec<String>,
    current: Option<TestResult>,
}

impl View for JunitState {
    type V = JunitStateView;

    closed spec fn view(&self) -> JunitStateView {
        JunitStateView {
            run: self.run@,
            suites: strings_view(self.suites@),
            current: current_view(self.current),
        }
    }
}

enum Step {
    Continue(JunitState),
    Done(TestRun),
    Fail(ParseError),
}

spec fn step_view(s: Step) -> StepView {
    match s {
        Step::Continue(st) => StepView::Continue(st@),
        Step::Done(r) => StepView::Done(r@),
        Step::Fail(e) => StepView::Fail(e@),
    }
}

fn marker(name: &str) -> (r: Option<Status>)
    ensures
        r == marker_status(name@),
{
    if str_eq(name, "failure") {
        Some(Status::Failed)
    } else if str_eq(name, "error") {
        Some(Status::Error)
    } else if str_eq(name, "skipped") {
        Some(Status::Skipped)
    } else {
        None
    }
}

fn step(st: JunitState, ev: XmlEvent) -> (r: Step)
    ensures
        step_view(r) == junit_step(st@, ev@),
{
    let mut st = st;
    match ev {
        XmlEvent::Tag { empty, tag } => {
            if !empty && str_eq(tag.name.as_str(), "testsuite") {
                let name = match attr(&tag, "name") {
                    Err(m) => return Step::Fail(ParseError::InvalidStructure(m)),
                    Ok(Some(n)) => n,
                    Ok(None) => String::new(),
                };
                let ghost old_suites = st@.suites;
                st.suites.push(name);
                assert(st@.suites =~= old_suites.push(name@));
                if st.run.timestamp.is_none() {
                    match attr(&tag, "timestamp") {
                        Err(m) => return Step::Fail(ParseError::InvalidStructure(m)),
                        Ok(ts) => {
                            st.run.timestamp = ts;
                        },
                    }
                }
                Step::Continue(st)
            } else if str_eq(tag.name.as_str(), "testcase") {
                match new_result(&tag, &st.suites) {
                    Err(m) => Step::Fail(ParseError::InvalidStructure(m)),
                    Ok(r) => {
                        if empty {
                            let ghost old_results = st@.run.results;
                            st.run.results.push(r);
                            assert(st@.run.results =~= old_results.push(r@));
                        } else {
                            st.current = Some(r);
                        }
                        Step::Continue(st)
                    },
                }
            } else {
                match marker(tag.name.as_str()) {
                    Some(s) => {
                        escalate(&mut st.current, s);
                        Step::Continue(st)
                    },
                    None => Step::Continue(st),
                }
            }
        },
        XmlEvent::End(name) => {
            if str_eq(name.as_str(), "testsuite") {
                let ghost old_suites = st@.suites;
                let _ = st.suites.pop();
                assert(st@.suites =~= if old_suites.len() > 0 {
                    old_suites.drop_last()
                } else {
                    old_suites
                });
                Step::Continue(st)
            } else if str_eq(name.as_str(), "testcase") {
                match st.current.take() {
                    Some(r) => {
                        let ghost old_results = st@.run.results;
                        st.run.results.push(r);
                        assert(st@.run.results =~= old_results.push(r@));
                        Step::Continue(st)
                    },
                    None => Step::Continue(st),
                }
            } else {
                Step::Continue(st)
            }
        },
        XmlEvent::Eof => Step::Done(st.run),
        XmlEvent::Other => Step::Continue(st),
        XmlEvent::Failed(e) => Step::Fail(ParseError::Xml(e)),
    }
}

fn initial() -> (st: JunitState)
    ensures
        st@ == initial_state(),
{
    let st = JunitState { run: TestRun::new(), suites: Vec::new(), current: None };
    assert(st@.run.results =~= Seq::<TestResultView>::empty());
    assert(st@.suites =~= Seq::<Seq<char>>::empty());
    st
}

/// Runs the JUnit reader over a sequence of already tokenized events; the end
/// of the sequence counts as the end of input.
pub fn parse_events(events: Vec<XmlEvent>) -> (r: Result<TestRun, ParseError>)
    ensures
        parse_result_view(r) == junit_outcome_to_end(events_view(events@)),
{
    let ghost all = events_view(events@);
    let mut rest = events;
    let mut st = initial();
    let ghost mut done: nat = 0;
    assert(all.take(0) =~= Seq::<XmlEventView>::empty());
    while rest.len() > 0
        invariant
            all == events_view(events@),
            done + rest@.len() == all.len(),
            events_view(rest@) =~= all.skip(done as int),
            junit_scan(all.take(done as int)) == StepView::Continue(st@),
        decreases rest@.len(),
    {
        let ghost old_rest = rest@;
        let ev = rest.remove(0);
        proof {
            assert(events_view(old_rest)[0] == ev@);
            assert(all.skip(done as int)[0] == all[done as int]);
            assert(ev@ == all[done as int]);
            assert(rest@ =~= old_rest.skip(1));
            assert forall|j: int| 0 <= j < rest@.len() implies #[trigger] events_view(rest@)[j] == all.skip((done + 1) as int)[j] by {
                assert(events_view(old_rest)[j + 1] == all.skip(done as int)[j + 1]);
            }
            assert(events_view(rest@) =~= all.skip((done + 1) as int));
            assert(all.take((done + 1) as int).drop_last() =~= all.take(done as int));
            assert(all.take((done + 1) as int).last() == all[done as int]);
        }
        let ghost prefix = all.take((done + 1) as int);
        let ghost before = st@;
        assert(junit_scan(prefix) == junit_step(before, ev@));
        match step(st, ev) {
            Step::Continue(next) => {
                st = next;
            },
            Step::Done(run) => {
                proof { lemma_scan_stays(all, (done + 1) as nat); }
                assert(junit_scan(all) == StepView::Done(run@));
                return Ok(run);
            },
            Step::Fail(e) => {
                proof { lemma_scan_stays(all, (done + 1) as nat); }
                assert(junit_scan(all) == StepView::Fail(e@));
                return Err(e);
            },
        }
        proof {
            done = done + 1;
        }
    }
    assert(all.take(done as int) =~= all);
    Ok(st.run)
}

/// Once the events up to `n` have ended the parse, later events change nothing.
proof fn lemma_scan_stays(all: Seq<XmlEventView>, n: nat)
    requires
        n <= all.len(),
        !(junit_scan(all.take(n as int)) is Continue),
    ensures
        junit_scan(all) == junit_scan(all.take(n as int)),
    decreases all.len() - n,
{
    if n < all.len() {
        assert(all.take((n + 1) as int).drop_last() =~= all.take(n as int));
        lemma_scan_stays(all, n + 1);
    } else {
        assert(all.take(n as int) =~= all);
    }
}

/// Parser for JUnit XML reports.
pub struct JunitParser;

impl ReportParser for JunitParser {
    /// Reads the events of `input` one at a time and stops at the first one
    /// that ends the parse: the end of input, a tokenizer failure, or an
    /// element of the wrong shape.
    fn parse(&self, input: &[u8]) -> (r: Result<TestRun, ParseError>)
        ensures
            exists|n: nat| junit_outcome(#[trigger] xml_stream(input@, n)) == Some(parse_result_view(r)),
    {
        let mut reader = XmlReader::new(input);
        let mut st = initial();
        let ghost mut seen: Seq<XmlEventView> = Seq::empty();
        assert(seen =~= xml_stream(input@, 0));
        loop
            invariant
                reader.input() == input@,
                reader.count() == seen.len(),
                reader.pos() <= input@.len(),
                seen == xml_stream(input@, seen.len()),
                junit_scan(seen) == StepView::Continue(st@),
            decreases input@.len() - reader.pos(),
        {
            let ev = reader.next_event();
            proof {
                let next = seen.push(ev@);
                assert(next =~= xml_stream(input@, seen.len() + 1));
                assert(next.drop_last() =~= seen);
                seen = next;
            }
            match step(st, ev) {
                Step::Continue(next) => {
                    st = next;
                },
                Step::Done(run) => {
                    return Ok(run);
                },
                Step::Fail(e) => {
                    return Err(e);
                },
            }
        }
    }
}

/// The results held after a step: those of the run so far, or of the
/// finished run; none after a failure.
pub open spec fn step_results(s: StepView) -> Seq<TestResultView> {
    match s {
        StepView::Continue(st) => st.run.results,
        StepView::Done(r) => r.results,
        StepView::Fail(_) => Seq::empty(),
    }
}

pub open spec fn is_prefix_of(a: Seq<TestResultView>, b: Seq<TestResultView>) -> bool {
    a.len() <= b.len() && b.take(a.len() as int) == a
}

proof fn lemma_prefix_trans(a: Seq<TestResultView>, b: Seq<TestResultView>, c: Seq<TestResultView>)
    requires
        is_prefix_of(a, b),
        is_prefix_of(b, c),
    ensures
        is_prefix_of(a, c),
{
    assert(c.take(a.len() as int) =~= c.take(b.len() as int).take(a.len() as int));
}

proof fn lemma_step_appends(st: JunitStateView, ev: XmlEventView)
    ensures
        !(junit_step(st, ev) is Fail) ==> is_prefix_of(st.run.results, step_results(junit_step(st, ev))),
{
    let rs = st.run.results;
    assert(rs.take(rs.len() as int) =~= rs);
    assert forall|r: TestResultView| #[trigger] rs.push(r).take(rs.len() as int) == rs by {
        assert(rs.push(r).take(rs.len() as int) =~= rs);
    }
}

proof fn lemma_scan_appends(evs: Seq<XmlEventView>, n: nat, m: nat)
    requires
        n <= m <= evs.len(),
        junit_scan(evs.take(n as int)) is Continue,
        !(junit_scan(evs.take(m as int)) is Fail),
    ensures
        is_prefix_of(step_results(junit_scan(evs.take(n as int))), step_results(junit_scan(evs.take(m as int)))),
    decreases m - n,
{
    if m > n {
        let pre = evs.take(m - 1);
        assert(evs.take(m as int).drop_last() =~= pre);
        assert(evs.take(m as int).last() == evs[m - 1]);
        lemma_scan_appends(evs, n, (m - 1) as nat);
        match junit_scan(pre) {
            StepView::Continue(st) => {
                lemma_step_appends(st, evs[m - 1]);
                lemma_prefix_trans(
                    step_results(junit_scan(evs.take(n as int))),
                    st.run.results,
                    step_results(junit_scan(evs.take(m as int))),
                );
            },
            _ => {},
        }
    } else {
        let a = step_results(junit_scan(evs.take(n as int)));
        assert(a.take(a.len() as int) =~= a);
    }
}

/// Parsing keeps document order: the results read from the first `n` events
/// of a stream come first, in the same order, among those read from the
/// whole stream, unless the rest of it makes the parse fail.
pub proof fn parsing_keeps_document_order(evs: Seq<XmlEventView>, n: nat)
    requires
        n <= evs.len(),
        junit_scan(evs.take(n as int)) is Continue,
        !(junit_scan(evs) is Fail),
    ensures
        is_prefix_of(step_results(junit_scan(evs.take(n as int))), step_results(junit_scan(evs))),
{
    assert(evs.take(evs.len() as int) =~= evs);
    lemma_scan_appends(evs, n, evs.len());
}

/// The outcome of parsing an input does not depend on how far the token
/// stream is looked at: once a prefix of the stream has ended the parse,
/// every longer prefix ends it the same way.
pub proof fn junit_outcome_is_determined(input: Seq<u8>, n1: nat, n2: nat)
    requires
        junit_outcome(xml_stream(input, n1)) is Some,
        junit_outcome(xml_stream(input, n2)) is Some,
    ensures
        junit_outcome(xml_stream(input, n1)) == junit_outcome(xml_stream(input, n2)),
{
    if n1 <= n2 {
        assert(xml_stream(input, n2).take(n1 as int) =~= xml_stream(input, n1));
        lemma_scan_stays(xml_stream(input, n2), n1);
    } else {
        assert(xml_stream(input, n1).take(n2 as int) =~= xml_stream(input, n2));
        lemma_scan_stays(xml_stream(input, n1), n2);
    }
}

/// That parsing the report `input` gives `r` (see [`JunitParser`]'s `parse`).
pub open spec fn parsed_as(input: Seq<u8>, r: Result<TestRunView, ParseErrorView>) -> bool {
    exists|n: nat| junit_outcome(#[trigger] xml_stream(input, n)) == Some(r)
}

/// The runs `runs` merged in order into one (see [`crate::model::merged`]),
/// starting from an empty run.
pub open spec fn merged_all(runs: Seq<TestRunView>) -> TestRunView
    decreases runs.len(),
{
    if runs.len() == 0 {
        TestRunView { results: Seq::empty(), timestamp: None }
    } else {
        crate::model::merged(merged_all(runs.drop_last()), runs.last())
    }
}

/// Parses the reports of one CI run (one per shard) and merges them in
/// order; the first report that does not parse stops it, with its index.
pub fn parse_reports(reports: &Vec<Vec<u8>>) -> (r: Result<TestRun, (usize, ParseError)>)
    ensures
        match r {
            Ok(run) => exists|runs: Seq<TestRunView>| {
                &&& runs.len() == reports@.len()
                &&& forall|i: int| 0 <= i < runs.len() ==> parsed_as(reports@[i]@, Ok(#[trigger] runs[i]))
                &&& run@ == merged_all(runs)
            },
            Err((k, e)) => {
                &&& k < reports@.len()
                &&& parsed_as(reports@[k as int]@, Err(e@))
                &&& exists|runs: Seq<TestRunView>| {
                    &&& runs.len() == k
                    &&& forall|i: int| 0 <= i < runs.len() ==> parsed_as(reports@[i]@, Ok(#[trigger] runs[i]))
                }
            },
        },
{
    let mut run = TestRun::new();
    let ghost mut runs: Seq<TestRunView> = Seq::empty();
    assert(run@ == merged_all(runs)) by {
        assert(run@.results =~= Seq::<TestResultView>::empty());
    }
    let mut i: usize = 0;
    while i < reports.len()
        invariant
            i <= reports.len(),
            runs.len() == i,
            forall|j: int| 0 <= j < runs.len() ==> parsed_as(reports@[j]@, Ok(#[trigger] runs[j])),
            run@ == merged_all(runs),
        decreases reports.len() - i,
    {
        let parsed = JunitParser.parse(reports[i].as_slice());
        match parsed {
            Ok(p) => {
                proof {
                    let next = runs.push(p@);
                    assert(next.drop_last() =~= runs);
                    assert forall|j: int| 0 <= j < next.len() implies parsed_as(reports@[j]@, Ok(#[trigger] next[j])) by {
                        if j < runs.len() {
                            assert(next[j] == runs[j]);
                        }
                    }
                    runs = next;
                }
                run = run.merge(p);
            },
            Err(e) => {
                return Err((i, e));
            },
        }
        i = i + 1;
    }
    Ok(run)
}

} // verus!
