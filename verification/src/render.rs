//! Renderers turning a [`Report`] into text or markdown. Machine-readable
//! output is the caller's: it serializes the report itself, and text and
//! markdown mirror it.

use vstd::prelude::*;

use crate::analysis::{FlakyFinding, FlakyView, HealthStatus, RegressionFinding, RegressionView, Report, ReportView, SlowFinding, SlowView};
use crate::sort::views;
use crate::text::{fixed1_text, fixed2_text, nat_text, push_fixed1, push_fixed2, push_nat};

verus! {

pub open spec fn status_label_text(status: HealthStatus) -> Seq<char> {
    match status {
        HealthStatus::Healthy => "✅ Healthy"@,
        HealthStatus::NeedsPruning => "⚠️ Needs Pruning"@,
        HealthStatus::Overgrown => "🔴 Overgrown"@,
    }
}

/// The label shown for a health status.
pub fn status_label(status: HealthStatus) -> (r: &'static str)
    ensures
        r@ == status_label_text(status),
{
    match status {
        HealthStatus::Healthy => "✅ Healthy",
        HealthStatus::NeedsPruning => "⚠️ Needs Pruning",
        HealthStatus::Overgrown => "🔴 Overgrown",
    }
}

/// Whether the report has anything to list: a finding or a cost.
pub open spec fn has_findings_spec(r: ReportView) -> bool {
    r.slow.len() > 0 || r.flaky.len() > 0 || r.regression.len() > 0 || r.cost is Some
}

fn has_findings(report: &Report) -> (b: bool)
    ensures
        b == has_findings_spec(report@),
{
    report.slow.len() > 0 || report.flaky.len() > 0 || report.regression.len() > 0 || report.cost.is_some()
}

// ---------------------------------------------------------------------------
// Text.

pub open spec fn text_slow_line(f: SlowView) -> Seq<char> {
    "- 🐢 Slow:       '"@ + f.id + "' took "@ + fixed2_text(f.time_us as nat) + "s (threshold "@
        + fixed1_text(f.threshold_us as nat) + "s)\n"@
}

pub open spec fn text_flaky_line(f: FlakyView) -> Seq<char> {
    "- 📉 Flaky:      '"@ + f.id + "' failed "@ + nat_text(f.failed_runs as nat) + "/"@
        + nat_text(f.window_runs as nat) + " runs in history\n"@
}

pub open spec fn text_regression_line(f: RegressionView) -> Seq<char> {
    "- 🔺 Regression: '"@ + f.id + "' "@ + fixed2_text(f.prev_us as nat) + "s → "@
        + fixed2_text(f.current_us as nat) + "s (x"@ + fixed1_text(f.factor_millionths as nat) + ")\n"@
}

pub open spec fn text_lines<T>(s: Seq<T>, line: spec_fn(T) -> Seq<char>) -> Seq<char>
    decreases s.len(),
{
    if s.len() == 0 {
        Seq::empty()
    } else {
        text_lines(s.drop_last(), line) + line(s.last())
    }
}

pub open spec fn text_head(r: ReportView) -> Seq<char> {
    "[Kare] Test Health Report\n"@
        + "--------------------------------------------------\n"@
        + "Status: "@ + status_label_text(r.status) + "\n"@
        + "Score:  "@ + nat_text(r.score as nat) + " / 100\n"@
        + "\n"@
}

pub open spec fn text_cost(r: ReportView) -> Seq<char> {
    match r.cost {
        Some(c) => "- 💰 Cost:       total "@ + fixed1_text(c.total_min_millionths as nat) + " min ≈ "@
            + fixed2_text(c.amount_millionths as nat) + " per run\n"@,
        None => Seq::empty(),
    }
}

pub open spec fn text_body(r: ReportView) -> Seq<char> {
    if !has_findings_spec(r) {
        "Findings: none 🎉\n"@
    } else {
        "Findings:\n"@
            + text_lines(r.slow, |f: SlowView| text_slow_line(f))
            + text_lines(r.flaky, |f: FlakyView| text_flaky_line(f))
            + text_lines(r.regression, |f: RegressionView| text_regression_line(f))
            + text_cost(r)
    }
}

pub open spec fn text_tail(r: ReportView) -> Seq<char> {
    match r.insufficient_history {
        Some(m) => "("@ + m + " — flaky/regression skipped)\n"@,
        None => Seq::empty(),
    }
}

/// The text rendering of a report.
pub open spec fn text_spec(r: ReportView) -> Seq<char> {
    text_head(r) + text_body(r) + text_tail(r)
}

fn push_text_slow(out: &mut String, f: &SlowFinding)
    ensures
        final(out)@ == old(out)@ + text_slow_line(f@),
{
    out.append("- 🐢 Slow:       '");
    out.append(f.id.as_str());
    out.append("' took ");
    push_fixed2(out, f.time_us);
    out.append("s (threshold ");
    push_fixed1(out, f.threshold_us);
    out.append("s)\n");
    assert(final(out)@ =~= old(out)@ + text_slow_line(f@));
}

fn push_text_flaky(out: &mut String, f: &FlakyFinding)
    ensures
        final(out)@ == old(out)@ + text_flaky_line(f@),
{
    out.append("- 📉 Flaky:      '");
    out.append(f.id.as_str());
    out.append("' failed ");
    push_nat(out, f.failed_runs as u64);
    out.append("/");
    push_nat(out, f.window_runs as u64);
    out.append(" runs in history\n");
    assert(final(out)@ =~= old(out)@ + text_flaky_line(f@));
}

fn push_text_regression(out: &mut String, f: &RegressionFinding)
    ensures
        final(out)@ == old(out)@ + text_regression_line(f@),
{
    out.append("- 🔺 Regression: '");
    out.append(f.id.as_str());
    out.append("' ");
    push_fixed2(out, f.prev_us);
    out.append("s → ");
    push_fixed2(out, f.current_us);
    out.append("s (x");
    push_fixed1(out, f.factor_millionths);
    out.append(")\n");
    assert(final(out)@ =~= old(out)@ + text_regression_line(f@));
}

fn push_text_head(out: &mut String, report: &Report)
    ensures
        final(out)@ == old(out)@ + text_head(report@),
{
    out.append("[Kare] Test Health Report\n");
    out.append("--------------------------------------------------\n");
    out.append("Status: ");
    out.append(status_label(report.status));
    out.append("\n");
    out.append("Score:  ");
    push_nat(out, report.score as u64);
    out.append(" / 100\n");
    out.append("\n");
    assert(final(out)@ =~= old(out)@ + text_head(report@));
}

fn push_text_slow_lines(out: &mut String, v: &Vec<SlowFinding>)
    ensures
        final(out)@ == old(out)@ + text_lines(views(v@), |f: SlowView| text_slow_line(f)),
{
    let ghost vs = views(v@);
    let mut i: usize = 0;
    assert(vs.take(0) =~= Seq::<SlowView>::empty());
    while i < v.len()
        invariant
            i <= v.len(),
            vs == views(v@),
            out@ == old(out)@ + text_lines(vs.take(i as int), |f: SlowView| text_slow_line(f)),
        decreases v.len() - i,
    {
        assert(vs.take(i + 1).drop_last() =~= vs.take(i as int));
        assert(vs.take(i + 1).last() == v@[i as int]@);
        push_text_slow(out, &v[i]);
        assert(out@ =~= old(out)@ + text_lines(vs.take(i + 1), |f: SlowView| text_slow_line(f)));
        i = i + 1;
    }
    assert(vs.take(i as int) =~= vs);
}

fn push_text_flaky_lines(out: &mut String, v: &Vec<FlakyFinding>)
    ensures
        final(out)@ == old(out)@ + text_lines(views(v@), |f: FlakyView| text_flaky_line(f)),
{
    let ghost vs = views(v@);
    let mut i: usize = 0;
    assert(vs.take(0) =~= Seq::<FlakyView>::empty());
    while i < v.len()
        invariant
            i <= v.len(),
            vs == views(v@),
            out@ == old(out)@ + text_lines(vs.take(i as int), |f: FlakyView| text_flaky_line(f)),
        decreases v.len() - i,
    {
        assert(vs.take(i + 1).drop_last() =~= vs.take(i as int));
        assert(vs.take(i + 1).last() == v@[i as int]@);
        push_text_flaky(out, &v[i]);
        assert(out@ =~= old(out)@ + text_lines(vs.take(i + 1), |f: FlakyView| text_flaky_line(f)));
        i = i + 1;
    }
    assert(vs.take(i as int) =~= vs);
}

fn push_text_regression_lines(out: &mut String, v: &Vec<RegressionFinding>)
    ensures
        final(out)@ == old(out)@ + text_lines(views(v@), |f: RegressionView| text_regression_line(f)),
{
    let ghost vs = views(v@);
    let mut i: usize = 0;
    assert(vs.take(0) =~= Seq::<RegressionView>::empty());
    while i < v.len()
        invariant
            i <= v.len(),
            vs == views(v@),
            out@ == old(out)@ + text_lines(vs.take(i as int), |f: RegressionView| text_regression_line(f)),
        decreases v.len() - i,
    {
        assert(vs.take(i + 1).drop_last() =~= vs.take(i as int));
        assert(vs.take(i + 1).last() == v@[i as int]@);
        push_text_regression(out, &v[i]);
        assert(out@ =~= old(out)@ + text_lines(vs.take(i + 1), |f: RegressionView| text_regression_line(f)));
        i = i + 1;
    }
    assert(vs.take(i as int) =~= vs);
}

fn push_text_body(out: &mut String, report: &Report)
    ensures
        final(out)@ == old(out)@ + text_body(report@),
{
    if !has_findings(report) {
        out.append("Findings: none 🎉\n");
    } else {
        out.append("Findings:\n");
        push_text_slow_lines(out, &report.slow);
        push_text_flaky_lines(out, &report.flaky);
        push_text_regression_lines(out, &report.regression);
        let ghost before_cost = out@;
        if let Some(cost) = &report.cost {
            out.append("- 💰 Cost:       total ");
            push_fixed1(out, cost.total_min_millionths);
            out.append(" min ≈ ");
            push_fixed2(out, cost.amount_millionths);
            out.append(" per run\n");
        }
        assert(out@ =~= before_cost + text_cost(report@));
    }
    assert(final(out)@ =~= old(out)@ + text_body(report@));
}

fn push_text_tail(out: &mut String, report: &Report)
    ensures
        final(out)@ == old(out)@ + text_tail(report@),
{
    if let Some(msg) = &report.insufficient_history {
        out.append("(");
        out.append(msg.as_str());
        out.append(" — flaky/regression skipped)\n");
    }
    assert(final(out)@ =~= old(out)@ + text_tail(report@));
}

/// Renders `report` as human-readable text.
pub fn to_text(report: &Report) -> (r: String)
    ensures
        r@ == text_spec(report@),
{
    let mut out = String::new();
    push_text_head(&mut out, report);
    push_text_body(&mut out, report);
    push_text_tail(&mut out, report);
    assert(out@ =~= text_spec(report@));
    out
}

// ---------------------------------------------------------------------------
// Markdown.

pub open spec fn md_slow_line(f: SlowView) -> Seq<char> {
    "| 🐢 Slow | `"@ + f.id + "` | "@ + fixed2_text(f.time_us as nat) + "s (threshold "@
        + fixed1_text(f.threshold_us as nat) + "s) |\n"@
}

pub open spec fn md_flaky_line(f: FlakyView) -> Seq<char> {
    "| 📉 Flaky | `"@ + f.id + "` | failed "@ + nat_text(f.failed_runs as nat) + "/"@
        + nat_text(f.window_runs as nat) + " runs |\n"@
}

pub open spec fn md_regression_line(f: RegressionView) -> Seq<char> {
    "| 🔺 Regression | `"@ + f.id + "` | "@ + fixed2_text(f.prev_us as nat) + "s → "@
        + fixed2_text(f.current_us as nat) + "s (x"@ + fixed1_text(f.factor_millionths as nat) + ") |\n"@
}

pub open spec fn md_head(r: ReportView) -> Seq<char> {
    "# 🌿 Kare Test Health Report\n"@
        + "\n"@
        + "**Status:** "@ + status_label_text(r.status) + "\n"@
        + "**Score:** "@ + nat_text(r.score as nat) + " / 100\n"@
        + "\n"@
        + "## Findings\n"@
        + "\n"@
}

pub open spec fn md_cost(r: ReportView) -> Seq<char> {
    match r.cost {
        Some(c) => "| 💰 Cost | — | total "@ + fixed1_text(c.total_min_millionths as nat) + " min ≈ "@
            + fixed2_text(c.amount_millionths as nat) + " per run |\n"@,
        None => Seq::empty(),
    }
}

pub open spec fn md_body(r: ReportView) -> Seq<char> {
    if !has_findings_spec(r) {
        "No findings 🎉\n"@
    } else {
        "| Type | Test | Detail |\n"@
            + "|------|------|--------|\n"@
            + text_lines(r.slow, |f: SlowView| md_slow_line(f))
            + text_lines(r.flaky, |f: FlakyView| md_flaky_line(f))
            + text_lines(r.regression, |f: RegressionView| md_regression_line(f))
            + md_cost(r)
    }
}

pub open spec fn md_tail(r: ReportView) -> Seq<char> {
    match r.insufficient_history {
        Some(m) => "\n"@ + "_"@ + m + " — flaky/regression skipped_\n"@,
        None => Seq::empty(),
    }
}

/// The markdown rendering of a report.
pub open spec fn markdown_spec(r: ReportView) -> Seq<char> {
    md_head(r) + md_body(r) + md_tail(r)
}

fn push_md_head(out: &mut String, report: &Report)
    ensures
        final(out)@ == old(out)@ + md_head(report@),
{
    out.append("# 🌿 Kare Test Health Report\n");
    out.append("\n");
    out.append("**Status:** ");
    out.append(status_label(report.status));
    out.append("\n");
    out.append("**Score:** ");
    push_nat(out, report.score as u64);
    out.append(" / 100\n");
    out.append("\n");
    out.append("## Findings\n");
    out.append("\n");
    assert(final(out)@ =~= old(out)@ + md_head(report@));
}

fn push_md_slow(out: &mut String, f: &SlowFinding)
    ensures
        final(out)@ == old(out)@ + md_slow_line(f@),
{
    out.append("| 🐢 Slow | `");
    out.append(f.id.as_str());
    out.append("` | ");
    push_fixed2(out, f.time_us);
    out.append("s (threshold ");
    push_fixed1(out, f.threshold_us);
    out.append("s) |\n");
    assert(final(out)@ =~= old(out)@ + md_slow_line(f@));
}

fn push_md_flaky(out: &mut String, f: &FlakyFinding)
    ensures
        final(out)@ == old(out)@ + md_flaky_line(f@),
{
    out.append("| 📉 Flaky | `");
    out.append(f.id.as_str());
    out.append("` | failed ");
    push_nat(out, f.failed_runs as u64);
    out.append("/");
    push_nat(out, f.window_runs as u64);
    out.append(" runs |\n");
    assert(final(out)@ =~= old(out)@ + md_flaky_line(f@));
}

fn push_md_regression(out: &mut String, f: &RegressionFinding)
    ensures
        final(out)@ == old(out)@ + md_regression_line(f@),
{
    out.append("| 🔺 Regression | `");
    out.append(f.id.as_str());
    out.append("` | ");
    push_fixed2(out, f.prev_us);
    out.append("s → ");
    push_fixed2(out, f.current_us);
    out.append("s (x");
    push_fixed1(out, f.factor_millionths);
    out.append(") |\n");
    assert(final(out)@ =~= old(out)@ + md_regression_line(f@));
}

fn push_md_slow_lines(out: &mut String, v: &Vec<SlowFinding>)
    ensures
        final(out)@ == old(out)@ + text_lines(views(v@), |f: SlowView| md_slow_line(f)),
{
    let ghost vs = views(v@);
    let mut i: usize = 0;
    assert(vs.take(0) =~= Seq::<SlowView>::empty());
    while i < v.len()
        invariant
            i <= v.len(),
            vs == views(v@),
            out@ == old(out)@ + text_lines(vs.take(i as int), |f: SlowView| md_slow_line(f)),
        decreases v.len() - i,
    {
        assert(vs.take(i + 1).drop_last() =~= vs.take(i as int));
        assert(vs.take(i + 1).last() == v@[i as int]@);
        push_md_slow(out, &v[i]);
        assert(out@ =~= old(out)@ + text_lines(vs.take(i + 1), |f: SlowView| md_slow_line(f)));
        i = i + 1;
    }
    assert(vs.take(i as int) =~= vs);
}

fn push_md_flaky_lines(out: &mut String, v: &Vec<FlakyFinding>)
    ensures
        final(out)@ == old(out)@ + text_lines(views(v@), |f: FlakyView| md_flaky_line(f)),
{
    let ghost vs = views(v@);
    let mut i: usize = 0;
    assert(vs.take(0) =~= Seq::<FlakyView>::empty());
    while i < v.len()
        invariant
            i <= v.len(),
            vs == views(v@),
            out@ == old(out)@ + text_lines(vs.take(i as int), |f: FlakyView| md_flaky_line(f)),
        decreases v.len() - i,
    {
        assert(vs.take(i + 1).drop_last() =~= vs.take(i as int));
        assert(vs.take(i + 1).last() == v@[i as int]@);
        push_md_flaky(out, &v[i]);
        assert(out@ =~= old(out)@ + text_lines(vs.take(i + 1), |f: FlakyView| md_flaky_line(f)));
        i = i + 1;
    }
    assert(vs.take(i as int) =~= vs);
}

fn push_md_regression_lines(out: &mut String, v: &Vec<RegressionFinding>)
    ensures
        final(out)@ == old(out)@ + text_lines(views(v@), |f: RegressionView| md_regression_line(f)),
{
    let ghost vs = views(v@);
    let mut i: usize = 0;
    assert(vs.take(0) =~= Seq::<RegressionView>::empty());
    while i < v.len()
        invariant
            i <= v.len(),
            vs == views(v@),
            out@ == old(out)@ + text_lines(vs.take(i as int), |f: RegressionView| md_regression_line(f)),
        decreases v.len() - i,
    {
        assert(vs.take(i + 1).drop_last() =~= vs.take(i as int));
        assert(vs.take(i + 1).last() == v@[i as int]@);
        push_md_regression(out, &v[i]);
        assert(out@ =~= old(out)@ + text_lines(vs.take(i + 1), |f: RegressionView| md_regression_line(f)));
        i = i + 1;
    }
    assert(vs.take(i as int) =~= vs);
}

fn push_md_body(out: &mut String, report: &Report)
    ensures
        final(out)@ == old(out)@ + md_body(report@),
{
    if !has_findings(report) {
        out.append("No findings 🎉\n");
    } else {
        out.append("| Type | Test | Detail |\n");
        out.append("|------|------|--------|\n");
        push_md_slow_lines(out, &report.slow);
        push_md_flaky_lines(out, &report.flaky);
        push_md_regression_lines(out, &report.regression);
        let ghost before_cost = out@;
        if let Some(cost) = &report.cost {
            out.append("| 💰 Cost | — | total ");
            push_fixed1(out, cost.total_min_millionths);
            out.append(" min ≈ ");
            push_fixed2(out, cost.amount_millionths);
            out.append(" per run |\n");
        }
        assert(out@ =~= before_cost + md_cost(report@));
    }
    assert(final(out)@ =~= old(out)@ + md_body(report@));
}

fn push_md_tail(out: &mut String, report: &Report)
    ensures
        final(out)@ == old(out)@ + md_tail(report@),
{
    if let Some(msg) = &report.insufficient_history {
        out.append("\n");
        out.append("_");
        out.append(msg.as_str());
        out.append(" — flaky/regression skipped_\n");
    }
    assert(final(out)@ =~= old(out)@ + md_tail(report@));
}

/// Renders `report` as a markdown report.
pub fn to_markdown(report: &Report) -> (r: String)
    ensures
        r@ == markdown_spec(report@),
{
    let mut out = String::new();
    push_md_head(&mut out, report);
    push_md_body(&mut out, report);
    push_md_tail(&mut out, report);
    assert(out@ =~= markdown_spec(report@));
    out
}

// ---------------------------------------------------------------------------
// Laws of the renderings.

/// The status line of both renderings names the report's status: a healthy
/// report shows "✅ Healthy", one that needs pruning "⚠️ Needs Pruning", an
/// overgrown one "🔴 Overgrown"; the three labels are distinct.
pub proof fn status_line_names_the_status(r: ReportView)
    ensures
        ({
            let label = match r.status {
                HealthStatus::Healthy => "✅ Healthy"@,
                HealthStatus::NeedsPruning => "⚠️ Needs Pruning"@,
                HealthStatus::Overgrown => "🔴 Overgrown"@,
            };
            let text_pre = "[Kare] Test Health Report\n"@ + "--------------------------------------------------\n"@;
            let text_line = "Status: "@ + label + "\n"@;
            let md_pre = "# 🌿 Kare Test Health Report\n"@ + "\n"@;
            let md_line = "**Status:** "@ + label + "\n"@;
            &&& text_spec(r).subrange(text_pre.len() as int, (text_pre.len() + text_line.len()) as int) == text_line
            &&& markdown_spec(r).subrange(md_pre.len() as int, (md_pre.len() + md_line.len()) as int) == md_line
        }),
        forall|a: HealthStatus, b: HealthStatus| #[trigger] status_label_text(a) == #[trigger] status_label_text(b) ==> a == b,
{
    let label = status_label_text(r.status);
    let text_pre = "[Kare] Test Health Report\n"@ + "--------------------------------------------------\n"@;
    let text_line = "Status: "@ + label + "\n"@;
    let text_rest = "Score:  "@ + nat_text(r.score as nat) + " / 100\n"@ + "\n"@ + text_body(r) + text_tail(r);
    assert(text_spec(r) =~= text_pre + text_line + text_rest);
    assert((text_pre + text_line + text_rest).subrange(text_pre.len() as int, (text_pre.len() + text_line.len()) as int) =~= text_line);
    let md_pre = "# 🌿 Kare Test Health Report\n"@ + "\n"@;
    let md_line = "**Status:** "@ + label + "\n"@;
    let md_rest = "**Score:** "@ + nat_text(r.score as nat) + " / 100\n"@ + "\n"@ + "## Findings\n"@ + "\n"@ + md_body(r) + md_tail(r);
    assert(markdown_spec(r) =~= md_pre + md_line + md_rest);
    assert((md_pre + md_line + md_rest).subrange(md_pre.len() as int, (md_pre.len() + md_line.len()) as int) =~= md_line);
    reveal_strlit("✅ Healthy");
    reveal_strlit("⚠️ Needs Pruning");
    reveal_strlit("🔴 Overgrown");
    assert forall|a: HealthStatus, b: HealthStatus| #[trigger] status_label_text(a) == #[trigger] status_label_text(b) implies a == b by {
        if a != b {
            assert(status_label_text(a)[0] != status_label_text(b)[0]);
        }
    }
}

proof fn lemma_middle(a: Seq<char>, b: Seq<char>, c: Seq<char>)
    ensures
        (a + b + c).subrange(a.len() as int, (a.len() + b.len()) as int) == b,
{
    assert((a + b + c).subrange(a.len() as int, (a.len() + b.len()) as int) =~= b);
}

proof fn lemma_regroup(a: Seq<char>, b: Seq<char>, c: Seq<char>, d: Seq<char>)
    ensures
        a + (b + c) + d == (a + b) + c + d,
{
    assert(a + (b + c) + d =~= (a + b) + c + d);
}

/// A report that carries a cost lists it in its markdown rendering: the cost
/// row with the total minutes and the amount per run.
pub proof fn cost_row_is_listed(r: ReportView)
    requires
        r.cost is Some,
    ensures
        ({
            let c = r.cost->0;
            let row = "| 💰 Cost | — | total "@ + fixed1_text(c.total_min_millionths as nat) + " min ≈ "@
                + fixed2_text(c.amount_millionths as nat) + " per run |\n"@;
            exists|k: int| 0 <= k && k + row.len() <= markdown_spec(r).len()
                && #[trigger] markdown_spec(r).subrange(k, k + row.len()) == row
        }),
{
    let c = r.cost->0;
    let row = "| 💰 Cost | — | total "@ + fixed1_text(c.total_min_millionths as nat) + " min ≈ "@
        + fixed2_text(c.amount_millionths as nat) + " per run |\n"@;
    let body_pre = "| Type | Test | Detail |\n"@ + "|------|------|--------|\n"@
        + text_lines(r.slow, |f: SlowView| md_slow_line(f))
        + text_lines(r.flaky, |f: FlakyView| md_flaky_line(f))
        + text_lines(r.regression, |f: RegressionView| md_regression_line(f));
    assert(md_cost(r) == row);
    assert(md_body(r) == body_pre + row);
    let head = md_head(r);
    let tail = md_tail(r);
    assert(markdown_spec(r) == head + (body_pre + row) + tail);
    lemma_regroup(head, body_pre, row, tail);
    lemma_middle(head + body_pre, row, tail);
    let k = (head + body_pre).len() as int;
    assert(markdown_spec(r).subrange(k, k + row.len()) == row);
}

/// A report that carries a cost lists it in its text rendering: the cost
/// line with the total minutes and the amount per run.
pub proof fn cost_line_is_listed(r: ReportView)
    requires
        r.cost is Some,
    ensures
        ({
            let c = r.cost->0;
            let line = "- 💰 Cost:       total "@ + fixed1_text(c.total_min_millionths as nat) + " min ≈ "@
                + fixed2_text(c.amount_millionths as nat) + " per run\n"@;
            exists|k: int| 0 <= k && k + line.len() <= text_spec(r).len()
                && #[trigger] text_spec(r).subrange(k, k + line.len()) == line
        }),
{
    let c = r.cost->0;
    let line = "- 💰 Cost:       total "@ + fixed1_text(c.total_min_millionths as nat) + " min ≈ "@
        + fixed2_text(c.amount_millionths as nat) + " per run\n"@;
    let body_pre = "Findings:\n"@
        + text_lines(r.slow, |f: SlowView| text_slow_line(f))
        + text_lines(r.flaky, |f: FlakyView| text_flaky_line(f))
        + text_lines(r.regression, |f: RegressionView| text_regression_line(f));
    assert(text_cost(r) == line);
    assert(text_body(r) == body_pre + line);
    let head = text_head(r);
    let tail = text_tail(r);
    assert(text_spec(r) == head + (body_pre + line) + tail);
    lemma_regroup(head, body_pre, line, tail);
    lemma_middle(head + body_pre, line, tail);
    let k = (head + body_pre).len() as int;
    assert(text_spec(r).subrange(k, k + line.len()) == line);
}

} // verus!
