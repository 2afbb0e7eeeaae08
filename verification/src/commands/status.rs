//! What `status` reports: each configured setting against the system, by
//! domain, and the Homebrew state against the `[brew]` table.
use vstd::prelude::*;
use crate::brew::types::{diff_view, BrewDiff};
use crate::commands::{outcome_view, outcomes_view, OutcomeView, StatusOutcome};
use crate::logging::{LogLevel, BOLD, GREEN, RED, RESET};
use crate::text::{concat_all, join_strs, join_with, joined};

verus! {

/// Checks the system against the configuration.
pub struct StatusCmd {
    /// Disables Homebrew state check.
    pub no_brew: bool,
}

impl StatusCmd {
    /// Whether the Homebrew state is checked: not disabled, and the
    /// configuration has a `[brew]` table.
    pub fn checks_brew(&self, has_brew_table: bool) -> (r: bool)
        ensures
            r == (!self.no_brew && has_brew_table),
    {
        !self.no_brew && has_brew_table
    }
}

/// A line of the report and the level it is logged at.
pub struct ReportLine {
    pub level: LogLevel,
    pub text: String,
}

pub open spec fn line_view(l: ReportLine) -> (LogLevel, Seq<char>) {
    (l.level, l.text@)
}

pub open spec fn lines_view(s: Seq<ReportLine>) -> Seq<(LogLevel, Seq<char>)> {
    s.map_values(|l: ReportLine| line_view(l))
}

/// Some setting of domain `d` differs from the configuration.
pub open spec fn domain_has_diff(o: Seq<OutcomeView>, d: Seq<char>) -> bool {
    exists|i: int| 0 <= i < o.len() && (#[trigger] o[i]).0 == d && o[i].4
}

/// Outcome `i` is the first of its domain.
pub open spec fn first_of_domain(o: Seq<OutcomeView>, i: int) -> bool {
    forall|j: int| 0 <= j < i ==> (#[trigger] o[j]).0 != o[i].0
}

/// A domain's heading: a warning when one of its settings differs.
pub open spec fn heading(o: Seq<OutcomeView>, d: Seq<char>) -> (LogLevel, Seq<char>) {
    (if domain_has_diff(o, d) { LogLevel::Warning } else { LogLevel::Info }, BOLD@ + d + RESET@)
}

/// A setting's line: what it should be and what it is now, or that it matches.
pub open spec fn outcome_line(x: OutcomeView) -> (LogLevel, Seq<char>) {
    if x.4 {
        (LogLevel::Warning, "  "@ + x.1 + ": should be "@ + RED@ + x.2 + RESET@ + " (now: "@ + RED@ + x.3 + RESET@ + ")"@)
    } else {
        (LogLevel::Info, "  "@ + GREEN@ + "[Matched]"@ + RESET@ + " "@ + x.1 + ": "@ + x.3)
    }
}

/// The lines of the first `n` outcomes: each domain's heading before its
/// first setting, then each setting's line.
pub open spec fn report_lines(o: Seq<OutcomeView>, n: int) -> Seq<(LogLevel, Seq<char>)>
    decreases n,
{
    if n <= 0 {
        Seq::empty()
    } else {
        let before = report_lines(o, n - 1);
        let with_heading = if first_of_domain(o, n - 1) { before.push(heading(o, o[n - 1].0)) } else { before };
        with_heading.push(outcome_line(o[n - 1]))
    }
}

pub open spec fn any_diff(o: Seq<OutcomeView>) -> bool {
    exists|i: int| 0 <= i < o.len() && (#[trigger] o[i]).4
}

/// The closing line: whether the preferences diverged.
pub open spec fn preferences_summary(o: Seq<OutcomeView>) -> (LogLevel, Seq<char>) {
    if any_diff(o) {
        (LogLevel::Warning, "Preferences diverged. Run `cutler apply` to apply the config onto the system."@)
    } else {
        (LogLevel::Success, "System preferences are on sync."@)
    }
}

pub open spec fn preferences_report(o: Seq<OutcomeView>) -> Seq<(LogLevel, Seq<char>)> {
    report_lines(o, o.len() as int).push(preferences_summary(o))
}

fn has_diff_in(outcomes: &Vec<StatusOutcome>, d: &String) -> (r: bool)
    ensures
        r == domain_has_diff(outcomes_view(outcomes@), d@),
{
    let ghost o = outcomes_view(outcomes@);
    let mut i: usize = 0;
    while i < outcomes.len()
        invariant
            i <= outcomes.len(),
            o == outcomes_view(outcomes@),
            forall|j: int| 0 <= j < i ==> !((#[trigger] o[j]).0 == d@ && o[j].4),
        decreases outcomes.len() - i,
    {
        assert(o[i as int] == outcome_view(outcomes@[i as int]));
        if outcomes[i].differs && crate::text::str_eq(outcomes[i].domain.as_str(), d.as_str()) {
            assert(o[i as int].0 == d@ && o[i as int].4);
            return true;
        }
        i = i + 1;
    }
    false
}

fn is_first(outcomes: &Vec<StatusOutcome>, i: usize) -> (r: bool)
    requires
        i < outcomes.len(),
    ensures
        r == first_of_domain(outcomes_view(outcomes@), i as int),
{
    let ghost o = outcomes_view(outcomes@);
    assert(o[i as int] == outcome_view(outcomes@[i as int]));
    let mut j: usize = 0;
    while j < i
        invariant
            j <= i < outcomes.len(),
            o == outcomes_view(outcomes@),
            o[i as int].0 == outcomes@[i as int].domain@,
            forall|k: int| 0 <= k < j ==> (#[trigger] o[k]).0 != o[i as int].0,
        decreases i - j,
    {
        assert(o[j as int] == outcome_view(outcomes@[j as int]));
        if crate::text::str_eq(outcomes[j].domain.as_str(), outcomes[i].domain.as_str()) {
            return false;
        }
        j = j + 1;
    }
    true
}

fn outcome_text(x: &StatusOutcome) -> (r: ReportLine)
    ensures
        line_view(r) == outcome_line(outcome_view(*x)),
{
    if x.differs {
        let parts = vec!["  ", x.key.as_str(), ": should be ", RED, x.desired.as_str(), RESET, " (now: ", RED, x.current.as_str(), RESET, ")"];
        let text = join_strs(&parts);
        proof {
            let ps = parts@.map_values(|p: &str| p@);
            assert(ps =~= seq!["  "@, x.key@, ": should be "@, RED@, x.desired@, RESET@, " (now: "@, RED@, x.current@, RESET@, ")"@]);
            assert(concat_all(ps) =~= "  "@ + x.key@ + ": should be "@ + RED@ + x.desired@ + RESET@ + " (now: "@ + RED@ + x.current@ + RESET@ + ")"@) by {
                reveal_with_fuel(concat_all, 12);
            }
        }
        ReportLine { level: LogLevel::Warning, text }
    } else {
        let parts = vec!["  ", GREEN, "[Matched]", RESET, " ", x.key.as_str(), ": ", x.current.as_str()];
        let text = join_strs(&parts);
        proof {
            let ps = parts@.map_values(|p: &str| p@);
            assert(ps =~= seq!["  "@, GREEN@, "[Matched]"@, RESET@, " "@, x.key@, ": "@, x.current@]);
            assert(concat_all(ps) =~= "  "@ + GREEN@ + "[Matched]"@ + RESET@ + " "@ + x.key@ + ": "@ + x.current@) by {
                reveal_with_fuel(concat_all, 9);
            }
        }
        ReportLine { level: LogLevel::Info, text }
    }
}

/// The preferences part of the status report, from the outcomes of the
/// configured settings in order.
pub fn preferences_status(outcomes: &Vec<StatusOutcome>) -> (r: Vec<ReportLine>)
    ensures
        lines_view(r@) == preferences_report(outcomes_view(outcomes@)),
{
    let ghost o = outcomes_view(outcomes@);
    let mut r: Vec<ReportLine> = Vec::new();
    let mut any = false;
    let mut i: usize = 0;
    assert(lines_view(r@) =~= report_lines(o, 0));
    while i < outcomes.len()
        invariant
            i <= outcomes.len(),
            o == outcomes_view(outcomes@),
            lines_view(r@) == report_lines(o, i as int),
            any == exists|j: int| 0 <= j < i && (#[trigger] o[j]).4,
        decreases outcomes.len() - i,
    {
        assert(o[i as int] == outcome_view(outcomes@[i as int]));
        let ghost before = lines_view(r@);
        if is_first(outcomes, i) {
            let d = &outcomes[i].domain;
            let level = if has_diff_in(outcomes, d) { LogLevel::Warning } else { LogLevel::Info };
            let parts = vec![BOLD, d.as_str(), RESET];
            let text = join_strs(&parts);
            proof {
                let ps = parts@.map_values(|p: &str| p@);
                assert(ps =~= seq![BOLD@, d@, RESET@]);
                assert(concat_all(ps) =~= BOLD@ + d@ + RESET@) by {
                    reveal_with_fuel(concat_all, 4);
                }
            }
            let ghost b0 = r@;
            r.push(ReportLine { level, text });
            assert(lines_view(r@) =~= lines_view(b0).push(heading(o, o[i as int].0)));
        }
        let ghost b1 = r@;
        let line = outcome_text(&outcomes[i]);
        r.push(line);
        assert(lines_view(r@) =~= lines_view(b1).push(outcome_line(o[i as int])));
        if outcomes[i].differs {
            any = true;
        }
        i = i + 1;
    }
    let ghost b2 = r@;
    let last = if any {
        ReportLine { level: LogLevel::Warning, text: crate::text::owned("Preferences diverged. Run `cutler apply` to apply the config onto the system.") }
    } else {
        ReportLine { level: LogLevel::Success, text: crate::text::owned("System preferences are on sync.") }
    };
    r.push(last);
    assert(lines_view(r@) =~= lines_view(b2).push(preferences_summary(o)));
    r
}

/// The line for one list of a [`BrewDiff`], when it is not empty.
pub open spec fn check_line(label: Seq<char>, items: Seq<Seq<char>>) -> Seq<(LogLevel, Seq<char>)> {
    if items.len() > 0 {
        seq![(LogLevel::Warning, BOLD@ + label + ":"@ + RESET@ + " "@ + joined(items, ", "@))]
    } else {
        Seq::empty()
    }
}

pub open spec fn brew_labels() -> Seq<Seq<char>> {
    seq!["Formulae missing"@, "Extra formulae installed"@, "Casks missing"@, "Extra casks installed"@, "Missing taps"@, "Extra taps"@]
}

/// The lines for the first `n` lists of a diff.
pub open spec fn check_lines(d: Seq<Seq<Seq<char>>>, n: int) -> Seq<(LogLevel, Seq<char>)>
    decreases n,
{
    if n <= 0 {
        Seq::empty()
    } else {
        check_lines(d, n - 1) + check_line(brew_labels()[n - 1], d[n - 1])
    }
}

/// The Homebrew part of the status report: a line for each non-empty list,
/// then whether Homebrew diverged.
pub open spec fn brew_report(d: Seq<Seq<Seq<char>>>) -> Seq<(LogLevel, Seq<char>)> {
    let diverged = exists|k: int| 0 <= k < 6 && (#[trigger] d[k]).len() > 0;
    check_lines(d, 6).push(
        if diverged {
            (LogLevel::Warning, "Homebrew diverged. Run the `cutler brew` command group to sync/install with/from config."@)
        } else {
            (LogLevel::Success, "Homebrew status on sync."@)
        },
    )
}

fn push_check(out: &mut Vec<ReportLine>, label: &str, items: &Vec<String>)
    ensures
        lines_view(final(out)@) == lines_view(old(out)@) + check_line(label@, crate::brew::types::names_view(items@)),
{
    let ghost before = lines_view(out@);
    if items.len() > 0 {
        let j = join_with(items, ", ");
        assert(crate::brew::types::names_view(items@) =~= items@.map_values(|p: String| p@));
        let parts = vec![BOLD, label, ":", RESET, " ", j.as_str()];
        let text = join_strs(&parts);
        proof {
            let ps = parts@.map_values(|p: &str| p@);
            assert(ps =~= seq![BOLD@, label@, ":"@, RESET@, " "@, j@]);
            assert(concat_all(ps) =~= BOLD@ + label@ + ":"@ + RESET@ + " "@ + j@) by {
                reveal_with_fuel(concat_all, 7);
            }
        }
        out.push(ReportLine { level: LogLevel::Warning, text });
        assert(lines_view(out@) =~= before + check_line(label@, crate::brew::types::names_view(items@)));
    } else {
        assert(lines_view(out@) =~= before + check_line(label@, crate::brew::types::names_view(items@)));
    }
}

/// Reports a Homebrew diff.
pub fn brew_status(diff: &BrewDiff) -> (r: Vec<ReportLine>)
    ensures
        lines_view(r@) == brew_report(diff_view(*diff)),
{
    let ghost d = diff_view(*diff);
    let mut r: Vec<ReportLine> = Vec::new();
    assert(lines_view(r@) =~= check_lines(d, 0));
    push_check(&mut r, "Formulae missing", &diff.missing_formulae);
    assert(lines_view(r@) =~= check_lines(d, 1));
    push_check(&mut r, "Extra formulae installed", &diff.extra_formulae);
    assert(lines_view(r@) =~= check_lines(d, 2));
    push_check(&mut r, "Casks missing", &diff.missing_casks);
    assert(lines_view(r@) =~= check_lines(d, 3));
    push_check(&mut r, "Extra casks installed", &diff.extra_casks);
    assert(lines_view(r@) =~= check_lines(d, 4));
    push_check(&mut r, "Missing taps", &diff.missing_taps);
    assert(lines_view(r@) =~= check_lines(d, 5));
    push_check(&mut r, "Extra taps", &diff.extra_taps);
    assert(lines_view(r@) =~= check_lines(d, 6));
    let diverged = diff.missing_formulae.len() > 0 || diff.extra_formulae.len() > 0 || diff.missing_casks.len() > 0
        || diff.extra_casks.len() > 0 || diff.missing_taps.len() > 0 || diff.extra_taps.len() > 0;
    assert(diverged == exists|k: int| 0 <= k < 6 && (#[trigger] d[k]).len() > 0) by {
        if diverged {
            if diff.missing_formulae.len() > 0 { assert(d[0].len() > 0); }
            if diff.extra_formulae.len() > 0 { assert(d[1].len() > 0); }
            if diff.missing_casks.len() > 0 { assert(d[2].len() > 0); }
            if diff.extra_casks.len() > 0 { assert(d[3].len() > 0); }
            if diff.missing_taps.len() > 0 { assert(d[4].len() > 0); }
            if diff.extra_taps.len() > 0 { assert(d[5].len() > 0); }
        } else {
            assert forall|k: int| 0 <= k < 6 implies (#[trigger] d[k]).len() == 0 by {
                assert(d[0].len() == 0 && d[1].len() == 0 && d[2].len() == 0 && d[3].len() == 0 && d[4].len() == 0 && d[5].len() == 0);
            }
        }
    }
    let ghost b = r@;
    let last = if diverged {
        ReportLine { level: LogLevel::Warning, text: crate::text::owned("Homebrew diverged. Run the `cutler brew` command group to sync/install with/from config.") }
    } else {
        ReportLine { level: LogLevel::Success, text: crate::text::owned("Homebrew status on sync.") }
    };
    r.push(last);
    assert(lines_view(r@) =~= lines_view(b).push(brew_report(d).last()));
    assert(lines_view(r@) =~= brew_report(d));
    r
}


/// The check lines of the first `n` lists are warnings, and there is one
/// exactly when one of those lists is not empty.
proof fn lemma_check_lines(d: Seq<Seq<Seq<char>>>, n: int)
    requires
        0 <= n <= 6,
    ensures
        forall|k: int| 0 <= k < check_lines(d, n).len() ==> (#[trigger] check_lines(d, n)[k]).0 == LogLevel::Warning,
        check_lines(d, n).len() > 0 <==> exists|k: int| 0 <= k < n && (#[trigger] d[k]).len() > 0,
    decreases n,
{
    if n > 0 {
        lemma_check_lines(d, n - 1);
        let a = check_lines(d, n - 1);
        let b = check_line(brew_labels()[n - 1], d[n - 1]);
        assert(check_lines(d, n) == a + b);
        assert forall|k: int| 0 <= k < (a + b).len() implies (#[trigger] (a + b)[k]).0 == LogLevel::Warning by {
            if k < a.len() {
                assert((a + b)[k] == a[k]);
            } else {
                assert((a + b)[k] == b[k - a.len()]);
            }
        }
        if exists|k: int| 0 <= k < n && (#[trigger] d[k]).len() > 0 {
            let k = choose|k: int| 0 <= k < n && (#[trigger] d[k]).len() > 0;
            if k < n - 1 {
                assert(a.len() > 0);
            } else {
                assert(b.len() > 0);
            }
        }
        if (a + b).len() > 0 {
            if a.len() > 0 {
                let k = choose|k: int| 0 <= k < n - 1 && (#[trigger] d[k]).len() > 0;
                assert(0 <= k < n && d[k].len() > 0);
            } else {
                assert(d[n - 1].len() > 0);
            }
        }
    }
}

/// The Homebrew report closes by saying Homebrew diverged exactly when one
/// of its six lists (missing or extra formulae, casks and taps) is not
/// empty, which is exactly when a warning line precedes it; otherwise it
/// closes with a success line saying Homebrew is on sync.
pub proof fn law_brew_report_diverged(d: Seq<Seq<Seq<char>>>)
    requires
        d.len() == 6,
    ensures
        ({
            let r = brew_report(d);
            let nonempty = d[0].len() > 0 || d[1].len() > 0 || d[2].len() > 0 || d[3].len() > 0 || d[4].len() > 0 || d[5].len() > 0;
            &&& r.len() >= 1
            &&& (r.last().0 == LogLevel::Warning) <==> nonempty
            &&& (r.last().0 == LogLevel::Warning) <==> exists|k: int| 0 <= k < r.len() - 1 && (#[trigger] r[k]).0 == LogLevel::Warning
            &&& !nonempty ==> r.last() == (LogLevel::Success, "Homebrew status on sync."@)
        }),
{
    lemma_check_lines(d, 6);
    let c = check_lines(d, 6);
    let r = brew_report(d);
    assert(r.drop_last() == c);
    let nonempty = d[0].len() > 0 || d[1].len() > 0 || d[2].len() > 0 || d[3].len() > 0 || d[4].len() > 0 || d[5].len() > 0;
    if nonempty {
        if d[0].len() > 0 { assert(d[0].len() > 0); }
        else if d[1].len() > 0 { assert(d[1].len() > 0); }
        else if d[2].len() > 0 { assert(d[2].len() > 0); }
        else if d[3].len() > 0 { assert(d[3].len() > 0); }
        else if d[4].len() > 0 { assert(d[4].len() > 0); }
        else { assert(d[5].len() > 0); }
        assert(c.len() > 0);
        assert(r[0] == c[0]);
    } else {
        assert forall|k: int| 0 <= k < 6 implies (#[trigger] d[k]).len() == 0 by {
            if k == 0 {} else if k == 1 {} else if k == 2 {} else if k == 3 {} else if k == 4 {} else {}
        }
        assert(c.len() == 0);
    }
    assert forall|k: int| 0 <= k < r.len() - 1 implies #[trigger] r[k] == c[k] by {}
}

} // verus!
