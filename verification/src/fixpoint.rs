//! Driving fixes to a fixpoint: apply, lint again, and stop where nothing is left to
//! fix, where a pass would make things worse, or at a cap.
use vstd::prelude::*;

use crate::collections::TextMap;
use crate::finding::{
    duplicate_findings, edits_view, findings_view, Finding, FindingView, Fix, FixEdit, FixView,
    Severity,
};
use crate::fix::{
    accepted_count, accepted_edits, applicable, apply_all, apply_spec, can_apply_all, fixes_view,
    sort_ascending,
};
use crate::output::{FileReport, FileReportView};

verus! {

/// A finding that counts as an error: of severity `Error` and not suppressed.
pub open spec fn is_open_error(f: FindingView) -> bool {
    f.suppression is None && f.severity == Severity::Error
}

/// Number of errors that `rule` reports among `fs`.
pub open spec fn error_count(fs: Seq<FindingView>, rule: Seq<char>) -> nat
    decreases fs.len(),
{
    if fs.len() == 0 {
        0
    } else {
        error_count(fs.drop_last(), rule) + if is_open_error(fs.last()) && fs.last().rule_id
            == rule {
            1nat
        } else {
            0nat
        }
    }
}

/// Count non-suppressed Error-severity findings by rule id. Keyed by rule id — not
/// statement index — so a fix that inserts a statement and shifts every later index
/// never reads as a change.
pub fn error_counts(findings: &[Finding]) -> (r: TextMap<usize>)
    ensures
        forall|rule: Seq<char>|
            #[trigger] r.has(rule) <==> error_count(findings_view(findings@), rule) > 0,
        forall|rule: Seq<char>|
            #[trigger] r.has(rule) ==> r.value_of(rule) == error_count(
                findings_view(findings@),
                rule,
            ),
{
    let ghost all = findings_view(findings@);
    let mut counts: TextMap<usize> = TextMap::new();
    let mut i: usize = 0;
    while i < findings.len()
        invariant
            i <= findings@.len(),
            all == findings_view(findings@),
            forall|rule: Seq<char>|
                #[trigger] counts.has(rule) <==> error_count(all.take(i as int), rule) > 0,
            forall|rule: Seq<char>|
                #[trigger] counts.has(rule) ==> counts.value_of(rule) == error_count(
                    all.take(i as int),
                    rule,
                ),
            forall|rule: Seq<char>| #[trigger] error_count(all.take(i as int), rule) <= i,
        decreases findings@.len() - i,
    {
        let f = &findings[i];
        proof {
            assert(all.take(i + 1).drop_last() == all.take(i as int));
            assert(all.take(i + 1).last() == f@);
            assert forall|rule: Seq<char>| #[trigger] error_count(all.take(i + 1), rule) <= i
                + 1 by {
                assert(error_count(all.take(i as int), rule) <= i);
            }
        }
        if !f.is_suppressed() && f.severity == Severity::Error {
            let n: usize = match counts.get(f.rule_id.as_str()) {
                Some(n) => *n,
                None => 0,
            };
            assert(error_count(all.take(i as int), f@.rule_id) == n);
            let ghost before = counts;
            counts.insert(f.rule_id.clone(), n + 1);
            proof {
                assert forall|rule: Seq<char>| #[trigger]
                    counts.has(rule) <==> error_count(all.take(i + 1), rule) > 0 by {
                    assert(before.has(rule) <==> error_count(all.take(i as int), rule) > 0);
                }
                assert forall|rule: Seq<char>| #[trigger] counts.has(rule) implies counts.value_of(
                    rule,
                ) == error_count(all.take(i + 1), rule) by {
                    assert(before.has(rule) <==> error_count(all.take(i as int), rule) > 0);
                    if rule != f@.rule_id {
                        assert(before.has(rule));
                    }
                }
            }
        }
        i += 1;
    }
    assert(all.take(all.len() as int) == all);
    counts
}

/// Whether some rule reports more errors in `after` than in `before`.
pub open spec fn new_errors(before: Seq<FindingView>, after: Seq<FindingView>) -> bool {
    exists|rule: Seq<char>| #[trigger] error_count(after, rule) > error_count(before, rule)
}

/// Whether the composed result `after` carries an Error the original `before` did not —
/// i.e. some fix introduced a new hazard. Uses an Error floor so it holds independent of
/// `--fail-on`.
///
/// It intentionally does not police new *Warnings* or a same-rule Error swap (net Error count
/// per rule id unchanged).
pub fn introduces_new_error(before: &[Finding], after: &[Finding]) -> (r: bool)
    ensures
        r == new_errors(findings_view(before@), findings_view(after@)),
{
    let ghost b = findings_view(before@);
    let ghost a = findings_view(after@);
    let baseline = error_counts(before);
    let counts = error_counts(after);
    let n: usize = counts.len();
    let mut i: usize = 0;
    while i < n
        invariant
            n == counts.keys().len(),
            i <= n,
            b == findings_view(before@),
            a == findings_view(after@),
            forall|rule: Seq<char>| #[trigger] baseline.has(rule) <==> error_count(b, rule) > 0,
            forall|rule: Seq<char>| #[trigger]
                baseline.has(rule) ==> baseline.value_of(rule) == error_count(b, rule),
            forall|rule: Seq<char>| #[trigger]
                counts.has(rule) ==> counts.value_of(rule) == error_count(a, rule),
            forall|j: int|
                0 <= j < i ==> error_count(a, #[trigger] counts.keys()[j]) <= error_count(
                    b,
                    counts.keys()[j],
                ),
        decreases n - i,
    {
        let rule = counts.key_at(i);
        let now: usize = *counts.value_at(i);
        let was: usize = match baseline.get(rule.as_str()) {
            Some(k) => *k,
            None => 0,
        };
        assert(error_count(b, rule@) == was);
        if now > was {
            assert(error_count(a, rule@) > error_count(b, rule@));
            return true;
        }
        i += 1;
    }
    proof {
        assert forall|rule: Seq<char>| !(#[trigger] error_count(a, rule) > error_count(b, rule)) by {
            if error_count(a, rule) > 0 {
                assert(counts.has(rule));
                let j = choose|j: int| 0 <= j < counts.keys().len() && counts.keys()[j] == rule;
                assert(counts.keys()[j] == rule);
            }
        }
    }
    false
}

/// The fixes of the findings that are not suppressed, in order.
pub open spec fn open_fixes_spec(fs: Seq<FindingView>) -> Seq<FixView>
    decreases fs.len(),
{
    if fs.len() == 0 {
        Seq::empty()
    } else {
        let before = open_fixes_spec(fs.drop_last());
        match fs.last().fix {
            Some(fix) => if fs.last().suppression is None {
                before.push(fix)
            } else {
                before
            },
            None => before,
        }
    }
}

/// The fixes of the findings that are not suppressed, in order.
pub fn open_fixes(findings: &Vec<Finding>) -> (r: Vec<&Fix>)
    ensures
        fixes_view(r@) == open_fixes_spec(findings_view(findings@)),
        r@.len() <= findings@.len(),
{
    let ghost all = findings_view(findings@);
    let mut out: Vec<&Fix> = Vec::new();
    let mut i: usize = 0;
    assert(fixes_view(out@) == Seq::<FixView>::empty());
    while i < findings.len()
        invariant
            i <= findings@.len(),
            out@.len() <= i,
            all == findings_view(findings@),
            fixes_view(out@) == open_fixes_spec(all.take(i as int)),
        decreases findings@.len() - i,
    {
        let f = &findings[i];
        proof {
            assert(all.take(i + 1).drop_last() == all.take(i as int));
            assert(all.take(i + 1).last() == f@);
        }
        if !f.is_suppressed() {
            if let Some(fix) = &f.fix {
                proof {
                    assert(fixes_view(out@.push(fix)) == fixes_view(out@).push(fix@));
                }
                out.push(fix);
            }
        }
        i += 1;
    }
    assert(all.take(all.len() as int) == all);
    out
}

/// Number of findings that are neither suppressed nor fixable.
pub open spec fn unfixable_spec(fs: Seq<FindingView>) -> nat
    decreases fs.len(),
{
    if fs.len() == 0 {
        0
    } else {
        unfixable_spec(fs.drop_last()) + if fs.last().suppression is None && fs.last().fix is None {
            1nat
        } else {
            0nat
        }
    }
}

/// Number of findings that are neither suppressed nor fixable.
pub fn count_unfixable(findings: &Vec<Finding>) -> (r: usize)
    ensures
        r == unfixable_spec(findings_view(findings@)),
{
    let ghost all = findings_view(findings@);
    let mut n: usize = 0;
    let mut i: usize = 0;
    while i < findings.len()
        invariant
            i <= findings@.len(),
            n <= i,
            all == findings_view(findings@),
            n == unfixable_spec(all.take(i as int)),
        decreases findings@.len() - i,
    {
        proof {
            assert(all.take(i + 1).drop_last() == all.take(i as int));
            assert(all.take(i + 1).last() == findings@[i as int]@);
        }
        if !findings[i].is_suppressed() && findings[i].fix.is_none() {
            n += 1;
        }
        i += 1;
    }
    assert(all.take(all.len() as int) == all);
    n
}

/// Hard cap on fixpoint iterations. A deliberately generous bound: a rule that cascades
/// or oscillates past it stops with the last validated-good result kept.
pub const MAX_FIX_ITERATIONS: usize = 10;

/// A candidate the loop refused to accept, keeping the prior validated-good text.
#[derive(Debug)]
pub enum Withheld {
    /// A candidate no longer parsed; its error message.
    ParseBroke(String),
    /// A candidate introduced a new Error vs the original.
    NewError,
}

/// How the fixpoint loop stopped. Exactly one of these holds per run, so the
/// withheld-note and non-convergence-note diagnostics are mutually exclusive by
/// construction (a contradictory pair is unrepresentable).
#[derive(Debug)]
pub enum Termination {
    /// Reached a fixpoint: no remaining fix, or a pass made no textual progress.
    Converged,
    /// A candidate was backed off (see [`Withheld`]); prior good text is kept.
    Withheld(Withheld),
    /// Hit the iteration cap while still making textual progress.
    CapHit,
}

/// Result of driving `apply_all` to a fixpoint over one input.
pub struct Fixpoint {
    /// Final text: parse-valid and regression-free vs the original (may equal it)
    /// whenever `final_report.error` is `None`; otherwise (the input itself didn't
    /// parse) it equals the unparseable original and is unused.
    pub sql: String,
    /// `Some(edits-against-original)` iff **exactly one** applying pass occurred — lets
    /// a diff reuse the byte-exact edit renderer. `None` when zero passes apply (nothing
    /// changed) or two or more do (offsets have shifted; use an original-vs-final diff).
    pub edits: Option<Vec<FixEdit>>,
    /// Total fixes applied across all passes.
    pub applied: usize,
    /// Applying passes performed.
    pub iterations: usize,
    /// How the loop stopped (fixpoint, back-off, or cap) — see [`Termination`].
    pub termination: Termination,
    /// The original input's findings (regression baseline).
    pub original_findings: Vec<Finding>,
    /// Re-lint of `sql`.
    pub final_report: FileReport,
    /// Non-suppressed findings in `final_report` with no automatic fix.
    pub unfixable: usize,
    /// Residual overlap-skips in the last applying pass.
    pub skipped_overlapping: usize,
}

/// A text together with what linting it reported.
pub struct Pass {
    pub text: Seq<char>,
    pub report: FileReportView,
}

impl Pass {
    /// The fixes on offer.
    pub open spec fn fixes(self) -> Seq<FixView> {
        open_fixes_spec(self.report.findings)
    }

    /// The text after composing the fixes on offer.
    pub open spec fn next_text(self) -> Seq<char> {
        apply_spec(self.text, sort_ascending(accepted_edits(self.fixes())))
    }

    /// Number of fixes on offer that an accepted one displaced.
    pub open spec fn skipped(self) -> int {
        self.fixes().len() - accepted_count(self.fixes())
    }

    /// Whether there is nothing left to do: no fix, or none that changes the text.
    pub open spec fn is_settled(self) -> bool {
        self.fixes().len() == 0 || self.next_text() == self.text
    }
}

/// Whether the fixes that `report` offers for `text` can be spliced into it.
pub open spec fn fixes_fit(text: Seq<char>, report: FileReportView) -> bool {
    applicable(text, sort_ascending(accepted_edits(open_fixes_spec(report.findings))))
}

/// Whether `report` is a possible outcome of linting `text`.
pub open spec fn linted<F: Fn(&str) -> FileReport>(
    lint: F,
    text: Seq<char>,
    report: FileReportView,
) -> bool {
    exists|s: &str, r: FileReport|
        s@ == text && r@ == report && #[trigger] call_ensures(lint, (s,), r)
}

/// Whether `passes` are the accepted passes of a run over `original`: each was linted,
/// each next one is the composition of the fixes of the one before, changes the text,
/// parses, and brings no rule more errors than the first had.
pub open spec fn is_run<F: Fn(&str) -> FileReport>(
    lint: F,
    original: Seq<char>,
    passes: Seq<Pass>,
) -> bool {
    &&& passes.len() > 0
    &&& passes[0].text == original
    &&& passes[0].report.error is None
    &&& forall|i: int|
        0 <= i < passes.len() ==> linted(lint, (#[trigger] passes[i]).text, passes[i].report)
    &&& forall|i: int|
        1 <= i < passes.len() ==> advances(passes, #[trigger] passes[i - 1], passes[i])
}

/// Whether the run goes on from `p` to `q`.
pub open spec fn advances(passes: Seq<Pass>, p: Pass, q: Pass) -> bool {
    &&& !p.is_settled()
    &&& q.text == p.next_text()
    &&& q.report.error is None
    &&& !new_errors(passes[0].report.findings, q.report.findings)
}

/// Number of fixes applied by all passes but the last.
pub open spec fn applied_total(passes: Seq<Pass>) -> nat
    decreases passes.len(),
{
    if passes.len() <= 1 {
        0
    } else {
        applied_total(passes.drop_last()) + accepted_count(passes[passes.len() - 2].fixes())
    }
}

/// Why a run over `passes` with at most `cap` applying passes ends as `t`.
pub open spec fn ends_as<F: Fn(&str) -> FileReport>(
    lint: F,
    passes: Seq<Pass>,
    cap: int,
    t: Termination,
) -> bool {
    let last = passes.last();
    let below_cap = passes.len() - 1 < cap;
    match t {
        Termination::Converged => if below_cap {
            last.is_settled()
        } else {
            last.fixes().len() == 0
        },
        Termination::Withheld(Withheld::ParseBroke(message)) => {
            &&& below_cap
            &&& !last.is_settled()
            &&& exists|r: FileReportView| #[trigger]
                linted(lint, last.next_text(), r) && r.error == Some(message@)
        },
        Termination::Withheld(Withheld::NewError) => {
            &&& below_cap
            &&& !last.is_settled()
            &&& exists|r: FileReportView| #[trigger]
                linted(lint, last.next_text(), r) && r.error is None && new_errors(
                    passes[0].report.findings,
                    r.findings,
                )
        },
        Termination::CapHit => !below_cap && last.fixes().len() > 0,
    }
}

/// Overlap-skips left over: of the pass that stopped for want of progress, else of the
/// last pass that was applied.
pub open spec fn residual_skips(passes: Seq<Pass>, cap: int) -> int {
    let n = passes.len() - 1;
    if n < cap && passes.last().fixes().len() > 0 && passes.last().is_settled() {
        passes.last().skipped()
    } else if n > 0 {
        passes[n - 1].skipped()
    } else {
        0
    }
}

/// Whether `r` is the outcome of the run `passes`.
pub open spec fn outcome<F: Fn(&str) -> FileReport>(
    lint: F,
    passes: Seq<Pass>,
    cap: int,
    r: Fixpoint,
) -> bool {
    let n = passes.len() - 1;
    &&& n <= cap
    &&& r.sql@ == passes.last().text
    &&& r.final_report@ == passes.last().report
    &&& findings_view(r.original_findings@) == passes[0].report.findings
    &&& r.iterations == n
    &&& r.applied == applied_total(passes)
    &&& r.unfixable == unfixable_spec(passes.last().report.findings)
    &&& r.skipped_overlapping == residual_skips(passes, cap)
    &&& ends_as(lint, passes, cap, r.termination)
    &&& match r.edits {
        Some(es) => n == 1 && edits_view(es@) == sort_ascending(
            accepted_edits(passes[0].fixes()),
        ),
        None => n != 1,
    }
}

/// No list of findings has more errors than itself.
proof fn lemma_no_new_errors(fs: Seq<FindingView>)
    ensures
        !new_errors(fs, fs),
{
}

proof fn lemma_accepted_count(fixes: Seq<FixView>)
    ensures
        accepted_count(fixes) <= fixes.len(),
    decreases fixes.len(),
{
    if fixes.len() > 0 {
        lemma_accepted_count(fixes.drop_last());
    }
}

/// Whether the fixes that `report` offers can be composed onto `text`.
pub fn can_fix(text: &str, report: &FileReport) -> (r: bool)
    ensures
        r == fixes_fit(text@, report@),
{
    let fixes = open_fixes(&report.findings);
    can_apply_all(text, fixes.as_slice())
}

/// Whether `r` is where fixing `original` ends: a text that lints as reported, without an error
/// that the original lacked. An original that does not parse is left as it is; any other goes
/// through passes, each applying the fixes of the one before.
pub open spec fn reaches<F: Fn(&str) -> FileReport>(
    lint: F,
    original: Seq<char>,
    max_iters: int,
    r: Fixpoint,
) -> bool {
    &&& linted(lint, r.sql@, r.final_report@)
    &&& !new_errors(findings_view(r.original_findings@), r.final_report@.findings)
    &&& r.final_report@.error is Some ==> {
        &&& r.sql@ == original
        &&& r.edits is None
        &&& r.applied == 0
        &&& r.iterations == 0
        &&& r.termination is Converged
        &&& findings_view(r.original_findings@) == r.final_report@.findings
        &&& r.unfixable == 0
        &&& r.skipped_overlapping == 0
    }
    &&& r.final_report@.error is None ==> exists|passes: Seq<Pass>| #[trigger]
        is_run(lint, original, passes) && outcome(lint, passes, max_iters, r)
}

/// Drive `apply_all` to a fixpoint. `lint` is injected so the loop is independent of where
/// reports come from. Every accepted intermediate is validated (parses, introduces no
/// new Error vs `original`), so `sql` is always safe to write.
pub fn fix_to_fixpoint<F: Fn(&str) -> FileReport>(
    original: &str,
    lint: F,
    max_iters: usize,
) -> (r: Fixpoint)
    requires
        forall|s: &str| #[trigger] call_requires(lint, (s,)),
        forall|s: &str, report: FileReport| #[trigger]
            call_ensures(lint, (s,), report) ==> fixes_fit(s@, report@),
        forall|s: &str, report: FileReport| #[trigger]
            call_ensures(lint, (s,), report) ==> report.findings@.len() * max_iters <= usize::MAX,
    ensures
        reaches(lint, original@, max_iters as int, r),
{
    let original_report = lint(original);
    let original_findings = duplicate_findings(original_report.findings.as_slice());
    proof {
        assert(call_ensures(lint, (original,), original_report));
        assert(linted(lint, original@, original_report@));
        lemma_no_new_errors(original_report@.findings);
    }
    if original_report.error.is_some() {
        return Fixpoint {
            sql: original.to_owned(),
            edits: None,
            applied: 0,
            iterations: 0,
            termination: Termination::Converged,
            original_findings,
            final_report: original_report,
            unfixable: 0,
            skipped_overlapping: 0,
        };
    }
    let ghost base = original_report@.findings;
    let ghost mut passes: Seq<Pass> = seq![Pass { text: original@, report: original_report@ }];
    let mut current = original.to_owned();
    let mut report = original_report;
    let mut first_edits: Option<Vec<FixEdit>> = None;
    let mut iterations: usize = 0;
    let mut applied: usize = 0;
    let mut skipped_overlapping: usize = 0;
    let mut stopped: Option<Termination> = None;
    proof {
        assert(report.findings@.len() * max_iters <= usize::MAX);
    }
    while iterations < max_iters && stopped.is_none()
        invariant
            forall|s: &str| #[trigger] call_requires(lint, (s,)),
            forall|s: &str, r: FileReport| #[trigger]
                call_ensures(lint, (s,), r) ==> fixes_fit(s@, r@),
            forall|s: &str, r: FileReport| #[trigger]
                call_ensures(lint, (s,), r) ==> r.findings@.len() * max_iters <= usize::MAX,
            iterations <= max_iters,
            base == passes[0].report.findings,
            base == findings_view(original_findings@),
            is_run(lint, original@, passes),
            passes.len() == iterations + 1,
            passes.last() == (Pass { text: current@, report: report@ }),
            report.error is None,
            fixes_fit(current@, report@),
            report.findings@.len() * max_iters <= usize::MAX,
            applied == applied_total(passes),
            applied * max_iters <= iterations * usize::MAX,
            !new_errors(base, report@.findings),
            match first_edits {
                Some(es) => iterations == 1 && edits_view(es@) == sort_ascending(
                    accepted_edits(passes[0].fixes()),
                ),
                None => iterations != 1,
            },
            stopped is None ==> skipped_overlapping == (if iterations > 0 {
                passes[iterations - 1].skipped()
            } else {
                0
            }),
            stopped is Some ==> {
                &&& iterations < max_iters
                &&& !(stopped->0 is CapHit)
                &&& ends_as(lint, passes, max_iters as int, stopped->0)
                &&& skipped_overlapping == residual_skips(passes, max_iters as int)
            },
        decreases max_iters - iterations, (if stopped is None { 1int } else { 0int }),
    {
        let fixes = open_fixes(&report.findings);
        let ghost here = passes.last();
        if fixes.len() == 0 {
            stopped = Some(Termination::Converged);
        } else {
            let step = apply_all(current.as_str(), fixes.as_slice());
            proof {
                lemma_accepted_count(here.fixes());
            }
            if step.sql == current {
                skipped_overlapping = step.skipped_overlapping;
                stopped = Some(Termination::Converged);
            } else {
                let text = step.sql.as_str();
                let candidate = lint(text);
                proof {
                    assert(call_ensures(lint, (text,), candidate));
                    assert(linted(lint, here.next_text(), candidate@));
                }
                if let Some(message) = &candidate.error {
                    stopped = Some(Termination::Withheld(Withheld::ParseBroke(message.clone())));
                } else if introduces_new_error(
                    original_findings.as_slice(),
                    candidate.findings.as_slice(),
                ) {
                    stopped = Some(Termination::Withheld(Withheld::NewError));
                } else {
                    let ghost longer = passes.push(Pass { text: step.sql@, report: candidate@ });
                    proof {
                        assert(longer.drop_last() == passes);
                        assert(longer[longer.len() - 2] == here);
                        assert forall|i: int| 1 <= i < longer.len() implies advances(
                            longer,
                            #[trigger] longer[i - 1],
                            longer[i],
                        ) by {
                            if i < passes.len() {
                                assert(advances(passes, passes[i - 1], passes[i]));
                            }
                        }
                        assert forall|i: int| 0 <= i < longer.len() implies linted(
                            lint,
                            (#[trigger] longer[i]).text,
                            longer[i].report,
                        ) by {
                            if i < passes.len() {
                                assert(longer[i] == passes[i]);
                            }
                        }
                        assert(step.applied * max_iters <= usize::MAX) by (nonlinear_arith)
                            requires
                                step.applied <= report.findings@.len(),
                                report.findings@.len() * max_iters <= usize::MAX,
                        ;
                        assert(applied + step.applied <= usize::MAX) by (nonlinear_arith)
                            requires
                                applied * max_iters <= iterations * usize::MAX,
                                step.applied * max_iters <= usize::MAX,
                                iterations < max_iters,
                        ;
                        assert((applied + step.applied) * max_iters <= (iterations + 1)
                            * usize::MAX) by (nonlinear_arith)
                            requires
                                applied * max_iters <= iterations * usize::MAX,
                                step.applied * max_iters <= usize::MAX,
                        ;
                        passes = longer;
                    }
                    current = step.sql;
                    iterations += 1;
                    applied += step.applied;
                    skipped_overlapping = step.skipped_overlapping;
                    first_edits = if iterations == 1 {
                        Some(step.edits)
                    } else {
                        None
                    };
                    report = candidate;
                }
            }
        }
    }
    let unfixable = count_unfixable(&report.findings);
    // Without a natural stop the loop ran to the cap: a fix still on offer means the run
    // was cut off, none means the last accepted pass reached the fixpoint.
    let still_fixable = open_fixes(&report.findings).len() > 0;
    let termination = match stopped {
        Some(t) => t,
        None => if still_fixable {
            Termination::CapHit
        } else {
            Termination::Converged
        },
    };
    let r = Fixpoint {
        sql: current,
        edits: first_edits,
        applied,
        iterations,
        termination,
        original_findings,
        final_report: report,
        unfixable,
        skipped_overlapping,
    };
    proof {
        assert(linted(lint, passes[passes.len() - 1].text, passes[passes.len() - 1].report));
        assert(outcome(lint, passes, max_iters as int, r));
    }
    r
}

} // verus!
