//! What holds of every run to a fixpoint.
use vstd::prelude::*;

use crate::finding::{edits_view, findings_view};
use crate::fix::{accepted_count, accepted_edits, apply_spec, sort_ascending};
use crate::fixpoint::{
    advances, applied_total, ends_as, is_run, linted, new_errors, open_fixes_spec, outcome, reaches,
    unfixable_spec, Fixpoint, Pass, Termination, Withheld,
};
use crate::output::{FileReport, FileReportView};

verus! {

/// Whether `lint` reports on a text what `report_of` says of it, each time.
pub open spec fn lints_as<F: Fn(&str) -> FileReport>(
    lint: F,
    report_of: spec_fn(Seq<char>) -> FileReportView,
) -> bool {
    forall|s: &str, r: FileReport| #[trigger]
        call_ensures(lint, (s,), r) ==> r@ == report_of(s@)
}

/// The passes of a run over a text that parses.
proof fn lemma_run<F: Fn(&str) -> FileReport>(
    lint: F,
    report_of: spec_fn(Seq<char>) -> FileReportView,
    original: Seq<char>,
    max_iters: int,
    r: Fixpoint,
) -> (passes: Seq<Pass>)
    requires
        lints_as(lint, report_of),
        report_of(original).error is None,
        reaches(lint, original, max_iters, r),
    ensures
        is_run(lint, original, passes),
        outcome(lint, passes, max_iters, r),
        r.final_report@ == report_of(r.sql@),
        r.final_report@.error is None,
        passes[0].report == report_of(original),
        passes.last() == (Pass { text: r.sql@, report: r.final_report@ }),
{
    assert(linted(lint, r.sql@, r.final_report@));
    let passes = choose|passes: Seq<Pass>| #[trigger]
        is_run(lint, original, passes) && outcome(lint, passes, max_iters, r);
    assert(linted(lint, passes[0].text, passes[0].report));
    passes
}

/// A run over a text that parses ends validated: its report is that of its text, which parses
/// and has no error that the original lacked; the findings kept from the original are the
/// original's, and the unfixable are counted in the final report.
pub proof fn a_fixpoint_is_validated<F: Fn(&str) -> FileReport>(
    lint: F,
    report_of: spec_fn(Seq<char>) -> FileReportView,
    original: Seq<char>,
    max_iters: int,
    r: Fixpoint,
)
    requires
        lints_as(lint, report_of),
        report_of(original).error is None,
        reaches(lint, original, max_iters, r),
    ensures
        r.final_report@ == report_of(r.sql@),
        r.final_report@.error is None,
        !new_errors(report_of(original).findings, r.final_report@.findings),
        findings_view(r.original_findings@) == report_of(original).findings,
        r.unfixable == unfixable_spec(r.final_report@.findings),
{
    let passes = lemma_run(lint, report_of, original, max_iters, r);
}

/// Edits against the original are kept exactly where one pass applied, and applying them gives
/// the final text. A run without a pass changed nothing, and no run has more passes than its cap.
pub proof fn edits_stand_for_a_single_pass<F: Fn(&str) -> FileReport>(
    lint: F,
    original: Seq<char>,
    max_iters: int,
    r: Fixpoint,
)
    requires
        0 <= max_iters,
        reaches(lint, original, max_iters, r),
    ensures
        r.edits is Some <==> r.iterations == 1,
        r.edits matches Some(es) ==> apply_spec(original, edits_view(es@)) == r.sql@,
        r.iterations == 0 ==> r.sql@ == original && r.applied == 0,
        r.iterations <= max_iters,
{
    if r.final_report@.error is None {
        let passes = choose|passes: Seq<Pass>| #[trigger]
            is_run(lint, original, passes) && outcome(lint, passes, max_iters, r);
        if passes.len() == 2 {
            assert(passes[1 - 1].next_text() == passes[1].text);
        }
    }
}

/// How a run over a text that parses ended says why. It is cut off exactly where the cap is
/// reached with a fix still on offer; it converged where no fix is left or the fixes on offer
/// change nothing; and it holds a text back that does not parse, or that has a new error.
pub proof fn the_termination_says_why<F: Fn(&str) -> FileReport>(
    lint: F,
    report_of: spec_fn(Seq<char>) -> FileReportView,
    original: Seq<char>,
    max_iters: int,
    r: Fixpoint,
)
    requires
        lints_as(lint, report_of),
        report_of(original).error is None,
        reaches(lint, original, max_iters, r),
    ensures
        ({
            let here = Pass { text: r.sql@, report: r.final_report@ };
            let next = report_of(here.next_text());
            &&& r.termination is CapHit <==> r.iterations == max_iters && here.fixes().len() > 0
            &&& match r.termination {
                Termination::CapHit => true,
                Termination::Converged => here.fixes().len() == 0 || here.next_text() == r.sql@,
                Termination::Withheld(Withheld::ParseBroke(m)) => next.error == Some(m@),
                Termination::Withheld(Withheld::NewError) => next.error is None && new_errors(
                    report_of(original).findings,
                    next.findings,
                ),
            }
        }),
{
    let passes = lemma_run(lint, report_of, original, max_iters, r);
    assert(ends_as(lint, passes, max_iters, r.termination));
    let last = passes.last();
    match r.termination {
        Termination::Withheld(Withheld::ParseBroke(m)) => {
            let v = choose|v: FileReportView| #[trigger]
                linted(lint, last.next_text(), v) && v.error == Some(m@);
            assert(v == report_of(last.next_text()));
        },
        Termination::Withheld(Withheld::NewError) => {
            let v = choose|v: FileReportView| #[trigger]
                linted(lint, last.next_text(), v) && v.error is None && new_errors(
                    passes[0].report.findings,
                    v.findings,
                );
            assert(v == report_of(last.next_text()));
        },
        _ => {},
    }
}

/// A run of one pass applied as many fixes as it accepted of those that the original's findings offer,
/// and skipped the rest.
pub proof fn a_single_pass_counts_its_fixes<F: Fn(&str) -> FileReport>(
    lint: F,
    report_of: spec_fn(Seq<char>) -> FileReportView,
    original: Seq<char>,
    max_iters: int,
    r: Fixpoint,
)
    requires
        lints_as(lint, report_of),
        report_of(original).error is None,
        reaches(lint, original, max_iters, r),
        r.iterations == 1,
    ensures
        ({
            let fixes = open_fixes_spec(report_of(original).findings);
            &&& r.applied == accepted_count(fixes)
            &&& r.sql@ == apply_spec(original, sort_ascending(accepted_edits(fixes)))
            &&& r.sql@ != original
        }),
{
    let passes = lemma_run(lint, report_of, original, max_iters, r);
    assert(passes.len() == 2);
    assert(passes.drop_last().len() == 1);
    assert(advances(passes, passes[1 - 1], passes[1]));
    assert(applied_total(passes.drop_last()) == 0);
}

} // verus!
