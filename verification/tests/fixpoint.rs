//! The fixpoint loop, step by step, over reports that are made up.

use pgsafe::finding::{Finding, Fix, FixEdit, Location, Severity};
use pgsafe::fixpoint::{
    fix_to_fixpoint, introduces_new_error, Termination, Withheld, MAX_FIX_ITERATIONS,
};
use pgsafe::output::FileReport;

// --- fixpoint driver test helpers ---

fn loop_finding_with_fix(rule: &str, sev: Severity, fix: Option<Fix>) -> Finding {
    Finding {
        rule_id: rule.into(),
        severity: sev,
        message: String::new(),
        guidance: String::new(),
        statement_index: 0,
        location: Location {
            byte: 0,
            line: 1,
            column: 1,
        },
        snippet: String::new(),
        suppression: None,
        fix,
    }
}

fn loop_report_with(findings: Vec<Finding>) -> FileReport {
    FileReport {
        name: "t".into(),
        findings,
        error: None,
    }
}

// Replace the single char at byte 0 with `to`.
fn loop_swap_first_char(to: &str) -> Fix {
    Fix {
        title: "swap".into(),
        edits: vec![FixEdit {
            start: 0,
            end: 1,
            replacement: to.into(),
        }],
    }
}

#[test]
fn introduces_new_error_detects_a_new_error_rule() {
    let mk = |rule: &str, sev| Finding {
        rule_id: rule.into(),
        severity: sev,
        message: String::new(),
        guidance: String::new(),
        statement_index: 0,
        location: Location {
            byte: 0,
            line: 1,
            column: 1,
        },
        snippet: String::new(),
        suppression: None,
        fix: None,
    };
    let before = vec![mk("add-index-non-concurrent", Severity::Error)];
    // A fix cleared add-index but introduced a new runtime-failure Error.
    let after = vec![mk("concurrently-in-transaction", Severity::Error)];
    assert!(introduces_new_error(&before, &after));
    // No new error: fewer/equal Errors is not a regression.
    assert!(!introduces_new_error(&before, &[]));
    assert!(!introduces_new_error(&before, &before));
    // A new Warning is not a regression (Error floor).
    assert!(!introduces_new_error(
        &before,
        &[mk("x", Severity::Warning)]
    ));
}

#[test]
fn fixpoint_cascades_until_no_fix() {
    // "1"→"2"→"3"→none, Warning severity so the no-regression check never fires.
    let lint = |s: &str| match s {
        "1" => loop_report_with(vec![loop_finding_with_fix(
            "r",
            Severity::Warning,
            Some(loop_swap_first_char("2")),
        )]),
        "2" => loop_report_with(vec![loop_finding_with_fix(
            "r",
            Severity::Warning,
            Some(loop_swap_first_char("3")),
        )]),
        _ => loop_report_with(vec![]),
    };
    let fp = fix_to_fixpoint("1", lint, MAX_FIX_ITERATIONS);
    assert_eq!(fp.sql, "3");
    assert_eq!(fp.iterations, 2);
    assert!(matches!(fp.termination, Termination::Converged));
    assert_eq!(fp.applied, 2);
    // Two applying passes → original-coordinate edits are no longer valid.
    assert!(fp.edits.is_none());
}

#[test]
fn fixpoint_single_pass_keeps_original_edits() {
    // One fix, converges after one apply → edits available for the byte-exact diff.
    let lint = |s: &str| match s {
        "1" => loop_report_with(vec![loop_finding_with_fix(
            "r",
            Severity::Warning,
            Some(loop_swap_first_char("2")),
        )]),
        _ => loop_report_with(vec![]),
    };
    let fp = fix_to_fixpoint("1", lint, MAX_FIX_ITERATIONS);
    assert_eq!(fp.sql, "2");
    assert_eq!(fp.iterations, 1);
    assert!(matches!(fp.termination, Termination::Converged));
    assert_eq!(
        fp.edits.as_deref(),
        Some(
            &[FixEdit {
                start: 0,
                end: 1,
                replacement: "2".into()
            }][..]
        )
    );
}

#[test]
fn fixpoint_no_fixes_is_a_noop() {
    let lint = |_: &str| loop_report_with(vec![]);
    let fp = fix_to_fixpoint("SELECT 1;", lint, MAX_FIX_ITERATIONS);
    assert_eq!(fp.sql, "SELECT 1;");
    assert_eq!(fp.iterations, 0);
    assert!(matches!(fp.termination, Termination::Converged));
    assert!(fp.edits.is_none());
    assert_eq!(fp.applied, 0);
}

#[test]
fn fixpoint_oscillation_hits_cap() {
    // "a"→"b"→"a"→… never stabilizes; the cap stops it with the last good text.
    let lint = |s: &str| match s {
        "a" => loop_report_with(vec![loop_finding_with_fix(
            "r",
            Severity::Warning,
            Some(loop_swap_first_char("b")),
        )]),
        "b" => loop_report_with(vec![loop_finding_with_fix(
            "r",
            Severity::Warning,
            Some(loop_swap_first_char("a")),
        )]),
        _ => loop_report_with(vec![]),
    };
    let fp = fix_to_fixpoint("a", lint, 4);
    assert!(matches!(fp.termination, Termination::CapHit));
    assert_eq!(fp.iterations, 4);
    // Result is one of the validated intermediates — always parse-valid SQL.
    assert!(fp.sql == "a" || fp.sql == "b");
}

#[test]
fn fixpoint_backs_off_new_error_on_second_pass() {
    // Pass 1 (Warning) applies; pass 2's result introduces a NEW Error rule → back off.
    let lint = |s: &str| match s {
        "1" => loop_report_with(vec![loop_finding_with_fix(
            "r",
            Severity::Warning,
            Some(loop_swap_first_char("2")),
        )]),
        "2" => loop_report_with(vec![
            loop_finding_with_fix("r", Severity::Warning, Some(loop_swap_first_char("3"))),
            // no error yet at "2"; the error appears only in the *candidate* "3":
        ]),
        "3" => loop_report_with(vec![loop_finding_with_fix("boom", Severity::Error, None)]),
        _ => loop_report_with(vec![]),
    };
    let fp = fix_to_fixpoint("1", lint, MAX_FIX_ITERATIONS);
    assert_eq!(fp.sql, "2"); // kept the last validated-good result
    assert_eq!(fp.iterations, 1);
    assert!(matches!(
        fp.termination,
        Termination::Withheld(Withheld::NewError)
    ));
}

#[test]
fn fixpoint_backs_off_on_first_pass_leaves_original() {
    // The very first candidate introduces a new Error → nothing accepted, original kept.
    let lint = |s: &str| match s {
        "1" => loop_report_with(vec![loop_finding_with_fix(
            "r",
            Severity::Warning,
            Some(loop_swap_first_char("2")),
        )]),
        _ => loop_report_with(vec![loop_finding_with_fix("boom", Severity::Error, None)]),
    };
    let fp = fix_to_fixpoint("1", lint, MAX_FIX_ITERATIONS);
    assert_eq!(fp.sql, "1");
    assert_eq!(fp.iterations, 0);
    assert!(matches!(
        fp.termination,
        Termination::Withheld(Withheld::NewError)
    ));
    assert!(fp.edits.is_none());
}

#[test]
fn fixpoint_backs_off_parse_break() {
    let lint = |s: &str| match s {
        "ok" => loop_report_with(vec![loop_finding_with_fix(
            "r",
            Severity::Warning,
            Some(loop_swap_first_char("X")),
        )]),
        _ => FileReport {
            name: "t".into(),
            findings: vec![],
            error: Some("boom".into()),
        },
    };
    let fp = fix_to_fixpoint("ok", lint, MAX_FIX_ITERATIONS);
    assert_eq!(fp.sql, "ok");
    assert!(matches!(
        fp.termination,
        Termination::Withheld(Withheld::ParseBroke(_))
    ));
}

#[test]
fn fixpoint_cap_reached_exactly_at_convergence() {
    // A cascade that produces exactly N fixes then none, run with max_iters = N:
    // the final accepted pass lands the fixpoint on the Nth step. The loop
    // exhausts the cap without a natural break, but the final report carries no
    // remaining fix, so this is Converged — not the false CapHit the old
    // `iterations == max_iters` shortcut would have reported.
    let lint = |s: &str| match s {
        "1" => loop_report_with(vec![loop_finding_with_fix(
            "r",
            Severity::Warning,
            Some(loop_swap_first_char("2")),
        )]),
        "2" => loop_report_with(vec![loop_finding_with_fix(
            "r",
            Severity::Warning,
            Some(loop_swap_first_char("3")),
        )]),
        "3" => loop_report_with(vec![loop_finding_with_fix(
            "r",
            Severity::Warning,
            Some(loop_swap_first_char("4")),
        )]),
        _ => loop_report_with(vec![]),
    };
    let fp = fix_to_fixpoint("1", lint, 3);
    assert!(
        matches!(fp.termination, Termination::Converged),
        "reached the fixpoint exactly at the cap"
    );
    assert_eq!(fp.sql, "4");
    assert_eq!(fp.iterations, 3);
}

#[test]
fn fixpoint_recovers_skipped_overlap_on_next_pass() {
    // Pass 1 emits two fixes whose edits overlap at byte 0: `apply_all` accepts
    // the first ([0,1)→"X") and skips the second for overlap. Pass 2's re-lint
    // re-reports the loser with a now-non-overlapping fix ([1,2)→"Y") that lands.
    // The driver must recover it across passes and end clean with no residual skip.
    let lint = |s: &str| match s {
        "ab" => loop_report_with(vec![
            loop_finding_with_fix("winner", Severity::Warning, Some(loop_swap_first_char("X"))),
            loop_finding_with_fix(
                "loser",
                Severity::Warning,
                Some(Fix {
                    title: "loser".into(),
                    edits: vec![FixEdit {
                        start: 0,
                        end: 2,
                        replacement: "?".into(),
                    }],
                }),
            ),
        ]),
        "Xb" => loop_report_with(vec![loop_finding_with_fix(
            "loser",
            Severity::Warning,
            Some(Fix {
                title: "loser".into(),
                edits: vec![FixEdit {
                    start: 1,
                    end: 2,
                    replacement: "Y".into(),
                }],
            }),
        )]),
        _ => loop_report_with(vec![]),
    };
    let fp = fix_to_fixpoint("ab", lint, MAX_FIX_ITERATIONS);
    assert!(matches!(fp.termination, Termination::Converged));
    assert_eq!(fp.sql, "XY"); // the skipped fix landed on the second pass
    assert_eq!(fp.applied, 2);
    assert_eq!(fp.skipped_overlapping, 0); // no residual skip after recovery
}

#[test]
fn fixpoint_no_textual_progress_converges() {
    // A fix whose edit is a textual no-op (replace byte 0 with itself) makes a
    // pass produce no change; the loop treats that as a fixpoint, not a cap hit.
    let lint = |s: &str| match s {
        "x" => loop_report_with(vec![loop_finding_with_fix(
            "noop",
            Severity::Warning,
            Some(loop_swap_first_char("x")),
        )]),
        _ => loop_report_with(vec![]),
    };
    let fp = fix_to_fixpoint("x", lint, MAX_FIX_ITERATIONS);
    assert!(matches!(fp.termination, Termination::Converged));
    assert_eq!(fp.iterations, 0);
    assert_eq!(fp.sql, "x");
}
