//! Fixes: resolving drafts, applying edits, driving a text to its fixpoint, and rendering diffs.

use pgsafe::diff::render_diff_strings;
use pgsafe::edit_diff::{can_render_diff, render_diff};
use pgsafe::finding::{Finding, Fix, FixEdit, Location, Severity};
use pgsafe::fix::{apply, apply_all, can_apply_all, resolve, FixAnchor, FixDraft, FixDraftEdit};
use pgsafe::fixpoint::{
    fix_to_fixpoint, introduces_new_error, Termination, Withheld, MAX_FIX_ITERATIONS,
};
use pgsafe::output::FileReport;

// statement: "CREATE INDEX i ON t (c)" spanning bytes [0, 23)
const SQL: &str = "CREATE INDEX i ON t (c);";

// --- fixpoint driver test helpers ---
fn fix_finding_with_fix(rule: &str, sev: Severity, fix: Option<Fix>) -> Finding {
    Finding {
        rule_id: rule.into(),
        severity: sev,
        message: String::new(),
        guidance: String::new(),
        statement_index: 0,
        location: Location {
            byte: 0,
            line: 1,
            column: 1,
        },
        snippet: String::new(),
        suppression: None,
        fix,
    }
}

fn fix_report_with(findings: Vec<Finding>) -> FileReport {
    FileReport {
        name: "t".into(),
        findings,
        error: None,
    }
}

// Replace the single char at byte 0 with `to`.
fn fix_swap_first_char(to: &str) -> Fix {
    Fix {
        title: "swap".into(),
        edits: vec![FixEdit {
            start: 0,
            end: 1,
            replacement: to.into(),
        }],
    }
}

#[test]
fn after_keyword_inserts_past_the_word() {
    let d = FixDraft {
        title: "Add CONCURRENTLY",
        edits: vec![FixDraftEdit {
            anchor: FixAnchor::AfterKeyword("INDEX"),
            replacement: " CONCURRENTLY".into(),
        }],
    };
    let fix = resolve(&d, SQL, 0, 23).unwrap();
    // "CREATE INDEX" ends at byte 12.
    assert_eq!(
        fix.edits,
        vec![FixEdit {
            start: 12,
            end: 12,
            replacement: " CONCURRENTLY".into()
        }]
    );
    assert_eq!(
        apply(SQL, &fix.edits),
        "CREATE INDEX CONCURRENTLY i ON t (c);"
    );
}

#[test]
fn after_keyword_is_case_insensitive_and_word_bounded() {
    let sql = "create index idx_index ON t (c);"; // 'index' also appears inside idx_index
    let d = FixDraft {
        title: "Add CONCURRENTLY",
        edits: vec![FixDraftEdit {
            anchor: FixAnchor::AfterKeyword("INDEX"),
            replacement: " CONCURRENTLY".into(),
        }],
    };
    let fix = resolve(&d, sql, 0, sql.len() - 1).unwrap();
    // Matches the keyword at bytes [7,12), not the substring inside idx_index.
    assert_eq!(
        apply(sql, &fix.edits),
        "create index CONCURRENTLY idx_index ON t (c);"
    );
}

#[test]
fn after_keyword_absent_resolves_to_none() {
    let d = FixDraft {
        title: "x",
        edits: vec![FixDraftEdit {
            anchor: FixAnchor::AfterKeyword("MATERIALIZED"),
            replacement: " z".into(),
        }],
    };
    assert!(resolve(&d, SQL, 0, 23).is_none());
}

#[test]
fn statement_body_end_inserts_before_semicolon() {
    // span end is 23 (before the ';'); body-end insert lands there.
    let d = FixDraft {
        title: "Add NOT VALID",
        edits: vec![FixDraftEdit {
            anchor: FixAnchor::StatementBodyEnd,
            replacement: " NOT VALID".into(),
        }],
    };
    let fix = resolve(&d, SQL, 0, 23).unwrap();
    assert_eq!(
        fix.edits,
        vec![FixEdit {
            start: 23,
            end: 23,
            replacement: " NOT VALID".into()
        }]
    );
    assert_eq!(apply(SQL, &fix.edits), "CREATE INDEX i ON t (c) NOT VALID;");
}

#[test]
fn statement_start_inserts_a_prologue() {
    let d = FixDraft {
        title: "Set lock_timeout",
        edits: vec![FixDraftEdit {
            anchor: FixAnchor::StatementStart,
            replacement: "SET lock_timeout = '5s';\n".into(),
        }],
    };
    let fix = resolve(&d, SQL, 0, 23).unwrap();
    assert_eq!(
        apply(SQL, &fix.edits),
        "SET lock_timeout = '5s';\nCREATE INDEX i ON t (c);"
    );
}

#[test]
fn replace_token_at_swaps_the_identifier() {
    let sql = "ALTER TABLE t ADD COLUMN c json;"; // 'json' starts at byte 27
    let d = FixDraft {
        title: "Use jsonb",
        edits: vec![FixDraftEdit {
            anchor: FixAnchor::ReplaceTokenAt(27),
            replacement: "jsonb".into(),
        }],
    };
    let fix = resolve(&d, sql, 0, sql.len() - 1).unwrap();
    assert_eq!(
        fix.edits,
        vec![FixEdit {
            start: 27,
            end: 31,
            replacement: "jsonb".into()
        }]
    );
    assert_eq!(apply(sql, &fix.edits), "ALTER TABLE t ADD COLUMN c jsonb;");
}

#[test]
fn apply_handles_multiple_edits_high_to_low() {
    let fix = Fix {
        title: "t".into(),
        edits: vec![
            FixEdit {
                start: 0,
                end: 0,
                replacement: "A".into(),
            },
            FixEdit {
                start: 3,
                end: 3,
                replacement: "B".into(),
            },
        ],
    };
    assert_eq!(apply("xyz", &fix.edits), "AxyzB");
}

#[test]
fn after_keyword_offsets_are_byte_correct_past_multibyte() {
    // a multi-byte char (é, 2 bytes) before the keyword must not desync offsets.
    let sql = "-- é\nCREATE INDEX i ON t (c);";
    let stmt_start = sql.find("CREATE").unwrap();
    let d = FixDraft {
        title: "Add CONCURRENTLY",
        edits: vec![FixDraftEdit {
            anchor: FixAnchor::AfterKeyword("INDEX"),
            replacement: " CONCURRENTLY".into(),
        }],
    };
    let fix = resolve(&d, sql, stmt_start, sql.len() - 1).unwrap();
    assert_eq!(
        apply(sql, &fix.edits),
        "-- é\nCREATE INDEX CONCURRENTLY i ON t (c);"
    );
}

#[test]
fn replace_token_drafts_may_not_resolve() {
    let d = FixDraft {
        title: "t",
        edits: vec![FixDraftEdit {
            anchor: FixAnchor::ReplaceTokenAt(0),
            replacement: "x".into(),
        }],
    };
    assert!(d.may_legitimately_not_resolve());
    let k = FixDraft {
        title: "t",
        edits: vec![FixDraftEdit {
            anchor: FixAnchor::AfterKeyword("INDEX"),
            replacement: " y".into(),
        }],
    };
    assert!(!k.may_legitimately_not_resolve());
}

#[test]
fn replace_token_at_suppresses_schema_qualifier() {
    // `pg_catalog.json` — `pg_catalog` is at byte 0, immediately followed by `.`.
    // Replacing it would produce `jsonb.json` (corrupt), so the engine must return None.
    let sql = "pg_catalog.json";
    let d = FixDraft {
        title: "Use jsonb",
        edits: vec![FixDraftEdit {
            anchor: FixAnchor::ReplaceTokenAt(0),
            replacement: "jsonb".into(),
        }],
    };
    assert!(resolve(&d, sql, 0, sql.len()).is_none());
}

#[test]
fn resolve_rejects_empty_draft() {
    let d = FixDraft {
        title: "nothing",
        edits: vec![],
    };
    assert!(resolve(&d, SQL, 0, 23).is_none());
}

#[test]
fn absolute_out_of_range_resolves_to_none() {
    // SQL is 24 bytes; byte 999 is far out of range.
    let d = FixDraft {
        title: "x",
        edits: vec![FixDraftEdit {
            anchor: FixAnchor::Absolute {
                start: 999,
                end: 1000,
            },
            replacement: "z".into(),
        }],
    };
    assert!(resolve(&d, SQL, 0, 23).is_none());
}

#[test]
fn multi_edit_descending_apply_order_preserves_second_span() {
    // Two non-zero-width replacements where low-to-high application would corrupt the second:
    // "foo" [12,15) → "renamed_table" expands by 10 bytes, shifting "bigint"'s offset.
    // Descending application avoids the shift.
    let sql = "ALTER TABLE foo ADD COLUMN bar bigint;";
    let fix = Fix {
        title: "t".into(),
        edits: vec![
            FixEdit {
                start: 12,
                end: 15,
                replacement: "renamed_table".into(),
            },
            FixEdit {
                start: 31,
                end: 37,
                replacement: "int4".into(),
            },
        ],
    };
    assert_eq!(
        apply(sql, &fix.edits),
        "ALTER TABLE renamed_table ADD COLUMN bar int4;"
    );
}

#[test]
fn apply_all_composes_two_nonoverlapping_fixes() {
    let sql = "ALTER TABLE t ADD COLUMN c json;";
    let f1 = Fix {
        title: "Use jsonb".into(),
        edits: vec![FixEdit {
            start: 27,
            end: 31,
            replacement: "jsonb".into(),
        }],
    };
    // second fix: replace table name "t" [12,13) with "tbl"
    let f2 = Fix {
        title: "rename".into(),
        edits: vec![FixEdit {
            start: 12,
            end: 13,
            replacement: "tbl".into(),
        }],
    };
    let out = apply_all(sql, &[&f1, &f2]);
    assert_eq!(out.sql, "ALTER TABLE tbl ADD COLUMN c jsonb;");
    assert_eq!(out.applied, 2);
    assert_eq!(out.skipped_overlapping, 0);
    // accepted edits are returned ascending by start.
    assert_eq!(
        out.edits.iter().map(|e| e.start).collect::<Vec<_>>(),
        vec![12, 27]
    );
}

#[test]
fn apply_all_skips_a_fix_overlapping_an_accepted_edit() {
    let sql = "ALTER TABLE t ADD COLUMN c json;";
    let first = Fix {
        title: "Use jsonb".into(),
        edits: vec![FixEdit {
            start: 27,
            end: 31,
            replacement: "jsonb".into(),
        }],
    };
    // overlaps [27,31): [29,31) — must be skipped, first wins.
    let clash = Fix {
        title: "clash".into(),
        edits: vec![FixEdit {
            start: 29,
            end: 31,
            replacement: "X".into(),
        }],
    };
    let out = apply_all(sql, &[&first, &clash]);
    assert_eq!(out.sql, "ALTER TABLE t ADD COLUMN c jsonb;");
    assert_eq!(out.applied, 1);
    assert_eq!(out.skipped_overlapping, 1);
}

#[test]
fn apply_all_empty_is_unchanged() {
    let out = apply_all("SELECT 1;", &[]);
    assert_eq!(out.sql, "SELECT 1;");
    assert_eq!(out.applied, 0);
    assert_eq!(out.skipped_overlapping, 0);
    assert!(out.edits.is_empty());
}

#[test]
fn fix_introduces_new_error_detects_a_new_error_rule() {
    let mk = |rule: &str, sev| Finding {
        rule_id: rule.into(),
        severity: sev,
        message: String::new(),
        guidance: String::new(),
        statement_index: 0,
        location: Location {
            byte: 0,
            line: 1,
            column: 1,
        },
        snippet: String::new(),
        suppression: None,
        fix: None,
    };
    let before = vec![mk("add-index-non-concurrent", Severity::Error)];
    // A fix cleared add-index but introduced a new runtime-failure Error.
    let after = vec![mk("concurrently-in-transaction", Severity::Error)];
    assert!(introduces_new_error(&before, &after));
    // No new error: fewer/equal Errors is not a regression.
    assert!(!introduces_new_error(&before, &[]));
    assert!(!introduces_new_error(&before, &before));
    // A new Warning is not a regression (Error floor).
    assert!(!introduces_new_error(
        &before,
        &[mk("x", Severity::Warning)]
    ));
}

#[test]
fn fix_fixpoint_cascades_until_no_fix() {
    // "1"→"2"→"3"→none, Warning severity so the no-regression check never fires.
    let lint = |s: &str| match s {
        "1" => fix_report_with(vec![fix_finding_with_fix(
            "r",
            Severity::Warning,
            Some(fix_swap_first_char("2")),
        )]),
        "2" => fix_report_with(vec![fix_finding_with_fix(
            "r",
            Severity::Warning,
            Some(fix_swap_first_char("3")),
        )]),
        _ => fix_report_with(vec![]),
    };
    let fp = fix_to_fixpoint("1", lint, MAX_FIX_ITERATIONS);
    assert_eq!(fp.sql, "3");
    assert_eq!(fp.iterations, 2);
    assert!(matches!(fp.termination, Termination::Converged));
    assert_eq!(fp.applied, 2);
    // Two applying passes → original-coordinate edits are no longer valid.
    assert!(fp.edits.is_none());
}

#[test]
fn fix_fixpoint_single_pass_keeps_original_edits() {
    // One fix, converges after one apply → edits available for the byte-exact diff.
    let lint = |s: &str| match s {
        "1" => fix_report_with(vec![fix_finding_with_fix(
            "r",
            Severity::Warning,
            Some(fix_swap_first_char("2")),
        )]),
        _ => fix_report_with(vec![]),
    };
    let fp = fix_to_fixpoint("1", lint, MAX_FIX_ITERATIONS);
    assert_eq!(fp.sql, "2");
    assert_eq!(fp.iterations, 1);
    assert!(matches!(fp.termination, Termination::Converged));
    assert_eq!(
        fp.edits.as_deref(),
        Some(
            &[FixEdit {
                start: 0,
                end: 1,
                replacement: "2".into()
            }][..]
        )
    );
}

#[test]
fn fix_fixpoint_no_fixes_is_a_noop() {
    let lint = |_: &str| fix_report_with(vec![]);
    let fp = fix_to_fixpoint("SELECT 1;", lint, MAX_FIX_ITERATIONS);
    assert_eq!(fp.sql, "SELECT 1;");
    assert_eq!(fp.iterations, 0);
    assert!(matches!(fp.termination, Termination::Converged));
    assert!(fp.edits.is_none());
    assert_eq!(fp.applied, 0);
}

#[test]
fn fix_fixpoint_oscillation_hits_cap() {
    // "a"→"b"→"a"→… never stabilizes; the cap stops it with the last good text.
    let lint = |s: &str| match s {
        "a" => fix_report_with(vec![fix_finding_with_fix(
            "r",
            Severity::Warning,
            Some(fix_swap_first_char("b")),
        )]),
        "b" => fix_report_with(vec![fix_finding_with_fix(
            "r",
            Severity::Warning,
            Some(fix_swap_first_char("a")),
        )]),
        _ => fix_report_with(vec![]),
    };
    let fp = fix_to_fixpoint("a", lint, 4);
    assert!(matches!(fp.termination, Termination::CapHit));
    assert_eq!(fp.iterations, 4);
    // Result is one of the validated intermediates — always parse-valid SQL.
    assert!(fp.sql == "a" || fp.sql == "b");
}

#[test]
fn fix_fixpoint_backs_off_new_error_on_second_pass() {
    // Pass 1 (Warning) applies; pass 2's result introduces a NEW Error rule → back off.
    let lint = |s: &str| match s {
        "1" => fix_report_with(vec![fix_finding_with_fix(
            "r",
            Severity::Warning,
            Some(fix_swap_first_char("2")),
        )]),
        "2" => fix_report_with(vec![
            fix_finding_with_fix("r", Severity::Warning, Some(fix_swap_first_char("3"))),
            // no error yet at "2"; the error appears only in the *candidate* "3":
        ]),
        "3" => fix_report_with(vec![fix_finding_with_fix("boom", Severity::Error, None)]),
        _ => fix_report_with(vec![]),
    };
    let fp = fix_to_fixpoint("1", lint, MAX_FIX_ITERATIONS);
    assert_eq!(fp.sql, "2"); // kept the last validated-good result
    assert_eq!(fp.iterations, 1);
    assert!(matches!(
        fp.termination,
        Termination::Withheld(Withheld::NewError)
    ));
}

#[test]
fn fix_fixpoint_backs_off_on_first_pass_leaves_original() {
    // The very first candidate introduces a new Error → nothing accepted, original kept.
    let lint = |s: &str| match s {
        "1" => fix_report_with(vec![fix_finding_with_fix(
            "r",
            Severity::Warning,
            Some(fix_swap_first_char("2")),
        )]),
        _ => fix_report_with(vec![fix_finding_with_fix("boom", Severity::Error, None)]),
    };
    let fp = fix_to_fixpoint("1", lint, MAX_FIX_ITERATIONS);
    assert_eq!(fp.sql, "1");
    assert_eq!(fp.iterations, 0);
    assert!(matches!(
        fp.termination,
        Termination::Withheld(Withheld::NewError)
    ));
    assert!(fp.edits.is_none());
}

#[test]
fn fix_fixpoint_backs_off_parse_break() {
    let lint = |s: &str| match s {
        "ok" => fix_report_with(vec![fix_finding_with_fix(
            "r",
            Severity::Warning,
            Some(fix_swap_first_char("X")),
        )]),
        _ => FileReport {
            name: "t".into(),
            findings: vec![],
            error: Some("boom".into()),
        },
    };
    let fp = fix_to_fixpoint("ok", lint, MAX_FIX_ITERATIONS);
    assert_eq!(fp.sql, "ok");
    assert!(matches!(
        fp.termination,
        Termination::Withheld(Withheld::ParseBroke(_))
    ));
}

#[test]
fn fix_fixpoint_cap_reached_exactly_at_convergence() {
    // A cascade that produces exactly N fixes then none, run with max_iters = N:
    // the final accepted pass lands the fixpoint on the Nth step. The loop
    // exhausts the cap without a natural break, but the final report carries no
    // remaining fix, so this is Converged — not the false CapHit the old
    // `iterations == max_iters` shortcut would have reported.
    let lint = |s: &str| match s {
        "1" => fix_report_with(vec![fix_finding_with_fix(
            "r",
            Severity::Warning,
            Some(fix_swap_first_char("2")),
        )]),
        "2" => fix_report_with(vec![fix_finding_with_fix(
            "r",
            Severity::Warning,
            Some(fix_swap_first_char("3")),
        )]),
        "3" => fix_report_with(vec![fix_finding_with_fix(
            "r",
            Severity::Warning,
            Some(fix_swap_first_char("4")),
        )]),
        _ => fix_report_with(vec![]),
    };
    let fp = fix_to_fixpoint("1", lint, 3);
    assert!(
        matches!(fp.termination, Termination::Converged),
        "reached the fixpoint exactly at the cap"
    );
    assert_eq!(fp.sql, "4");
    assert_eq!(fp.iterations, 3);
}

#[test]
fn fix_fixpoint_recovers_skipped_overlap_on_next_pass() {
    // Pass 1 emits two fixes whose edits overlap at byte 0: `apply_all` accepts
    // the first ([0,1)→"X") and skips the second for overlap. Pass 2's re-lint
    // re-reports the loser with a now-non-overlapping fix ([1,2)→"Y") that lands.
    // The driver must recover it across passes and end clean with no residual skip.
    let lint = |s: &str| match s {
        "ab" => fix_report_with(vec![
            fix_finding_with_fix("winner", Severity::Warning, Some(fix_swap_first_char("X"))),
            fix_finding_with_fix(
                "loser",
                Severity::Warning,
                Some(Fix {
                    title: "loser".into(),
                    edits: vec![FixEdit {
                        start: 0,
                        end: 2,
                        replacement: "?".into(),
                    }],
                }),
            ),
        ]),
        "Xb" => fix_report_with(vec![fix_finding_with_fix(
            "loser",
            Severity::Warning,
            Some(Fix {
                title: "loser".into(),
                edits: vec![FixEdit {
                    start: 1,
                    end: 2,
                    replacement: "Y".into(),
                }],
            }),
        )]),
        _ => fix_report_with(vec![]),
    };
    let fp = fix_to_fixpoint("ab", lint, MAX_FIX_ITERATIONS);
    assert!(matches!(fp.termination, Termination::Converged));
    assert_eq!(fp.sql, "XY"); // the skipped fix landed on the second pass
    assert_eq!(fp.applied, 2);
    assert_eq!(fp.skipped_overlapping, 0); // no residual skip after recovery
}

#[test]
fn fix_fixpoint_no_textual_progress_converges() {
    // A fix whose edit is a textual no-op (replace byte 0 with itself) makes a
    // pass produce no change; the loop treats that as a fixpoint, not a cap hit.
    let lint = |s: &str| match s {
        "x" => fix_report_with(vec![fix_finding_with_fix(
            "noop",
            Severity::Warning,
            Some(fix_swap_first_char("x")),
        )]),
        _ => fix_report_with(vec![]),
    };
    let fp = fix_to_fixpoint("x", lint, MAX_FIX_ITERATIONS);
    assert!(matches!(fp.termination, Termination::Converged));
    assert_eq!(fp.iterations, 0);
    assert_eq!(fp.sql, "x");
}

// --- fixpoint driver test helpers ---

// Replace the single char at byte 0 with `to`.
#[test]
fn empty_edits_render_nothing() {
    assert_eq!(render_diff("f.sql", "SELECT 1;\n", &[]), "");
}

#[test]
fn single_line_replacement_diff() {
    // "CREATE INDEX i ON t (c);\n" — insert " CONCURRENTLY" after "CREATE INDEX" (byte 12).
    // The full diff's byte-exactness is enforced by the `git apply` round-trip in
    // tests/fix_cli.rs; here we lock the structure the git format demands.
    let sql = "CREATE INDEX i ON t (c);\n";
    let edits = vec![FixEdit {
        start: 12,
        end: 12,
        replacement: " CONCURRENTLY".into(),
    }];
    let out = render_diff("f.sql", sql, &edits);
    // git-parseable headers (a/ b/ prefixes, no " (fixed)" suffix).
    assert!(
        out.starts_with("--- a/f.sql\n+++ b/f.sql\n"),
        "headers must use git a/ b/ prefixes: {out}"
    );
    assert!(out.contains("@@ "), "must have a hunk header: {out}");
    assert!(
        out.contains("-CREATE INDEX i ON t (c);\n"),
        "must remove the original line: {out}"
    );
    assert!(
        out.contains("+CREATE INDEX CONCURRENTLY i ON t (c);\n"),
        "must add the fixed line: {out}"
    );
}

#[test]
fn newline_adding_replacement_grows_line_count() {
    // Prologue insertion at byte 0 adds a line before the statement, so the hunk
    // emits two `+` lines against one `-` line.
    let sql = "CREATE INDEX i ON t (c);\n";
    let edits = vec![FixEdit {
        start: 0,
        end: 0,
        replacement: "SET lock_timeout = '5s';\n".into(),
    }];
    let out = render_diff("f.sql", sql, &edits);
    assert!(out.starts_with("--- a/f.sql\n+++ b/f.sql\n"), "{out}");
    assert!(out.contains("@@ "), "{out}");
    assert!(out.contains("-CREATE INDEX i ON t (c);\n"), "{out}");
    assert!(out.contains("+SET lock_timeout = '5s';\n"), "{out}");
    assert!(out.contains("+CREATE INDEX i ON t (c);\n"), "{out}");
    // One line removed, two added.
    assert_eq!(
        out.lines()
            .filter(|l| l.starts_with('-') && !l.starts_with("---"))
            .count(),
        1
    );
    assert_eq!(
        out.lines()
            .filter(|l| l.starts_with('+') && !l.starts_with("+++"))
            .count(),
        2
    );
}

#[test]
fn nearby_changes_coalesce_with_context() {
    // Two changed lines (0 and 3) two unchanged lines apart coalesce into a single
    // hunk, with the intervening lines shown as context. `+` lines carry both fixes.
    let sql = "CREATE INDEX i ON a (c);\nSELECT 1;\nSELECT 2;\nCREATE INDEX j ON b (c);\n";
    let edits = vec![
        FixEdit {
            start: 0,
            end: 0,
            replacement: "SET lock_timeout = '5s';\n".into(),
        },
        FixEdit {
            // "CREATE INDEX" on line 3 starts at byte 45; insertion point is byte 57.
            start: 57,
            end: 57,
            replacement: " CONCURRENTLY".into(),
        },
    ];
    let out = render_diff("f.sql", sql, &edits);
    assert!(out.starts_with("--- a/f.sql\n+++ b/f.sql\n"), "{out}");
    // A single coalesced hunk (the 2-line gap is <= 2*CONTEXT).
    assert_eq!(
        out.matches("@@ ").count(),
        1,
        "expected one coalesced hunk: {out}"
    );
    // Intervening unchanged lines appear as context (space prefix).
    assert!(out.contains(" SELECT 1;\n"), "context line missing: {out}");
    assert!(out.contains(" SELECT 2;\n"), "context line missing: {out}");
    assert!(out.contains("+SET lock_timeout = '5s';\n"), "{out}");
    assert!(
        out.contains("+CREATE INDEX CONCURRENTLY j ON b (c);\n"),
        "{out}"
    );
}

#[test]
fn no_trailing_newline_emits_marker() {
    // Final line lacks a trailing newline: both the removed and the added final
    // line must carry git's `\ No newline at end of file` marker.
    let sql = "CREATE INDEX i ON t (c);";
    let edits = vec![FixEdit {
        start: 12,
        end: 12,
        replacement: " CONCURRENTLY".into(),
    }];
    let out = render_diff("f.sql", sql, &edits);
    assert!(
        out.contains("\\ No newline at end of file"),
        "must mark the missing trailing newline: {out}"
    );
    // Marker appears for both the `-` and the `+` final line.
    assert_eq!(
        out.matches("\\ No newline at end of file").count(),
        2,
        "one marker per side: {out}"
    );
}

#[test]
fn render_diff_strings_single_hunk_between_common_context() {
    let a = "keep 1;\nOLD a;\nOLD b;\nkeep 2;\n";
    let b = "keep 1;\nNEW a;\nkeep 2;\n";
    let out = render_diff_strings("f.sql", a, b);
    assert!(out.starts_with("--- a/f.sql\n+++ b/f.sql\n"), "{out}");
    assert!(out.contains("@@ "), "{out}");
    assert!(out.contains(" keep 1;\n"), "leading context: {out}");
    assert!(out.contains(" keep 2;\n"), "trailing context: {out}");
    assert!(
        out.contains("-OLD a;\n") && out.contains("-OLD b;\n"),
        "removed lines: {out}"
    );
    assert!(out.contains("+NEW a;\n"), "added line: {out}");
}

#[test]
fn render_diff_strings_equal_is_empty() {
    assert_eq!(render_diff_strings("f.sql", "x;\n", "x;\n"), "");
}

#[test]
fn render_diff_strings_change_on_first_line() {
    // Change on the FIRST line: no common prefix (pre == 0 → ctx_before == 0), so
    // the hunk starts at line 1 with no leading context ahead of the change.
    let a = "OLD;\nkeep;\n";
    let b = "NEW;\nkeep;\n";
    let out = render_diff_strings("f.sql", a, b);
    assert!(out.contains("@@ -1,2 +1,2 @@\n"), "{out}");
    assert!(out.contains("-OLD;\n"), "{out}");
    assert!(out.contains("+NEW;\n"), "{out}");
    assert!(out.contains(" keep;\n"), "trailing context: {out}");
    // The change is the very first body line — nothing precedes it.
    assert!(
        out.starts_with("--- a/f.sql\n+++ b/f.sql\n@@ -1,2 +1,2 @@\n-OLD;\n"),
        "no leading context before a first-line change: {out}"
    );
}

#[test]
fn render_diff_strings_change_reaching_last_line() {
    // Change reaching the LAST line: no common suffix (suf == 0 → ctx_after == 0),
    // so the hunk ends at the changed line with no trailing context after it.
    let a = "keep;\nOLD;\n";
    let b = "keep;\nNEW;\n";
    let out = render_diff_strings("f.sql", a, b);
    assert!(out.contains("@@ -1,2 +1,2 @@\n"), "{out}");
    assert!(out.contains(" keep;\n"), "leading context: {out}");
    assert!(out.contains("-OLD;\n"), "{out}");
    assert!(out.contains("+NEW;\n"), "{out}");
    // The added line is the end of output — no trailing context follows.
    assert!(
        out.ends_with("+NEW;\n"),
        "no trailing context after a last-line change: {out}"
    );
}

#[test]
fn edits_beyond_the_text_cannot_be_diffed() {
    let edit = |start, end| FixEdit { start, end, replacement: "x".into() };
    assert!(can_render_diff("abc;\n", &[edit(0, 1), edit(2, 3)]));
    assert!(!can_render_diff("abc;\n", &[edit(2, 30)]));
    assert!(!can_render_diff("aé;\n", &[edit(2, 2)]));
}

#[test]
fn a_diff_shows_each_changed_line_and_keeps_the_rest() {
    let original = "a;\nb;\nc;\n";
    let edits = [FixEdit { start: 3, end: 4, replacement: "B".into() }];
    assert_eq!(
        render_diff("m.sql", original, &edits),
        "--- a/m.sql\n+++ b/m.sql\n@@ -1,3 +1,3 @@\n a;\n-b;\n+B;\n c;\n"
    );
    assert_eq!(
        render_diff_strings("m.sql", original, "a;\nB;\nc;\n"),
        "--- a/m.sql\n+++ b/m.sql\n@@ -1,3 +1,3 @@\n a;\n-b;\n+B;\n c;\n"
    );
}

#[test]
fn a_fix_is_taken_whole_or_not_at_all() {
    let edit = |start, end, to: &str| FixEdit { start, end, replacement: to.into() };
    let first = Fix { title: "a".into(), edits: vec![edit(2, 4, "X")] };
    let second = Fix { title: "b".into(), edits: vec![edit(0, 1, "Y"), edit(3, 5, "Z")] };
    let out = apply_all("abcdef", &[&first, &second]);
    assert_eq!(out.sql, "abXef");
    assert_eq!((out.applied, out.skipped_overlapping), (1, 1));
}

#[test]
fn fitting_fixes_apply_together() {
    // An insertion at the end of a replaced range leaves both in place.
    let sql = "é json x";
    let edit = |start: u32, end: u32, replacement: &str| Fix {
        title: "t".to_string(),
        edits: vec![FixEdit {
            start,
            end,
            replacement: replacement.to_string(),
        }],
    };
    let replace = edit(3, 7, "jsonb");
    let insert = edit(7, 7, "!");
    let front = edit(0, 0, "-- \n");
    let fixes = [&replace, &insert, &front];
    assert!(can_apply_all(sql, &fixes));
    let out = apply_all(sql, &fixes);
    assert_eq!(out.sql, "-- \né jsonb! x");
    assert_eq!(out.applied, 3);

    // An insertion at the start of a replaced range stands before what replaces it, in
    // whichever order the two are offered.
    let replace = edit(0, 1, "y");
    let before = edit(0, 0, "é");
    for fixes in [[&before, &replace], [&replace, &before]] {
        let out = apply_all("xé", &fixes);
        assert_eq!(out.sql, "éyé");
        assert_eq!(out.applied, 2);
        assert_eq!((out.edits[0].start, out.edits[0].end), (0, 0));
        assert_eq!((out.edits[1].start, out.edits[1].end), (0, 1));
    }
}

#[test]
fn apply_keeps_an_insertion_before_a_replacement() {
    let edit = |start: u32, end: u32, replacement: &str| FixEdit {
        start,
        end,
        replacement: replacement.to_string(),
    };
    assert_eq!(apply("abc", &[edit(0, 0, "X"), edit(0, 1, "Y")]), "XYbc");
    assert_eq!(apply("abc", &[edit(0, 1, "Y"), edit(0, 0, "X")]), "XYbc");
    // Insertions at one place keep the order they are listed in.
    assert_eq!(apply("abc", &[edit(1, 1, "1"), edit(1, 1, "2")]), "a12bc");
    assert_eq!(apply("abc", &[edit(2, 3, "Z"), edit(0, 1, "Y")]), "YbZ");
}

/// The numbers of a hunk header: the old start and count, and the new start.
fn place(header: &str) -> (usize, usize, usize) {
    let mut sides = header.split(' ').skip(1).map(|side| {
        let (start, count) = side[1..].split_once(',').unwrap();
        (start.parse::<usize>().unwrap(), count.parse::<usize>().unwrap())
    });
    let old = sides.next().unwrap();
    let new = sides.next().unwrap();
    (old.0, old.1, new.0)
}

/// `original` patched with a unified diff, each old line checked against the text.
fn patch(original: &str, diff: &str) -> String {
    let old: Vec<&str> = original.split_inclusive('\n').collect();
    let mut out = String::new();
    let mut at = 0;
    let mut left = 0;
    let mut lines = diff.split_inclusive('\n').skip(2).peekable();
    while let Some(line) = lines.next() {
        if line.starts_with("@@ ") {
            assert_eq!(left, 0);
            let (start, count, new_start) = place(line);
            while at < start - 1 {
                out.push_str(old[at]);
                at += 1;
            }
            assert_eq!(out.split_inclusive('\n').count() + 1, new_start);
            left = count;
            continue;
        }
        let mut text = &line[1..];
        if lines.peek().is_some_and(|l| l.starts_with('\\')) {
            lines.next();
            text = text.strip_suffix('\n').unwrap();
        }
        if !line.starts_with('+') {
            assert_eq!(old[at], text);
            at += 1;
            left -= 1;
        }
        if !line.starts_with('-') {
            out.push_str(text);
        }
    }
    assert_eq!(left, 0);
    while at < old.len() {
        out.push_str(old[at]);
        at += 1;
    }
    out
}

#[test]
fn a_diff_of_edits_patches_to_the_applied_text() {
    let edit = |start: u32, end: u32, replacement: &str| FixEdit {
        start,
        end,
        replacement: replacement.to_string(),
    };
    let far: String = (0..40).map(|i| format!("line {i:02}\n")).collect();
    let cases: Vec<(&str, Vec<FixEdit>)> = vec![
        ("abc\n", vec![edit(0, 0, "X"), edit(0, 1, "Y")]),
        ("abc", vec![edit(1, 2, ""), edit(3, 3, ";\nd")]),
        ("abc", vec![edit(0, 3, "")]),
        ("é\nü\n", vec![edit(0, 0, "-- \n"), edit(3, 5, "u")]),
        (far.as_str(), vec![edit(0, 0, "a\nb\n"), edit(13, 15, "xx"), edit(205, 207, "yy")]),
        (far.as_str(), vec![edit(0, 4, "LINE"), edit(311, 311, "!")]),
    ];
    for (original, edits) in cases {
        assert!(can_render_diff(original, &edits));
        let diff = render_diff("m.sql", original, &edits);
        assert_eq!(patch(original, &diff), apply(original, &edits));
    }
    assert_eq!(render_diff("m.sql", "abc", &[]), "");
}

#[test]
fn a_cut_off_run_says_so_and_keeps_its_last_good_text() {
    // Every pass offers to lengthen the text.
    let lint = |sql: &str| {
        let end = u32::try_from(sql.len()).unwrap();
        let fix = Fix {
            title: "t".to_string(),
            edits: vec![FixEdit { start: end, end, replacement: "x".to_string() }],
        };
        fix_report_with(vec![fix_finding_with_fix("r", Severity::Warning, Some(fix))])
    };
    let fp = fix_to_fixpoint("a", lint, 3);
    assert!(matches!(fp.termination, Termination::CapHit));
    assert_eq!((fp.sql.as_str(), fp.iterations, fp.applied), ("axxx", 3, 3));
    assert!(fp.edits.is_none());
    let once = fix_to_fixpoint("a", lint, 1);
    assert_eq!(apply("a", &once.edits.unwrap()), once.sql);
    assert_eq!(fix_to_fixpoint("a", lint, 0).sql, "a");
}
