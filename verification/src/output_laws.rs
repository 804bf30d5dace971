//! What holds of gating and of the renderings.
use vstd::prelude::*;

use crate::finding::{findings_view, Finding, FindingView, Severity};
use crate::lint::{is_lint_of, LintError, ParsedSql};
use crate::options::LintOptions;
use crate::output::{
    annotations, body_spec, errors_spec, escaped, escaped_char, gates, glyph_prefix, group_piece,
    groups_spec, header_spec, human_spec, in_slot, is_report_of, no_findings, summary_spec, total,
    FailOn, FileReportView, Slot,
};
use crate::style::{plain_paint_is_invisible, Styling};
use crate::text::decimal_spec;

verus! {

/// A suppressed finding never fails the run.
pub proof fn suppressed_findings_never_gate(f: FindingView, fail_on: FailOn)
    requires
        f.suppression is Some,
    ensures
        !gates(f, fail_on),
{
}

/// What fails the run on errors alone fails it on warnings too, and a report-only run never
/// fails.
pub proof fn gating_grows_with_strictness(f: FindingView)
    ensures
        gates(f, FailOn::Error) ==> gates(f, FailOn::Warning),
        !gates(f, FailOn::Never),
        f.severity == Severity::Error ==> gates(f, FailOn::Error) == gates(f, FailOn::Warning),
{
}

/// The number of findings of some reports.
pub open spec fn finding_count(rs: Seq<FileReportView>) -> nat
    decreases rs.len(),
{
    if rs.len() == 0 {
        0
    } else {
        finding_count(rs.drop_last()) + rs.last().findings.len()
    }
}

proof fn lemma_slots_cover(fs: Seq<FindingView>)
    ensures
        in_slot(fs, Slot::Error) + in_slot(fs, Slot::Warning) + in_slot(fs, Slot::Suppressed)
            == fs.len(),
    decreases fs.len(),
{
    if fs.len() > 0 {
        lemma_slots_cover(fs.drop_last());
    }
}

/// The summary counts every finding exactly once.
pub proof fn the_tally_counts_every_finding_once(rs: Seq<FileReportView>)
    ensures
        total(rs, Slot::Error) + total(rs, Slot::Warning) + total(rs, Slot::Suppressed)
            == finding_count(rs),
    decreases rs.len(),
{
    if rs.len() > 0 {
        the_tally_counts_every_finding_once(rs.drop_last());
        lemma_slots_cover(rs.last().findings);
    }
}

/// A run is summarized exactly when it has a finding.
pub proof fn a_clean_run_has_no_summary(rs: Seq<FileReportView>, st: Styling)
    ensures
        summary_spec(
            total(rs, Slot::Error),
            total(rs, Slot::Warning),
            total(rs, Slot::Suppressed),
            rs.len(),
            st,
        ) is None <==> finding_count(rs) == 0,
{
    the_tally_counts_every_finding_once(rs);
}

/// The error lines are empty exactly when every report parsed.
pub proof fn error_lines_are_the_parse_failures(rs: Seq<FileReportView>)
    ensures
        errors_spec(rs).len() == 0 <==> forall|i: int|
            0 <= i < rs.len() ==> (#[trigger] rs[i]).error is None,
    decreases rs.len(),
{
    if rs.len() > 0 {
        error_lines_are_the_parse_failures(rs.drop_last());
        reveal_strlit(": ");
        assert forall|i: int| 0 <= i < rs.len() implies ((#[trigger] rs[i]) == rs.last() || rs[i]
            == rs.drop_last()[i]) by {}
        if errors_spec(rs).len() == 0 {
            assert(rs.last().error is None);
            assert forall|i: int| 0 <= i < rs.len() implies (#[trigger] rs[i]).error is None by {
                if i < rs.len() - 1 {
                    assert(rs.drop_last()[i].error is None);
                }
            }
        }
        if forall|i: int| 0 <= i < rs.len() ==> (#[trigger] rs[i]).error is None {
            assert(rs[rs.len() - 1].error is None);
            assert forall|i: int| 0 <= i < rs.drop_last().len() implies (
            #[trigger] rs.drop_last()[i]).error is None by {
                assert(rs[i].error is None);
            }
        }
    }
}

/// Whether a text has none of the characters that end or split a workflow command.
pub open spec fn is_command_safe(s: Seq<char>, prop: bool) -> bool {
    forall|i: int|
        0 <= i < s.len() ==> {
            &&& (#[trigger] s[i]) != '\n'
            &&& s[i] != '\r'
            &&& prop ==> s[i] != ',' && s[i] != ':'
        }
}

proof fn lemma_escaped_char_safe(c: char, prop: bool)
    ensures
        is_command_safe(escaped_char(c, prop), prop),
{
    reveal_strlit("%25");
    reveal_strlit("%0D");
    reveal_strlit("%0A");
    reveal_strlit("%2C");
    reveal_strlit("%3A");
}

/// An escaped text cannot end its workflow command, nor, as a property, begin another one.
pub proof fn escaped_text_stays_in_its_command(s: Seq<char>, prop: bool)
    ensures
        is_command_safe(escaped(s, prop), prop),
    decreases s.len(),
{
    if s.len() > 0 {
        escaped_text_stays_in_its_command(s.drop_last(), prop);
        lemma_escaped_char_safe(s.last(), prop);
    }
}

/// Escaping leaves a text alone that has nothing to escape.
pub proof fn safe_text_is_not_escaped(s: Seq<char>, prop: bool)
    requires
        is_command_safe(s, prop),
        forall|i: int| 0 <= i < s.len() ==> (#[trigger] s[i]) != '%',
    ensures
        escaped(s, prop) == s,
    decreases s.len(),
{
    if s.len() > 0 {
        assert forall|i: int| 0 <= i < s.drop_last().len() implies s[i] == (
        #[trigger] s.drop_last()[i]) by {}
        safe_text_is_not_escaped(s.drop_last(), prop);
        assert(s[s.len() - 1] == s.last());
        assert(s.drop_last() + seq![s.last()] == s);
    }
}

proof fn lemma_escaped_front(c: char, s: Seq<char>, prop: bool)
    ensures
        escaped(seq![c] + s, prop) == escaped_char(c, prop) + escaped(s, prop),
    decreases s.len(),
{
    let all = seq![c] + s;
    if s.len() == 0 {
        assert(all == seq![c]);
        assert(all.drop_last() == Seq::<char>::empty());
        assert(escaped(all.drop_last(), prop) == Seq::<char>::empty());
        assert(Seq::<char>::empty() + escaped_char(c, prop) == escaped_char(c, prop));
        assert(escaped_char(c, prop) + Seq::<char>::empty() == escaped_char(c, prop));
    } else {
        assert(all.drop_last() == seq![c] + s.drop_last());
        assert(all.last() == s.last());
        lemma_escaped_front(c, s.drop_last(), prop);
        assert(escaped_char(c, prop) + (escaped(s.drop_last(), prop) + escaped_char(
            s.last(),
            prop,
        )) == (escaped_char(c, prop) + escaped(s.drop_last(), prop)) + escaped_char(
            s.last(),
            prop,
        ));
    }
}

proof fn lemma_escaped_chars_differ(c: char, d: char, x: Seq<char>, y: Seq<char>, prop: bool)
    requires
        escaped_char(c, prop) + x == escaped_char(d, prop) + y,
    ensures
        c == d,
        x == y,
{
    reveal_strlit("%25");
    reveal_strlit("%0D");
    reveal_strlit("%0A");
    reveal_strlit("%2C");
    reveal_strlit("%3A");
    let a = escaped_char(c, prop);
    let b = escaped_char(d, prop);
    let l = a + x;
    let r = b + y;
    assert(l[0] == a[0] && r[0] == b[0]);
    if a.len() == 3 && b.len() == 3 {
        assert(l[1] == a[1] && r[1] == b[1]);
        assert(l[2] == a[2] && r[2] == b[2]);
    }
    assert(c == d);
    assert(x == l.skip(a.len() as int));
    assert(y == r.skip(b.len() as int));
}

/// Escaping loses nothing: texts that stand alike in a workflow command are the same text.
pub proof fn escaping_loses_nothing(s: Seq<char>, t: Seq<char>, prop: bool)
    requires
        escaped(s, prop) == escaped(t, prop),
    ensures
        s == t,
    decreases s.len(),
{
    reveal_strlit("%25");
    reveal_strlit("%0D");
    reveal_strlit("%0A");
    reveal_strlit("%2C");
    reveal_strlit("%3A");
    if s.len() > 0 {
        assert(s == seq![s[0]] + s.skip(1));
        lemma_escaped_front(s[0], s.skip(1), prop);
    }
    if t.len() > 0 {
        assert(t == seq![t[0]] + t.skip(1));
        lemma_escaped_front(t[0], t.skip(1), prop);
    }
    if s.len() > 0 && t.len() > 0 {
        lemma_escaped_chars_differ(
            s[0],
            t[0],
            escaped(s.skip(1), prop),
            escaped(t.skip(1), prop),
            prop,
        );
        escaping_loses_nothing(s.skip(1), t.skip(1), prop);
    } else {
        assert(s.len() == 0 && t.len() == 0);
        assert(s == t);
    }
}

/// Suppressed findings are not annotated.
pub proof fn suppressed_findings_are_not_annotated(name: Seq<char>, fs: Seq<FindingView>)
    requires
        forall|i: int| 0 <= i < fs.len() ==> (#[trigger] fs[i]).suppression is Some,
    ensures
        annotations(name, fs).len() == 0,
    decreases fs.len(),
{
    if fs.len() > 0 {
        assert forall|i: int| 0 <= i < fs.drop_last().len() implies (
        #[trigger] fs.drop_last()[i]).suppression is Some by {
            assert(fs[i].suppression is Some);
        }
        suppressed_findings_are_not_annotated(name, fs.drop_last());
        assert(fs[fs.len() - 1].suppression is Some);
    }
}

/// Whether a text has no escape character, so that a terminal shows it as it is.
pub open spec fn escape_free(s: Seq<char>) -> bool {
    forall|i: int| 0 <= i < s.len() ==> (#[trigger] s[i]) != '\u{1b}'
}

/// Whether nothing that a finding quotes has an escape character.
pub open spec fn quotes_no_escape(f: FindingView) -> bool {
    &&& escape_free(f.rule_id)
    &&& escape_free(f.message)
    &&& escape_free(f.guidance)
    &&& escape_free(f.snippet)
    &&& f.suppression matches Some(reason) ==> escape_free(reason)
}

proof fn lemma_decimal_escape_free(n: nat)
    ensures
        escape_free(decimal_spec(n)),
    decreases n,
{
    if n >= 10 {
        lemma_decimal_escape_free(n / 10);
    }
}

proof fn lemma_header_escape_free(name: Seq<char>, f: FindingView)
    requires
        escape_free(name),
        quotes_no_escape(f),
    ensures
        escape_free(header_spec(name, f.location, f.snippet, Styling::plain_spec())),
{
    lemma_decimal_escape_free(f.location.line as nat);
    lemma_decimal_escape_free(f.location.column as nat);
    reveal_strlit(":");
    reveal_strlit("\n");
    reveal_strlit("  ");
    let place = name + ":"@ + decimal_spec(f.location.line as nat) + ":"@ + decimal_spec(
        f.location.column as nat,
    );
    plain_paint_is_invisible(place);
    assert(escape_free(place));
}

proof fn lemma_body_escape_free(f: FindingView)
    requires
        quotes_no_escape(f),
    ensures
        escape_free(body_spec(f, Styling::plain_spec())),
{
    reveal_strlit("  ");
    reveal_strlit(" [");
    reveal_strlit("]  — suppressed: ");
    reveal_strlit("\n    ");
    reveal_strlit("\n");
    reveal_strlit("]\n");
    reveal_strlit("    ");
    reveal_strlit("    fix: ");
    reveal_strlit("error");
    reveal_strlit("warning");
    let label = f.severity.label();
    assert(escape_free(label));
    match f.suppression {
        Some(reason) => {
            let head = "  "@ + label + " ["@ + f.rule_id + "]  — suppressed: "@ + reason;
            assert(escape_free(head));
            let block = head + "\n    "@ + f.message + "\n"@;
            assert(escape_free(block));
            plain_paint_is_invisible(block);
        },
        None => {
            plain_paint_is_invisible(label);
            plain_paint_is_invisible(f.rule_id);
            let fix = "    fix: "@ + f.guidance + "\n"@;
            assert(escape_free(fix));
            plain_paint_is_invisible(fix);
            let head = "  "@ + glyph_prefix(f.severity, Styling::plain_spec()) + label + " ["@
                + f.rule_id + "]\n"@;
            assert(escape_free(head));
            let rest = head + "    "@ + f.message + "\n"@;
            assert(escape_free(rest));
        },
    }
}

proof fn lemma_groups_escape_free(name: Seq<char>, fs: Seq<FindingView>, n: int, first: bool)
    requires
        0 <= n <= fs.len(),
        escape_free(name),
        forall|i: int| 0 <= i < fs.len() ==> quotes_no_escape(#[trigger] fs[i]),
    ensures
        escape_free(groups_spec(name, fs, n, first, Styling::plain_spec())),
    decreases n,
{
    if n > 0 {
        lemma_groups_escape_free(name, fs, n - 1, first);
        lemma_header_escape_free(name, fs[n - 1]);
        lemma_body_escape_free(fs[n - 1]);
        reveal_strlit("\n");
        assert(escape_free(group_piece(name, fs, n - 1, first, Styling::plain_spec())));
    }
}

/// The plain rendering puts no escape character of its own into the report.
pub proof fn the_plain_rendering_has_no_escapes(rs: Seq<FileReportView>)
    requires
        forall|i: int| 0 <= i < rs.len() ==> escape_free((#[trigger] rs[i]).name),
        forall|i: int, j: int|
            0 <= i < rs.len() && 0 <= j < rs[i].findings.len() ==> quotes_no_escape(
                #[trigger] rs[i].findings[j],
            ),
    ensures
        escape_free(human_spec(rs, Styling::plain_spec())),
    decreases rs.len(),
{
    if rs.len() > 0 {
        let init = rs.drop_last();
        assert forall|i: int| 0 <= i < init.len() implies escape_free((#[trigger] init[i]).name) by {
            assert(escape_free(rs[i].name));
        }
        assert forall|i: int, j: int|
            0 <= i < init.len() && 0 <= j < init[i].findings.len() implies quotes_no_escape(
            #[trigger] init[i].findings[j],
        ) by {
            assert(quotes_no_escape(rs[i].findings[j]));
        }
        the_plain_rendering_has_no_escapes(init);
        let last = rs[rs.len() - 1];
        assert(escape_free(last.name));
        assert forall|j: int| 0 <= j < last.findings.len() implies quotes_no_escape(
            #[trigger] last.findings[j],
        ) by {
            assert(quotes_no_escape(rs[rs.len() - 1].findings[j]));
        }
        lemma_groups_escape_free(
            last.name,
            last.findings,
            last.findings.len() as int,
            no_findings(init),
        );
    }
}

/// The report on an input carries what linting it gives: the findings and no error, or no
/// finding and the error's text, which begins with `parse error: `.
pub proof fn a_report_carries_what_linting_gives(
    r: FileReportView,
    linted: Result<Vec<Finding>, LintError>,
    name: Seq<char>,
    sql: Seq<char>,
    parsed: Result<ParsedSql, String>,
    options: LintOptions,
)
    requires
        is_report_of(r, name, sql, parsed, options),
        is_lint_of(linted, sql, parsed, options),
    ensures
        r.name == name,
        match linted {
            Ok(fs) => r.findings == findings_view(fs@) && r.error is None,
            Err(e) => {
                &&& r.findings.len() == 0
                &&& r.error == Some(e.text())
                &&& "parse error: "@.is_prefix_of(e.text())
            },
        },
{
}

} // verus!
