//! Which fixes are applied together, and what a fixed input comes to.
use vstd::prelude::*;

use crate::cli::Mode;
use crate::collections::texts;
use crate::diff::{diff_header, diff_line_text, diff_text, hunk_header};
use crate::edit_diff::{hunk_end, hunk_first, hunks_spec, BlockView};
use crate::finding::{findings_view, FindingView, FixEditView, FixView, Severity};
use crate::fix::{accepted_count, accepted_edits, clashes, overlap};
use crate::fix_run::{
    any_gates, applied_notes, failure_spec, fixed_note, is_plan, leftovers, preview, preview_notes,
    stop_notes, FixPlan,
};
use crate::fixpoint::{
    error_count, new_errors, open_fixes_spec, unfixable_spec, Fixpoint, Termination, Withheld,
};
use crate::lines::split_lines;
use crate::output::{gates, FailOn};
use crate::render_laws::{behind, is_free_of, lemma_assoc, lemma_number, number_behind};
use crate::text::decimal_spec;

verus! {

/// Whether a byte is replaced by an edit.
pub open spec fn replaces(e: FixEditView, i: int) -> bool {
    e.start <= i < e.end
}

/// Whether an edit is an insertion strictly inside what another replaces.
pub open spec fn inserts_inside(x: FixEditView, y: FixEditView) -> bool {
    x.start == x.end && y.start < x.start && x.start < y.end
}

/// Two edits overlap exactly if both replace some byte, or one inserts strictly inside what the other
/// replaces; edits that only touch do not.
pub proof fn edits_overlap_where_they_share_a_byte(x: FixEditView, y: FixEditView)
    requires
        x.start <= x.end,
        y.start <= y.end,
    ensures
        overlap(x, y) <==> {
            ||| exists|i: int| #[trigger] replaces(x, i) && replaces(y, i)
            ||| inserts_inside(x, y)
            ||| inserts_inside(y, x)
        },
        x.end == y.start ==> !overlap(x, y),
{
    if x.start < x.end && y.start < y.end && overlap(x, y) {
        let i = if x.start < y.start {
            y.start
        } else {
            x.start
        };
        assert(replaces(x, i) && replaces(y, i));
    }
}

/// Whether no edit of one fix overlaps an edit of another.
pub open spec fn are_apart(a: FixView, b: FixView) -> bool {
    forall|i: int, j: int|
        0 <= i < a.edits.len() && 0 <= j < b.edits.len() ==> !overlap(
            #[trigger] a.edits[i],
            #[trigger] b.edits[j],
        )
}

/// The edits of some fixes, in their order.
pub open spec fn all_edits(fixes: Seq<FixView>) -> Seq<FixEditView>
    decreases fixes.len(),
{
    if fixes.len() == 0 {
        Seq::empty()
    } else {
        all_edits(fixes.drop_last()) + fixes.last().edits
    }
}

proof fn lemma_from_a_fix(fixes: Seq<FixView>, j: int) -> (at: (int, int))
    requires
        0 <= j < all_edits(fixes).len(),
    ensures
        0 <= at.0 < fixes.len(),
        0 <= at.1 < fixes[at.0].edits.len(),
        fixes[at.0].edits[at.1] == all_edits(fixes)[j],
    decreases fixes.len(),
{
    let before = all_edits(fixes.drop_last());
    if j < before.len() {
        lemma_from_a_fix(fixes.drop_last(), j)
    } else {
        (fixes.len() - 1, j - before.len())
    }
}

/// Fixes that are apart are all applied.
pub proof fn fixes_that_are_apart_all_join(fixes: Seq<FixView>)
    requires
        forall|a: int, b: int|
            0 <= a < b < fixes.len() ==> are_apart(#[trigger] fixes[b], #[trigger] fixes[a]),
    ensures
        accepted_edits(fixes) == all_edits(fixes),
        accepted_count(fixes) == fixes.len(),
    decreases fixes.len(),
{
    if fixes.len() > 0 {
        let init = fixes.drop_last();
        assert forall|a: int, b: int| 0 <= a < b < init.len() implies are_apart(
            #[trigger] init[b],
            #[trigger] init[a],
        ) by {
            assert(are_apart(fixes[b], fixes[a]));
        }
        fixes_that_are_apart_all_join(init);
        let before = accepted_edits(init);
        let es = fixes.last().edits;
        assert forall|i: int, j: int| 0 <= i < es.len() && 0 <= j < before.len() implies !overlap(
            #[trigger] es[i],
            #[trigger] before[j],
        ) by {
            let (m, k) = lemma_from_a_fix(init, j);
            assert(are_apart(fixes[fixes.len() - 1], fixes[m]));
            assert(init[m] == fixes[m]);
        }
        assert(!clashes(before, es));
    }
}

/// Of two fixes that are not apart the first is applied, and the second is left out whole.
pub proof fn of_two_clashing_fixes_the_first_joins(a: FixView, b: FixView)
    requires
        !are_apart(b, a),
    ensures
        accepted_edits(seq![a, b]) == a.edits,
        accepted_count(seq![a, b]) == 1,
{
    let both = seq![a, b];
    let one = both.drop_last();
    assert(one =~= seq![a]);
    assert(both.last() == b);
    assert(one.last() == a);
    assert(one.drop_last() =~= Seq::<FixView>::empty());
    assert(accepted_edits(Seq::<FixView>::empty()) =~= Seq::<FixEditView>::empty());
    assert(!clashes(Seq::<FixEditView>::empty(), a.edits));
    assert(accepted_edits(one) =~= a.edits);
    let (i, j) = choose|i: int, j: int|
        0 <= i < b.edits.len() && 0 <= j < a.edits.len() && overlap(
            #[trigger] b.edits[i],
            #[trigger] a.edits[j],
        );
    assert(overlap(b.edits[i], accepted_edits(one)[j]));
    assert(clashes(accepted_edits(one), b.edits));
    assert(accepted_count(Seq::<FixView>::empty()) == 0);
    assert(accepted_count(one) == 1);
    assert(accepted_count(both) == accepted_count(one));
}

/// Not suppressed, and with a fix.
pub open spec fn open_and_fixable() -> spec_fn(FindingView) -> bool {
    |f: FindingView| f.suppression is None && f.fix is Some
}

/// Not suppressed, and without a fix.
pub open spec fn open_and_unfixable() -> spec_fn(FindingView) -> bool {
    |f: FindingView| f.suppression is None && f.fix is None
}

/// Not suppressed, an error, and of a rule.
pub open spec fn open_error_of(rule: Seq<char>) -> spec_fn(FindingView) -> bool {
    |f: FindingView|
        f.suppression is None && f.severity == Severity::Error && f.rule_id == rule
}

/// The fixes on offer are those of the findings that are not suppressed, in their order; a finding
/// that is not suppressed and has none is unfixable.
pub proof fn open_findings_offer_their_fixes(fs: Seq<FindingView>)
    ensures
        open_fixes_spec(fs) == fs.filter(open_and_fixable()).map_values(|f: FindingView| f.fix->0),
        unfixable_spec(fs) == fs.filter(open_and_unfixable()).len(),
    decreases fs.len(),
{
    reveal(Seq::filter);
    if fs.len() > 0 {
        let init = fs.drop_last();
        let f = fs.last();
        open_findings_offer_their_fixes(init);
        let before = init.filter(open_and_fixable());
        if f.suppression is None && f.fix is Some {
            assert(before.push(f).map_values(|f: FindingView| f.fix->0) =~= before.map_values(
                |f: FindingView| f.fix->0,
            ).push(f.fix->0));
        }
        assert(open_fixes_spec(fs) =~= fs.filter(open_and_fixable()).map_values(
            |f: FindingView| f.fix->0,
        ));
    } else {
        assert(open_fixes_spec(fs) =~= fs.filter(open_and_fixable()).map_values(
            |f: FindingView| f.fix->0,
        ));
    }
}

proof fn lemma_error_count(fs: Seq<FindingView>, rule: Seq<char>)
    ensures
        error_count(fs, rule) == fs.filter(open_error_of(rule)).len(),
    decreases fs.len(),
{
    reveal(Seq::filter);
    if fs.len() > 0 {
        lemma_error_count(fs.drop_last(), rule);
    }
}

/// A change brings a new error exactly if some rule has more errors after it that are not suppressed
/// than before.
pub proof fn new_errors_are_counted_by_rule(before: Seq<FindingView>, after: Seq<FindingView>)
    ensures
        new_errors(before, after) <==> exists|rule: Seq<char>|
            #[trigger] after.filter(open_error_of(rule)).len() > before.filter(
                open_error_of(rule),
            ).len(),
{
    assert forall|rule: Seq<char>| #[trigger] error_count(after, rule) == after.filter(
        open_error_of(rule),
    ).len() by {
        lemma_error_count(after, rule);
    }
    assert forall|rule: Seq<char>| #[trigger] error_count(before, rule) == before.filter(
        open_error_of(rule),
    ).len() by {
        lemma_error_count(before, rule);
    }
    if new_errors(before, after) {
        let rule = choose|rule: Seq<char>| #[trigger]
            error_count(after, rule) > error_count(before, rule);
        assert(after.filter(open_error_of(rule)).len() > before.filter(open_error_of(rule)).len());
    }
    if exists|rule: Seq<char>|
        #[trigger] after.filter(open_error_of(rule)).len() > before.filter(
            open_error_of(rule),
        ).len() {
        let rule = choose|rule: Seq<char>|
            #[trigger] after.filter(open_error_of(rule)).len() > before.filter(
                open_error_of(rule),
            ).len();
        assert(error_count(after, rule) > error_count(before, rule));
    }
}

/// A file is written exactly if its fixes are to be applied and change it; standard input is answered
/// with the fixed text instead, and a preview writes nothing. Applying fails the run on what is left,
/// previewing on what was there.
pub proof fn a_plan_writes_what_was_fixed(
    name: Seq<char>,
    sql: Seq<char>,
    fp: Fixpoint,
    mode: Mode,
    fail_on: FailOn,
    p: FixPlan,
)
    requires
        is_plan(name, sql, fp, mode, fail_on, p),
    ensures
        p.write <==> mode == Mode::Apply && name != "<stdin>"@ && fp.sql@ != sql,
        mode == Mode::Apply && name == "<stdin>"@ ==> p.output@ == fp.sql@,
        mode == Mode::Apply && name != "<stdin>"@ ==> p.output@ == Seq::<char>::empty(),
        mode == Mode::Apply ==> p.gated == (exists|i: int|
            0 <= i < fp.final_report@.findings.len() && gates(
                #[trigger] fp.final_report@.findings[i],
                fail_on,
            )),
        mode == Mode::Diff ==> p.gated == (exists|i: int|
            0 <= i < fp.original_findings@.len() && gates(
                (#[trigger] fp.original_findings@[i])@,
                fail_on,
            )),
        mode == Mode::Diff && fp.sql@ != sql ==> p.output@ == preview(name, sql, fp),
        mode == Mode::Apply && fp.sql@ != sql ==> p.after@.len() > 0 && p.after@[p.after@.len()
            - 1]@ == fixed_note(name, fp),
{
    let fs = findings_view(fp.original_findings@);
    if mode == Mode::Diff {
        if any_gates(fs, fail_on) {
            let i = choose|i: int| 0 <= i < fs.len() && gates(#[trigger] fs[i], fail_on);
            assert(gates(fp.original_findings@[i]@, fail_on));
        }
        if exists|i: int|
            0 <= i < fp.original_findings@.len() && gates(
                (#[trigger] fp.original_findings@[i])@,
                fail_on,
            ) {
            let i = choose|i: int|
                0 <= i < fp.original_findings@.len() && gates(
                    (#[trigger] fp.original_findings@[i])@,
                    fail_on,
                );
            assert(gates(fs[i], fail_on));
        }
    }
    if mode == Mode::Apply && fp.sql@ != sql {
        let notes = texts(p.after@);
        assert(notes.last() == fixed_note(name, fp));
        assert(notes[notes.len() - 1] == p.after@[notes.len() - 1]@);
    }
}

/// The note on a fixed input says how many findings were fixed, and what is left by its kind.
pub proof fn a_note_says_how_many_were_fixed(name: Seq<char>, fp: Fixpoint)
    ensures
        number_behind(fixed_note(name, fp), "fixed "@) == Some(fp.applied as int),
        leftovers(0, 0) == Seq::<char>::empty(),
        fp.unfixable > 0 ==> number_behind(
            leftovers(fp.unfixable as nat, fp.skipped_overlapping as nat),
            "("@,
        ) == Some(fp.unfixable as int),
        fp.unfixable == 0 && fp.skipped_overlapping > 0 ==> number_behind(
            leftovers(fp.unfixable as nat, fp.skipped_overlapping as nat),
            "("@,
        ) == Some(fp.skipped_overlapping as int),
        fp.unfixable > 0 && fp.skipped_overlapping > 0 ==> number_behind(
            leftovers(fp.unfixable as nat, fp.skipped_overlapping as nat),
            ", "@,
        ) == Some(fp.skipped_overlapping as int),
{
    reveal_strlit("fixed ");
    reveal_strlit(" findings in ");
    reveal_strlit("(");
    reveal_strlit(" (");
    reveal_strlit(")");
    reveal_strlit(", ");
    reveal_strlit(" ");
    reveal_strlit(" unfixable");
    reveal_strlit(" skipped-overlapping");
    let none = Seq::<char>::empty();
    let u = fp.unfixable as nat;
    let s = fp.skipped_overlapping as nat;
    let left = leftovers(u, s);
    let d = decimal_spec(fp.applied as nat);
    let rest = " findings in "@ + (name + left);
    assert(fixed_note(name, fp) =~= none + ("fixed "@ + (d + rest)));
    lemma_number(none, "fixed "@, fp.applied as nat, rest);
    let du = decimal_spec(u);
    let ds = decimal_spec(s);
    crate::render_laws::a_number_reads_back(u);
    if u > 0 && s > 0 {
        let tail = " skipped-overlapping"@ + ")"@;
        let mid = " unfixable"@ + (", "@ + (ds + tail));
        assert(left =~= " "@ + ("("@ + (du + mid)));
        lemma_number(" "@, "("@, u, mid);
        let head = " ("@ + du + " unfixable"@;
        assert(left =~= head + (", "@ + (ds + tail)));
        assert(is_free_of(head, ','));
        lemma_number(head, ", "@, s, tail);
    } else if u > 0 {
        let mid = " unfixable"@ + ")"@;
        assert(left =~= " "@ + ("("@ + (du + mid)));
        lemma_number(" "@, "("@, u, mid);
    } else if s > 0 {
        let mid = " skipped-overlapping"@ + ")"@;
        assert(left =~= " "@ + ("("@ + (ds + mid)));
        lemma_number(" "@, "("@, s, mid);
    }
}

/// The header of a hunk gives, in this order, where it starts and how many lines it has in the old
/// file, and the same in the new one.
pub proof fn a_hunk_header_reads_back(
    old_start: nat,
    old_count: nat,
    new_start: nat,
    new_count: nat,
)
    ensures
        ({
            let h = hunk_header(old_start, old_count, new_start, new_count);
            &&& "@@ "@.is_prefix_of(h)
            &&& number_behind(h, "-"@) == Some(old_start as int)
            &&& number_behind(h, ","@) == Some(old_count as int)
            &&& number_behind(h, "+"@) == Some(new_start as int)
            &&& number_behind(behind(h, "+"@)->0, ","@) == Some(new_count as int)
        }),
{
    reveal_strlit("@@ -");
    reveal_strlit("@@ ");
    reveal_strlit("-");
    reveal_strlit(",");
    reveal_strlit(" +");
    reveal_strlit(" ");
    reveal_strlit("+");
    reveal_strlit(" @@\n");
    let a = decimal_spec(old_start);
    let b = decimal_spec(old_count);
    let c = decimal_spec(new_start);
    let d = decimal_spec(new_count);
    crate::render_laws::a_number_reads_back(old_start);
    crate::render_laws::a_number_reads_back(old_count);
    crate::render_laws::a_number_reads_back(new_start);
    let h = hunk_header(old_start, old_count, new_start, new_count);
    let s4 = " @@\n"@;
    let s3 = ","@ + (d + s4);
    let s2 = " +"@ + (c + s3);
    let s1 = ","@ + (b + s2);
    let p1 = "@@ -"@ + a;
    let p2 = p1 + ","@;
    let p3 = p2 + b;
    let p4 = p3 + " +"@;
    let p5 = p4 + c;
    let p6 = p5 + ","@;
    lemma_assoc(p6, d, s4);
    lemma_assoc(p5, ","@, d + s4);
    lemma_assoc(p4, c, s3);
    lemma_assoc(p3, " +"@, c + s3);
    lemma_assoc(p2, b, s2);
    lemma_assoc(p1, ","@, b + s2);
    assert(h == p1 + s1);
    lemma_assoc("@@ -"@, a, s1);
    assert("@@ -"@ =~= "@@ "@ + "-"@);
    lemma_assoc("@@ "@, "-"@, a + s1);
    assert("@@ "@ =~= h.subrange(0, 3));
    lemma_number("@@ "@, "-"@, old_start, s1);
    assert(is_free_of(p1, ','));
    lemma_number(p1, ","@, old_count, s2);
    let lead = p3 + " "@;
    assert(" +"@ =~= " "@ + "+"@);
    lemma_assoc(" "@, "+"@, c + s3);
    lemma_assoc(p3, " "@, "+"@ + (c + s3));
    assert(h == lead + ("+"@ + (c + s3)));
    assert(is_free_of(p1, '+') && is_free_of(p2, '+') && is_free_of(p3, '+'));
    lemma_number(lead, "+"@, new_start, s3);
    assert(is_free_of(c, ','));
    lemma_number(c, ","@, new_count, s4);
}

/// A line of a diff is its mark and the line; one that has no line end is followed by the note that
/// says so.
pub proof fn a_diff_line_carries_its_line(mark: char, line: Seq<char>)
    ensures
        line.len() > 0 && line.last() == '\n' ==> diff_line_text(mark, line) == seq![mark] + line,
        !(line.len() > 0 && line.last() == '\n') ==> diff_line_text(mark, line) == seq![mark] + line
            + "\n"@ + "\\ No newline at end of file\n"@,
{
    reveal_strlit("\n");
    assert((seq![mark] + line).push('\n') =~= seq![mark] + line + "\n"@);
}

/// A hunk shows three lines before its first change and three behind its last, or what lines there
/// are.
pub proof fn a_hunk_shows_three_lines_around(original: Seq<char>, h: Seq<BlockView>)
    requires
        h.len() > 0,
        0 <= h[0].first,
        h.last().last < split_lines(original).len(),
    ensures
        hunk_first(h) == (if h[0].first < 3 {
            0
        } else {
            h[0].first - 3
        }),
        hunk_end(original, h) == (if h.last().last + 4 > split_lines(original).len() {
            split_lines(original).len() as int
        } else {
            h.last().last + 4
        }),
{
}

/// Two runs of changed lines share a hunk exactly if at most six unchanged lines lie between them.
pub proof fn near_changes_share_a_hunk(a: BlockView, b: BlockView)
    ensures
        b.first - a.last - 1 <= 6 ==> hunks_spec(seq![a, b]) == seq![seq![a, b]],
        b.first - a.last - 1 > 6 ==> hunks_spec(seq![a, b]) == seq![seq![a], seq![b]],
{
    let both = seq![a, b];
    let one = both.drop_last();
    assert(one =~= seq![a]);
    assert(both.last() == b);
    assert(one.last() == a);
    assert(one.drop_last() =~= Seq::<BlockView>::empty());
    assert(hunks_spec(Seq::<BlockView>::empty()) =~= Seq::<Seq<BlockView>>::empty());
    assert(hunks_spec(one) =~= seq![seq![a]]);
    assert(seq![seq![a]].last() == seq![a]);
    assert(seq![a].last() == a);
    assert(seq![a].push(b) =~= both);
    assert(seq![seq![a]].drop_last().push(both) =~= seq![both]);
    assert(seq![seq![a]].push(seq![b]) =~= seq![seq![a], seq![b]]);
}

/// The lines of a diff follow one another, and its header names the file on both sides, the old one
/// first.
pub proof fn a_diff_lays_its_lines_end_to_end(
    a: Seq<(char, Seq<char>)>,
    b: Seq<(char, Seq<char>)>,
    mark: char,
    line: Seq<char>,
    name: Seq<char>,
)
    ensures
        diff_text(a + b) == diff_text(a) + diff_text(b),
        diff_text(seq![(mark, line)]) == diff_line_text(mark, line),
        diff_header(name) == "--- a/"@ + name + "\n"@ + "+++ b/"@ + name + "\n"@,
    decreases b.len(),
{
    reveal_strlit("\n+++ b/");
    reveal_strlit("\n");
    reveal_strlit("+++ b/");
    assert("\n+++ b/"@ =~= "\n"@ + "+++ b/"@);
    lemma_assoc("--- a/"@ + name, "\n"@, "+++ b/"@);
    let one = seq![(mark, line)];
    assert(one.drop_last() =~= Seq::<(char, Seq<char>)>::empty());
    assert(diff_text(Seq::<(char, Seq<char>)>::empty()) =~= Seq::<char>::empty());
    assert(one.last() == (mark, line));
    assert(Seq::<char>::empty() + diff_line_text(mark, line) =~= diff_line_text(mark, line));
    if b.len() == 0 {
        assert(a + b =~= a);
        assert(diff_text(a) + diff_text(b) =~= diff_text(a));
    } else {
        a_diff_lays_its_lines_end_to_end(a, b.drop_last(), mark, line, name);
        assert((a + b).drop_last() =~= a + b.drop_last());
        assert((a + b).last() == b.last());
        lemma_assoc(
            diff_text(a),
            diff_text(b.drop_last()),
            diff_line_text(b.last().0, b.last().1),
        );
    }
}

/// Fixing an input fails exactly if it does not parse, or its fixed text does not; the failure names the
/// input and the parser's message.
pub proof fn fixing_fails_on_what_does_not_parse(name: Seq<char>, fp: Fixpoint, mode: Mode)
    ensures
        failure_spec(name, fp, mode) is Some <==> fp.final_report.error is Some || (
        fp.termination matches Termination::Withheld(Withheld::ParseBroke(_))),
        failure_spec(name, fp, mode) matches Some(m) ==> ("error: "@ + name + ": "@).is_prefix_of(m),
        fp.final_report.error matches Some(e) ==> failure_spec(name, fp, mode) == Some(
            "error: "@ + name + ": "@ + e@,
        ),
{
    let head = "error: "@ + name;
    reveal_strlit(": ");
    reveal_strlit(": applying fixes produced SQL that no longer parses (");
    let text = ": applying fixes produced SQL that no longer parses ("@;
    assert(text.take(2) =~= ": "@);
    if let Some(m) = failure_spec(name, fp, mode) {
        assert((head + ": "@) =~= m.subrange(0, (head.len() + 2) as int));
    }
}

/// A fix that is held back, and a run that is cut off, are noted once; any other way of stopping needs
/// no note.
pub proof fn stopping_early_is_noted(name: Seq<char>, fp: Fixpoint, changed: bool, mode: Mode)
    ensures
        stop_notes(name, fp, changed, mode).len() == (if fp.termination is CapHit
            || fp.termination == Termination::Withheld(Withheld::NewError) {
            1int
        } else {
            0int
        }),
{
}

/// What is left after fixes were previewed is noted where it fails the run; after they were applied,
/// what was fixed is noted, or else that nothing could be where that fails the run.
pub proof fn what_is_left_is_noted(
    name: Seq<char>,
    fp: Fixpoint,
    changed: bool,
    gated: bool,
)
    requires
        fp.unfixable + fp.skipped_overlapping <= usize::MAX,
    ensures
        preview_notes(name, fp, gated).len() == (if gated && (fp.unfixable > 0
            || fp.skipped_overlapping > 0) {
            1int
        } else {
            0int
        }),
        changed ==> applied_notes(name, fp, changed, gated) == seq![fixed_note(name, fp)],
        !changed && gated ==> applied_notes(name, fp, changed, gated).len() == 1,
        !changed && !gated ==> applied_notes(name, fp, changed, gated).len() == 0,
{
}

} // verus!
