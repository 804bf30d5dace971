//! Fix mode over one input: apply fixes (`--fix`) or preview them as a unified diff (`--diff`).
use vstd::prelude::*;

use crate::cli::{Mode, STDIN_NAME};
use crate::collections::texts;
use crate::diff::{diff_strings_spec, render_diff_strings};
use crate::edit_diff::{diff_spec, diffable, render_diff};
use crate::finding::{edits_view, findings_view, Finding, FindingView};
use crate::fixpoint::{Fixpoint, Termination, Withheld};
use crate::output::{gate, gates, in_slot, tally_report, FailOn, Slot};
use crate::text::{decimal, decimal_spec, str_eq, text_of};

verus! {

/// What to do with one input: print and write, in this order, unless there is a failure.
#[derive(Debug)]
pub struct FixPlan {
    /// The hard error that stops this input; nothing else is done then.
    pub failure: Option<String>,
    /// Notes on stderr before the output.
    pub before: Vec<String>,
    /// What goes to stdout.
    pub output: String,
    /// Whether the file is rewritten with the fixed text.
    pub write: bool,
    /// Notes on stderr after the output, left out where the write fails.
    pub after: Vec<String>,
    /// Whether findings remain that fail the run.
    pub gated: bool,
}

/// What is left undone where fixes break the syntax.
pub open spec fn unparsable_tail(mode: Mode) -> Seq<char> {
    match mode {
        Mode::Apply => "file left unchanged"@,
        Mode::Diff => "no diff shown"@,
    }
}

/// The hard error of an input: it does not parse, or its fixed text does not.
pub open spec fn failure_spec(name: Seq<char>, fp: Fixpoint, mode: Mode) -> Option<Seq<char>> {
    match fp.final_report.error {
        Some(err) => Some("error: "@ + name + ": "@ + err@),
        None => match fp.termination {
            Termination::Withheld(Withheld::ParseBroke(err)) => Some(
                "error: "@ + name + ": applying fixes produced SQL that no longer parses ("@ + err@
                    + "); "@ + unparsable_tail(mode),
            ),
            _ => None,
        },
    }
}

/// The hard error of an input, if it has one.
pub fn failure(name: &str, fp: &Fixpoint, mode: Mode) -> (r: Option<String>)
    ensures
        text_of(r) == failure_spec(name@, *fp, mode),
{
    let mut m = "error: ".to_owned();
    m.append(name);
    if let Some(err) = &fp.final_report.error {
        m.append(": ");
        m.append(err.as_str());
        return Some(m);
    }
    match &fp.termination {
        Termination::Withheld(Withheld::ParseBroke(err)) => {
            m.append(": applying fixes produced SQL that no longer parses (");
            m.append(err.as_str());
            m.append("); ");
            match mode {
                Mode::Apply => m.append("file left unchanged"),
                Mode::Diff => m.append("no diff shown"),
            }
            Some(m)
        },
        _ => None,
    }
}

/// The note on a fix that was withheld because it would introduce a new error.
pub open spec fn withheld_note(name: Seq<char>, changed: bool, mode: Mode) -> Seq<char> {
    if changed {
        name + ": some further fixes withheld — applying them would introduce a new issue; "@
            + (match mode {
            Mode::Apply => "wrote"@,
            Mode::Diff => "previewing"@,
        }) + " the safe ones"@
    } else {
        name + ": fixes withheld — applying them would introduce a new issue; lint `"@ + name
            + "` to see the findings"@
    }
}

fn withheld_text(name: &str, changed: bool, mode: Mode) -> (r: String)
    ensures
        r@ == withheld_note(name@, changed, mode),
{
    let mut m = name.to_owned();
    if changed {
        m.append(": some further fixes withheld — applying them would introduce a new issue; ");
        match mode {
            Mode::Apply => m.append("wrote"),
            Mode::Diff => m.append("previewing"),
        }
        m.append(" the safe ones");
    } else {
        m.append(": fixes withheld — applying them would introduce a new issue; lint `");
        m.append(name);
        m.append("` to see the findings");
    }
    m
}

/// The note on fixes that did not converge.
pub open spec fn cap_note(name: Seq<char>, iterations: nat, verb: Seq<char>) -> Seq<char> {
    name + ": fixes did not converge after "@ + decimal_spec(iterations) + " iterations; "@ + verb
        + " the last stable result"@
}

fn cap_text(name: &str, iterations: usize, verb: &str) -> (r: String)
    ensures
        r@ == cap_note(name@, iterations as nat, verb@),
{
    let mut m = name.to_owned();
    m.append(": fixes did not converge after ");
    m.append(decimal(iterations as u128).as_str());
    m.append(" iterations; ");
    m.append(verb);
    m.append(" the last stable result");
    m
}

/// The notes on how the fixing stopped.
pub open spec fn stop_notes(
    name: Seq<char>,
    fp: Fixpoint,
    changed: bool,
    mode: Mode,
) -> Seq<Seq<char>> {
    match fp.termination {
        Termination::Withheld(Withheld::NewError) => seq![withheld_note(name, changed, mode)],
        Termination::CapHit => seq![
            cap_note(
                name,
                fp.iterations as nat,
                match mode {
                    Mode::Diff => "showing"@,
                    Mode::Apply => if changed {
                        "wrote"@
                    } else {
                        "kept"@
                    },
                },
            ),
        ],
        _ => Seq::empty(),
    }
}

fn stop_texts(name: &str, fp: &Fixpoint, changed: bool, mode: Mode) -> (r: Vec<String>)
    ensures
        texts(r@) == stop_notes(name@, *fp, changed, mode),
{
    let mut out: Vec<String> = Vec::new();
    match &fp.termination {
        Termination::Withheld(Withheld::NewError) => {
            out.push(withheld_text(name, changed, mode));
        },
        Termination::CapHit => {
            let verb = match mode {
                Mode::Diff => "showing",
                Mode::Apply => if changed {
                    "wrote"
                } else {
                    "kept"
                },
            };
            out.push(cap_text(name, fp.iterations, verb));
        },
        _ => {},
    }
    assert(texts(out@) == stop_notes(name@, *fp, changed, mode));
    out
}

/// Whether one of some findings fails the run.
pub open spec fn any_gates(fs: Seq<FindingView>, fail_on: FailOn) -> bool {
    exists|i: int| 0 <= i < fs.len() && gates(#[trigger] fs[i], fail_on)
}

fn gated(findings: &Vec<Finding>, fail_on: FailOn) -> (r: bool)
    ensures
        r == any_gates(findings_view(findings@), fail_on),
{
    let ghost fs = findings_view(findings@);
    let r = gate(findings.as_slice(), fail_on);
    proof {
        if r {
            let i = choose|i: int|
                0 <= i < findings@.len() && gates((#[trigger] findings@[i])@, fail_on);
            assert(gates(fs[i], fail_on));
        } else {
            assert forall|i: int| 0 <= i < fs.len() implies !gates(#[trigger] fs[i], fail_on) by {
                assert(!gates(findings@[i]@, fail_on));
            }
        }
    }
    r
}

/// The diff that a preview shows: of the edits where one pass applied them, else of the texts.
pub open spec fn preview(name: Seq<char>, sql: Seq<char>, fp: Fixpoint) -> Seq<char> {
    match fp.edits {
        Some(edits) => diff_spec(name, sql, edits_view(edits@)),
        None => diff_strings_spec(name, sql, fp.sql@),
    }
}

/// The note on the findings that a preview does not fix.
pub open spec fn residual_note(name: Seq<char>, residual: nat) -> Seq<char> {
    name + ": "@ + decimal_spec(residual)
        + " finding(s) have no automatic fix or were skipped (overlapping another fix); lint `"@
        + name + "` to see them"@
}

/// The notes after a preview.
pub open spec fn preview_notes(name: Seq<char>, fp: Fixpoint, gated: bool) -> Seq<Seq<char>> {
    let residual = (fp.unfixable + fp.skipped_overlapping) as nat;
    if gated && residual > 0 {
        seq![residual_note(name, residual)]
    } else {
        Seq::empty()
    }
}

fn preview_texts(name: &str, fp: &Fixpoint, gated: bool) -> (r: Vec<String>)
    ensures
        texts(r@) == preview_notes(name@, *fp, gated),
{
    let mut out: Vec<String> = Vec::new();
    let residual: u128 = fp.unfixable as u128 + fp.skipped_overlapping as u128;
    if gated && residual > 0 {
        let mut m = name.to_owned();
        m.append(": ");
        m.append(decimal(residual).as_str());
        m.append(
            " finding(s) have no automatic fix or were skipped (overlapping another fix); lint `",
        );
        m.append(name);
        m.append("` to see them");
        out.push(m);
    }
    assert(texts(out@) == preview_notes(name@, *fp, gated));
    out
}

/// What is said of the findings that fixing left, in brackets.
pub open spec fn leftovers(unfixable: nat, skipped: nat) -> Seq<char> {
    let u = decimal_spec(unfixable) + " unfixable"@;
    let s = decimal_spec(skipped) + " skipped-overlapping"@;
    if unfixable > 0 && skipped > 0 {
        " ("@ + u + ", "@ + s + ")"@
    } else if unfixable > 0 {
        " ("@ + u + ")"@
    } else if skipped > 0 {
        " ("@ + s + ")"@
    } else {
        Seq::empty()
    }
}

fn leftovers_text(unfixable: usize, skipped: usize) -> (r: String)
    ensures
        r@ == leftovers(unfixable as nat, skipped as nat),
{
    if unfixable == 0 && skipped == 0 {
        return String::new();
    }
    let mut u = decimal(unfixable as u128);
    u.append(" unfixable");
    let mut s = decimal(skipped as u128);
    s.append(" skipped-overlapping");
    let mut out = " (".to_owned();
    if unfixable > 0 {
        out.append(u.as_str());
        if skipped > 0 {
            out.append(", ");
            out.append(s.as_str());
        }
    } else {
        out.append(s.as_str());
    }
    out.append(")");
    out
}

/// The summary of an input that was fixed.
pub open spec fn fixed_note(name: Seq<char>, fp: Fixpoint) -> Seq<char> {
    "fixed "@ + decimal_spec(fp.applied as nat) + " findings in "@ + name + leftovers(
        fp.unfixable as nat,
        fp.skipped_overlapping as nat,
    )
}

/// The note on an input that no fix changed.
pub open spec fn remaining_note(name: Seq<char>, remaining: nat) -> Seq<char> {
    name + ": "@ + decimal_spec(remaining)
        + " finding(s) remain that --fix cannot resolve; lint `"@ + name + "` to see them"@
}

/// How many findings are not suppressed.
pub open spec fn open_count(fs: Seq<FindingView>) -> nat {
    in_slot(fs, Slot::Error) + in_slot(fs, Slot::Warning)
}

/// The last note after fixes were applied.
pub open spec fn applied_notes(
    name: Seq<char>,
    fp: Fixpoint,
    changed: bool,
    gated: bool,
) -> Seq<Seq<char>> {
    if changed {
        seq![fixed_note(name, fp)]
    } else if gated {
        seq![remaining_note(name, open_count(fp.final_report@.findings))]
    } else {
        Seq::empty()
    }
}

fn applied_texts(name: &str, fp: &Fixpoint, changed: bool, gated: bool) -> (r: Vec<String>)
    ensures
        texts(r@) == applied_notes(name@, *fp, changed, gated),
{
    let mut out: Vec<String> = Vec::new();
    if changed {
        let mut m = "fixed ".to_owned();
        m.append(decimal(fp.applied as u128).as_str());
        m.append(" findings in ");
        m.append(name);
        m.append(leftovers_text(fp.unfixable, fp.skipped_overlapping).as_str());
        out.push(m);
    } else if gated {
        let (errors, warnings, suppressed): (usize, usize, usize) = tally_report(&fp.final_report);
        let mut m = name.to_owned();
        m.append(": ");
        m.append(decimal((errors + warnings) as u128).as_str());
        m.append(" finding(s) remain that --fix cannot resolve; lint `");
        m.append(name);
        m.append("` to see them");
        out.push(m);
    }
    assert(texts(out@) == applied_notes(name@, *fp, changed, gated));
    out
}

/// Whether `p` is the plan for an input that has no hard error.
pub open spec fn is_plan(
    name: Seq<char>,
    sql: Seq<char>,
    fp: Fixpoint,
    mode: Mode,
    fail_on: FailOn,
    p: FixPlan,
) -> bool {
    let changed = fp.sql@ != sql;
    let stop = stop_notes(name, fp, changed, mode);
    match mode {
        Mode::Diff => {
            let nothing_safe = fp.termination == Termination::Withheld(Withheld::NewError)
                && !changed;
            &&& p.gated == any_gates(findings_view(fp.original_findings@), fail_on)
            &&& texts(p.before@) == stop
            &&& !p.write
            &&& p.output@ == (if nothing_safe {
                Seq::empty()
            } else {
                preview(name, sql, fp)
            })
            &&& texts(p.after@) == (if nothing_safe {
                Seq::empty()
            } else {
                preview_notes(name, fp, p.gated)
            })
        },
        Mode::Apply => {
            &&& p.gated == any_gates(fp.final_report@.findings, fail_on)
            &&& p.before@.len() == 0
            &&& p.write == (name != STDIN_NAME@ && changed)
            &&& p.output@ == (if name == STDIN_NAME@ {
                fp.sql@
            } else {
                Seq::empty()
            })
            &&& texts(p.after@) == stop + applied_notes(name, fp, changed, p.gated)
        },
    }
}

/// What to do with one input whose fixes were driven to a fixpoint. An input that does not parse,
/// or whose fixed text does not, is a hard error that leaves the file untouched and never echoes
/// stdin. If a candidate would instead introduce a new Error, only that further fix is backed
/// off: the safe fixes already made are still written/previewed. `--fix` gates on the final
/// re-lint, `--diff` on the original findings. When gating findings survive that no fix touched,
/// a note explains why (never a silent nonzero exit).
pub fn plan_fix(name: &str, sql: &str, fp: &Fixpoint, mode: Mode, fail_on: FailOn) -> (r: FixPlan)
    requires
        failure_spec(name@, *fp, mode) is None && mode == Mode::Diff && fp.edits is Some
            ==> diffable(sql@, edits_view(fp.edits->0@)),
    ensures
        text_of(r.failure) == failure_spec(name@, *fp, mode),
        match failure_spec(name@, *fp, mode) {
            Some(_) => {
                &&& r.before@.len() == 0
                &&& r.output@.len() == 0
                &&& !r.write
                &&& r.after@.len() == 0
                &&& !r.gated
            },
            None => is_plan(name@, sql@, *fp, mode, fail_on, r),
        },
{
    let failure = failure(name, fp, mode);
    if failure.is_some() {
        return FixPlan {
            failure,
            before: Vec::new(),
            output: String::new(),
            write: false,
            after: Vec::new(),
            gated: false,
        };
    }
    let changed = !str_eq(fp.sql.as_str(), sql);
    match mode {
        Mode::Diff => plan_preview(name, sql, fp, changed, fail_on),
        Mode::Apply => plan_apply(name, sql, fp, changed, fail_on),
    }
}

fn plan_preview(
    name: &str,
    sql: &str,
    fp: &Fixpoint,
    changed: bool,
    fail_on: FailOn,
) -> (r: FixPlan)
    requires
        changed == (fp.sql@ != sql@),
        fp.edits is Some ==> diffable(sql@, edits_view(fp.edits->0@)),
    ensures
        r.failure is None,
        is_plan(name@, sql@, *fp, Mode::Diff, fail_on, r),
{
    let before = stop_texts(name, fp, changed, Mode::Diff);
    let gating = gated(&fp.original_findings, fail_on);
    let withheld = match &fp.termination {
        Termination::Withheld(Withheld::NewError) => true,
        _ => false,
    };
    if withheld && !changed {
        let r = FixPlan {
            failure: None,
            before,
            output: String::new(),
            write: false,
            after: Vec::new(),
            gated: gating,
        };
        assert(texts(r.after@) == Seq::<Seq<char>>::empty());
        assert(r.output@ == Seq::<char>::empty());
        return r;
    }
    let output = match &fp.edits {
        Some(edits) => render_diff(name, sql, edits.as_slice()),
        None => render_diff_strings(name, sql, fp.sql.as_str()),
    };
    let after = preview_texts(name, fp, gating);
    FixPlan { failure: None, before, output, write: false, after, gated: gating }
}

fn plan_apply(
    name: &str,
    sql: &str,
    fp: &Fixpoint,
    changed: bool,
    fail_on: FailOn,
) -> (r: FixPlan)
    requires
        changed == (fp.sql@ != sql@),
    ensures
        r.failure is None,
        is_plan(name@, sql@, *fp, Mode::Apply, fail_on, r),
{
    let stdin = str_eq(name, STDIN_NAME);
    let output = if stdin {
        fp.sql.clone()
    } else {
        String::new()
    };
    let gating = gated(&fp.final_report.findings, fail_on);
    let mut after = stop_texts(name, fp, changed, Mode::Apply);
    let mut last = applied_texts(name, fp, changed, gating);
    let ghost a = after@;
    let ghost b = last@;
    after.append(&mut last);
    proof {
        assert(after@ == a + b);
        assert(texts(a + b) == texts(a) + texts(b));
    }
    let r = FixPlan {
        failure: None,
        before: Vec::new(),
        output,
        write: !stdin && changed,
        after,
        gated: gating,
    };
    assert(!stdin ==> r.output@ == Seq::<char>::empty());
    r
}

/// Applying fixes never gates in silence, writes a file only where its text changes, and leaves
/// standard input to be echoed.
pub proof fn applied_fixes_are_accounted_for(
    name: Seq<char>,
    sql: Seq<char>,
    fp: Fixpoint,
    fail_on: FailOn,
    p: FixPlan,
)
    requires
        is_plan(name, sql, fp, Mode::Apply, fail_on, p),
    ensures
        p.gated ==> p.after@.len() > 0,
        p.write ==> fp.sql@ != sql,
        name == STDIN_NAME@ ==> !p.write && p.output@ == fp.sql@,
{
    assert(texts(p.after@).len() == p.after@.len());
}

/// A preview writes nothing, and gates as the unfixed input does.
pub proof fn a_preview_changes_nothing(
    name: Seq<char>,
    sql: Seq<char>,
    fp: Fixpoint,
    fail_on: FailOn,
    p: FixPlan,
)
    requires
        is_plan(name, sql, fp, Mode::Diff, fail_on, p),
    ensures
        !p.write,
        p.gated == any_gates(findings_view(fp.original_findings@), fail_on),
{
}

} // verus!
