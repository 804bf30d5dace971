//! What holds of input selection and of exit codes.
use vstd::prelude::*;

use crate::cli::{
    any_error, any_gating, effective, effective_since, exit_code_spec, joined_with, kept_inputs,
    selection_spec, since_spec, skip_note, skipped_inputs, stays, task_spec, CommonArgs, Mode,
    SelectionView, SourceView, Task,
};
use crate::collections::{text_lt, text_lt_irreflexive};
use crate::finding::Severity;
use crate::output::{FailOn, FileReportView, Format};
use crate::render_laws::{lemma_assoc, lemma_number, number_behind};
use crate::text::decimal_spec;

verus! {

/// `--since` keeps exactly the paths that sort strictly after the cutoff.
pub proof fn since_keeps_exactly_the_later_paths(
    paths: Seq<Seq<char>>,
    cutoff: Seq<char>,
    p: Seq<char>,
)
    ensures
        since_spec(paths, cutoff).contains(p) <==> paths.contains(p) && text_lt(cutoff, p),
    decreases paths.len(),
{
    if paths.len() > 0 {
        let init = paths.drop_last();
        let last = paths.last();
        since_keeps_exactly_the_later_paths(init, cutoff, p);
        let before = since_spec(init, cutoff);
        let after = since_spec(paths, cutoff);
        if before.contains(p) {
            let j = choose|j: int| 0 <= j < before.len() && before[j] == p;
            assert(after[j] == p);
        }
        if init.contains(p) {
            let j = choose|j: int| 0 <= j < init.len() && init[j] == p;
            assert(paths[j] == p);
        }
        if p == last {
            assert(paths[paths.len() - 1] == p);
            if text_lt(cutoff, p) {
                assert(after[after.len() - 1] == p);
            }
        }
        if paths.contains(p) {
            let j = choose|j: int| 0 <= j < paths.len() && paths[j] == p;
            if j < paths.len() - 1 {
                assert(init[j] == p);
            }
        }
        if after.contains(p) {
            let j = choose|j: int| 0 <= j < after.len() && after[j] == p;
            if j < before.len() {
                assert(before[j] == p);
            }
        }
    }
}

/// The cutoff itself is never linted.
pub proof fn the_cutoff_is_legacy(paths: Seq<Seq<char>>, cutoff: Seq<char>)
    ensures
        !since_spec(paths, cutoff).contains(cutoff),
{
    since_keeps_exactly_the_later_paths(paths, cutoff, cutoff);
    text_lt_irreflexive(cutoff);
}

/// Under `--git-diff`, or under a cutoff with paths, a run never reads standard input: it reads
/// nothing rather than wait on a terminal.
pub proof fn selected_files_never_fall_back_to_stdin(
    paths: Seq<Seq<char>>,
    git_diff: Option<Seq<char>>,
    since: Option<Seq<char>>,
)
    requires
        git_diff is Some || (since is Some && paths.len() > 0),
    ensures
        match selection_spec(paths, git_diff, since) {
            Ok(SelectionView::Read(ss)) => !ss.contains(SourceView::Stdin),
            Ok(SelectionView::Changed(r)) => git_diff == Some(r),
            Err(_) => paths.contains("-"@),
        },
{
}

/// Standard input is never scoped out, and nothing is where every file is in scope.
pub proof fn scoping_keeps_what_is_in_scope(
    inputs: Seq<(Seq<char>, Seq<char>)>,
    in_scope: Seq<bool>,
)
    requires
        in_scope.len() >= inputs.len(),
        forall|i: int| 0 <= i < inputs.len() ==> stays((#[trigger] inputs[i]).0, in_scope[i]),
    ensures
        kept_inputs(inputs, in_scope) == inputs,
        skip_note(skipped_inputs(inputs, in_scope)) is None,
    decreases inputs.len(),
{
    if inputs.len() > 0 {
        let init = inputs.drop_last();
        assert forall|i: int| 0 <= i < init.len() implies stays((#[trigger] init[i]).0, in_scope[i]) by {
            assert(stays(inputs[i].0, in_scope[i]));
        }
        scoping_keeps_what_is_in_scope(init, in_scope);
        assert(stays(inputs[inputs.len() - 1].0, in_scope[inputs.len() - 1]));
        assert(init.push(inputs.last()) == inputs);
    }
}

/// Every input is either kept or named in the note.
pub proof fn scoping_loses_no_input(inputs: Seq<(Seq<char>, Seq<char>)>, in_scope: Seq<bool>)
    ensures
        kept_inputs(inputs, in_scope).len() + skipped_inputs(inputs, in_scope).len()
            == inputs.len(),
    decreases inputs.len(),
{
    if inputs.len() > 0 {
        scoping_loses_no_input(inputs.drop_last(), in_scope);
    }
}

/// A parse or I/O error outranks gated findings, and only a run with neither exits with 0.
pub proof fn errors_outrank_findings(had_error: bool, gated: bool)
    ensures
        had_error ==> exit_code_spec(had_error, gated) == 2,
        exit_code_spec(had_error, gated) == 0 <==> !had_error && !gated,
{
}

/// What is given on the command line goes before the config, and that before the default.
pub proof fn flags_go_before_the_config<T>(flag: T, config: Option<T>, default: T, value: T)
    ensures
        effective(Some(flag), config, default) == flag,
        effective(None, Some(value), default) == value,
        effective(None::<T>, None, default) == default,
{
}

/// A cutoff on the command line goes before that of the config; without either there is none.
pub proof fn a_cutoff_flag_goes_before_the_config(flag: Seq<char>, config: Option<Seq<char>>)
    ensures
        effective_since(Some(flag), config) == Some(flag),
        effective_since(None, config) == config,
{
}

/// A run prints the example config where that is asked for, else the rules, else it fixes in place,
/// else it previews fixes, and lints only where none of these is asked for.
pub proof fn a_run_does_the_first_thing_asked_for(args: CommonArgs)
    ensures
        task_spec(args) == Task::ExampleConfig <==> args.example_config,
        task_spec(args) is ListRules <==> !args.example_config && args.list_rules,
        task_spec(args) matches Task::ListRules { json } ==> (json <==> args.format == Some(
            Format::Json,
        )),
        task_spec(args) == Task::Fix(Mode::Apply) <==> !args.example_config && !args.list_rules
            && args.fix,
        task_spec(args) == Task::Fix(Mode::Diff) <==> !args.example_config && !args.list_rules
            && !args.fix && args.diff,
        task_spec(args) == Task::Lint <==> !args.example_config && !args.list_rules && !args.fix
            && !args.diff,
{
}

/// Which inputs are read: with `--git-diff` the changed files, with a cutoff and paths the later
/// paths, else the paths, a `-` standing for standard input, as no paths do.
pub proof fn inputs_are_selected(
    paths: Seq<Seq<char>>,
    reference: Seq<char>,
    cutoff: Seq<char>,
    since: Option<Seq<char>>,
    i: int,
)
    ensures
        !paths.contains("-"@) ==> selection_spec(paths, Some(reference), since) == Ok::<
            SelectionView,
            Seq<char>,
        >(SelectionView::Changed(reference)),
        paths.contains("-"@) ==> selection_spec(paths, Some(reference), since) is Err,
        paths.contains("-"@) ==> selection_spec(paths, None, Some(cutoff)) is Err,
        selection_spec(Seq::empty(), None, since) == Ok::<SelectionView, Seq<char>>(
            SelectionView::Read(seq![SourceView::Stdin]),
        ),
        0 <= i < paths.len() ==> (selection_spec(paths, None, None) matches Ok(
            SelectionView::Read(ss),
        ) && ss.len() == paths.len() && ss[i] == (if paths[i] == "-"@ {
            SourceView::Stdin
        } else {
            SourceView::File(paths[i])
        })),
        paths.len() > 0 && !paths.contains("-"@) ==> (selection_spec(
            paths,
            None,
            Some(cutoff),
        ) matches Ok(SelectionView::Read(ss)) && ss.len() == since_spec(paths, cutoff).len() && (0
            <= i < ss.len() ==> ss[i] == SourceView::File(since_spec(paths, cutoff)[i]))),
{
    assert(!Seq::<Seq<char>>::empty().contains("-"@));
}

/// The exit code is 2 exactly if an input does not parse; else 1 exactly if some finding that is not
/// suppressed is as severe as the run is to fail on; else 0.
pub proof fn the_exit_code_says_what_was_found(rs: Seq<FileReportView>, fail_on: FailOn)
    ensures
        ({
            let code = exit_code_spec(any_error(rs), any_gating(rs, fail_on));
            let failed = exists|i: int| 0 <= i < rs.len() && (#[trigger] rs[i]).error is Some;
            let found = exists|i: int, j: int|
                0 <= i < rs.len() && 0 <= j < rs[i].findings.len() && (
                #[trigger] rs[i].findings[j]).suppression is None && (fail_on == FailOn::Warning
                    || fail_on == FailOn::Error && rs[i].findings[j].severity == Severity::Error);
            &&& code == 2 <==> failed
            &&& code == 1 <==> !failed && found
            &&& code == 0 <==> !failed && !found
        }),
{
    let found = exists|i: int, j: int|
        0 <= i < rs.len() && 0 <= j < rs[i].findings.len() && (
        #[trigger] rs[i].findings[j]).suppression is None && (fail_on == FailOn::Warning || fail_on
            == FailOn::Error && rs[i].findings[j].severity == Severity::Error);
    if any_gating(rs, fail_on) {
        let (i, j) = choose|i: int, j: int|
            0 <= i < rs.len() && 0 <= j < rs[i].findings.len() && crate::output::gates(
                #[trigger] rs[i].findings[j],
                fail_on,
            );
        assert(rs[i].findings[j].suppression is None);
    }
    if found {
        let (i, j) = choose|i: int, j: int|
            0 <= i < rs.len() && 0 <= j < rs[i].findings.len() && (
            #[trigger] rs[i].findings[j]).suppression is None && (fail_on == FailOn::Warning
                || fail_on == FailOn::Error && rs[i].findings[j].severity == Severity::Error);
        assert(crate::output::gates(rs[i].findings[j], fail_on));
    }
}

/// Standard input is always linted; a file is where the config governs it.
pub proof fn standard_input_is_always_in_scope(name: Seq<char>, in_scope: bool)
    ensures
        stays("<stdin>"@, in_scope),
        name != "<stdin>"@ ==> stays(name, in_scope) == in_scope,
{
}

/// The note on skipped files says how many there are and names them, and there is none where all are
/// linted.
pub proof fn the_note_counts_the_skipped(skipped: Seq<Seq<char>>)
    ensures
        skipped.len() == 0 <==> skip_note(skipped) is None,
        skipped.len() > 0 ==> number_behind(skip_note(skipped)->0, "skipped "@) == Some(
            skipped.len() as int,
        ) && joined_with(skipped, ", "@).is_suffix_of(skip_note(skipped)->0),
{
    reveal_strlit("note: skipped ");
    reveal_strlit("skipped ");
    reveal_strlit("note: ");
    reveal_strlit(" file(s) not matching the configured `paths`: ");
    if skipped.len() > 0 {
        let n = skipped.len();
        let d = decimal_spec(n);
        let names = joined_with(skipped, ", "@);
        let tail = " file(s) not matching the configured `paths`: "@;
        let note = skip_note(skipped)->0;
        assert("note: skipped "@ =~= "note: "@ + "skipped "@);
        lemma_assoc("note: skipped "@, d, tail);
        lemma_assoc("note: skipped "@, d + tail, names);
        lemma_assoc(d, tail, names);
        lemma_assoc("note: "@, "skipped "@, d + (tail + names));
        assert(note == "note: "@ + ("skipped "@ + (d + (tail + names))));
        lemma_number("note: "@, "skipped "@, n, tail + names);
        assert(names =~= note.subrange(note.len() - names.len(), note.len() as int));
    }
}

/// Fixing an input stops after ten passes at most.
pub proof fn fixing_is_capped()
    ensures
        crate::fixpoint::MAX_FIX_ITERATIONS == 10,
{
}

} // verus!
