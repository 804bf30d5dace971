//! What an editor is shown.
use vstd::prelude::*;
use vstd::utf8::encode_utf8;

use super::actions::{before_spec, intersect, quickfix, quickfixes, ActionKind, CodeActionView};
use super::diagnostics::{diagnostic_spec, diagnostics_spec, finding_range_spec};
use super::fixall::whole_document;
use super::hover::{holds_position, hover_spec, hovers, section};
use super::position::{a_text_starts_at_the_origin, position_spec, Position, Range};
use super::server::{
    doc_after, handled, hex_spec, method_spec, DocumentView, Event, Method, State, StepView,
};
use crate::cli::joined_with;
use crate::finding::{FindingView, Severity};
use crate::tree_laws::lemma_push_contains;

verus! {

/// Whether a range starts no later than it ends.
pub open spec fn is_ordered(r: Range) -> bool {
    !before_spec(r.end, r.start)
}

/// One position is before another exactly if it is on an earlier line, or on the same line and
/// further left.
pub proof fn positions_go_by_line_and_character(p: Position, q: Position)
    ensures
        before_spec(p, q) <==> p.line < q.line || p.line == q.line && p.character < q.character,
{
}

/// Whether a position lies in a range, its ends included.
pub open spec fn touches(r: Range, p: Position) -> bool {
    !before_spec(p, r.start) && !before_spec(r.end, p)
}

/// Two ranges intersect exactly if some position lies in both, their ends included.
pub proof fn ranges_intersect_at_a_position(a: Range, b: Range)
    requires
        is_ordered(a),
        is_ordered(b),
    ensures
        intersect(a, b) <==> exists|p: Position| #[trigger] touches(a, p) && touches(b, p),
{
    if intersect(a, b) {
        let p = if before_spec(a.start, b.start) {
            b.start
        } else {
            a.start
        };
        assert(touches(a, p) && touches(b, p));
    }
}

/// A range holds its start and every position up to its end, but not the end itself.
pub proof fn a_range_ends_before_its_end(r: Range, p: Position)
    ensures
        holds_position(r, p) <==> touches(r, p) && p != r.end,
        !holds_position(r, r.end),
{
}

/// The diagnostic of a finding names its rule and its severity, and says its message and how to fix
/// it.
pub proof fn a_diagnostic_says_what_was_found(sql: Seq<char>, f: FindingView)
    ensures
        ({
            let d = diagnostic_spec(sql, f);
            &&& d.code == f.rule_id
            &&& d.severity == f.severity
            &&& d.source == "pgsafe"@
            &&& d.message == f.message + "\n"@ + f.guidance
            &&& d.range.start == position_spec(sql, f.location.byte as int)
            &&& d.range.end == position_spec(sql, f.location.byte + encode_utf8(f.snippet).len())
        }),
{
}

/// A diagnostic is shown exactly for each finding that is not suppressed.
pub proof fn open_findings_are_shown(
    sql: Seq<char>,
    fs: Seq<FindingView>,
    d: super::diagnostics::DiagnosticView,
)
    ensures
        diagnostics_spec(sql, fs).contains(d) <==> exists|i: int|
            0 <= i < fs.len() && (#[trigger] fs[i]).suppression is None && d == diagnostic_spec(
                sql,
                fs[i],
            ),
    decreases fs.len(),
{
    if fs.len() > 0 {
        let init = fs.drop_last();
        open_findings_are_shown(sql, init, d);
        let before = diagnostics_spec(sql, init);
        lemma_push_contains(before, diagnostic_spec(sql, fs.last()), d);
        assert(forall|i: int| 0 <= i < init.len() ==> #[trigger] init[i] == fs[i]);
        assert(fs[fs.len() - 1] == fs.last());
        if before.contains(d) {
            let i = choose|i: int|
                0 <= i < init.len() && (#[trigger] init[i]).suppression is None && d
                    == diagnostic_spec(sql, init[i]);
            assert(fs[i].suppression is None);
        }
        if exists|i: int|
            0 <= i < fs.len() && (#[trigger] fs[i]).suppression is None && d == diagnostic_spec(
                sql,
                fs[i],
            ) {
            let i = choose|i: int|
                0 <= i < fs.len() && (#[trigger] fs[i]).suppression is None && d == diagnostic_spec(
                    sql,
                    fs[i],
                );
            if i < init.len() {
                assert(init[i].suppression is None);
            }
        }
    } else {
        assert(!diagnostics_spec(sql, fs).contains(d));
    }
}

/// Whether a finding has a quickfix in a range: it is not suppressed, it has a fix, and its
/// statement and the range have a position in common.
pub open spec fn is_fixable_in(sql: Seq<char>, f: FindingView, requested: Range) -> bool {
    f.suppression is None && f.fix is Some && intersect(finding_range_spec(sql, f), requested)
}

/// Whether a code action is the quickfix of a finding: it carries the fix's title and edits, each
/// at its own place, for the finding's document and diagnostic.
pub open spec fn offers(a: CodeActionView, uri: Seq<char>, sql: Seq<char>, f: FindingView) -> bool {
    f.fix matches Some(fix) && {
        &&& a.title == fix.title
        &&& a.kind == ActionKind::QuickFix
        &&& a.uri == uri
        &&& a.diagnostics == seq![diagnostic_spec(sql, f)]
        &&& a.edits.len() == fix.edits.len()
        &&& forall|i: int|
            0 <= i < fix.edits.len() ==> (#[trigger] a.edits[i]).new_text
                == fix.edits[i].replacement && a.edits[i].range.start == position_spec(
                sql,
                fix.edits[i].start,
            ) && a.edits[i].range.end == position_spec(sql, fix.edits[i].end)
    }
}

/// The quickfixes in a range are those of the findings that have one there, in their order.
pub proof fn quickfixes_are_offered_where_they_apply(
    uri: Seq<char>,
    sql: Seq<char>,
    fs: Seq<FindingView>,
    requested: Range,
)
    ensures
        quickfixes(uri, sql, fs, requested).len() == fs.filter(fixable_in(sql, requested)).len(),
        forall|k: int|
            0 <= k < quickfixes(uri, sql, fs, requested).len() ==> offers(
                #[trigger] quickfixes(uri, sql, fs, requested)[k],
                uri,
                sql,
                fs.filter(fixable_in(sql, requested))[k],
            ),
    decreases fs.len(),
{
    reveal(Seq::filter);
    if fs.len() > 0 {
        let init = fs.drop_last();
        quickfixes_are_offered_where_they_apply(uri, sql, init, requested);
        let f = fs.last();
        let such = fixable_in(sql, requested);
        let all = quickfixes(uri, sql, fs, requested);
        let before = quickfixes(uri, sql, init, requested);
        assert(forall|k: int| 0 <= k < before.len() ==> #[trigger] all[k] == before[k]);
        assert(forall|k: int|
            0 <= k < init.filter(such).len() ==> #[trigger] fs.filter(such)[k] == init.filter(
                such,
            )[k]);
        if is_fixable_in(sql, f, requested) {
            let a = quickfix(uri, sql, f, requested)->0;
            assert(all == before.push(a));
            assert(offers(a, uri, sql, f));
            assert(fs.filter(such) == init.filter(such).push(f));
        } else {
            assert(all == before);
            assert(fs.filter(such) == init.filter(such));
        }
    }
}

/// With a quickfix in a range.
pub open spec fn fixable_in(sql: Seq<char>, requested: Range) -> spec_fn(FindingView) -> bool {
    |f: FindingView| is_fixable_in(sql, f, requested)
}

/// Not suppressed, and on a statement that holds a position.
pub open spec fn under(sql: Seq<char>, p: Position) -> spec_fn(FindingView) -> bool {
    |f: FindingView| f.suppression is None && holds_position(finding_range_spec(sql, f), p)
}

/// A finding as it is shown under the cursor.
pub open spec fn described(f: FindingView) -> Seq<char> {
    "**"@ + (match f.severity {
        Severity::Error => "error"@,
        Severity::Warning => "warning"@,
    }) + " · "@ + f.rule_id + "**\n\n"@ + f.message + "\n\n"@ + f.guidance
}

/// What is shown at a position is every open finding on the statement there, in order, a rule
/// between each two, over the range of the first.
pub proof fn a_hover_shows_every_finding_there(
    sql: Seq<char>,
    fs: Seq<FindingView>,
    p: Position,
)
    ensures
        ({
            let there = fs.filter(under(sql, p));
            hover_spec(sql, fs, p) == (if there.len() == 0 {
                None
            } else {
                Some(
                    (
                        joined_with(
                            there.map_values(|f: FindingView| described(f)),
                            "\n\n---\n\n"@,
                        ),
                        finding_range_spec(sql, there[0]),
                    ),
                )
            })
        }),
    decreases fs.len(),
{
    reveal(Seq::filter);
    if fs.len() > 0 {
        let init = fs.drop_last();
        a_hover_shows_every_finding_there(sql, init, p);
        let f = fs.last();
        let such = under(sql, p);
        let before = init.filter(such);
        let there = fs.filter(such);
        assert(section(f) =~= described(f));
        if hovers(sql, f, p) {
            assert(there == before.push(f));
            let old_texts = before.map_values(|f: FindingView| described(f));
            let texts = there.map_values(|f: FindingView| described(f));
            assert(texts.drop_last() =~= old_texts);
            assert(texts.last() == described(f));
            if before.len() > 0 {
                assert(there[0] == before[0]);
            }
        } else {
            assert(there == before);
        }
    }
}

/// Fixing everything replaces the whole document by the fixed text, and is offered exactly if that
/// changes something.
pub proof fn fixing_all_replaces_the_document(uri: Seq<char>, sql: Seq<char>, fixed: Seq<char>)
    ensures
        whole_document(uri, sql, fixed) is None <==> fixed == sql,
        whole_document(uri, sql, fixed) matches Some(a) ==> {
            &&& a.kind == ActionKind::FixAll
            &&& a.uri == uri
            &&& a.edits.len() == 1
            &&& a.edits[0].new_text == fixed
            &&& a.edits[0].range.start == (Position { line: 0, character: 0 })
            &&& a.edits[0].range.end == position_spec(sql, encode_utf8(sql).len() as int)
        },
{
    a_text_starts_at_the_origin(sql);
}

/// An SQL document is linted in the text it has after each event, and shown nothing once it is
/// closed; a document in another language is never linted.
pub proof fn the_latest_text_is_linted(
    before: State,
    event: Event,
    after: State,
    step: StepView,
)
    requires
        handled(before, event, after, step),
    ensures
        event is Exit <==> step == StepView::Stop,
        event matches Event::Open { uri, language_id, text } ==> after.doc(uri@) == Some(
            DocumentView { language_id: language_id@, text: text@ },
        ) && step == (if language_id@ == "sql"@ {
            StepView::Lint(uri@, text@)
        } else {
            StepView::Clear(uri@)
        }),
        event matches Event::Change { uri, text: Some(text) } ==> (before.doc(uri@) matches Some(
            d,
        ) ==> after.doc(uri@) == Some(
            DocumentView { language_id: d.language_id, text: text@ },
        ) && step == (if d.language_id == "sql"@ {
            StepView::Lint(uri@, text@)
        } else {
            StepView::Clear(uri@)
        })),
        event matches Event::Save { uri } ==> (before.doc(uri@) matches Some(d) ==> after.doc(uri@)
            == Some(d) && step == (if d.language_id == "sql"@ {
            StepView::Lint(uri@, d.text)
        } else {
            StepView::Clear(uri@)
        })),
        event matches Event::Close { uri } ==> after.doc(uri@) is None && (before.doc(uri@) is Some
            ==> step == StepView::Clear(uri@)),
        step matches StepView::Lint(uri, text) ==> after.doc(uri) == Some(
            DocumentView { language_id: "sql"@, text },
        ),
{
    match event {
        Event::Open { uri, .. } => {
            assert(after.doc(uri@) == doc_after(before, event, uri@));
        },
        Event::Change { uri, .. } => {
            assert(after.doc(uri@) == doc_after(before, event, uri@));
        },
        Event::Save { uri } => {
            assert(after.doc(uri@) == doc_after(before, event, uri@));
        },
        Event::Close { uri } => {
            assert(after.doc(uri@) == doc_after(before, event, uri@));
        },
        _ => {},
    }
}

/// The notifications that the server acts on, by the names that the protocol gives them.
pub proof fn notifications_go_by_their_names(name: Seq<char>)
    ensures
        method_spec(name) == Method::Exit <==> name == "exit"@,
        method_spec(name) == Method::DidOpen <==> name == "textDocument/didOpen"@,
        method_spec(name) == Method::DidChange <==> name == "textDocument/didChange"@,
        method_spec(name) == Method::DidSave <==> name == "textDocument/didSave"@,
        method_spec(name) == Method::DidClose <==> name == "textDocument/didClose"@,
{
    reveal_strlit("exit");
    reveal_strlit("textDocument/didOpen");
    reveal_strlit("textDocument/didChange");
    reveal_strlit("textDocument/didSave");
    reveal_strlit("textDocument/didClose");
    assert("textDocument/didOpen"@.len() == 20 && "textDocument/didSave"@.len() == 20);
    assert("textDocument/didOpen"@[16] == 'O' && "textDocument/didSave"@[16] == 'S');
    assert("textDocument/didChange"@.len() == 22 && "textDocument/didClose"@.len() == 21
        && "exit"@.len() == 4);
}

/// A hexadecimal digit counts alike in either case: ten decimal digits, then six letters.
pub proof fn hexadecimal_digits_have_either_case(v: u8)
    requires
        v < 16,
    ensures
        v < 10 ==> hex_spec((48 + v) as u8) == Some(v),
        v >= 10 ==> hex_spec((65 + v - 10) as u8) == Some(v) && hex_spec((97 + v - 10) as u8)
            == Some(v),
        hex_spec(37) is None,
        hex_spec(47) is None,
{
}

} // verus!
