//! `source.fixAll` — apply every auto-fix at once, with `pgsafe --fix` semantics.
use vstd::prelude::*;
use vstd::utf8::encode_utf8;

use super::actions::{ActionKind, CodeAction, CodeActionView, TextEdit, TextEditView};
use super::diagnostics::DiagnosticView;
use super::position::{range_spec, LineIndex};
use crate::fixpoint::{fix_to_fixpoint, fixes_fit, reaches, Fixpoint, MAX_FIX_ITERATIONS};
use crate::output::FileReport;
use crate::text::str_eq;

verus! {

/// What the offer to fix everything is called.
pub const TITLE: &'static str = "pgsafe: fix all auto-fixable findings";

/// The offer to replace a whole document; none where that changes nothing.
pub open spec fn whole_document(
    uri: Seq<char>,
    sql: Seq<char>,
    fixed: Seq<char>,
) -> Option<CodeActionView> {
    if fixed == sql {
        None
    } else {
        Some(
            CodeActionView {
                title: TITLE@,
                kind: ActionKind::FixAll,
                diagnostics: Seq::empty(),
                uri,
                edits: seq![
                    TextEditView {
                        range: range_spec(sql, 0, encode_utf8(sql).len() as int),
                        new_text: fixed,
                    },
                ],
            },
        )
    }
}

/// The offer to replace `sql` by `fixed`.
pub fn whole_document_action(uri: &str, sql: &str, fixed: String) -> (r: Option<CodeAction>)
    ensures
        match r {
            Some(a) => whole_document(uri@, sql@, fixed@) == Some(a@),
            None => whole_document(uri@, sql@, fixed@) is None,
        },
{
    if str_eq(fixed.as_str(), sql) {
        return None;
    }
    let index = LineIndex::new(sql);
    let whole = index.range(0, sql.as_bytes().len());
    let mut edits: Vec<TextEdit> = Vec::new();
    let edit = TextEdit { range: whole, new_text: fixed };
    edits.push(edit);
    let r = CodeAction {
        title: TITLE.to_owned(),
        kind: ActionKind::FixAll,
        diagnostics: Vec::new(),
        uri: uri.to_owned(),
        edits,
    };
    proof {
        assert(r@.diagnostics == Seq::<DiagnosticView>::empty());
        assert(r@.edits == seq![
            TextEditView {
                range: range_spec(sql@, 0, encode_utf8(sql@).len() as int),
                new_text: fixed@,
            },
        ]);
    }
    Some(r)
}

/// Build the `source.fixAll` action for `sql`: drive the same fixpoint engine
/// `pgsafe --fix` uses (iterate to a safe fixpoint — parse-valid, introducing no new
/// Error), and if that changes the text, return a single whole-document replacement.
/// `None` when nothing is safely auto-fixable (the fixpoint made no change).
pub fn fix_all_action<F: Fn(&str) -> FileReport>(uri: &str, sql: &str, lint: F) -> (r: Option<
    CodeAction,
>)
    requires
        forall|s: &str| #[trigger] call_requires(lint, (s,)),
        forall|s: &str, report: FileReport| #[trigger]
            call_ensures(lint, (s,), report) ==> fixes_fit(s@, report@),
        forall|s: &str, report: FileReport| #[trigger]
            call_ensures(lint, (s,), report) ==> report.findings@.len() * MAX_FIX_ITERATIONS
                <= usize::MAX,
    ensures
        exists|fp: Fixpoint| #[trigger]
            reaches(lint, sql@, MAX_FIX_ITERATIONS as int, fp) && match r {
                Some(a) => whole_document(uri@, sql@, fp.sql@) == Some(a@),
                None => whole_document(uri@, sql@, fp.sql@) is None,
            },
{
    let fixed = fix_to_fixpoint(sql, lint, MAX_FIX_ITERATIONS);
    let ghost fp = fixed;
    let r = whole_document_action(uri, sql, fixed.sql);
    proof {
        assert(reaches(lint, sql@, MAX_FIX_ITERATIONS as int, fp));
    }
    r
}

} // verus!
