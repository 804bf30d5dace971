//! Fixes of findings as quickfix code actions.
use vstd::prelude::*;

use super::diagnostics::{
    diagnostic_spec, diagnostics_view, finding_diagnostic, finding_range, finding_range_spec,
    Diagnostic, DiagnosticView,
};
use super::position::{range_spec, LineIndex, Position, Range};
use crate::finding::{edits_view, findings_view, Finding, FindingView, FixEdit, FixEditView};

verus! {

/// What a code action is for.
#[derive(Debug, Clone, Copy, PartialEq, Eq, Structural)]
pub enum ActionKind {
    /// `quickfix`: one finding.
    QuickFix,
    /// `source.fixAll`: the whole document.
    FixAll,
}

/// A replacement of a stretch of a document.
#[derive(Debug)]
pub struct TextEdit {
    pub range: Range,
    pub new_text: String,
}

/// What a replacement holds.
pub struct TextEditView {
    pub range: Range,
    pub new_text: Seq<char>,
}

impl View for TextEdit {
    type V = TextEditView;

    open spec fn view(&self) -> TextEditView {
        TextEditView { range: self.range, new_text: self.new_text@ }
    }
}

/// What a list of replacements holds.
pub open spec fn text_edits_view(es: Seq<TextEdit>) -> Seq<TextEditView> {
    es.map_values(|e: TextEdit| e@)
}

/// An offer to change the document at `uri`.
#[derive(Debug)]
pub struct CodeAction {
    pub title: String,
    pub kind: ActionKind,
    pub diagnostics: Vec<Diagnostic>,
    pub uri: String,
    pub edits: Vec<TextEdit>,
}

/// What an offer holds.
pub struct CodeActionView {
    pub title: Seq<char>,
    pub kind: ActionKind,
    pub diagnostics: Seq<DiagnosticView>,
    pub uri: Seq<char>,
    pub edits: Seq<TextEditView>,
}

impl View for CodeAction {
    type V = CodeActionView;

    open spec fn view(&self) -> CodeActionView {
        CodeActionView {
            title: self.title@,
            kind: self.kind,
            diagnostics: diagnostics_view(self.diagnostics@),
            uri: self.uri@,
            edits: text_edits_view(self.edits@),
        }
    }
}

/// What a list of offers holds.
pub open spec fn actions_view(cs: Seq<CodeAction>) -> Seq<CodeActionView> {
    cs.map_values(|c: CodeAction| c@)
}

/// `p` is strictly before `q`.
pub open spec fn before_spec(p: Position, q: Position) -> bool {
    p.line < q.line || (p.line == q.line && p.character < q.character)
}

/// `p` is strictly before `q`.
pub fn before(p: Position, q: Position) -> (r: bool)
    ensures
        r == before_spec(p, q),
{
    p.line < q.line || (p.line == q.line && p.character < q.character)
}

/// Whether neither range ends before the other starts.
pub open spec fn intersect(a: Range, b: Range) -> bool {
    !before_spec(a.end, b.start) && !before_spec(b.end, a.start)
}

/// Range intersection in LSP position space. Ranges that merely *touch* — one's end
/// equal to the other's start — count as intersecting: a cursor placed exactly at a statement
/// boundary still gets that statement's quickfix. It can only add a convenience action at a
/// boundary, never drop a legitimate one.
pub fn ranges_intersect(a: Range, b: Range) -> (r: bool)
    ensures
        r == intersect(a, b),
{
    !(before(a.end, b.start) || before(b.end, a.start))
}

/// Intersection does not depend on the order of the ranges.
pub proof fn intersection_is_symmetric(a: Range, b: Range)
    ensures
        intersect(a, b) == intersect(b, a),
{
}

/// Two ranges that share a position intersect, their ends included.
pub proof fn ranges_with_a_common_position_intersect(a: Range, b: Range, p: Position)
    requires
        !before_spec(p, a.start),
        !before_spec(a.end, p),
        !before_spec(p, b.start),
        !before_spec(b.end, p),
    ensures
        intersect(a, b),
{
}

/// The replacements of a fix's edits.
pub open spec fn replacements(sql: Seq<char>, es: Seq<FixEditView>) -> Seq<TextEditView> {
    es.map_values(
        |e: FixEditView|
            TextEditView { range: range_spec(sql, e.start, e.end), new_text: e.replacement },
    )
}

fn text_edits(index: &LineIndex, edits: &Vec<FixEdit>) -> (r: Vec<TextEdit>)
    requires
        index.well_formed(),
    ensures
        text_edits_view(r@) == replacements(index.text@, edits_view(edits@)),
{
    let ghost all = replacements(index.text@, edits_view(edits@));
    let mut out: Vec<TextEdit> = Vec::new();
    let mut i: usize = 0;
    while i < edits.len()
        invariant
            i <= edits@.len(),
            index.well_formed(),
            all == replacements(index.text@, edits_view(edits@)),
            text_edits_view(out@) == all.take(i as int),
        decreases edits@.len() - i,
    {
        let e = &edits[i];
        let t = TextEdit {
            range: index.range(e.start as usize, e.end as usize),
            new_text: e.replacement.as_str().to_owned(),
        };
        proof {
            assert(edits_view(edits@)[i as int] == e@);
            assert(t@ == all[i as int]);
            assert(text_edits_view(out@.push(t)) == text_edits_view(out@).push(t@));
            assert(all.take(i + 1) == all.take(i as int).push(all[i as int]));
        }
        out.push(t);
        i += 1;
    }
    assert(all.take(all.len() as int) == all);
    out
}

/// The quickfix of a finding: it is not suppressed, it has a fix, and it is in the requested
/// range.
pub open spec fn quickfix(
    uri: Seq<char>,
    sql: Seq<char>,
    f: FindingView,
    requested: Range,
) -> Option<CodeActionView> {
    match f.fix {
        Some(fix) => if f.suppression is None && intersect(finding_range_spec(sql, f), requested) {
            Some(
                CodeActionView {
                    title: fix.title,
                    kind: ActionKind::QuickFix,
                    diagnostics: seq![diagnostic_spec(sql, f)],
                    uri,
                    edits: replacements(sql, fix.edits),
                },
            )
        } else {
            None
        },
        None => None,
    }
}

/// The quickfixes of some findings.
pub open spec fn quickfixes(
    uri: Seq<char>,
    sql: Seq<char>,
    fs: Seq<FindingView>,
    requested: Range,
) -> Seq<CodeActionView>
    decreases fs.len(),
{
    if fs.len() == 0 {
        Seq::empty()
    } else {
        let before = quickfixes(uri, sql, fs.drop_last(), requested);
        match quickfix(uri, sql, fs.last(), requested) {
            Some(a) => before.push(a),
            None => before,
        }
    }
}

fn quickfix_for(uri: &str, finding: &Finding, index: &LineIndex, requested: Range) -> (r: Option<
    CodeAction,
>)
    requires
        index.well_formed(),
    ensures
        match r {
            Some(a) => quickfix(uri@, index.text@, finding@, requested) == Some(a@),
            None => quickfix(uri@, index.text@, finding@, requested) is None,
        },
{
    if finding.is_suppressed() {
        return None;
    }
    match &finding.fix {
        Some(fix) => {
            if !ranges_intersect(finding_range(finding, index), requested) {
                return None;
            }
            let mut diagnostics: Vec<Diagnostic> = Vec::new();
            diagnostics.push(finding_diagnostic(finding, index));
            let r = CodeAction {
                title: fix.title.as_str().to_owned(),
                kind: ActionKind::QuickFix,
                diagnostics,
                uri: uri.to_owned(),
                edits: text_edits(index, &fix.edits),
            };
            proof {
                assert(r@.diagnostics == seq![diagnostic_spec(index.text@, finding@)]);
            }
            Some(r)
        },
        None => None,
    }
}

/// Build quickfix actions for every fixable finding whose statement range
/// intersects `requested`.
pub fn code_actions(uri: &str, sql: &str, findings: &[Finding], requested: Range) -> (r: Vec<
    CodeAction,
>)
    ensures
        actions_view(r@) == quickfixes(uri@, sql@, findings_view(findings@), requested),
{
    let index = LineIndex::new(sql);
    let ghost fs = findings_view(findings@);
    let mut out: Vec<CodeAction> = Vec::new();
    let mut i: usize = 0;
    assert(actions_view(out@) == quickfixes(uri@, sql@, fs.take(0), requested));
    while i < findings.len()
        invariant
            i <= findings@.len(),
            fs == findings_view(findings@),
            index.well_formed(),
            index.text@ == sql@,
            actions_view(out@) == quickfixes(uri@, sql@, fs.take(i as int), requested),
        decreases findings@.len() - i,
    {
        proof {
            assert(fs.take(i + 1).drop_last() == fs.take(i as int));
            assert(fs.take(i + 1).last() == findings@[i as int]@);
        }
        if let Some(a) = quickfix_for(uri, &findings[i], &index, requested) {
            assert(actions_view(out@.push(a)) == actions_view(out@).push(a@));
            out.push(a);
        }
        i += 1;
    }
    assert(fs.take(fs.len() as int) == fs);
    out
}

} // verus!
