//! `textDocument/hover` — render the pgsafe finding(s) under the cursor.
use vstd::prelude::*;

use super::actions::{before, before_spec};
use super::diagnostics::{finding_range, finding_range_spec};
use super::position::{LineIndex, Position, Range};
use crate::finding::{findings_view, Finding, FindingView};

verus! {

/// What an editor shows under the cursor: Markdown, and the stretch it is about.
#[derive(Debug)]
pub struct Hover {
    pub value: String,
    pub range: Option<Range>,
}

/// Whether `position` is in the half-open range `[start, end)`.
pub open spec fn holds_position(range: Range, position: Position) -> bool {
    !before_spec(position, range.start) && before_spec(position, range.end)
}

/// Whether `position` falls within the half-open LSP range `[start, end)` — the
/// statement's characters, end-exclusive (a cursor just past the last character
/// isn't "on" the statement).
pub fn contains(range: Range, position: Position) -> (r: bool)
    ensures
        r == holds_position(range, position),
{
    !before(position, range.start) && before(position, range.end)
}

/// Whether a finding is shown at a position.
pub open spec fn hovers(sql: Seq<char>, f: FindingView, position: Position) -> bool {
    f.suppression is None && holds_position(finding_range_spec(sql, f), position)
}

/// A finding as Markdown.
pub open spec fn section(f: FindingView) -> Seq<char> {
    "**"@ + f.severity.label() + " · "@ + f.rule_id + "**\n\n"@ + f.message + "\n\n"@ + f.guidance
}

fn section_text(f: &Finding) -> (r: String)
    ensures
        r@ == section(f@),
{
    let mut out = "**".to_owned();
    out.append(f.severity.as_str());
    out.append(" · ");
    out.append(f.rule_id.as_str());
    out.append("**\n\n");
    out.append(f.message.as_str());
    out.append("\n\n");
    out.append(f.guidance.as_str());
    out
}

/// What is shown at a position: the findings there, each as a section, with the range of the
/// first.
pub open spec fn hover_spec(
    sql: Seq<char>,
    fs: Seq<FindingView>,
    position: Position,
) -> Option<(Seq<char>, Range)>
    decreases fs.len(),
{
    if fs.len() == 0 {
        None
    } else {
        let before = hover_spec(sql, fs.drop_last(), position);
        let f = fs.last();
        if !hovers(sql, f, position) {
            before
        } else {
            match before {
                Some((text, range)) => Some((text + "\n\n---\n\n"@ + section(f), range)),
                None => Some((section(f), finding_range_spec(sql, f))),
            }
        }
    }
}

/// Build the hover for `position` in `sql`: the non-suppressed findings whose
/// statement range covers the cursor, rendered as Markdown. `None` when nothing
/// applies there.
pub fn hover(sql: &str, findings: &[Finding], position: Position) -> (r: Option<Hover>)
    ensures
        match hover_spec(sql@, findings_view(findings@), position) {
            Some((text, range)) => r matches Some(h) && h.value@ == text && h.range == Some(range),
            None => r is None,
        },
{
    let index = LineIndex::new(sql);
    let ghost fs = findings_view(findings@);
    let mut value = String::new();
    let mut range: Option<Range> = None;
    let mut i: usize = 0;
    while i < findings.len()
        invariant
            i <= findings@.len(),
            fs == findings_view(findings@),
            index.well_formed(),
            index.text@ == sql@,
            match hover_spec(sql@, fs.take(i as int), position) {
                Some((text, span)) => value@ == text && range == Some(span),
                None => range is None,
            },
        decreases findings@.len() - i,
    {
        proof {
            assert(fs.take(i + 1).drop_last() == fs.take(i as int));
            assert(fs.take(i + 1).last() == findings@[i as int]@);
        }
        let f = &findings[i];
        let span = finding_range(f, &index);
        if !f.is_suppressed() && contains(span, position) {
            let text = section_text(f);
            match range {
                Some(_) => {
                    value.append("\n\n---\n\n");
                    value.append(text.as_str());
                },
                None => {
                    value = text;
                    range = Some(span);
                },
            }
        }
        i += 1;
    }
    assert(fs.take(fs.len() as int) == fs);
    match range {
        Some(_) => Some(Hover { value, range }),
        None => None,
    }
}

/// There is a hover exactly where a finding that is not suppressed covers the cursor.
pub proof fn a_hover_is_shown_on_open_findings(
    sql: Seq<char>,
    fs: Seq<FindingView>,
    position: Position,
)
    ensures
        hover_spec(sql, fs, position) is Some <==> exists|i: int|
            0 <= i < fs.len() && hovers(sql, #[trigger] fs[i], position),
    decreases fs.len(),
{
    if fs.len() > 0 {
        let init = fs.drop_last();
        a_hover_is_shown_on_open_findings(sql, init, position);
        if exists|i: int| 0 <= i < init.len() && hovers(sql, #[trigger] init[i], position) {
            let i = choose|i: int| 0 <= i < init.len() && hovers(sql, #[trigger] init[i], position);
            assert(hovers(sql, fs[i], position));
        }
        if hovers(sql, fs.last(), position) {
            assert(hovers(sql, fs[fs.len() - 1], position));
        }
        if exists|i: int| 0 <= i < fs.len() && hovers(sql, #[trigger] fs[i], position) {
            let i = choose|i: int| 0 <= i < fs.len() && hovers(sql, #[trigger] fs[i], position);
            if i < fs.len() - 1 {
                assert(hovers(sql, init[i], position));
            }
        }
    }
}

} // verus!
