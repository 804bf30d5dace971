//! What a run reports: findings, their severity and place, and the edits that fix them.
use vstd::prelude::*;

use crate::fix::{FixDraft, FixDraftView};
use crate::text::is_byte_range;

verus! {

/// Severity level of a [`Finding`], ordered by increasing severity
/// (`Warning` < `Error`).
#[derive(Debug, Clone, Copy, PartialEq, Eq, PartialOrd, Ord, Structural)]
pub enum Severity {
    /// The statement is potentially unsafe but may be acceptable in some contexts.
    Warning,
    /// The statement is unsafe and should not be run against a live database.
    Error,
}

impl Severity {
    /// The lowercase display name.
    pub open spec fn label(self) -> Seq<char> {
        match self {
            Severity::Warning => "warning"@,
            Severity::Error => "error"@,
        }
    }

    /// The lowercase display name (`"warning"`, `"error"`).
    pub fn as_str(self) -> (r: &'static str)
        ensures
            r@ == self.label(),
    {
        match self {
            Severity::Warning => "warning",
            Severity::Error => "error",
        }
    }
}

/// Source position of a finding's statement: byte offset plus 1-based line and
/// (character) column of the statement's first non-whitespace token.
#[derive(Debug, Clone, Copy, PartialEq, Eq, Structural)]
pub struct Location {
    /// 0-based byte offset of the statement's first non-whitespace token within the input.
    pub byte: u32,
    /// 1-based line number of the statement's first non-whitespace character.
    pub line: u32,
    /// 1-based character column of the statement's first non-whitespace
    /// character on its line.
    pub column: u32,
}

/// The kind of identifier a naming-convention pattern applies to.
#[derive(Debug, Clone, Copy, PartialEq, Eq, PartialOrd, Ord, Structural)]
pub enum NameKind {
    /// A table.
    Table,
    /// A column.
    Column,
    /// An index.
    Index,
    /// A constraint.
    Constraint,
    /// A sequence.
    Sequence,
    /// A trigger.
    Trigger,
    /// A schema.
    Schema,
}

impl NameKind {
    /// The lowercase config-key / display name.
    pub open spec fn label(self) -> Seq<char> {
        match self {
            NameKind::Table => "table"@,
            NameKind::Column => "column"@,
            NameKind::Index => "index"@,
            NameKind::Constraint => "constraint"@,
            NameKind::Sequence => "sequence"@,
            NameKind::Trigger => "trigger"@,
            NameKind::Schema => "schema"@,
        }
    }

    /// The lowercase config-key / display name (`"table"`, `"column"`, …).
    #[must_use]
    pub fn as_str(self) -> (r: &'static str)
        ensures
            r@ == self.label(),
    {
        match self {
            NameKind::Table => "table",
            NameKind::Column => "column",
            NameKind::Index => "index",
            NameKind::Constraint => "constraint",
            NameKind::Sequence => "sequence",
            NameKind::Trigger => "trigger",
            NameKind::Schema => "schema",
        }
    }
}

/// Why a [`Finding`] was suppressed by an inline `-- pgsafe:ignore` directive.
#[derive(Debug, Clone, PartialEq, Eq)]
pub struct Suppression {
    /// The reason text supplied in the directive.
    pub reason: String,
}

/// What a rule emits when it matches. The engine adds identity and positional context.
#[derive(Debug, Clone, PartialEq, Eq)]
pub struct RuleHit {
    /// Short description of what is unsafe.
    pub message: String,
    /// How to rewrite the statement safely.
    pub guidance: String,
    /// The fix the rule proposes, if it has one.
    pub fix: Option<FixDraft>,
}

/// What a [`RuleHit`] holds.
pub struct RuleHitView {
    pub message: Seq<char>,
    pub guidance: Seq<char>,
    pub fix: Option<FixDraftView>,
}

impl View for RuleHit {
    type V = RuleHitView;

    open spec fn view(&self) -> RuleHitView {
        RuleHitView {
            message: self.message@,
            guidance: self.guidance@,
            fix: match self.fix {
                Some(d) => Some(d@),
                None => None,
            },
        }
    }
}

/// A single text edit within the linted SQL: replace bytes `[start, end)` with
/// `replacement`. `start == end` is a pure insertion.
///
/// All offsets are 0-based byte positions into the linted SQL string.
#[derive(Debug, Clone, PartialEq, Eq)]
pub struct FixEdit {
    /// 0-based byte offset where the edit begins.
    pub start: u32,
    /// 0-based byte offset where the edit ends (`== start` for an insertion).
    pub end: u32,
    /// Text to splice in place of `[start, end)`.
    pub replacement: String,
}

/// What a [`FixEdit`] holds.
pub struct FixEditView {
    pub start: int,
    pub end: int,
    pub replacement: Seq<char>,
}

impl View for FixEdit {
    type V = FixEditView;

    open spec fn view(&self) -> FixEditView {
        FixEditView {
            start: self.start as int,
            end: self.end as int,
            replacement: self.replacement@,
        }
    }
}

impl FixEdit {
    /// A copy of the edit.
    pub fn duplicate(&self) -> (r: FixEdit)
        ensures
            r == *self,
    {
        FixEdit { start: self.start, end: self.end, replacement: self.replacement.clone() }
    }
}

/// What a list of edits holds.
pub open spec fn edits_view(es: Seq<FixEdit>) -> Seq<FixEditView> {
    es.map_values(|e: FixEdit| e@)
}

/// A copy of a list of edits.
pub fn duplicate_edits(es: &[FixEdit]) -> (r: Vec<FixEdit>)
    ensures
        r@ == es@,
{
    let mut out: Vec<FixEdit> = Vec::new();
    let mut i: usize = 0;
    while i < es.len()
        invariant
            i <= es@.len(),
            out@ == es@.take(i as int),
        decreases es@.len() - i,
    {
        out.push(es[i].duplicate());
        i += 1;
    }
    assert(out@ == es@);
    out
}

/// A machine-applicable remediation for a [`Finding`]: a short title plus the
/// edits that make the statement safe. Present only for findings whose fix is an
/// unambiguous mechanical change.
///
/// Apply edits **high-to-low** (sort descending by `start` before splicing) so
/// that each splice does not shift the byte offsets of earlier edits.
#[derive(Debug, Clone, PartialEq, Eq)]
pub struct Fix {
    /// Short label for the fix, e.g. `"Add CONCURRENTLY"`.
    pub title: String,
    /// The edits to apply, in ascending `start` order; non-overlapping; at least one.
    pub edits: Vec<FixEdit>,
}

/// What a [`Fix`] holds.
pub struct FixView {
    pub title: Seq<char>,
    pub edits: Seq<FixEditView>,
}

impl View for Fix {
    type V = FixView;

    open spec fn view(&self) -> FixView {
        FixView { title: self.title@, edits: edits_view(self.edits@) }
    }
}

impl FixView {
    /// The guarantees of a fix for `sql`: at least one edit, ascending, none
    /// overlapping another, each within the text and between characters.
    pub open spec fn well_formed(self, sql: Seq<char>) -> bool {
        &&& self.edits.len() > 0
        &&& edits_ordered(self.edits)
        &&& edits_in_range(sql, self.edits)
    }
}

/// Edits ascend by start and none reaches past the start of a later one.
pub open spec fn edits_ordered(es: Seq<FixEditView>) -> bool {
    forall|i: int, j: int|
        0 <= i < j < es.len() ==> #[trigger] es[i].start <= #[trigger] es[j].start && es[i].end
            <= es[j].start
}

/// Every edit is a range of `sql` between characters.
pub open spec fn edits_in_range(sql: Seq<char>, es: Seq<FixEditView>) -> bool {
    forall|i: int|
        0 <= i < es.len() ==> is_byte_range(sql, (#[trigger] es[i]).start, es[i].end)
}

impl Fix {
    /// A copy of the fix.
    pub fn duplicate(&self) -> (r: Fix)
        ensures
            r@ == self@,
    {
        Fix { title: self.title.clone(), edits: duplicate_edits(self.edits.as_slice()) }
    }
}

/// A safety finding reported for a specific SQL statement.
#[derive(Debug, Clone, PartialEq, Eq)]
pub struct Finding {
    /// Identifier of the rule that triggered this finding (e.g. `"add-index-non-concurrent"`).
    pub rule_id: String,
    /// Severity level of the finding.
    pub severity: Severity,
    /// Short human-readable description of what is unsafe about the statement.
    pub message: String,
    /// Guidance on how to rewrite the statement safely.
    pub guidance: String,
    /// 0-based index of the SQL statement within the input that triggered this
    /// finding.  The human-readable CLI output renders this as `statement #0`,
    /// `statement #1`, etc.
    pub statement_index: usize,
    /// Source location of the statement's first non-whitespace token.
    pub location: Location,
    /// Trimmed text of the statement that triggered the finding.
    pub snippet: String,
    /// `Some` when an inline `-- pgsafe:ignore` directive suppressed this finding.
    /// A suppressed finding is still reported but does not affect the exit code.
    pub suppression: Option<Suppression>,
    /// `Some` when this finding has a safe, machine-applicable fix.
    pub fix: Option<Fix>,
}

/// What a [`Finding`] holds. `suppression` is the reason of the directive.
pub struct FindingView {
    pub rule_id: Seq<char>,
    pub severity: Severity,
    pub message: Seq<char>,
    pub guidance: Seq<char>,
    pub statement_index: int,
    pub location: Location,
    pub snippet: Seq<char>,
    pub suppression: Option<Seq<char>>,
    pub fix: Option<FixView>,
}

impl View for Finding {
    type V = FindingView;

    open spec fn view(&self) -> FindingView {
        FindingView {
            rule_id: self.rule_id@,
            severity: self.severity,
            message: self.message@,
            guidance: self.guidance@,
            statement_index: self.statement_index as int,
            location: self.location,
            snippet: self.snippet@,
            suppression: match self.suppression {
                Some(s) => Some(s.reason@),
                None => None,
            },
            fix: match self.fix {
                Some(f) => Some(f@),
                None => None,
            },
        }
    }
}

/// What a list of findings holds.
pub open spec fn findings_view(fs: Seq<Finding>) -> Seq<FindingView> {
    fs.map_values(|f: Finding| f@)
}

impl Finding {
    /// Whether an inline directive suppressed this finding.
    #[must_use]
    pub fn is_suppressed(&self) -> (r: bool)
        ensures
            r == (self@.suppression is Some),
    {
        self.suppression.is_some()
    }

    /// A copy of the finding.
    pub fn duplicate(&self) -> (r: Finding)
        ensures
            r@ == self@,
    {
        let suppression = match &self.suppression {
            Some(s) => Some(Suppression { reason: s.reason.clone() }),
            None => None,
        };
        let fix = match &self.fix {
            Some(f) => Some(f.duplicate()),
            None => None,
        };
        Finding {
            rule_id: self.rule_id.clone(),
            severity: self.severity,
            message: self.message.clone(),
            guidance: self.guidance.clone(),
            statement_index: self.statement_index,
            location: self.location,
            snippet: self.snippet.clone(),
            suppression,
            fix,
        }
    }
}

/// A copy of a list of findings.
pub fn duplicate_findings(fs: &[Finding]) -> (r: Vec<Finding>)
    ensures
        findings_view(r@) == findings_view(fs@),
{
    let mut out: Vec<Finding> = Vec::new();
    let mut i: usize = 0;
    while i < fs.len()
        invariant
            i <= fs@.len(),
            out@.len() == i,
            forall|j: int| 0 <= j < i ==> (#[trigger] out@[j])@ == fs@[j]@,
        decreases fs@.len() - i,
    {
        out.push(fs[i].duplicate());
        i += 1;
    }
    assert(findings_view(out@) == findings_view(fs@));
    out
}

} // verus!
