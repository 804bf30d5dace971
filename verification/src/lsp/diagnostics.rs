//! Findings as diagnostics.
use vstd::prelude::*;
use vstd::utf8::encode_utf8;

use super::position::{offsets_beyond_the_end_clamp, range_spec, LineIndex, Range};
use crate::finding::{findings_view, Finding, FindingView, Severity};
use crate::fix_run::open_count;

verus! {

/// What an editor shows of a finding.
#[derive(Debug)]
pub struct Diagnostic {
    pub range: Range,
    pub severity: Severity,
    pub code: String,
    pub source: String,
    pub message: String,
}

/// What a diagnostic holds.
pub struct DiagnosticView {
    pub range: Range,
    pub severity: Severity,
    pub code: Seq<char>,
    pub source: Seq<char>,
    pub message: Seq<char>,
}

impl View for Diagnostic {
    type V = DiagnosticView;

    open spec fn view(&self) -> DiagnosticView {
        DiagnosticView {
            range: self.range,
            severity: self.severity,
            code: self.code@,
            source: self.source@,
            message: self.message@,
        }
    }
}

/// What a list of diagnostics holds.
pub open spec fn diagnostics_view(ds: Seq<Diagnostic>) -> Seq<DiagnosticView> {
    ds.map_values(|d: Diagnostic| d@)
}

/// The range of a finding: from its first byte over the length of its snippet.
pub open spec fn finding_range_spec(sql: Seq<char>, f: FindingView) -> Range {
    range_spec(sql, f.location.byte as int, f.location.byte + encode_utf8(f.snippet).len())
}

/// The diagnostic of a finding.
pub open spec fn diagnostic_spec(sql: Seq<char>, f: FindingView) -> DiagnosticView {
    DiagnosticView {
        range: finding_range_spec(sql, f),
        severity: f.severity,
        code: f.rule_id,
        source: "pgsafe"@,
        message: f.message + "\n"@ + f.guidance,
    }
}

/// The diagnostics of the findings that are not suppressed.
pub open spec fn diagnostics_spec(sql: Seq<char>, fs: Seq<FindingView>) -> Seq<DiagnosticView>
    decreases fs.len(),
{
    if fs.len() == 0 {
        Seq::empty()
    } else {
        let before = diagnostics_spec(sql, fs.drop_last());
        if fs.last().suppression is Some {
            before
        } else {
            before.push(diagnostic_spec(sql, fs.last()))
        }
    }
}

/// The range of `finding` in the indexed text.
pub fn finding_range(finding: &Finding, index: &LineIndex) -> (r: Range)
    requires
        index.well_formed(),
    ensures
        r == finding_range_spec(index.text@, finding@),
{
    let start: usize = finding.location.byte as usize;
    let len: usize = finding.snippet.as_str().as_bytes().len();
    let total: usize = index.text.as_bytes().len();
    let end: usize = if len > usize::MAX - start {
        proof {
            offsets_beyond_the_end_clamp(index.text@, start + len);
            offsets_beyond_the_end_clamp(index.text@, total as int);
        }
        total
    } else {
        start + len
    };
    index.range(start, end)
}

/// Build the single diagnostic for `finding`. Shared with the code actions, which link this same
/// diagnostic to the quickfix they offer.
pub fn finding_diagnostic(finding: &Finding, index: &LineIndex) -> (r: Diagnostic)
    requires
        index.well_formed(),
    ensures
        r@ == diagnostic_spec(index.text@, finding@),
{
    let mut message = finding.message.as_str().to_owned();
    message.append("\n");
    message.append(finding.guidance.as_str());
    Diagnostic {
        range: finding_range(finding, index),
        severity: finding.severity,
        code: finding.rule_id.as_str().to_owned(),
        source: "pgsafe".to_owned(),
        message,
    }
}

/// Translate the findings for `sql` into diagnostics, skipping suppressed ones.
pub fn diagnostics_for(sql: &str, findings: &[Finding]) -> (r: Vec<Diagnostic>)
    ensures
        diagnostics_view(r@) == diagnostics_spec(sql@, findings_view(findings@)),
{
    let index = LineIndex::new(sql);
    let ghost fs = findings_view(findings@);
    let mut out: Vec<Diagnostic> = Vec::new();
    let mut i: usize = 0;
    assert(diagnostics_view(out@) == diagnostics_spec(sql@, fs.take(0)));
    while i < findings.len()
        invariant
            i <= findings@.len(),
            fs == findings_view(findings@),
            index.well_formed(),
            index.text@ == sql@,
            diagnostics_view(out@) == diagnostics_spec(sql@, fs.take(i as int)),
        decreases findings@.len() - i,
    {
        proof {
            assert(fs.take(i + 1).drop_last() == fs.take(i as int));
            assert(fs.take(i + 1).last() == findings@[i as int]@);
        }
        if !findings[i].is_suppressed() {
            let d = finding_diagnostic(&findings[i], &index);
            assert(diagnostics_view(out@.push(d)) == diagnostics_view(out@).push(d@));
            out.push(d);
        }
        i += 1;
    }
    assert(fs.take(fs.len() as int) == fs);
    out
}

/// There is one diagnostic for each finding that is not suppressed.
pub proof fn every_open_finding_has_a_diagnostic(sql: Seq<char>, fs: Seq<FindingView>)
    ensures
        diagnostics_spec(sql, fs).len() == open_count(fs),
    decreases fs.len(),
{
    if fs.len() > 0 {
        every_open_finding_has_a_diagnostic(sql, fs.drop_last());
    }
}

} // verus!
