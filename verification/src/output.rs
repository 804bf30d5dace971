//! Turning lint results into output: config enums, the per-file report, which findings
//! fail a run, and the human and GitHub renderers.
use vstd::prelude::*;

use crate::finding::{findings_view, Finding, FindingView, Location, Severity};
use crate::lint::{lint_spec, lint_sql, ParsedSql};
use crate::options::LintOptions;
use crate::style::Styling;
use crate::text::{chars_of, decimal, decimal_spec};

verus! {

/// The lint outcome of one input.
#[derive(Debug, Clone)]
pub struct FileReport {
    /// Display name of the input (a path, or `<stdin>`).
    pub name: String,
    /// Findings, in source order.
    pub findings: Vec<Finding>,
    /// Why the input could not be read or parsed, if it could not.
    pub error: Option<String>,
}

/// What a [`FileReport`] holds.
pub struct FileReportView {
    pub name: Seq<char>,
    pub findings: Seq<FindingView>,
    pub error: Option<Seq<char>>,
}

impl View for FileReport {
    type V = FileReportView;

    open spec fn view(&self) -> FileReportView {
        FileReportView {
            name: self.name@,
            findings: findings_view(self.findings@),
            error: match self.error {
                Some(e) => Some(e@),
                None => None,
            },
        }
    }
}

/// The version of the JSON output envelope (`schema_version`).
pub const SCHEMA_VERSION: u32 = 2;

/// Minimum finding severity that fails the run (maps to exit code 1).
#[derive(Debug, Clone, Copy, PartialEq, Eq, Structural)]
pub enum FailOn {
    /// Fail only on error-severity findings.
    Error,
    /// Fail on any finding (warning or error). This is the default.
    Warning,
    /// Never fail on findings (report-only).
    Never,
}

/// Output format for the CLI.
#[derive(Debug, Clone, Copy, PartialEq, Eq, Structural)]
pub enum Format {
    /// Human-readable text.
    Human,
    /// Machine-readable JSON envelope.
    Json,
    /// GitHub Actions workflow annotation commands (for the GitHub Action / CI).
    Github,
    /// SARIF 2.1.0 (for GitHub code-scanning ingestion).
    Sarif,
}

/// Whether `r` is the report on the input `name`: its findings where it parses, else no finding
/// and the error.
pub open spec fn is_report_of(
    r: FileReportView,
    name: Seq<char>,
    sql: Seq<char>,
    parsed: Result<ParsedSql, String>,
    options: LintOptions,
) -> bool {
    &&& r.name == name
    &&& match parsed {
        Ok(p) => r.findings == lint_spec(sql, p, options) && r.error is None,
        Err(m) => r.findings.len() == 0 && r.error == Some("parse error: "@ + m@),
    }
}

/// Lint one named input into a [`FileReport`] under `options`, turning a parse
/// failure into the report's `error` field instead of returning an error.
pub fn lint_input(
    name: String,
    sql: &str,
    parsed: &Result<ParsedSql, String>,
    options: &LintOptions,
) -> (r: FileReport)
    requires
        sql@.len() < u32::MAX,
        parsed matches Ok(p) ==> p.well_formed(),
    ensures
        is_report_of(r@, name@, sql@, *parsed, *options),
{
    match lint_sql(sql, parsed, options) {
        Ok(findings) => FileReport { name, findings, error: None },
        Err(e) => FileReport { name, findings: Vec::new(), error: Some(e.message()) },
    }
}

/// Whether a finding fails the run.
pub open spec fn gates(f: FindingView, fail_on: FailOn) -> bool {
    f.suppression is None && match fail_on {
        FailOn::Never => false,
        FailOn::Warning => true,
        FailOn::Error => f.severity == Severity::Error,
    }
}

/// Whether `findings` should fail the run under `fail_on`.
///
/// Suppressed findings never gate. This is the single definition of the
/// `--fail-on` decision; the exit-code precedence (parse error > finding) is
/// the caller's.
#[must_use]
pub fn gate(findings: &[Finding], fail_on: FailOn) -> (r: bool)
    ensures
        r == exists|i: int| 0 <= i < findings@.len() && gates((#[trigger] findings@[i])@, fail_on),
{
    let mut i: usize = 0;
    while i < findings.len()
        invariant
            i <= findings@.len(),
            forall|j: int| 0 <= j < i ==> !gates((#[trigger] findings@[j])@, fail_on),
        decreases findings@.len() - i,
    {
        let over = match fail_on {
            FailOn::Never => false,
            FailOn::Warning => true,
            FailOn::Error => findings[i].severity == Severity::Error,
        };
        if !findings[i].is_suppressed() && over {
            assert(gates(findings@[i as int]@, fail_on));
            return true;
        }
        i += 1;
    }
    false
}

/// The note behind the headline of a suppressed finding.
pub open spec fn suppression_note(f: FindingView) -> Seq<char> {
    match f.suppression {
        Some(reason) => "  — suppressed: "@ + reason,
        None => Seq::empty(),
    }
}

/// A finding as the human block: headline, message, a `fix:` line unless it is suppressed, and
/// the snippet where there is one.
pub open spec fn finding_human_spec(file: Seq<char>, f: FindingView) -> Seq<char> {
    file + ": "@ + f.severity.label() + " ["@ + f.rule_id + "] statement #"@ + decimal_spec(
        f.statement_index as nat,
    ) + " (line "@ + decimal_spec(f.location.line as nat) + ", col "@ + decimal_spec(
        f.location.column as nat,
    ) + ")"@ + suppression_note(f) + "\n"@ + "  "@ + f.message + "\n"@ + (if f.suppression is None {
        "  fix: "@ + f.guidance + "\n"@
    } else {
        Seq::empty()
    }) + (if f.snippet.len() > 0 {
        "  | "@ + f.snippet + "\n"@
    } else {
        Seq::empty()
    })
}

/// Render one finding as the human block (1–4 newline-terminated lines):
/// the headline, the message, a `fix:` line (unless suppressed), and the
/// snippet (when present).
#[must_use]
pub fn render_finding_human(file: &str, f: &Finding) -> (r: String)
    ensures
        r@ == finding_human_spec(file@, f@),
{
    let mut out = file.to_owned();
    out.append(": ");
    out.append(f.severity.as_str());
    out.append(" [");
    out.append(f.rule_id.as_str());
    out.append("] statement #");
    out.append(decimal(f.statement_index as u128).as_str());
    out.append(" (line ");
    out.append(decimal(f.location.line as u128).as_str());
    out.append(", col ");
    out.append(decimal(f.location.column as u128).as_str());
    out.append(")");
    let ghost h0 = out@;
    if let Some(s) = &f.suppression {
        out.append("  — suppressed: ");
        out.append(s.reason.as_str());
    }
    assert(out@ == h0 + suppression_note(f@));
    out.append("\n");
    out.append("  ");
    out.append(f.message.as_str());
    out.append("\n");
    let ghost h1 = out@;
    if f.suppression.is_none() {
        out.append("  fix: ");
        out.append(f.guidance.as_str());
        out.append("\n");
    }
    assert(out@ == h1 + (if f@.suppression is None {
        "  fix: "@ + f@.guidance + "\n"@
    } else {
        Seq::empty()
    }));
    let ghost h2 = out@;
    if !f.snippet.as_str().is_empty() {
        out.append("  | ");
        out.append(f.snippet.as_str());
        out.append("\n");
    }
    assert(out@ == h2 + (if f@.snippet.len() > 0 {
        "  | "@ + f@.snippet + "\n"@
    } else {
        Seq::empty()
    }));
    out
}

/// A statement's header: file, line and column, then the snippet where there is one.
pub open spec fn header_spec(
    file: Seq<char>,
    location: Location,
    snippet: Seq<char>,
    st: Styling,
) -> Seq<char> {
    st.muted.painted(
        file + ":"@ + decimal_spec(location.line as nat) + ":"@ + decimal_spec(
            location.column as nat,
        ),
    ) + (if snippet.len() == 0 {
        "\n"@
    } else {
        "  "@ + snippet + "\n"@
    })
}

/// Styled statement header: `{file}:{line}:{col}` (dimmed under `ansi`) then two
/// spaces and the snippet when present. See [`render_statement_header`] for the
/// stable plain form.
pub fn statement_header(file: &str, location: Location, snippet: &str, st: &Styling) -> (r: String)
    ensures
        r@ == header_spec(file@, location, snippet@, *st),
{
    let mut place = file.to_owned();
    place.append(":");
    place.append(decimal(location.line as u128).as_str());
    place.append(":");
    place.append(decimal(location.column as u128).as_str());
    let mut out = st.muted(place.as_str());
    let ghost h = out@;
    if snippet.is_empty() {
        out.append("\n");
    } else {
        out.append("  ");
        out.append(snippet);
        out.append("\n");
        assert(out@ == h + ("  "@ + snippet@ + "\n"@));
    }
    out
}

/// Render the grouped-output header for a statement (plain styling).
#[must_use]
pub fn render_statement_header(file: &str, location: Location, snippet: &str) -> (r: String)
    ensures
        r@ == header_spec(file@, location, snippet@, Styling::plain_spec()),
{
    statement_header(file, location, snippet, &Styling::plain())
}

/// A finding's body. A suppressed one is a single muted block; any other has a glyph where
/// those are on, its severity, its rule, its message and a muted `fix:` line.
pub open spec fn body_spec(f: FindingView, st: Styling) -> Seq<char> {
    match f.suppression {
        Some(reason) => st.muted.painted(
            "  "@ + f.severity.label() + " ["@ + f.rule_id + "]  — suppressed: "@ + reason + "\n    "@
                + f.message + "\n"@,
        ),
        None => "  "@ + glyph_prefix(f.severity, st) + st.severity_paint(f.severity).painted(
            f.severity.label(),
        ) + " ["@ + st.strong.painted(f.rule_id) + "]\n"@ + "    "@ + f.message + "\n"@
            + st.muted.painted("    fix: "@ + f.guidance + "\n"@),
    }
}

/// The painted glyph of a severity and a space; nothing where glyphs are off.
pub open spec fn glyph_prefix(s: Severity, st: Styling) -> Seq<char> {
    let glyph = st.glyph_spec(s);
    if glyph.len() == 0 {
        Seq::empty()
    } else {
        st.severity_paint(s).painted(glyph) + " "@
    }
}

/// Styled finding body. A suppressed finding renders as a single dimmed block
/// (header line with the suppression note + message, no fix line); dimming the
/// whole block rather than per-span keeps nested resets from cancelling the dim.
/// An unsuppressed finding gets a per-severity glyph, colored severity word,
/// bold rule id, and a dimmed `fix:` line.
pub fn finding_body(f: &Finding, st: &Styling) -> (r: String)
    ensures
        r@ == body_spec(f@, *st),
{
    if let Some(s) = &f.suppression {
        let mut block = "  ".to_owned();
        block.append(f.severity.as_str());
        block.append(" [");
        block.append(f.rule_id.as_str());
        block.append("]  — suppressed: ");
        block.append(s.reason.as_str());
        block.append("\n    ");
        block.append(f.message.as_str());
        block.append("\n");
        return st.muted(block.as_str());
    }
    let mut out = "  ".to_owned();
    let glyph = st.glyph(f.severity);
    let ghost h = out@;
    if !glyph.is_empty() {
        out.append(st.severity(f.severity, glyph).as_str());
        out.append(" ");
    }
    assert(out@ == h + glyph_prefix(f@.severity, *st));
    out.append(st.severity(f.severity, f.severity.as_str()).as_str());
    out.append(" [");
    out.append(st.strong(f.rule_id.as_str()).as_str());
    out.append("]\n");
    out.append("    ");
    out.append(f.message.as_str());
    out.append("\n");
    let mut fix = "    fix: ".to_owned();
    fix.append(f.guidance.as_str());
    fix.append("\n");
    out.append(st.muted(fix.as_str()).as_str());
    out
}

/// Render one finding's nested body for the grouped output (plain styling).
#[must_use]
pub fn render_finding_body(f: &Finding) -> (r: String)
    ensures
        r@ == body_spec(f@, Styling::plain_spec()),
{
    finding_body(f, &Styling::plain())
}

/// Whether finding `i` begins a group: the one before it is on another statement.
pub open spec fn begins_group(fs: Seq<FindingView>, i: int) -> bool {
    i == 0 || fs[i].statement_index != fs[i - 1].statement_index
}

/// What finding `i` of one input adds: its body, under a header where it begins a group, with a
/// blank line before the header unless it is the first of all.
pub open spec fn group_piece(
    name: Seq<char>,
    fs: Seq<FindingView>,
    i: int,
    first: bool,
    st: Styling,
) -> Seq<char> {
    let body = body_spec(fs[i], st);
    let header = header_spec(name, fs[i].location, fs[i].snippet, st);
    if !begins_group(fs, i) {
        body
    } else if first && i == 0 {
        header + body
    } else {
        "\n"@ + header + body
    }
}

/// The first `n` findings of one input: a header at the begin of each group, a blank line
/// between groups (before the first too unless `first`), and every finding's body.
pub open spec fn groups_spec(
    name: Seq<char>,
    fs: Seq<FindingView>,
    n: int,
    first: bool,
    st: Styling,
) -> Seq<char>
    decreases n,
{
    if n <= 0 {
        Seq::empty()
    } else {
        groups_spec(name, fs, n - 1, first, st) + group_piece(name, fs, n - 1, first, st)
    }
}

/// What a list of reports holds.
pub open spec fn reports_view(rs: Seq<FileReport>) -> Seq<FileReportView> {
    rs.map_values(|r: FileReport| r@)
}

/// Whether none of some reports has a finding.
pub open spec fn no_findings(rs: Seq<FileReportView>) -> bool
    decreases rs.len(),
{
    rs.len() == 0 || (no_findings(rs.drop_last()) && rs.last().findings.len() == 0)
}

/// The findings of some reports.
pub open spec fn human_spec(rs: Seq<FileReportView>, st: Styling) -> Seq<char>
    decreases rs.len(),
{
    if rs.len() == 0 {
        Seq::empty()
    } else {
        human_spec(rs.drop_last(), st) + groups_spec(
            rs.last().name,
            rs.last().findings,
            rs.last().findings.len() as int,
            no_findings(rs.drop_last()),
            st,
        )
    }
}

/// What finding `i` of one input adds to the human block.
fn group_text(r: &FileReport, i: usize, first: bool, st: &Styling) -> (t: String)
    requires
        i < r.findings@.len(),
    ensures
        t@ == group_piece(r@.name, r@.findings, i as int, first, *st),
{
    let f = &r.findings[i];
    let body = finding_body(f, st);
    proof {
        assert(r@.findings[i as int] == f@);
        if i > 0 {
            assert(r@.findings[i - 1] == r.findings@[i - 1]@);
        }
    }
    if i > 0 && f.statement_index == r.findings[i - 1].statement_index {
        return body;
    }
    let header = statement_header(r.name.as_str(), f.location, f.snippet.as_str(), st);
    if first && i == 0 {
        let mut out = header;
        out.append(body.as_str());
        return out;
    }
    let mut out = "\n".to_owned();
    out.append(header.as_str());
    out.append(body.as_str());
    out
}

/// Appends the findings of one input.
fn push_groups(out: &mut String, r: &FileReport, first: bool, st: &Styling)
    ensures
        final(out)@ == old(out)@ + groups_spec(
            r@.name,
            r@.findings,
            r@.findings.len() as int,
            first,
            *st,
        ),
{
    let ghost before = out@;
    let mut i: usize = 0;
    assert(before + groups_spec(r@.name, r@.findings, 0, first, *st) == before);
    while i < r.findings.len()
        invariant
            i <= r.findings@.len(),
            out@ == before + groups_spec(r@.name, r@.findings, i as int, first, *st),
        decreases r.findings@.len() - i,
    {
        let piece = group_text(r, i, first, st);
        out.append(piece.as_str());
        assert(out@ == before + groups_spec(r@.name, r@.findings, i + 1, first, *st)) by {
            assert(before + groups_spec(r@.name, r@.findings, i as int, first, *st) + piece@
                == before + (groups_spec(r@.name, r@.findings, i as int, first, *st) + piece@));
        }
        i += 1;
    }
}

/// Render every finding across `reports` to the human block, grouped by statement,
/// wrapping each span according to `st`. Findings arrive sorted by statement index,
/// so a group is the run of consecutive findings sharing one index. Parse errors
/// are not among them — see [`render_errors`].
#[must_use]
pub fn render_human_styled(reports: &[FileReport], st: &Styling) -> (r: String)
    ensures
        r@ == human_spec(reports_view(reports@), *st),
{
    let ghost all = reports_view(reports@);
    let mut out = String::new();
    let mut first = true;
    let mut i: usize = 0;
    while i < reports.len()
        invariant
            i <= reports@.len(),
            all == reports_view(reports@),
            first == no_findings(all.take(i as int)),
            out@ == human_spec(all.take(i as int), *st),
        decreases reports@.len() - i,
    {
        proof {
            assert(all.take(i + 1).drop_last() == all.take(i as int));
            assert(all.take(i + 1).last() == reports@[i as int]@);
        }
        push_groups(&mut out, &reports[i], first, st);
        if reports[i].findings.len() > 0 {
            first = false;
        }
        i += 1;
    }
    assert(all.take(all.len() as int) == all);
    out
}

/// Render every finding across `reports` to the plain human block, grouped by statement.
#[must_use]
pub fn render_human(reports: &[FileReport]) -> (r: String)
    ensures
        r@ == human_spec(reports_view(reports@), Styling::plain_spec()),
{
    render_human_styled(reports, &Styling::plain())
}

/// Where a finding is counted in the summary.
#[derive(Debug, Clone, Copy, PartialEq, Eq, Structural)]
pub enum Slot {
    Error,
    Warning,
    Suppressed,
}

/// The slot of a finding: suppressed ones are counted apart, whatever their severity.
pub open spec fn slot_of(f: FindingView) -> Slot {
    if f.suppression is Some {
        Slot::Suppressed
    } else if f.severity == Severity::Error {
        Slot::Error
    } else {
        Slot::Warning
    }
}

/// How many of some findings are in a slot.
pub open spec fn in_slot(fs: Seq<FindingView>, slot: Slot) -> nat
    decreases fs.len(),
{
    if fs.len() == 0 {
        0
    } else {
        in_slot(fs.drop_last(), slot) + if slot_of(fs.last()) == slot {
            1nat
        } else {
            0
        }
    }
}

/// How many findings of some reports are in a slot.
pub open spec fn total(rs: Seq<FileReportView>, slot: Slot) -> nat
    decreases rs.len(),
{
    if rs.len() == 0 {
        0
    } else {
        total(rs.drop_last(), slot) + in_slot(rs.last().findings, slot)
    }
}

/// `(errors, warnings, suppressed)` of one report. The three add up to its findings.
pub fn tally_report(r: &FileReport) -> (t: (usize, usize, usize))
    ensures
        t.0 == in_slot(r@.findings, Slot::Error),
        t.1 == in_slot(r@.findings, Slot::Warning),
        t.2 == in_slot(r@.findings, Slot::Suppressed),
        t.0 + t.1 + t.2 == r@.findings.len() <= usize::MAX,
{
    let ghost fs = r@.findings;
    let mut errors: usize = 0;
    let mut warnings: usize = 0;
    let mut suppressed: usize = 0;
    let mut i: usize = 0;
    while i < r.findings.len()
        invariant
            i <= r.findings@.len(),
            fs == findings_view(r.findings@),
            errors == in_slot(fs.take(i as int), Slot::Error),
            warnings == in_slot(fs.take(i as int), Slot::Warning),
            suppressed == in_slot(fs.take(i as int), Slot::Suppressed),
            errors + warnings + suppressed == i,
        decreases r.findings@.len() - i,
    {
        proof {
            assert(fs.take(i + 1).drop_last() == fs.take(i as int));
            assert(fs.take(i + 1).last() == r.findings@[i as int]@);
        }
        if r.findings[i].is_suppressed() {
            suppressed += 1;
        } else if r.findings[i].severity == Severity::Error {
            errors += 1;
        } else {
            warnings += 1;
        }
        i += 1;
    }
    assert(fs.take(fs.len() as int) == fs);
    (errors, warnings, suppressed)
}

/// Count `(errors, warnings, suppressed)` across every report's findings.
/// Suppressed findings are counted only in the third slot (they never gate).
pub fn tally(reports: &[FileReport]) -> (t: (u128, u128, u128))
    ensures
        t.0 == total(reports_view(reports@), Slot::Error),
        t.1 == total(reports_view(reports@), Slot::Warning),
        t.2 == total(reports_view(reports@), Slot::Suppressed),
{
    let ghost all = reports_view(reports@);
    let mut errors: u128 = 0;
    let mut warnings: u128 = 0;
    let mut suppressed: u128 = 0;
    let n: usize = reports.len();
    let mut i: usize = 0;
    while i < n
        invariant
            i <= n == reports@.len(),
            all == reports_view(reports@),
            errors == total(all.take(i as int), Slot::Error),
            warnings == total(all.take(i as int), Slot::Warning),
            suppressed == total(all.take(i as int), Slot::Suppressed),
            errors + warnings + suppressed <= i * (usize::MAX as int),
        decreases reports@.len() - i,
    {
        proof {
            assert(all.take(i + 1).drop_last() == all.take(i as int));
            assert(all.take(i + 1).last() == reports@[i as int]@);
            assert(i * (usize::MAX as int) + (usize::MAX as int) == (i + 1) * (usize::MAX as int)
                && (i + 1) * (usize::MAX as int) <= u128::MAX) by (nonlinear_arith)
                requires
                    0 <= i < usize::MAX,
                    usize::MAX <= 0xffff_ffff_ffff_ffff,
            ;
        }
        let (e, w, s): (usize, usize, usize) = tally_report(&reports[i]);
        errors = errors + e as u128;
        warnings = warnings + w as u128;
        suppressed = suppressed + s as u128;
        i += 1;
    }
    assert(all.take(all.len() as int) == all);
    (errors, warnings, suppressed)
}

/// A number and a word, in the plural unless the number is one.
pub open spec fn counted(n: nat, word: Seq<char>) -> Seq<char> {
    if n == 1 {
        decimal_spec(n) + " "@ + word
    } else {
        decimal_spec(n) + " "@ + word + "s"@
    }
}

/// `"{n} {word}"`, appending `s` to pluralize unless `n == 1`.
pub fn count(n: u128, word: &str) -> (r: String)
    ensures
        r@ == counted(n as nat, word@),
{
    let mut out = decimal(n);
    out.append(" ");
    out.append(word);
    if n != 1 {
        out.append("s");
    }
    out
}

/// The clauses on errors and warnings; one with a count of zero is left out.
pub open spec fn clauses(errors: nat, warnings: nat, st: Styling) -> Seq<char> {
    let e = st.danger.painted(counted(errors, "error"@));
    let w = st.warning.painted(counted(warnings, "warning"@));
    if errors > 0 && warnings > 0 {
        e + ", "@ + w
    } else if errors > 0 {
        e
    } else {
        w
    }
}

/// The run summary for some counts.
pub open spec fn summary_spec(
    errors: nat,
    warnings: nat,
    suppressed: nat,
    files: nat,
    st: Styling,
) -> Option<Seq<char>> {
    let supp = st.muted.painted(decimal_spec(suppressed) + " suppressed"@);
    let place = " in "@ + counted(files, "file"@);
    if errors == 0 && warnings == 0 && suppressed == 0 {
        None
    } else if errors == 0 && warnings == 0 {
        Some("Summary: "@ + supp + place)
    } else if suppressed == 0 {
        Some("Summary: "@ + clauses(errors, warnings, st) + place)
    } else {
        Some("Summary: "@ + clauses(errors, warnings, st) + " ("@ + supp + ")"@ + place)
    }
}

fn clause_text(errors: u128, warnings: u128, st: &Styling) -> (r: String)
    ensures
        r@ == clauses(errors as nat, warnings as nat, *st),
{
    let w = st.warning(count(warnings, "warning").as_str());
    if errors == 0 {
        return w;
    }
    let mut out = st.danger(count(errors, "error").as_str());
    if warnings > 0 {
        out.append(", ");
        out.append(w.as_str());
    }
    out
}

/// One-line run summary, or `None` when there are no findings at all (a clean run
/// stays silent). Printed in both plain and color modes; `st` only colors the
/// counts. Clauses with a zero count are omitted; suppressed findings appear in a
/// trailing `(N suppressed)` parenthetical (or stand alone when they are the only
/// findings).
#[must_use]
pub fn render_summary(reports: &[FileReport], st: &Styling) -> (r: Option<String>)
    ensures
        match r {
            Some(s) => Some(s@),
            None => None,
        } == summary_spec(
            total(reports_view(reports@), Slot::Error),
            total(reports_view(reports@), Slot::Warning),
            total(reports_view(reports@), Slot::Suppressed),
            reports@.len(),
            *st,
        ),
{
    let (errors, warnings, suppressed): (u128, u128, u128) = tally(reports);
    if errors == 0 && warnings == 0 && suppressed == 0 {
        return None;
    }
    let mut number = decimal(suppressed);
    number.append(" suppressed");
    let supp = st.muted(number.as_str());
    let mut place = " in ".to_owned();
    place.append(count(reports.len() as u128, "file").as_str());
    let mut out = "Summary: ".to_owned();
    if errors == 0 && warnings == 0 {
        out.append(supp.as_str());
    } else {
        out.append(clause_text(errors, warnings, st).as_str());
        if suppressed > 0 {
            out.append(" (");
            out.append(supp.as_str());
            out.append(")");
        }
    }
    out.append(place.as_str());
    Some(out)
}

/// One line for each report that failed to parse.
pub open spec fn errors_spec(rs: Seq<FileReportView>) -> Seq<char>
    decreases rs.len(),
{
    if rs.len() == 0 {
        Seq::empty()
    } else {
        errors_spec(rs.drop_last()) + match rs.last().error {
            Some(e) => rs.last().name + ": "@ + e + "\n"@,
            None => Seq::empty(),
        }
    }
}

/// Render the stderr block: one `"{name}: {error}"` line for each report that
/// failed to parse.
#[must_use]
pub fn render_errors(reports: &[FileReport]) -> (r: String)
    ensures
        r@ == errors_spec(reports_view(reports@)),
{
    let ghost all = reports_view(reports@);
    let mut out = String::new();
    let mut i: usize = 0;
    while i < reports.len()
        invariant
            i <= reports@.len(),
            all == reports_view(reports@),
            out@ == errors_spec(all.take(i as int)),
        decreases reports@.len() - i,
    {
        let ghost before = out@;
        proof {
            assert(all.take(i + 1).drop_last() == all.take(i as int));
            assert(all.take(i + 1).last() == reports@[i as int]@);
            assert(before + Seq::<char>::empty() == before);
        }
        if let Some(e) = &reports[i].error {
            out.append(reports[i].name.as_str());
            out.append(": ");
            out.append(e.as_str());
            out.append("\n");
            assert(out@ == before + (reports@[i as int]@.name + ": "@ + e@ + "\n"@));
        }
        i += 1;
    }
    assert(all.take(all.len() as int) == all);
    out
}

/// How a character stands in a workflow-command message.
pub open spec fn escaped_char(c: char, prop: bool) -> Seq<char> {
    if c == '%' {
        "%25"@
    } else if c == '\r' {
        "%0D"@
    } else if c == '\n' {
        "%0A"@
    } else if prop && c == ',' {
        "%2C"@
    } else if prop && c == ':' {
        "%3A"@
    } else {
        seq![c]
    }
}

/// A text as it stands in a workflow command.
pub open spec fn escaped(s: Seq<char>, prop: bool) -> Seq<char>
    decreases s.len(),
{
    if s.len() == 0 {
        Seq::empty()
    } else {
        escaped(s.drop_last(), prop) + escaped_char(s.last(), prop)
    }
}

fn gh_escape(s: &str, prop: bool) -> (r: String)
    ensures
        r@ == escaped(s@, prop),
{
    let cs = chars_of(s);
    let mut out = String::new();
    let mut i: usize = 0;
    while i < cs.len()
        invariant
            i <= cs@.len(),
            cs@ == s@,
            out@ == escaped(s@.take(i as int), prop),
        decreases cs@.len() - i,
    {
        proof {
            assert(s@.take(i + 1).drop_last() == s@.take(i as int));
            assert(s@.take(i + 1).last() == s@[i as int]);
        }
        let ghost before = out@;
        let c = cs[i];
        if c == '%' {
            out.append("%25");
        } else if c == '\r' {
            out.append("%0D");
        } else if c == '\n' {
            out.append("%0A");
        } else if prop && c == ',' {
            out.append("%2C");
        } else if prop && c == ':' {
            out.append("%3A");
        } else {
            out.push(c);
            assert(out@ == before + seq![c]);
        }
        i += 1;
    }
    assert(s@.take(s@.len() as int) == s@);
    out
}

/// Escape a workflow-command message value: `%`, CR, LF.
pub fn gh_escape_data(s: &str) -> (r: String)
    ensures
        r@ == escaped(s@, false),
{
    gh_escape(s, false)
}

/// Escape a workflow-command property value: the data escapes plus `,` and `:`.
pub fn gh_escape_prop(s: &str) -> (r: String)
    ensures
        r@ == escaped(s@, true),
{
    gh_escape(s, true)
}

/// The annotation of a finding; none where it is suppressed.
pub open spec fn annotation(name: Seq<char>, f: FindingView) -> Seq<char> {
    if f.suppression is Some {
        Seq::empty()
    } else {
        "::"@ + f.severity.label() + " file="@ + escaped(name, true) + ",line="@ + decimal_spec(
            f.location.line as nat,
        ) + ",col="@ + decimal_spec(f.location.column as nat) + ",title="@ + escaped(
            "pgsafe("@ + f.rule_id + ")"@,
            true,
        ) + "::"@ + escaped(f.message, false) + "\n"@
    }
}

/// The annotations of some findings of one input.
pub open spec fn annotations(name: Seq<char>, fs: Seq<FindingView>) -> Seq<char>
    decreases fs.len(),
{
    if fs.len() == 0 {
        Seq::empty()
    } else {
        annotations(name, fs.drop_last()) + annotation(name, fs.last())
    }
}

/// The annotations of one report: of its error where it failed, else of its findings.
pub open spec fn report_annotations(r: FileReportView) -> Seq<char> {
    match r.error {
        Some(e) => "::error file="@ + escaped(r.name, true) + "::"@ + escaped(e, false) + "\n"@,
        None => annotations(r.name, r.findings),
    }
}

/// The annotations of some reports.
pub open spec fn github_spec(rs: Seq<FileReportView>) -> Seq<char>
    decreases rs.len(),
{
    if rs.len() == 0 {
        Seq::empty()
    } else {
        github_spec(rs.drop_last()) + report_annotations(rs.last())
    }
}

fn push_annotation(out: &mut String, name: &str, f: &Finding)
    ensures
        final(out)@ == old(out)@ + annotation(name@, f@),
{
    let ghost before = out@;
    assert(before + Seq::<char>::empty() == before);
    if f.is_suppressed() {
        return;
    }
    let mut title = "pgsafe(".to_owned();
    title.append(f.rule_id.as_str());
    title.append(")");
    out.append("::");
    out.append(f.severity.as_str());
    out.append(" file=");
    out.append(gh_escape_prop(name).as_str());
    out.append(",line=");
    out.append(decimal(f.location.line as u128).as_str());
    out.append(",col=");
    out.append(decimal(f.location.column as u128).as_str());
    out.append(",title=");
    out.append(gh_escape_prop(title.as_str()).as_str());
    out.append("::");
    out.append(gh_escape_data(f.message.as_str()).as_str());
    out.append("\n");
    assert(out@ == before + annotation(name@, f@));
}

fn push_report_annotations(out: &mut String, r: &FileReport)
    ensures
        final(out)@ == old(out)@ + report_annotations(r@),
{
    let ghost before = out@;
    if let Some(e) = &r.error {
        out.append("::error file=");
        out.append(gh_escape_prop(r.name.as_str()).as_str());
        out.append("::");
        out.append(gh_escape_data(e.as_str()).as_str());
        out.append("\n");
        assert(out@ == before + report_annotations(r@));
        return;
    }
    let ghost fs = r@.findings;
    let mut i: usize = 0;
    assert(before + annotations(r@.name, fs.take(0)) == before);
    while i < r.findings.len()
        invariant
            i <= r.findings@.len(),
            fs == findings_view(r.findings@),
            out@ == before + annotations(r@.name, fs.take(i as int)),
        decreases r.findings@.len() - i,
    {
        proof {
            assert(fs.take(i + 1).drop_last() == fs.take(i as int));
            assert(fs.take(i + 1).last() == r.findings@[i as int]@);
        }
        push_annotation(out, r.name.as_str(), &r.findings[i]);
        assert(out@ == before + annotations(r@.name, fs.take(i + 1)));
        i += 1;
    }
    assert(fs.take(fs.len() as int) == fs);
}

/// Render findings as GitHub Actions workflow annotation commands (`--format github`): one
/// `::error`/`::warning file=…,line=…,col=…,title=pgsafe(rule)::message` per finding (suppressed
/// findings skipped), plus `::error file=…::{error}` for any file that failed to parse. GitHub turns
/// these into inline annotations on the diff; the process exit code still tells whether the run fails.
#[must_use]
pub fn render_github(reports: &[FileReport]) -> (r: String)
    ensures
        r@ == github_spec(reports_view(reports@)),
{
    let ghost all = reports_view(reports@);
    let mut out = String::new();
    let mut i: usize = 0;
    while i < reports.len()
        invariant
            i <= reports@.len(),
            all == reports_view(reports@),
            out@ == github_spec(all.take(i as int)),
        decreases reports@.len() - i,
    {
        proof {
            assert(all.take(i + 1).drop_last() == all.take(i as int));
            assert(all.take(i + 1).last() == reports@[i as int]@);
        }
        push_report_annotations(&mut out, &reports[i]);
        i += 1;
    }
    assert(all.take(all.len() as int) == all);
    out
}

} // verus!
