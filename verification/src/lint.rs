//! Linting one input: the registered rules, the new-table exemption, the policy lints, the
//! configured severities and the inline directives, on an input that the PostgreSQL parser has taken
//! apart.
use vstd::prelude::*;

use crate::ast::{Node, RawStmt};
use crate::collections::{TextMap, TextSet};
use crate::engine::{
    check_statement, finding_of, findings_of, lint_statements, push_findings, rule_findings,
    statement_findings,
};
use crate::finding::{
    findings_view, Finding, FindingView, RuleHit, RuleHitView, Severity,
};
use crate::fix::{FixDraft, FixDraftView};
use crate::forbidden_types::{
    fixable_view, forbidden_violations, forbidden_violations_spec, ForbiddenType,
};
use crate::geometry::{Geometry, ScanToken};
use crate::newtable::{
    drop_new_table_findings, escalate_pre_existing_attach, escalated, kept_findings, on_new_table,
};
use crate::options::LintOptions;
use crate::policy::{push_remark, remarks_view};
use crate::rules::{
    all_rules, hits_view, ids_of, registry, rule_ids, words_view, RegisteredRule,
};
use crate::suppression::{
    directives, directives_spec, directives_view, suppress, suppressed, Directive,
};
use crate::text::{decimal, decimal_spec, str_eq};
use crate::txn::{withdraw_fixes, withdrawn};
use crate::{
    do_block, enum_value, fk_index, forbid_nullable_fk, forbidden_types, hygiene, identifier, naming,
    require_columns, require_comment, require_if_exists, require_not_null, require_pk, timeout, txn,
};

verus! {

/// Error returned when `pgsafe` cannot process the provided SQL.
#[derive(Debug)]
pub enum LintError {
    /// The SQL input could not be parsed by the PostgreSQL parser.
    Parse(String),
}

impl LintError {
    /// The error as text.
    pub open spec fn text(self) -> Seq<char> {
        match self {
            LintError::Parse(m) => "parse error: "@ + m@,
        }
    }

    /// The error as text.
    pub fn message(&self) -> (r: String)
        ensures
            r@ == self.text(),
    {
        match self {
            LintError::Parse(m) => {
                let mut out = "parse error: ".to_owned();
                out.append(m.as_str());
                out
            },
        }
    }
}

/// The statements that were recovered from the body of a `DO` block.
#[derive(Debug)]
pub struct DoBody {
    /// The statement that is the block.
    pub statement_index: usize,
    /// Its embedded statements, in body order.
    pub stmts: Vec<RawStmt>,
}

/// An input as the PostgreSQL parser and scanner take it apart.
#[derive(Debug)]
pub struct ParsedSql {
    /// The statements.
    pub stmts: Vec<RawStmt>,
    /// Where each of them stands.
    pub geoms: Vec<Geometry>,
    /// The tokens of the whole input.
    pub tokens: Vec<ScanToken>,
    /// What was recovered from `DO` blocks.
    pub do_bodies: Vec<DoBody>,
    /// The configured forbidden types with their canonical names, ordered by spelling.
    pub forbidden: Vec<ForbiddenType>,
}

impl ParsedSql {
    /// Whether there is a place for every statement.
    pub open spec fn well_formed(&self) -> bool {
        self.geoms@.len() == self.stmts@.len()
    }
}

/// The place of statement `i`; the start of the text for an index that is none.
pub open spec fn place_spec(geoms: Seq<Geometry>, i: int) -> Geometry {
    if 0 <= i < geoms.len() {
        geoms[i]
    } else {
        Geometry { start: 0, end: 0 }
    }
}

fn place(geoms: &Vec<Geometry>, i: usize) -> (r: Geometry)
    ensures
        r == place_spec(geoms@, i as int),
{
    if i < geoms.len() {
        geoms[i]
    } else {
        Geometry { start: 0, end: 0 }
    }
}

/// What stands before the message of a finding inside a `DO` block.
pub const EMBEDDED: &'static str = "Inside a DO block: ";

/// A finding inside a `DO` block: marked as such, and without a fix, for its edits would
/// refer to the body.
pub open spec fn embedded(f: FindingView) -> FindingView {
    FindingView { message: EMBEDDED@ + f.message, fix: None, ..f }
}

/// What the registered rules find in the first `n` embedded statements of a block.
pub open spec fn body_findings(
    disabled: Seq<Seq<char>>,
    sql: Seq<char>,
    stmts: Seq<RawStmt>,
    i: int,
    g: Geometry,
    n: int,
) -> Seq<FindingView>
    decreases n,
{
    if n <= 0 {
        Seq::empty()
    } else {
        body_findings(disabled, sql, stmts, i, g, n - 1) + match stmts[n - 1].stmt {
            Some(node) => statement_findings(registry(), disabled, node, i, sql, g).map_values(
                |f: FindingView| embedded(f),
            ),
            None => Seq::empty(),
        }
    }
}

/// What the registered rules find in the first `n` blocks.
pub open spec fn do_findings(
    disabled: Seq<Seq<char>>,
    sql: Seq<char>,
    geoms: Seq<Geometry>,
    bodies: Seq<DoBody>,
    n: int,
) -> Seq<FindingView>
    decreases n,
{
    if n <= 0 {
        Seq::empty()
    } else {
        let b = bodies[n - 1];
        do_findings(disabled, sql, geoms, bodies, n - 1) + body_findings(
            disabled,
            sql,
            b.stmts@,
            b.statement_index as int,
            place_spec(geoms, b.statement_index as int),
            b.stmts@.len() as int,
        )
    }
}

/// The severity of a synthesized lint: a statement that fails at run time is an error, all else a
/// warning.
pub open spec fn lint_severity(id: Seq<char>) -> Severity {
    if id == txn::ID@ || id == enum_value::ID@ {
        Severity::Error
    } else {
        Severity::Warning
    }
}

/// A remark of a synthesized lint as a finding.
pub open spec fn remark_finding(
    id: Seq<char>,
    guidance: Seq<char>,
    remark: (int, Seq<char>, Option<FixDraftView>),
    sql: Seq<char>,
    geoms: Seq<Geometry>,
) -> FindingView {
    finding_of(
        id,
        lint_severity(id),
        RuleHitView { message: remark.1, guidance, fix: remark.2 },
        remark.0,
        sql,
        place_spec(geoms, remark.0),
    )
}

/// Remarks of a synthesized lint as findings.
pub open spec fn remark_findings(
    id: Seq<char>,
    guidance: Seq<char>,
    remarks: Seq<(int, Seq<char>, Option<FixDraftView>)>,
    sql: Seq<char>,
    geoms: Seq<Geometry>,
) -> Seq<FindingView> {
    remarks.map_values(
        |r: (int, Seq<char>, Option<FixDraftView>)| remark_finding(id, guidance, r, sql, geoms),
    )
}

/// Remarks that carry no fix.
pub open spec fn without_fix(rs: Seq<(int, Seq<char>)>) -> Seq<
    (int, Seq<char>, Option<FixDraftView>),
> {
    rs.map_values(|r: (int, Seq<char>)| (r.0, r.1, None::<FixDraftView>))
}

/// Whether a lint that is on by default runs.
pub open spec fn runs(o: LintOptions, id: Seq<char>) -> bool {
    !o.disabled_rules@.contains(id)
}

/// Whether an opt-in policy lint runs.
pub open spec fn opted_in(o: LintOptions, id: Seq<char>) -> bool {
    runs(o, id) && o.enabled_rules@.contains(id)
}

/// `rs` where the lint runs, else nothing.
pub open spec fn gated(
    on: bool,
    rs: Seq<(int, Seq<char>, Option<FixDraftView>)>,
) -> Seq<(int, Seq<char>, Option<FixDraftView>)> {
    if on {
        rs
    } else {
        Seq::empty()
    }
}

/// The statement that a byte offset belongs to: the last that starts at or before it.
pub open spec fn owner_spec(geoms: Seq<Geometry>, off: int) -> int
    decreases geoms.len(),
{
    if geoms.len() == 0 {
        0
    } else if geoms.last().start <= off {
        geoms.len() - 1
    } else {
        owner_spec(geoms.drop_last(), off)
    }
}

/// How to satisfy `identifier-too-long`.
pub const IDENTIFIER_GUIDANCE: &'static str =
    "Shorten the identifier to 63 bytes or fewer so that PostgreSQL stores it as written.";

/// The remark on an over-long identifier.
pub open spec fn identifier_message(name: Seq<char>, len: int) -> Seq<char> {
    "The identifier `"@ + name + "` is "@ + decimal_spec(len as nat)
        + " bytes long; PostgreSQL silently truncates it to 63 bytes, so it can collide with another name."@
}

/// The remarks on over-long identifiers.
pub open spec fn identifier_remarks(
    found: Seq<(int, Seq<char>, int)>,
    geoms: Seq<Geometry>,
) -> Seq<(int, Seq<char>)> {
    found.map_values(
        |x: (int, Seq<char>, int)| (owner_spec(geoms, x.0), identifier_message(x.1, x.2)),
    )
}

/// How to satisfy `fk-without-covering-index`.
pub const FK_GUIDANCE: &'static str =
    "Create an index that leads with the referencing column in the same migration (CREATE INDEX \
     CONCURRENTLY on an existing table).";

/// The remark on a foreign key without a covering index.
pub open spec fn fk_message(table: Seq<char>, col: Seq<char>) -> Seq<char> {
    "The foreign key on `"@ + table + "."@ + col
        + "` has no covering index in this migration; every change to the referenced table scans and locks this one."@
}

/// The remarks on foreign keys without a covering index.
pub open spec fn fk_remarks(fks: Seq<(int, Seq<char>, Seq<char>)>) -> Seq<(int, Seq<char>)> {
    fks.map_values(|x: (int, Seq<char>, Seq<char>)| (x.0, fk_message(x.1, x.2)))
}

/// What the lints on transactions and lock timeouts find.
pub open spec fn lock_findings(sql: Seq<char>, p: ParsedSql, o: LintOptions) -> Seq<FindingView> {
    let n = p.stmts@.len() as int;
    remark_findings(
        txn::ID@,
        txn::GUIDANCE@,
        gated(
            runs(o, txn::ID@),
            without_fix(txn::concurrent_remarks(p.stmts@, n, o.assume_in_transaction)),
        ),
        sql,
        p.geoms@,
    ) + remark_findings(
        timeout::ID@,
        timeout::GUIDANCE@,
        gated(runs(o, timeout::ID@), timeout::timeout_remarks(p.stmts@, n)),
        sql,
        p.geoms@,
    )
}

/// What the lints on identifiers, foreign keys and enum values find, which are on by default.
pub open spec fn default_findings(sql: Seq<char>, p: ParsedSql, o: LintOptions) -> Seq<FindingView> {
    remark_findings(
        identifier::ID@,
        IDENTIFIER_GUIDANCE@,
        gated(
            runs(o, identifier::ID@),
            without_fix(
                identifier_remarks(identifier::long_identifiers_spec(sql, p.tokens@), p.geoms@),
            ),
        ),
        sql,
        p.geoms@,
    ) + remark_findings(
        fk_index::ID@,
        FK_GUIDANCE@,
        gated(
            runs(o, fk_index::ID@),
            without_fix(
                fk_remarks(
                    fk_index::uncovered(
                        p.stmts@,
                        fk_index::new_fks(p.stmts@, p.stmts@.len() as int),
                    ),
                ),
            ),
        ),
        sql,
        p.geoms@,
    ) + remark_findings(
        enum_value::ID@,
        enum_value::GUIDANCE@,
        gated(
            runs(o, enum_value::ID@),
            without_fix(
                enum_value::early_uses_spec(
                    sql,
                    p.stmts@,
                    p.geoms@,
                    p.tokens@,
                    p.stmts@.len() as int,
                    o.assume_in_transaction,
                ),
            ),
        ),
        sql,
        p.geoms@,
    )
}

/// What the opt-in policies on primary keys and nullable columns find.
pub open spec fn table_findings(sql: Seq<char>, p: ParsedSql, o: LintOptions) -> Seq<FindingView> {
    let n = p.stmts@.len() as int;
    remark_findings(
        require_pk::ID@,
        require_pk::GUIDANCE@,
        gated(
            opted_in(o, require_pk::ID@),
            without_fix(require_pk::missing_primary_keys_spec(p.stmts@, n)),
        ),
        sql,
        p.geoms@,
    ) + remark_findings(
        require_not_null::ID@,
        require_not_null::GUIDANCE@,
        gated(
            opted_in(o, require_not_null::ID@),
            without_fix(require_not_null::nullable_columns_spec(p.stmts@, n)),
        ),
        sql,
        p.geoms@,
    )
}

/// What the policies on names and types find.
pub open spec fn configured_findings(sql: Seq<char>, p: ParsedSql, o: LintOptions) -> Seq<
    FindingView,
> {
    let n = p.stmts@.len() as int;
    remark_findings(
        naming::ID@,
        naming::GUIDANCE@,
        gated(
            runs(o, naming::ID@),
            without_fix(naming::naming_violations_spec(p.stmts@, n, o.naming_patterns)),
        ),
        sql,
        p.geoms@,
    ) + remark_findings(
        forbidden_types::ID@,
        forbidden_types::GUIDANCE@,
        gated(
            runs(o, forbidden_types::ID@),
            forbidden_violations_spec(p.stmts@, n, p.forbidden@, sql),
        ),
        sql,
        p.geoms@,
    )
}

/// What the opt-in policies on guards, `DO` blocks and comments find.
pub open spec fn opt_in_findings(sql: Seq<char>, p: ParsedSql, o: LintOptions) -> Seq<FindingView> {
    let n = p.stmts@.len() as int;
    remark_findings(
        require_if_exists::ID@,
        require_if_exists::GUIDANCE@,
        gated(
            opted_in(o, require_if_exists::ID@),
            without_fix(require_if_exists::missing_if_exists_spec(p.stmts@)),
        ),
        sql,
        p.geoms@,
    ) + remark_findings(
        do_block::ID@,
        do_block::GUIDANCE@,
        gated(
            opted_in(o, do_block::ID@),
            without_fix(do_block::unchecked_do_blocks_spec(p.stmts@)),
        ),
        sql,
        p.geoms@,
    ) + remark_findings(
        require_comment::ID@,
        require_comment::GUIDANCE@,
        gated(
            opted_in(o, require_comment::ID@),
            without_fix(require_comment::missing_comments_spec(p.stmts@, n)),
        ),
        sql,
        p.geoms@,
    )
}

/// What the policy on required columns finds.
pub open spec fn column_findings(sql: Seq<char>, p: ParsedSql, o: LintOptions) -> Seq<FindingView> {
    remark_findings(
        require_columns::ID@,
        require_columns::GUIDANCE@,
        gated(
            runs(o, require_columns::ID@),
            without_fix(
                require_columns::missing_required_columns_spec(
                    p.stmts@,
                    p.stmts@.len() as int,
                    o.required_columns@,
                ),
            ),
        ),
        sql,
        p.geoms@,
    )
}

/// What the opt-in policy on nullable foreign keys finds.
pub open spec fn nullable_fk_findings(sql: Seq<char>, p: ParsedSql, o: LintOptions) -> Seq<
    FindingView,
> {
    remark_findings(
        forbid_nullable_fk::ID@,
        forbid_nullable_fk::GUIDANCE@,
        gated(
            opted_in(o, forbid_nullable_fk::ID@),
            without_fix(forbid_nullable_fk::nullable_fks_spec(p.stmts@)),
        ),
        sql,
        p.geoms@,
    )
}

/// What the synthesized lints find, lint by lint.
pub open spec fn policy_findings(sql: Seq<char>, p: ParsedSql, o: LintOptions) -> Seq<FindingView> {
    lock_findings(sql, p, o) + default_findings(sql, p, o) + table_findings(sql, p, o)
        + configured_findings(sql, p, o) + opt_in_findings(sql, p, o) + column_findings(sql, p, o)
        + nullable_fk_findings(sql, p, o)
}

/// `fs` (ascending by statement) with `f` put behind every finding on its own or an earlier
/// statement.
pub open spec fn insert_by_statement(fs: Seq<FindingView>, f: FindingView) -> Seq<FindingView>
    decreases fs.len(),
{
    if fs.len() > 0 && fs.last().statement_index > f.statement_index {
        insert_by_statement(fs.drop_last(), f).push(fs.last())
    } else {
        fs.push(f)
    }
}

/// `fs` ordered by statement, findings on one statement in their given order.
pub open spec fn by_statement(fs: Seq<FindingView>) -> Seq<FindingView>
    decreases fs.len(),
{
    if fs.len() == 0 {
        fs
    } else {
        insert_by_statement(by_statement(fs.drop_last()), fs.last())
    }
}

/// A finding with the severity that is configured for its rule.
pub open spec fn with_severity(overrides: TextMap<Severity>, f: FindingView) -> FindingView {
    if overrides.has(f.rule_id) {
        FindingView { severity: overrides.value_of(f.rule_id), ..f }
    } else {
        f
    }
}

/// The findings on lock and data hazards: what the rules find, in `DO` blocks too, escalated
/// where a partition child may be live, those on new tables dropped, and without a fix that would
/// fail inside a transaction.
pub open spec fn hazard_findings(sql: Seq<char>, p: ParsedSql, o: LintOptions) -> Seq<FindingView> {
    let disabled = o.disabled_rules@;
    let found = rule_findings(disabled, sql, p.stmts@, p.geoms@, p.stmts@.len() as int)
        + do_findings(disabled, sql, p.geoms@, p.do_bodies@, p.do_bodies@.len() as int);
    kept_findings(p.stmts@, found.map_values(|f: FindingView| escalated(p.stmts@, f))).map_values(
        |f: FindingView| withdrawn(p.stmts@, o.assume_in_transaction, f),
    )
}

/// The findings of the rules and the policy lints, by statement; on one statement the rules'
/// findings come first. Each has the severity that is configured for its rule, and is marked where
/// an inline directive is for it.
pub open spec fn marked_findings(sql: Seq<char>, p: ParsedSql, o: LintOptions) -> Seq<FindingView> {
    let ds = directives_spec(sql, p.geoms@, p.tokens@);
    by_statement(hazard_findings(sql, p, o) + policy_findings(sql, p, o)).map_values(
        |f: FindingView| with_severity(o.severity_overrides, f),
    ).map_values(|f: FindingView| suppressed(ds, f))
}

/// The remarks on inline directives that have the fault.
pub open spec fn directive_remarks(
    fault: hygiene::Fault,
    sql: Seq<char>,
    p: ParsedSql,
    o: LintOptions,
) -> Seq<(int, Seq<char>)> {
    hygiene::fault_remarks(
        fault,
        directives_spec(sql, p.geoms@, p.tokens@),
        p.stmts@,
        marked_findings(sql, p, o),
        ids_of(registry()) + synthesized_ids(),
        o.disabled_rules@,
    )
}

/// The findings on the inline directives themselves.
pub open spec fn hygiene_findings(sql: Seq<char>, p: ParsedSql, o: LintOptions) -> Seq<FindingView> {
    remark_findings(
        hygiene::UNKNOWN_RULE_ID@,
        hygiene::UNKNOWN_RULE_GUIDANCE@,
        without_fix(directive_remarks(hygiene::Fault::UnknownRule, sql, p, o)),
        sql,
        p.geoms@,
    ) + remark_findings(
        hygiene::MISSING_REASON_ID@,
        hygiene::MISSING_REASON_GUIDANCE@,
        without_fix(directive_remarks(hygiene::Fault::MissingReason, sql, p, o)),
        sql,
        p.geoms@,
    ) + remark_findings(
        hygiene::UNUSED_ID@,
        hygiene::UNUSED_GUIDANCE@,
        without_fix(directive_remarks(hygiene::Fault::Unused, sql, p, o)),
        sql,
        p.geoms@,
    )
}

/// All findings of an input, in source order; on one statement those on its inline directives come
/// last.
pub open spec fn lint_spec(sql: Seq<char>, p: ParsedSql, o: LintOptions) -> Seq<FindingView> {
    by_statement(marked_findings(sql, p, o) + hygiene_findings(sql, p, o))
}

/// Appends what the registered rules find in one embedded statement.
fn check_embedded(
    findings: &mut Vec<Finding>,
    rules: &Vec<RegisteredRule>,
    disabled: &TextSet,
    node: &Node,
    i: usize,
    sql: &str,
    g: Geometry,
)
    requires
        sql@.len() < u32::MAX,
        rules@ == registry(),
    ensures
        findings_view(final(findings)@) == findings_view(old(findings)@) + statement_findings(
            registry(),
            disabled@,
            *node,
            i as int,
            sql@,
            g,
        ).map_values(|f: FindingView| embedded(f)),
{
    let ghost before = findings_view(findings@);
    let mut own: Vec<Finding> = Vec::new();
    assert(findings_view(own@) == Seq::<FindingView>::empty());
    check_statement(&mut own, rules, disabled, node, i, sql, g);
    let ghost ov = findings_view(own@);
    assert(ov == statement_findings(registry(), disabled@, *node, i as int, sql@, g));
    let ghost all = ov.map_values(|f: FindingView| embedded(f));
    let mut k: usize = 0;
    assert(before + all.take(0) == before);
    while k < own.len()
        invariant
            k <= own@.len(),
            ov == findings_view(own@),
            all == ov.map_values(|f: FindingView| embedded(f)),
            findings_view(findings@) == before + all.take(k as int),
        decreases own@.len() - k,
    {
        let mut f = own[k].duplicate();
        let mut message = EMBEDDED.to_owned();
        message.append(f.message.as_str());
        f.message = message;
        f.fix = None;
        proof {
            assert(ov[k as int] == own@[k as int]@);
            assert(f@ == embedded(ov[k as int]));
            assert(findings_view(findings@.push(f)) == findings_view(findings@).push(f@));
            assert(all.take(k + 1) == all.take(k as int).push(f@));
            assert((before + all.take(k as int)).push(f@) == before + all.take(k + 1));
        }
        findings.push(f);
        k += 1;
    }
    assert(all.take(all.len() as int) == all);
}

/// Appends what the registered rules find in one block.
fn check_body(
    findings: &mut Vec<Finding>,
    rules: &Vec<RegisteredRule>,
    disabled: &TextSet,
    b: &DoBody,
    sql: &str,
    g: Geometry,
)
    requires
        sql@.len() < u32::MAX,
        rules@ == registry(),
    ensures
        findings_view(final(findings)@) == findings_view(old(findings)@) + body_findings(
            disabled@,
            sql@,
            b.stmts@,
            b.statement_index as int,
            g,
            b.stmts@.len() as int,
        ),
{
    let ghost before = findings_view(findings@);
    let ghost i = b.statement_index as int;
    let mut k: usize = 0;
    assert(before + body_findings(disabled@, sql@, b.stmts@, i, g, 0) == before);
    while k < b.stmts.len()
        invariant
            k <= b.stmts@.len(),
            i == b.statement_index as int,
            sql@.len() < u32::MAX,
            rules@ == registry(),
            findings_view(findings@) == before + body_findings(
                disabled@,
                sql@,
                b.stmts@,
                i,
                g,
                k as int,
            ),
        decreases b.stmts@.len() - k,
    {
        let ghost here = findings_view(findings@);
        assert(here + Seq::<FindingView>::empty() == here);
        if let Some(node) = &b.stmts[k].stmt {
            check_embedded(findings, rules, disabled, node, b.statement_index, sql, g);
        }
        assert(findings_view(findings@) == before + body_findings(
            disabled@,
            sql@,
            b.stmts@,
            i,
            g,
            k + 1,
        ));
        k += 1;
    }
}

/// Appends what the registered rules find in `DO` blocks.
fn check_bodies(
    findings: &mut Vec<Finding>,
    disabled: &TextSet,
    sql: &str,
    geoms: &Vec<Geometry>,
    bodies: &Vec<DoBody>,
)
    requires
        sql@.len() < u32::MAX,
    ensures
        findings_view(final(findings)@) == findings_view(old(findings)@) + do_findings(
            disabled@,
            sql@,
            geoms@,
            bodies@,
            bodies@.len() as int,
        ),
{
    let rules = all_rules();
    let ghost before = findings_view(findings@);
    let mut k: usize = 0;
    assert(before + do_findings(disabled@, sql@, geoms@, bodies@, 0) == before);
    while k < bodies.len()
        invariant
            k <= bodies@.len(),
            sql@.len() < u32::MAX,
            rules@ == registry(),
            findings_view(findings@) == before + do_findings(
                disabled@,
                sql@,
                geoms@,
                bodies@,
                k as int,
            ),
        decreases bodies@.len() - k,
    {
        let b = &bodies[k];
        check_body(findings, &rules, disabled, b, sql, place(geoms, b.statement_index));
        assert(findings_view(findings@) == before + do_findings(
            disabled@,
            sql@,
            geoms@,
            bodies@,
            k + 1,
        ));
        k += 1;
    }
}

/// The severity of a synthesized lint.
fn severity_of(id: &str) -> (r: Severity)
    ensures
        r == lint_severity(id@),
{
    if str_eq(id, txn::ID) || str_eq(id, enum_value::ID) {
        Severity::Error
    } else {
        Severity::Warning
    }
}

/// Appends remarks of a synthesized lint as findings.
fn push_fixable(
    findings: &mut Vec<Finding>,
    id: &str,
    guidance: &str,
    remarks: &Vec<(usize, String, Option<FixDraft>)>,
    sql: &str,
    geoms: &Vec<Geometry>,
)
    requires
        sql@.len() < u32::MAX,
    ensures
        findings_view(final(findings)@) == findings_view(old(findings)@) + remark_findings(
            id@,
            guidance@,
            fixable_view(remarks@),
            sql@,
            geoms@,
        ),
{
    let ghost before = findings_view(findings@);
    let ghost rv = fixable_view(remarks@);
    let ghost all = remark_findings(id@, guidance@, rv, sql@, geoms@);
    let severity = severity_of(id);
    let mut k: usize = 0;
    assert(before + all.take(0) == before);
    while k < remarks.len()
        invariant
            k <= remarks@.len(),
            sql@.len() < u32::MAX,
            severity == lint_severity(id@),
            rv == fixable_view(remarks@),
            all == remark_findings(id@, guidance@, rv, sql@, geoms@),
            findings_view(findings@) == before + all.take(k as int),
        decreases remarks@.len() - k,
    {
        let r = &remarks[k];
        let fix = match &r.2 {
            Some(d) => Some(d.duplicate()),
            None => None,
        };
        let g = place(geoms, r.0);
        let h = RuleHit { message: r.1.clone(), guidance: guidance.to_owned(), fix };
        let mut hits: Vec<RuleHit> = Vec::new();
        hits.push(h);
        push_findings(findings, id, severity, &hits, r.0, sql, g);
        proof {
            assert(hits_view(hits@) == seq![h@]);
            let f = remark_finding(id@, guidance@, rv[k as int], sql@, geoms@);
            assert(findings_of(id@, severity, hits_view(hits@), r.0 as int, sql@, g) == seq![f]);
            assert(all[k as int] == f);
            assert(all.take(k + 1) == all.take(k as int).push(f));
            assert((before + all.take(k as int)) + seq![f] == before + all.take(k + 1));
        }
        k += 1;
    }
    assert(all.take(all.len() as int) == all);
}

/// Appends remarks without fixes as findings.
fn push_remarks(
    findings: &mut Vec<Finding>,
    id: &str,
    guidance: &str,
    remarks: Vec<(usize, String)>,
    sql: &str,
    geoms: &Vec<Geometry>,
)
    requires
        sql@.len() < u32::MAX,
    ensures
        findings_view(final(findings)@) == findings_view(old(findings)@) + remark_findings(
            id@,
            guidance@,
            without_fix(remarks_view(remarks@)),
            sql@,
            geoms@,
        ),
{
    let ghost rv = without_fix(remarks_view(remarks@));
    let mut full: Vec<(usize, String, Option<FixDraft>)> = Vec::new();
    let mut k: usize = 0;
    while k < remarks.len()
        invariant
            k <= remarks@.len(),
            rv == without_fix(remarks_view(remarks@)),
            fixable_view(full@) == rv.take(k as int),
        decreases remarks@.len() - k,
    {
        let x = (remarks[k].0, remarks[k].1.clone(), None::<FixDraft>);
        proof {
            assert(fixable_view(full@.push(x)) == fixable_view(full@).push(
                (x.0 as int, x.1@, None::<FixDraftView>),
            ));
            assert(rv.take(k + 1) == rv.take(k as int).push(rv[k as int]));
        }
        full.push(x);
        k += 1;
    }
    assert(rv.take(rv.len() as int) == rv);
    push_fixable(findings, id, guidance, &full, sql, geoms);
}

/// The statement that a byte offset belongs to.
fn owner(geoms: &Vec<Geometry>, off: usize) -> (r: usize)
    ensures
        r == owner_spec(geoms@, off as int),
{
    let ghost all = geoms@;
    let mut k: usize = geoms.len();
    assert(all.take(all.len() as int) == all);
    while k > 0
        invariant
            k <= geoms@.len(),
            all == geoms@,
            owner_spec(all, off as int) == owner_spec(all.take(k as int), off as int),
        decreases k,
    {
        proof {
            assert(all.take(k as int).last() == all[k - 1]);
            assert(all.take(k as int).drop_last() == all.take(k - 1));
        }
        if geoms[k - 1].start <= off {
            return k - 1;
        }
        k -= 1;
    }
    0
}

/// The remarks on over-long identifiers.
fn note_identifiers(sql: &str, p: &ParsedSql) -> (r: Vec<(usize, String)>)
    ensures
        remarks_view(r@) == identifier_remarks(
            identifier::long_identifiers_spec(sql@, p.tokens@),
            p.geoms@,
        ),
{
    let found = identifier::long_identifiers(sql, p.tokens.as_slice());
    let ghost fv = identifier::long_view(found@);
    let ghost all = identifier_remarks(fv, p.geoms@);
    let mut out: Vec<(usize, String)> = Vec::new();
    let mut k: usize = 0;
    while k < found.len()
        invariant
            k <= found@.len(),
            fv == identifier::long_view(found@),
            all == identifier_remarks(fv, p.geoms@),
            remarks_view(out@) == all.take(k as int),
        decreases found@.len() - k,
    {
        let mut m = "The identifier `".to_owned();
        m.append(found[k].1.as_str());
        m.append("` is ");
        m.append(decimal(found[k].2 as u128).as_str());
        m.append(
            " bytes long; PostgreSQL silently truncates it to 63 bytes, so it can collide with another name.",
        );
        proof {
            assert(fv[k as int] == (found@[k as int].0 as int, found@[k as int].1@, found@[k as int].2 as int));
            assert(m@ == identifier_message(fv[k as int].1, fv[k as int].2));
            assert(all.take(k + 1) == all.take(k as int).push(all[k as int]));
        }
        push_remark(&mut out, owner(&p.geoms, found[k].0), m);
        k += 1;
    }
    assert(all.take(all.len() as int) == all);
    out
}

/// The remarks on foreign keys without a covering index.
fn note_fks(stmts: &[RawStmt]) -> (r: Vec<(usize, String)>)
    ensures
        remarks_view(r@) == fk_remarks(
            fk_index::uncovered(stmts@, fk_index::new_fks(stmts@, stmts@.len() as int)),
        ),
{
    let found = fk_index::fk_without_index(stmts);
    let ghost fv = fk_index::fks_view(found@);
    let ghost all = fk_remarks(fv);
    let mut out: Vec<(usize, String)> = Vec::new();
    let mut k: usize = 0;
    while k < found.len()
        invariant
            k <= found@.len(),
            fv == fk_index::fks_view(found@),
            all == fk_remarks(fv),
            remarks_view(out@) == all.take(k as int),
        decreases found@.len() - k,
    {
        let mut m = "The foreign key on `".to_owned();
        m.append(found[k].1.as_str());
        m.append(".");
        m.append(found[k].2.as_str());
        m.append(
            "` has no covering index in this migration; every change to the referenced table scans and locks this one.",
        );
        proof {
            assert(fv[k as int] == (found@[k as int].0 as int, found@[k as int].1@, found@[k as int].2@));
            assert(m@ == fk_message(fv[k as int].1, fv[k as int].2));
            assert(all.take(k + 1) == all.take(k as int).push(all[k as int]));
        }
        push_remark(&mut out, found[k].0, m);
        k += 1;
    }
    assert(all.take(all.len() as int) == all);
    out
}

/// Whether an opt-in policy lint runs.
fn is_opted_in(o: &LintOptions, id: &str) -> (r: bool)
    ensures
        r == opted_in(*o, id@),
{
    !o.disabled_rules.contains(id) && o.enabled_rules.contains(id)
}

/// A lint that does not run finds nothing.
proof fn lemma_gated_off(
    id: Seq<char>,
    guidance: Seq<char>,
    rs: Seq<(int, Seq<char>, Option<FixDraftView>)>,
    sql: Seq<char>,
    geoms: Seq<Geometry>,
)
    ensures
        remark_findings(id, guidance, gated(false, rs), sql, geoms) == Seq::<FindingView>::empty(),
{
}

/// Appends what the lints on transactions and lock timeouts find.
fn push_lock_lints(findings: &mut Vec<Finding>, sql: &str, p: &ParsedSql, o: &LintOptions)
    requires
        sql@.len() < u32::MAX,
    ensures
        findings_view(final(findings)@) == findings_view(old(findings)@) + lock_findings(
            sql@,
            *p,
            *o,
        ),
{
    let ghost f0 = findings_view(findings@);
    assert(f0 + Seq::<FindingView>::empty() == f0);
    if !o.disabled_rules.contains(txn::ID) {
        let rs = txn::concurrently_in_transaction(p.stmts.as_slice(), o.assume_in_transaction);
        push_remarks(findings, txn::ID, txn::GUIDANCE, rs, sql, &p.geoms);
    }
    let ghost f1 = findings_view(findings@);
    assert(f1 + Seq::<FindingView>::empty() == f1);
    if !o.disabled_rules.contains(timeout::ID) {
        let rs = timeout::missing_timeouts(p.stmts.as_slice());
        push_fixable(findings, timeout::ID, timeout::GUIDANCE, &rs, sql, &p.geoms);
    }
    proof {
        let n = p.stmts@.len() as int;
        let r1 = without_fix(txn::concurrent_remarks(p.stmts@, n, o.assume_in_transaction));
        lemma_gated_off(txn::ID@, txn::GUIDANCE@, r1, sql@, p.geoms@);
        let r2 = timeout::timeout_remarks(p.stmts@, n);
        lemma_gated_off(timeout::ID@, timeout::GUIDANCE@, r2, sql@, p.geoms@);
    }
}

/// Appends what the lints on identifiers, foreign keys and enum values find.
fn push_default_lints(findings: &mut Vec<Finding>, sql: &str, p: &ParsedSql, o: &LintOptions)
    requires
        sql@.len() < u32::MAX,
    ensures
        findings_view(final(findings)@) == findings_view(old(findings)@) + default_findings(
            sql@,
            *p,
            *o,
        ),
{
    let ghost f0 = findings_view(findings@);
    assert(f0 + Seq::<FindingView>::empty() == f0);
    if !o.disabled_rules.contains(identifier::ID) {
        let rs = note_identifiers(sql, p);
        push_remarks(findings, identifier::ID, IDENTIFIER_GUIDANCE, rs, sql, &p.geoms);
    }
    let ghost f1 = findings_view(findings@);
    assert(f1 + Seq::<FindingView>::empty() == f1);
    if !o.disabled_rules.contains(fk_index::ID) {
        let rs = note_fks(p.stmts.as_slice());
        push_remarks(findings, fk_index::ID, FK_GUIDANCE, rs, sql, &p.geoms);
    }
    let ghost f2 = findings_view(findings@);
    assert(f2 + Seq::<FindingView>::empty() == f2);
    if !o.disabled_rules.contains(enum_value::ID) {
        let rs = enum_value::early_uses(
            sql,
            p.stmts.as_slice(),
            p.geoms.as_slice(),
            p.tokens.as_slice(),
            o.assume_in_transaction,
        );
        push_remarks(findings, enum_value::ID, enum_value::GUIDANCE, rs, sql, &p.geoms);
    }
    proof {
        let r1 = without_fix(
            identifier_remarks(identifier::long_identifiers_spec(sql@, p.tokens@), p.geoms@),
        );
        lemma_gated_off(identifier::ID@, IDENTIFIER_GUIDANCE@, r1, sql@, p.geoms@);
        let r2 = without_fix(
            fk_remarks(
                fk_index::uncovered(p.stmts@, fk_index::new_fks(p.stmts@, p.stmts@.len() as int)),
            ),
        );
        lemma_gated_off(fk_index::ID@, FK_GUIDANCE@, r2, sql@, p.geoms@);
        let r3 = without_fix(
            enum_value::early_uses_spec(
                sql@,
                p.stmts@,
                p.geoms@,
                p.tokens@,
                p.stmts@.len() as int,
                o.assume_in_transaction,
            ),
        );
        lemma_gated_off(enum_value::ID@, enum_value::GUIDANCE@, r3, sql@, p.geoms@);
    }
}

/// Appends what the opt-in policies on primary keys and nullable columns find.
fn push_table_lints(findings: &mut Vec<Finding>, sql: &str, p: &ParsedSql, o: &LintOptions)
    requires
        sql@.len() < u32::MAX,
    ensures
        findings_view(final(findings)@) == findings_view(old(findings)@) + table_findings(
            sql@,
            *p,
            *o,
        ),
{
    let ghost f0 = findings_view(findings@);
    assert(f0 + Seq::<FindingView>::empty() == f0);
    if is_opted_in(o, require_pk::ID) {
        let rs = require_pk::missing_primary_keys(p.stmts.as_slice());
        push_remarks(findings, require_pk::ID, require_pk::GUIDANCE, rs, sql, &p.geoms);
    }
    let ghost f1 = findings_view(findings@);
    assert(f1 + Seq::<FindingView>::empty() == f1);
    if is_opted_in(o, require_not_null::ID) {
        let rs = require_not_null::nullable_columns(p.stmts.as_slice());
        push_remarks(findings, require_not_null::ID, require_not_null::GUIDANCE, rs, sql, &p.geoms);
    }
    proof {
        let n = p.stmts@.len() as int;
        let r1 = without_fix(require_pk::missing_primary_keys_spec(p.stmts@, n));
        lemma_gated_off(require_pk::ID@, require_pk::GUIDANCE@, r1, sql@, p.geoms@);
        let r2 = without_fix(require_not_null::nullable_columns_spec(p.stmts@, n));
        lemma_gated_off(require_not_null::ID@, require_not_null::GUIDANCE@, r2, sql@, p.geoms@);
    }
}

/// Appends what the policy lints that are set by data find.
fn push_configured_lints(findings: &mut Vec<Finding>, sql: &str, p: &ParsedSql, o: &LintOptions)
    requires
        sql@.len() < u32::MAX,
    ensures
        findings_view(final(findings)@) == findings_view(old(findings)@) + configured_findings(
            sql@,
            *p,
            *o,
        ),
{
    let ghost f0 = findings_view(findings@);
    assert(f0 + Seq::<FindingView>::empty() == f0);
    if !o.disabled_rules.contains(naming::ID) {
        let rs = naming::naming_violations(p.stmts.as_slice(), &o.naming_patterns);
        push_remarks(findings, naming::ID, naming::GUIDANCE, rs, sql, &p.geoms);
    }
    let ghost f1 = findings_view(findings@);
    assert(f1 + Seq::<FindingView>::empty() == f1);
    if !o.disabled_rules.contains(forbidden_types::ID) {
        let rs = forbidden_violations(p.stmts.as_slice(), p.forbidden.as_slice(), sql);
        push_fixable(
            findings,
            forbidden_types::ID,
            forbidden_types::GUIDANCE,
            &rs,
            sql,
            &p.geoms,
        );
    }
    proof {
        let n = p.stmts@.len() as int;
        let r1 = without_fix(naming::naming_violations_spec(p.stmts@, n, o.naming_patterns));
        lemma_gated_off(naming::ID@, naming::GUIDANCE@, r1, sql@, p.geoms@);
        let r2 = forbidden_violations_spec(p.stmts@, n, p.forbidden@, sql@);
        lemma_gated_off(forbidden_types::ID@, forbidden_types::GUIDANCE@, r2, sql@, p.geoms@);
    }
}

/// Appends what the opt-in policies on guards, `DO` blocks and comments find.
fn push_opt_in_lints(findings: &mut Vec<Finding>, sql: &str, p: &ParsedSql, o: &LintOptions)
    requires
        sql@.len() < u32::MAX,
    ensures
        findings_view(final(findings)@) == findings_view(old(findings)@) + opt_in_findings(
            sql@,
            *p,
            *o,
        ),
{
    let ghost f0 = findings_view(findings@);
    assert(f0 + Seq::<FindingView>::empty() == f0);
    if is_opted_in(o, require_if_exists::ID) {
        let rs = require_if_exists::missing_if_exists(p.stmts.as_slice());
        push_remarks(
            findings,
            require_if_exists::ID,
            require_if_exists::GUIDANCE,
            rs,
            sql,
            &p.geoms,
        );
    }
    let ghost f1 = findings_view(findings@);
    assert(f1 + Seq::<FindingView>::empty() == f1);
    if is_opted_in(o, do_block::ID) {
        let rs = do_block::unchecked_do_blocks(p.stmts.as_slice());
        push_remarks(findings, do_block::ID, do_block::GUIDANCE, rs, sql, &p.geoms);
    }
    let ghost f2 = findings_view(findings@);
    assert(f2 + Seq::<FindingView>::empty() == f2);
    if is_opted_in(o, require_comment::ID) {
        let rs = require_comment::missing_comments(p.stmts.as_slice());
        push_remarks(findings, require_comment::ID, require_comment::GUIDANCE, rs, sql, &p.geoms);
    }
    proof {
        let r1 = without_fix(require_if_exists::missing_if_exists_spec(p.stmts@));
        lemma_gated_off(require_if_exists::ID@, require_if_exists::GUIDANCE@, r1, sql@, p.geoms@);
        let r2 = without_fix(do_block::unchecked_do_blocks_spec(p.stmts@));
        lemma_gated_off(do_block::ID@, do_block::GUIDANCE@, r2, sql@, p.geoms@);
        let r3 = without_fix(
            require_comment::missing_comments_spec(p.stmts@, p.stmts@.len() as int),
        );
        lemma_gated_off(require_comment::ID@, require_comment::GUIDANCE@, r3, sql@, p.geoms@);
    }
}

/// Appends what the policy on required columns finds.
fn push_column_lint(findings: &mut Vec<Finding>, sql: &str, p: &ParsedSql, o: &LintOptions)
    requires
        sql@.len() < u32::MAX,
    ensures
        findings_view(final(findings)@) == findings_view(old(findings)@) + column_findings(
            sql@,
            *p,
            *o,
        ),
{
    let ghost f0 = findings_view(findings@);
    assert(f0 + Seq::<FindingView>::empty() == f0);
    if !o.disabled_rules.contains(require_columns::ID) {
        let rs = require_columns::missing_required_columns(
            p.stmts.as_slice(),
            &o.required_columns,
        );
        push_remarks(findings, require_columns::ID, require_columns::GUIDANCE, rs, sql, &p.geoms);
    }
    proof {
        let r = without_fix(
            require_columns::missing_required_columns_spec(
                p.stmts@,
                p.stmts@.len() as int,
                o.required_columns@,
            ),
        );
        lemma_gated_off(require_columns::ID@, require_columns::GUIDANCE@, r, sql@, p.geoms@);
    }
}

/// Appends what the opt-in policy on nullable foreign keys finds.
fn push_nullable_fk_lint(findings: &mut Vec<Finding>, sql: &str, p: &ParsedSql, o: &LintOptions)
    requires
        sql@.len() < u32::MAX,
    ensures
        findings_view(final(findings)@) == findings_view(old(findings)@) + nullable_fk_findings(
            sql@,
            *p,
            *o,
        ),
{
    let ghost f0 = findings_view(findings@);
    assert(f0 + Seq::<FindingView>::empty() == f0);
    if is_opted_in(o, forbid_nullable_fk::ID) {
        let rs = forbid_nullable_fk::nullable_fks(p.stmts.as_slice());
        push_remarks(
            findings,
            forbid_nullable_fk::ID,
            forbid_nullable_fk::GUIDANCE,
            rs,
            sql,
            &p.geoms,
        );
    }
    proof {
        let r = without_fix(forbid_nullable_fk::nullable_fks_spec(p.stmts@));
        lemma_gated_off(forbid_nullable_fk::ID@, forbid_nullable_fk::GUIDANCE@, r, sql@, p.geoms@);
    }
}

/// Appends what the synthesized lints find.
fn push_policies(findings: &mut Vec<Finding>, sql: &str, p: &ParsedSql, o: &LintOptions)
    requires
        sql@.len() < u32::MAX,
    ensures
        findings_view(final(findings)@) == findings_view(old(findings)@) + policy_findings(
            sql@,
            *p,
            *o,
        ),
{
    let ghost f0 = findings_view(findings@);
    push_lock_lints(findings, sql, p, o);
    push_default_lints(findings, sql, p, o);
    push_table_lints(findings, sql, p, o);
    push_configured_lints(findings, sql, p, o);
    let ghost f1 = findings_view(findings@);
    push_opt_in_lints(findings, sql, p, o);
    push_column_lint(findings, sql, p, o);
    push_nullable_fk_lint(findings, sql, p, o);
    proof {
        let a = lock_findings(sql@, *p, *o);
        let b = default_findings(sql@, *p, *o);
        let c = table_findings(sql@, *p, *o);
        let d = configured_findings(sql@, *p, *o);
        let e = opt_in_findings(sql@, *p, *o);
        let f = column_findings(sql@, *p, *o);
        let g = nullable_fk_findings(sql@, *p, *o);
        lemma_four_parts(f0, a, b, c, d);
        let h = a + b + c + d;
        assert(f1 == f0 + h);
        assert(f0 + h + e + f + g =~= f0 + (h + e + f + g));
    }
}

proof fn lemma_four_parts(
    f: Seq<FindingView>,
    a: Seq<FindingView>,
    b: Seq<FindingView>,
    c: Seq<FindingView>,
    d: Seq<FindingView>,
)
    ensures
        f + a + b + c + d == f + (a + b + c + d),
{
    assert(f + a + b + c + d =~= f + (a + b + c + d));
}

proof fn lemma_insert_by_statement(fs: Seq<FindingView>, f: FindingView, k: int)
    requires
        0 <= k <= fs.len(),
        forall|i: int| k <= i < fs.len() ==> (#[trigger] fs[i]).statement_index
            > f.statement_index,
        k > 0 ==> fs[k - 1].statement_index <= f.statement_index,
    ensures
        insert_by_statement(fs, f) == fs.insert(k, f),
    decreases fs.len(),
{
    if k < fs.len() {
        lemma_insert_by_statement(fs.drop_last(), f, k);
        assert(fs.insert(k, f) == fs.drop_last().insert(k, f).push(fs.last()));
    } else {
        assert(fs.insert(k, f) == fs.push(f));
    }
}

/// Orders findings by statement, keeping the order of findings on one statement.
pub fn sort_by_statement(findings: &Vec<Finding>) -> (r: Vec<Finding>)
    ensures
        findings_view(r@) == by_statement(findings_view(findings@)),
{
    let ghost all = findings_view(findings@);
    let mut out: Vec<Finding> = Vec::new();
    let mut i: usize = 0;
    assert(findings_view(out@) == all.take(0));
    while i < findings.len()
        invariant
            i <= findings@.len(),
            all == findings_view(findings@),
            findings_view(out@) == by_statement(all.take(i as int)),
        decreases findings@.len() - i,
    {
        let f = findings[i].duplicate();
        let mut k: usize = out.len();
        while k > 0 && out[k - 1].statement_index > f.statement_index
            invariant
                k <= out@.len(),
                forall|j: int|
                    k <= j < out@.len() ==> (#[trigger] out@[j]).statement_index
                        > f.statement_index,
            decreases k,
        {
            k -= 1;
        }
        proof {
            let sorted = findings_view(out@);
            assert forall|j: int| k <= j < sorted.len() implies (#[trigger] sorted[j]).statement_index
                > f@.statement_index by {
                assert(sorted[j] == out@[j]@);
            }
            lemma_insert_by_statement(sorted, f@, k as int);
            assert(findings_view(out@.insert(k as int, f)) == sorted.insert(k as int, f@));
            assert(all.take(i + 1).drop_last() == all.take(i as int));
            assert(all.take(i + 1).last() == f@);
        }
        out.insert(k, f);
        i += 1;
    }
    assert(all.take(all.len() as int) == all);
    out
}

/// Gives every finding the severity that is configured for its rule.
pub fn override_severities(findings: &mut Vec<Finding>, overrides: &TextMap<Severity>)
    ensures
        findings_view(final(findings)@) == findings_view(old(findings)@).map_values(
            |f: FindingView| with_severity(*overrides, f),
        ),
{
    let ghost before = findings@;
    let mut i: usize = 0;
    while i < findings.len()
        invariant
            i <= findings@.len(),
            findings@.len() == before.len(),
            forall|j: int| i <= j < before.len() ==> findings@[j] == before[j],
            forall|j: int|
                0 <= j < i ==> (#[trigger] findings@[j])@ == with_severity(
                    *overrides,
                    before[j]@,
                ),
        decreases findings@.len() - i,
    {
        if let Some(severity) = overrides.get(findings[i].rule_id.as_str()) {
            let mut f = findings[i].duplicate();
            f.severity = *severity;
            assert(f@ == with_severity(*overrides, before[i as int]@));
            findings.set(i, f);
        }
        i += 1;
    }
    assert(findings_view(findings@) == findings_view(before).map_values(
        |f: FindingView| with_severity(*overrides, f),
    ));
}

/// Appends the findings on the inline directives themselves to those of the input.
fn push_hygiene(
    findings: &mut Vec<Finding>,
    ds: &Vec<Directive>,
    exempt: &Vec<usize>,
    sql: &str,
    p: &ParsedSql,
    o: &LintOptions,
)
    requires
        sql@.len() < u32::MAX,
        findings_view(old(findings)@) == marked_findings(sql@, *p, *o),
        directives_view(ds@) == directives_spec(sql@, p.geoms@, p.tokens@),
        forall|i: usize| #[trigger] exempt@.contains(i) <==> on_new_table(p.stmts@, i as int),
    ensures
        findings_view(final(findings)@) == findings_view(old(findings)@) + hygiene_findings(
            sql@,
            *p,
            *o,
        ),
{
    let known = known_rule_ids();
    let stmts = p.stmts.as_slice();
    let c = hygiene::Context {
        findings: &*findings,
        exempt,
        known: &known,
        disabled: &o.disabled_rules,
    };
    let unknown = hygiene::faulty(hygiene::Fault::UnknownRule, ds, stmts, &c);
    let bare = hygiene::faulty(hygiene::Fault::MissingReason, ds, stmts, &c);
    let unused = hygiene::faulty(hygiene::Fault::Unused, ds, stmts, &c);
    let ghost f0 = findings_view(findings@);
    push_remarks(
        findings,
        hygiene::UNKNOWN_RULE_ID,
        hygiene::UNKNOWN_RULE_GUIDANCE,
        unknown,
        sql,
        &p.geoms,
    );
    push_remarks(
        findings,
        hygiene::MISSING_REASON_ID,
        hygiene::MISSING_REASON_GUIDANCE,
        bare,
        sql,
        &p.geoms,
    );
    push_remarks(
        findings,
        hygiene::UNUSED_ID,
        hygiene::UNUSED_GUIDANCE,
        unused,
        sql,
        &p.geoms,
    );
    assert(findings_view(findings@) =~= f0 + hygiene_findings(sql@, *p, *o));
}

/// Whether `r` is what linting `sql` gives: the findings where it parses, else the parser's
/// message as an error.
pub open spec fn is_lint_of(
    r: Result<Vec<Finding>, LintError>,
    sql: Seq<char>,
    parsed: Result<ParsedSql, String>,
    options: LintOptions,
) -> bool {
    match parsed {
        Ok(p) => r is Ok && findings_view(r->Ok_0@) == lint_spec(sql, p, options),
        Err(m) => r is Err && r->Err_0.text() == "parse error: "@ + m@,
    }
}

/// Lint `sql` under `options`, returning findings in source order. `parsed` is what the
/// PostgreSQL parser makes of `sql`, or its message where it rejects it.
///
/// Every statement in the input is checked against all enabled rules; the returned list
/// preserves source order. A suppression directive marks the findings it covers; one that names no
/// known rule, gives no reason or covers nothing is reported by a `suppression-*` finding.
///
/// # Errors
/// Returns [`LintError::Parse`] if `sql` could not be parsed by the PostgreSQL parser.
pub fn lint_sql(sql: &str, parsed: &Result<ParsedSql, String>, options: &LintOptions) -> (r: Result<
    Vec<Finding>,
    LintError,
>)
    requires
        sql@.len() < u32::MAX,
        parsed matches Ok(p) ==> p.well_formed(),
    ensures
        is_lint_of(r, sql@, *parsed, *options),
{
    let p = match parsed {
        Ok(p) => p,
        Err(m) => {
            return Err(LintError::Parse(m.clone()));
        },
    };
    let mut found = lint_statements(
        sql,
        p.stmts.as_slice(),
        p.geoms.as_slice(),
        &options.disabled_rules,
    );
    check_bodies(&mut found, &options.disabled_rules, sql, &p.geoms, &p.do_bodies);
    let ghost raw = findings_view(found@);
    escalate_pre_existing_attach(p.stmts.as_slice(), &mut found);
    assert(findings_view(found@) == raw.map_values(|f: FindingView| escalated(p.stmts@, f)));
    let (mut kept, dropped) = drop_new_table_findings(p.stmts.as_slice(), found);
    withdraw_fixes(p.stmts.as_slice(), options.assume_in_transaction, &mut kept);
    push_policies(&mut kept, sql, p, options);
    let mut sorted = sort_by_statement(&kept);
    override_severities(&mut sorted, &options.severity_overrides);
    let ds = directives(sql, p.geoms.as_slice(), p.tokens.as_slice());
    suppress(&mut sorted, &ds);
    let ghost marked = findings_view(sorted@);
    assert(marked == marked_findings(sql@, *p, *options));
    push_hygiene(&mut sorted, &ds, &dropped, sql, p, options);
    Ok(sort_by_statement(&sorted))
}

/// The ids of the synthesized lints, in push order.
pub open spec fn synthesized_ids() -> Seq<Seq<char>> {
    seq![
        txn::ID@,
        timeout::ID@,
        identifier::ID@,
        fk_index::ID@,
        enum_value::ID@,
        require_pk::ID@,
        require_not_null::ID@,
        naming::ID@,
        forbidden_types::ID@,
        require_if_exists::ID@,
        do_block::ID@,
        require_comment::ID@,
        require_columns::ID@,
        forbid_nullable_fk::ID@,
    ]
}

/// Every lint-rule id: the registered rules plus the engine-synthesized ones, in push order
/// (`concurrently-in-transaction`, `require-timeout`, `identifier-too-long`,
/// `fk-without-covering-index`, `enum-value-used-in-transaction`, `require-primary-key`,
/// `require-not-null`, `naming-convention`, `forbidden-column-type`, `require-if-exists`,
/// `unchecked-do-block`, `require-comment`, `require-columns`, `forbid-nullable-fk`).
/// NOT the `suppression-*` hygiene ids.
pub fn known_rule_ids() -> (r: Vec<&'static str>)
    ensures
        words_view(r@) == ids_of(registry()) + synthesized_ids(),
{
    let mut ids = rule_ids();
    let more: Vec<&'static str> = vec![
        txn::ID,
        timeout::ID,
        identifier::ID,
        fk_index::ID,
        enum_value::ID,
        require_pk::ID,
        require_not_null::ID,
        naming::ID,
        forbidden_types::ID,
        require_if_exists::ID,
        do_block::ID,
        require_comment::ID,
        require_columns::ID,
        forbid_nullable_fk::ID,
    ];
    let ghost before = ids@;
    let mut rest = more;
    proof {
        assert(words_view(rest@) =~= synthesized_ids());
        assert(words_view(before + rest@) == words_view(before) + words_view(rest@));
    }
    ids.append(&mut rest);
    ids
}

/// Every lint-rule id a config may name — the registered AST rules plus the
/// engine-synthesized/policy rules — in stable order. The public rule catalog,
/// e.g. for `pgsafe --list-rules` and external tooling.
#[must_use]
pub fn list_rule_ids() -> (r: Vec<&'static str>)
    ensures
        words_view(r@) == ids_of(registry()) + synthesized_ids(),
{
    known_rule_ids()
}

} // verus!
