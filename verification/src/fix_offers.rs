//! What holds of the fixes that findings carry.
use vstd::prelude::*;
use vstd::utf8::{encode_utf8, encode_utf8_valid_utf8, is_char_boundary_start_end_of_seq};

use crate::ast::{ColumnDef, Node, RawStmt};
use crate::engine::{finding_of, findings_of, fix_spec, rule_findings, statement_findings};
use crate::finding::{FindingView, RuleHitView};
use crate::fix::{resolve_spec, resolved_edits, FixDraftView};
use crate::fix_laws::{fitting_fixes_compose, keywords_nonempty, resolved_fix_is_well_formed};
use crate::fixpoint::{fixes_fit, open_fixes_spec};
use crate::forbidden_types::ForbiddenType;
use crate::geometry::{ascend_in, is_span, spans_are_byte_ranges, Geometry, ScanToken};
use crate::lint::{
    body_findings, column_findings, default_findings, do_findings, gated, hazard_findings,
    hygiene_findings, lint_spec, lock_findings, nullable_fk_findings, opt_in_findings, place_spec,
    policy_findings, remark_findings, runs, table_findings, without_fix, DoBody, ParsedSql,
};
use crate::lint_laws::{lemma_origin, settled};
use crate::newtable::{escalated, kept_findings};
use crate::options::LintOptions;
use crate::output::FileReportView;
use crate::rules::prefer_bigint_primary_key::small_key_hits;
use crate::rules::prefer_jsonb::json_hits;
use crate::rules::{defined_columns_spec, registry, RegisteredRule, Rule};
use crate::text::is_byte_range;
use crate::{forbidden_types, naming, timeout, txn};

verus! {

/// Whether a draft is one edit, whose anchor is no empty keyword.
pub open spec fn is_simple(draft: Option<FixDraftView>) -> bool {
    draft matches Some(d) ==> d.edits.len() == 1 && keywords_nonempty(d)
}

/// Whether the drafts of all hits are simple.
pub open spec fn all_simple(hits: Seq<RuleHitView>) -> bool {
    forall|i: int| 0 <= i < hits.len() ==> is_simple((#[trigger] hits[i]).fix)
}

proof fn lemma_json_hits(cols: Seq<ColumnDef>)
    ensures
        all_simple(json_hits(cols)),
    decreases cols.len(),
{
    if cols.len() > 0 {
        lemma_json_hits(cols.drop_last());
    }
}

proof fn lemma_small_key_hits(node: Node, cols: Seq<ColumnDef>)
    ensures
        all_simple(small_key_hits(node, cols)),
    decreases cols.len(),
{
    if cols.len() > 0 {
        lemma_small_key_hits(node, cols.drop_last());
    }
}

/// Every fix that a registered rule drafts is one edit.
pub proof fn rules_draft_single_edits(r: RegisteredRule, node: Node)
    ensures
        all_simple(r.hits(node)),
{
    reveal_strlit("INDEX");
    reveal_strlit("TABLE");
    reveal_strlit("SCHEMA");
    reveal_strlit("DATABASE");
    lemma_json_hits(defined_columns_spec(node));
    lemma_small_key_hits(node, defined_columns_spec(node));
    match r {
        RegisteredRule::AddIndexNonConcurrent(x) => {
            assert(all_simple(x.hits(node)));
        },
        RegisteredRule::AddFkWithoutNotValid(x) => {
            assert(all_simple(x.hits(node)));
        },
        RegisteredRule::AddCheckWithoutNotValid(x) => {
            assert(all_simple(x.hits(node)));
        },
        RegisteredRule::SetNotNull(x) => {
            assert(all_simple(x.hits(node)));
        },
        RegisteredRule::AlterColumnType(x) => {
            assert(all_simple(x.hits(node)));
        },
        RegisteredRule::Rename(x) => {
            assert(all_simple(x.hits(node)));
        },
        RegisteredRule::DropIndexNonConcurrent(x) => {
            assert(all_simple(x.hits(node)));
        },
        RegisteredRule::DropTable(x) => {
            assert(all_simple(x.hits(node)));
        },
        RegisteredRule::DropDatabase(x) => {
            assert(all_simple(x.hits(node)));
        },
        RegisteredRule::DropColumn(x) => {
            assert(all_simple(x.hits(node)));
        },
        RegisteredRule::Truncate(x) => {
            assert(all_simple(x.hits(node)));
        },
        RegisteredRule::VacuumFullOrCluster(x) => {
            assert(all_simple(x.hits(node)));
        },
        RegisteredRule::ReindexNonConcurrent(x) => {
            assert(all_simple(x.hits(node)));
        },
        RegisteredRule::AddUniqueConstraint(x) => {
            assert(all_simple(x.hits(node)));
        },
        RegisteredRule::AddPrimaryKeyWithoutIndex(x) => {
            assert(all_simple(x.hits(node)));
        },
        RegisteredRule::AddColumnNotNullNoDefault(x) => {
            assert(all_simple(x.hits(node)));
        },
        RegisteredRule::AddColumnVolatileDefault(x) => {
            assert(all_simple(x.hits(node)));
        },
        RegisteredRule::AddColumnSerial(x) => {
            assert(all_simple(x.hits(node)));
        },
        RegisteredRule::AddColumnIdentity(x) => {
            assert(all_simple(x.hits(node)));
        },
        RegisteredRule::AddColumnGeneratedStored(x) => {
            assert(all_simple(x.hits(node)));
        },
        RegisteredRule::SetLoggedUnlogged(x) => {
            assert(all_simple(x.hits(node)));
        },
        RegisteredRule::RefreshMatviewNonConcurrent(x) => {
            assert(all_simple(x.hits(node)));
        },
        RegisteredRule::AddExclusionConstraint(x) => {
            assert(all_simple(x.hits(node)));
        },
        RegisteredRule::PreferJsonb(x) => {
            assert(all_simple(x.hits(node)));
        },
        RegisteredRule::PreferBigintPrimaryKey(x) => {
            assert(all_simple(x.hits(node)));
        },
        RegisteredRule::DropConstraint(x) => {
            assert(all_simple(x.hits(node)));
        },
        RegisteredRule::AddTrigger(x) => {
            assert(all_simple(x.hits(node)));
        },
        RegisteredRule::DetachPartitionNonConcurrent(x) => {
            assert(all_simple(x.hits(node)));
        },
        RegisteredRule::AttachPartition(x) => {
            assert(all_simple(x.hits(node)));
        },
        RegisteredRule::SetAccessMethod(x) => {
            assert(all_simple(x.hits(node)));
        },
    }
}

/// Whether a finding's fix, where it has one, fits the text: it has an edit, its edits ascend
/// without overlap, and each is a range of the text between characters.
pub open spec fn fix_fits(sql: Seq<char>, f: FindingView) -> bool {
    f.fix matches Some(fix) ==> fix.well_formed(sql)
}

/// Whether the fixes of all findings fit the text.
pub open spec fn all_fit(sql: Seq<char>, fs: Seq<FindingView>) -> bool {
    forall|i: int| 0 <= i < fs.len() ==> fix_fits(sql, #[trigger] fs[i])
}

/// Whether every statement's span is a range of the text.
pub open spec fn spans_fit(sql: Seq<char>, geoms: Seq<Geometry>) -> bool {
    forall|k: int|
        0 <= k < geoms.len() ==> is_byte_range(
            sql,
            (#[trigger] geoms[k]).start as int,
            geoms[k].end as int,
        )
}

/// Whether the spans are those of statements that lie between the given bounds.
pub open spec fn are_spans(
    geoms: Seq<Geometry>,
    tokens: Seq<ScanToken>,
    bounds: Seq<(int, int)>,
) -> bool {
    &&& geoms.len() == bounds.len()
    &&& forall|k: int|
        0 <= k < geoms.len() ==> is_span(#[trigger] geoms[k], tokens, bounds[k].0, bounds[k].1)
}

/// Where the scanner's tokens are byte ranges of the text, one behind the other, and each statement
/// begins between characters, every statement's span is a range of the text.
pub proof fn statement_spans_fit(
    sql: Seq<char>,
    tokens: Seq<ScanToken>,
    bounds: Seq<(int, int)>,
    geoms: Seq<Geometry>,
)
    requires
        ascend_in(tokens, sql),
        are_spans(geoms, tokens, bounds),
        forall|k: int|
            0 <= k < bounds.len() ==> is_byte_range(
                sql,
                (#[trigger] bounds[k]).0,
                encode_utf8(sql).len() as int,
            ),
    ensures
        spans_fit(sql, geoms),
{
    assert forall|k: int| 0 <= k < geoms.len() implies is_byte_range(
        sql,
        (#[trigger] geoms[k]).start as int,
        geoms[k].end as int,
    ) by {
        assert(is_byte_range(sql, bounds[k].0, encode_utf8(sql).len() as int));
        spans_are_byte_ranges(sql, tokens, bounds[k].0, bounds[k].1, geoms[k]);
    }
}

proof fn lemma_simple_fix_fits(draft: Option<FixDraftView>, sql: Seq<char>, g: Geometry)
    requires
        is_simple(draft),
        is_byte_range(sql, g.start as int, g.end as int),
    ensures
        fix_spec(draft, sql, g) matches Some(fix) ==> fix.well_formed(sql),
{
    if let Some(d) = draft {
        if resolve_spec(d, sql, g.start as int, g.end as int) is Some {
            assert(resolved_edits(d, sql, g.start as int, g.end as int).len() == 1);
            resolved_fix_is_well_formed(d, sql, g.start as int, g.end as int);
        }
    }
}

proof fn lemma_place_fits(sql: Seq<char>, geoms: Seq<Geometry>, i: int)
    requires
        spans_fit(sql, geoms),
    ensures
        is_byte_range(
            sql,
            place_spec(geoms, i).start as int,
            place_spec(geoms, i).end as int,
        ),
{
    encode_utf8_valid_utf8(sql);
    is_char_boundary_start_end_of_seq(encode_utf8(sql));
}

proof fn lemma_statement_fits(
    rules: Seq<RegisteredRule>,
    disabled: Seq<Seq<char>>,
    node: Node,
    i: int,
    sql: Seq<char>,
    g: Geometry,
)
    requires
        is_byte_range(sql, g.start as int, g.end as int),
    ensures
        all_fit(sql, statement_findings(rules, disabled, node, i, sql, g)),
    decreases rules.len(),
{
    if rules.len() > 0 {
        lemma_statement_fits(rules.drop_last(), disabled, node, i, sql, g);
        let r = rules.last();
        rules_draft_single_edits(r, node);
        let more = findings_of(r.id_spec(), r.severity_spec(), r.hits(node), i, sql, g);
        assert forall|j: int| 0 <= j < more.len() implies fix_fits(sql, #[trigger] more[j]) by {
            let h = r.hits(node)[j];
            assert(is_simple(h.fix));
            lemma_simple_fix_fits(h.fix, sql, g);
            assert(more[j] == finding_of(r.id_spec(), r.severity_spec(), h, i, sql, g));
        }
    }
}

proof fn lemma_rules_fit(
    disabled: Seq<Seq<char>>,
    sql: Seq<char>,
    stmts: Seq<RawStmt>,
    geoms: Seq<Geometry>,
    n: int,
)
    requires
        n <= geoms.len(),
        spans_fit(sql, geoms),
    ensures
        all_fit(sql, rule_findings(disabled, sql, stmts, geoms, n)),
    decreases n,
{
    if n > 0 {
        lemma_rules_fit(disabled, sql, stmts, geoms, n - 1);
        if let Some(node) = stmts[n - 1].stmt {
            assert(is_byte_range(sql, geoms[n - 1].start as int, geoms[n - 1].end as int));
            lemma_statement_fits(registry(), disabled, node, n - 1, sql, geoms[n - 1]);
        }
    }
}

proof fn lemma_body_fits(
    disabled: Seq<Seq<char>>,
    sql: Seq<char>,
    stmts: Seq<RawStmt>,
    i: int,
    g: Geometry,
    n: int,
)
    ensures
        all_fit(sql, body_findings(disabled, sql, stmts, i, g, n)),
    decreases n,
{
    if n > 0 {
        lemma_body_fits(disabled, sql, stmts, i, g, n - 1);
    }
}

proof fn lemma_do_fits(
    disabled: Seq<Seq<char>>,
    sql: Seq<char>,
    geoms: Seq<Geometry>,
    bodies: Seq<DoBody>,
    n: int,
)
    ensures
        all_fit(sql, do_findings(disabled, sql, geoms, bodies, n)),
    decreases n,
{
    if n > 0 {
        lemma_do_fits(disabled, sql, geoms, bodies, n - 1);
        let b = bodies[n - 1];
        lemma_body_fits(
            disabled,
            sql,
            b.stmts@,
            b.statement_index as int,
            place_spec(geoms, b.statement_index as int),
            b.stmts@.len() as int,
        );
    }
}

proof fn lemma_kept_fits(sql: Seq<char>, stmts: Seq<RawStmt>, fs: Seq<FindingView>)
    requires
        all_fit(sql, fs),
    ensures
        all_fit(sql, kept_findings(stmts, fs)),
    decreases fs.len(),
{
    if fs.len() > 0 {
        let init = fs.drop_last();
        assert forall|i: int| 0 <= i < init.len() implies fix_fits(sql, #[trigger] init[i]) by {
            assert(fix_fits(sql, fs[i]));
        }
        lemma_kept_fits(sql, stmts, init);
        assert(fix_fits(sql, fs[fs.len() - 1]));
    }
}

proof fn lemma_hazards_fit(sql: Seq<char>, p: ParsedSql, o: LintOptions)
    requires
        p.well_formed(),
        spans_fit(sql, p.geoms@),
    ensures
        all_fit(sql, hazard_findings(sql, p, o)),
{
    let disabled = o.disabled_rules@;
    let n = p.stmts@.len() as int;
    let m = p.do_bodies@.len() as int;
    lemma_rules_fit(disabled, sql, p.stmts@, p.geoms@, n);
    lemma_do_fits(disabled, sql, p.geoms@, p.do_bodies@, m);
    let found = rule_findings(disabled, sql, p.stmts@, p.geoms@, n) + do_findings(
        disabled,
        sql,
        p.geoms@,
        p.do_bodies@,
        m,
    );
    assert(all_fit(sql, found));
    let raised = found.map_values(|f: FindingView| escalated(p.stmts@, f));
    assert forall|i: int| 0 <= i < raised.len() implies fix_fits(sql, #[trigger] raised[i]) by {
        assert(fix_fits(sql, found[i]));
    }
    lemma_kept_fits(sql, p.stmts@, raised);
    let kept = kept_findings(p.stmts@, raised);
    let hazards = hazard_findings(sql, p, o);
    assert forall|i: int| 0 <= i < hazards.len() implies fix_fits(sql, #[trigger] hazards[i]) by {
        assert(fix_fits(sql, kept[i]));
    }
}

/// Whether the drafts of all remarks are simple.
spec fn simple_remarks(rs: Seq<(int, Seq<char>, Option<FixDraftView>)>) -> bool {
    forall|i: int| 0 <= i < rs.len() ==> is_simple((#[trigger] rs[i]).2)
}

proof fn lemma_type_remarks_simple(
    i: int,
    cols: Seq<ColumnDef>,
    types: Seq<ForbiddenType>,
    sql: Seq<char>,
)
    ensures
        simple_remarks(forbidden_types::forbidden_remarks(i, cols, types, sql)),
    decreases cols.len(),
{
    if cols.len() > 0 {
        lemma_type_remarks_simple(i, cols.drop_last(), types, sql);
    }
}

proof fn lemma_violations_simple(
    stmts: Seq<RawStmt>,
    n: int,
    types: Seq<ForbiddenType>,
    sql: Seq<char>,
)
    ensures
        simple_remarks(forbidden_types::forbidden_violations_spec(stmts, n, types, sql)),
    decreases n,
{
    if n > 0 {
        lemma_violations_simple(stmts, n - 1, types, sql);
        if let Some(node) = stmts[n - 1].stmt {
            lemma_type_remarks_simple(n - 1, defined_columns_spec(node), types, sql);
        }
    }
}

proof fn lemma_timeouts_simple(stmts: Seq<RawStmt>, n: int)
    ensures
        simple_remarks(timeout::timeout_remarks(stmts, n)),
    decreases n,
{
    if n > 0 {
        lemma_timeouts_simple(stmts, n - 1);
    }
}

proof fn lemma_remarks_fit(
    id: Seq<char>,
    guidance: Seq<char>,
    rs: Seq<(int, Seq<char>, Option<FixDraftView>)>,
    sql: Seq<char>,
    geoms: Seq<Geometry>,
)
    requires
        spans_fit(sql, geoms),
        simple_remarks(rs),
    ensures
        all_fit(sql, remark_findings(id, guidance, rs, sql, geoms)),
{
    let fs = remark_findings(id, guidance, rs, sql, geoms);
    assert forall|i: int| 0 <= i < fs.len() implies fix_fits(sql, #[trigger] fs[i]) by {
        assert(is_simple(rs[i].2));
        lemma_place_fits(sql, geoms, rs[i].0);
        lemma_simple_fix_fits(rs[i].2, sql, place_spec(geoms, rs[i].0));
    }
}

/// Whether findings carry no fix.
spec fn all_without_fix(fs: Seq<FindingView>) -> bool {
    forall|i: int| 0 <= i < fs.len() ==> (#[trigger] fs[i]).fix is None
}

proof fn lemma_locks_fit(sql: Seq<char>, p: ParsedSql, o: LintOptions)
    requires
        spans_fit(sql, p.geoms@),
    ensures
        all_fit(sql, lock_findings(sql, p, o)),
{
    let n = p.stmts@.len() as int;
    lemma_timeouts_simple(p.stmts@, n);
    let waits = gated(runs(o, timeout::ID@), timeout::timeout_remarks(p.stmts@, n));
    lemma_remarks_fit(timeout::ID@, timeout::GUIDANCE@, waits, sql, p.geoms@);
    let inside = remark_findings(
        txn::ID@,
        txn::GUIDANCE@,
        gated(
            runs(o, txn::ID@),
            without_fix(txn::concurrent_remarks(p.stmts@, n, o.assume_in_transaction)),
        ),
        sql,
        p.geoms@,
    );
    assert(all_without_fix(inside));
}

proof fn lemma_policies_fit(sql: Seq<char>, p: ParsedSql, o: LintOptions)
    requires
        spans_fit(sql, p.geoms@),
    ensures
        all_fit(sql, policy_findings(sql, p, o)),
{
    let n = p.stmts@.len() as int;
    lemma_violations_simple(p.stmts@, n, p.forbidden@, sql);
    let rs = gated(
        runs(o, forbidden_types::ID@),
        forbidden_types::forbidden_violations_spec(p.stmts@, n, p.forbidden@, sql),
    );
    lemma_remarks_fit(forbidden_types::ID@, forbidden_types::GUIDANCE@, rs, sql, p.geoms@);
    lemma_locks_fit(sql, p, o);
    assert(all_without_fix(default_findings(sql, p, o)));
    assert(all_without_fix(table_findings(sql, p, o)));
    assert(all_without_fix(opt_in_findings(sql, p, o)));
    assert(all_without_fix(column_findings(sql, p, o)));
    assert(all_without_fix(nullable_fk_findings(sql, p, o)));
    let names = remark_findings(
        naming::ID@,
        naming::GUIDANCE@,
        gated(
            runs(o, naming::ID@),
            without_fix(naming::naming_violations_spec(p.stmts@, n, o.naming_patterns)),
        ),
        sql,
        p.geoms@,
    );
    assert(all_without_fix(names));
}

/// Every fix that linting offers fits the linted text: it has an edit, its edits ascend without
/// overlap, and each is a range of the text between characters.
pub proof fn offered_fixes_fit(sql: Seq<char>, p: ParsedSql, o: LintOptions)
    requires
        p.well_formed(),
        spans_fit(sql, p.geoms@),
    ensures
        all_fit(sql, lint_spec(sql, p, o)),
{
    lemma_hazards_fit(sql, p, o);
    lemma_policies_fit(sql, p, o);
    let all = hazard_findings(sql, p, o) + policy_findings(sql, p, o);
    assert(all_fit(sql, all));
    let h = hygiene_findings(sql, p, o);
    assert(all_without_fix(h));
    let r = lint_spec(sql, p, o);
    assert forall|i: int| 0 <= i < r.len() implies fix_fits(sql, #[trigger] r[i]) by {
        let k = lemma_origin(sql, p, o, i);
        if k < all.len() && r[i] == settled(sql, p, o, all[k]) {
            assert(fix_fits(sql, all[k]));
        } else {
            assert(h[k].fix is None);
        }
    }
}

proof fn lemma_open_fixes_fit(sql: Seq<char>, fs: Seq<FindingView>)
    requires
        all_fit(sql, fs),
    ensures
        forall|f: int|
            0 <= f < open_fixes_spec(fs).len() ==> (#[trigger] open_fixes_spec(fs)[f]).well_formed(
                sql,
            ),
    decreases fs.len(),
{
    if fs.len() > 0 {
        let front = fs.drop_last();
        assert forall|i: int| 0 <= i < front.len() implies fix_fits(sql, #[trigger] front[i]) by {
            assert(front[i] == fs[i]);
        }
        lemma_open_fixes_fit(sql, front);
        assert(fix_fits(sql, fs[fs.len() - 1]));
        let before = open_fixes_spec(front);
        let all = open_fixes_spec(fs);
        assert forall|f: int| 0 <= f < all.len() implies (#[trigger] all[f]).well_formed(sql) by {
            if f < before.len() {
                assert(all[f] == before[f]);
            }
        }
    }
}

/// The fixes that linting offers for a text can be applied to it together.
pub proof fn offered_fixes_compose(
    sql: Seq<char>,
    p: ParsedSql,
    o: LintOptions,
    report: FileReportView,
)
    requires
        p.well_formed(),
        spans_fit(sql, p.geoms@),
        report.findings == lint_spec(sql, p, o),
    ensures
        fixes_fit(sql, report),
{
    offered_fixes_fit(sql, p, o);
    lemma_open_fixes_fit(sql, report.findings);
    fitting_fixes_compose(sql, open_fixes_spec(report.findings));
}

} // verus!
