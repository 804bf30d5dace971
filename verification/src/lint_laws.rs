//! What holds of the findings of every input.
use vstd::prelude::*;

use crate::ast::RawStmt;
use crate::engine::{finding_of, findings_of, rule_findings, statement_findings};
use crate::finding::{FindingView, NameKind};
use crate::geometry::Geometry;
use crate::lint::{
    body_findings, by_statement, column_findings, configured_findings, default_findings,
    do_findings, embedded, fk_message, fk_remarks, gated, hazard_findings, hygiene_findings,
    identifier_message, identifier_remarks, insert_by_statement, lint_spec, lock_findings,
    marked_findings, nullable_fk_findings, opt_in_findings, opted_in, owner_spec, place_spec, policy_findings, remark_findings,
    runs, synthesized_ids, table_findings, with_severity, without_fix, DoBody, ParsedSql,
    FK_GUIDANCE, IDENTIFIER_GUIDANCE,
};
use crate::hygiene::hygiene_ids;
use crate::newtable::{escalated, kept_findings, on_new_table};
use crate::newtable_laws::findings_stay_unless_exempt;
use crate::options::{LintOptions, NamingPatterns};
use crate::policy_laws::lemma_concat_contains;
use crate::rules::{defined_columns_spec, ids_of, registry, RegisteredRule, Rule};
use crate::suppression::{directives_spec, suppressed};
use crate::txn::withdrawn;
use crate::{
    do_block, enum_value, fk_index, forbid_nullable_fk, forbidden_types, identifier, naming,
    require_columns, require_comment, require_if_exists, require_not_null, require_pk, timeout, txn,
};

verus! {

/// Whether a finding is of a rule that is known and not disabled.
pub open spec fn is_allowed(disabled: Seq<Seq<char>>, f: FindingView) -> bool {
    !disabled.contains(f.rule_id) && (ids_of(registry()) + synthesized_ids()).contains(f.rule_id)
}

/// Whether all of some findings are of rules that are known and not disabled.
pub open spec fn all_allowed(disabled: Seq<Seq<char>>, fs: Seq<FindingView>) -> bool {
    forall|i: int| 0 <= i < fs.len() ==> is_allowed(disabled, #[trigger] fs[i])
}

proof fn lemma_statement_allowed(
    rules: Seq<RegisteredRule>,
    disabled: Seq<Seq<char>>,
    node: crate::ast::Node,
    i: int,
    sql: Seq<char>,
    g: Geometry,
)
    requires
        forall|k: int|
            0 <= k < rules.len() ==> ids_of(registry()).contains((#[trigger] rules[k]).id_spec()),
    ensures
        all_allowed(disabled, statement_findings(rules, disabled, node, i, sql, g)),
    decreases rules.len(),
{
    if rules.len() > 0 {
        let init = rules.drop_last();
        assert forall|k: int| 0 <= k < init.len() implies ids_of(registry()).contains(
            (#[trigger] init[k]).id_spec(),
        ) by {
            assert(ids_of(registry()).contains(rules[k].id_spec()));
        }
        lemma_statement_allowed(init, disabled, node, i, sql, g);
        let r = rules[rules.len() - 1];
        if !disabled.contains(r.id_spec()) {
            let more = findings_of(r.id_spec(), r.severity_spec(), r.hits(node), i, sql, g);
            let ids = ids_of(registry());
            let k = choose|k: int| 0 <= k < ids.len() && ids[k] == r.id_spec();
            assert((ids + synthesized_ids())[k] == r.id_spec());
            assert forall|j: int| 0 <= j < more.len() implies is_allowed(
                disabled,
                #[trigger] more[j],
            ) by {
                assert(more[j] == finding_of(
                    r.id_spec(),
                    r.severity_spec(),
                    r.hits(node)[j],
                    i,
                    sql,
                    g,
                ));
            }
        }
    }
}

proof fn lemma_registry_ids()
    ensures
        forall|k: int|
            0 <= k < registry().len() ==> ids_of(registry()).contains(
                (#[trigger] registry()[k]).id_spec(),
            ),
{
    assert forall|k: int| 0 <= k < registry().len() implies ids_of(registry()).contains(
        (#[trigger] registry()[k]).id_spec(),
    ) by {
        assert(ids_of(registry())[k] == registry()[k].id_spec());
    }
}

proof fn lemma_rules_allowed(
    disabled: Seq<Seq<char>>,
    sql: Seq<char>,
    stmts: Seq<RawStmt>,
    geoms: Seq<Geometry>,
    n: int,
)
    ensures
        all_allowed(disabled, rule_findings(disabled, sql, stmts, geoms, n)),
    decreases n,
{
    if n > 0 {
        lemma_rules_allowed(disabled, sql, stmts, geoms, n - 1);
        lemma_registry_ids();
        if let Some(node) = stmts[n - 1].stmt {
            lemma_statement_allowed(registry(), disabled, node, n - 1, sql, geoms[n - 1]);
        }
    }
}

proof fn lemma_body_allowed(
    disabled: Seq<Seq<char>>,
    sql: Seq<char>,
    stmts: Seq<RawStmt>,
    i: int,
    g: Geometry,
    n: int,
)
    ensures
        all_allowed(disabled, body_findings(disabled, sql, stmts, i, g, n)),
    decreases n,
{
    if n > 0 {
        lemma_body_allowed(disabled, sql, stmts, i, g, n - 1);
        lemma_registry_ids();
        if let Some(node) = stmts[n - 1].stmt {
            lemma_statement_allowed(registry(), disabled, node, i, sql, g);
            let plain = statement_findings(registry(), disabled, node, i, sql, g);
            let marked = plain.map_values(|f: FindingView| embedded(f));
            assert forall|j: int| 0 <= j < marked.len() implies is_allowed(
                disabled,
                #[trigger] marked[j],
            ) by {
                assert(is_allowed(disabled, plain[j]));
            }
        }
    }
}

proof fn lemma_do_allowed(
    disabled: Seq<Seq<char>>,
    sql: Seq<char>,
    geoms: Seq<Geometry>,
    bodies: Seq<DoBody>,
    n: int,
)
    ensures
        all_allowed(disabled, do_findings(disabled, sql, geoms, bodies, n)),
    decreases n,
{
    if n > 0 {
        lemma_do_allowed(disabled, sql, geoms, bodies, n - 1);
        let b = bodies[n - 1];
        lemma_body_allowed(
            disabled,
            sql,
            b.stmts@,
            b.statement_index as int,
            place_spec(geoms, b.statement_index as int),
            b.stmts@.len() as int,
        );
    }
}

proof fn lemma_kept_allowed(disabled: Seq<Seq<char>>, stmts: Seq<RawStmt>, fs: Seq<FindingView>)
    requires
        all_allowed(disabled, fs),
    ensures
        all_allowed(disabled, kept_findings(stmts, fs)),
    decreases fs.len(),
{
    if fs.len() > 0 {
        let init = fs.drop_last();
        assert forall|i: int| 0 <= i < init.len() implies is_allowed(disabled, #[trigger] init[i]) by {
            assert(is_allowed(disabled, fs[i]));
        }
        lemma_kept_allowed(disabled, stmts, init);
        assert(is_allowed(disabled, fs[fs.len() - 1]));
    }
}

proof fn lemma_remarks_allowed(
    o: LintOptions,
    id: Seq<char>,
    guidance: Seq<char>,
    on: bool,
    remarks: Seq<(int, Seq<char>, Option<crate::fix::FixDraftView>)>,
    sql: Seq<char>,
    geoms: Seq<Geometry>,
)
    requires
        on ==> !o.disabled_rules@.contains(id),
        synthesized_ids().contains(id),
    ensures
        all_allowed(
            o.disabled_rules@,
            remark_findings(id, guidance, gated(on, remarks), sql, geoms),
        ),
{
    let ids = ids_of(registry());
    let k = choose|k: int| 0 <= k < synthesized_ids().len() && synthesized_ids()[k] == id;
    assert((ids + synthesized_ids())[ids.len() + k] == id);
}

proof fn lemma_locks_allowed(sql: Seq<char>, p: ParsedSql, o: LintOptions)
    ensures
        all_allowed(o.disabled_rules@, lock_findings(sql, p, o)),
{
    let n = p.stmts@.len() as int;
    assert(synthesized_ids()[0] == txn::ID@);
    assert(synthesized_ids()[1] == timeout::ID@);
    lemma_remarks_allowed(
        o,
        txn::ID@,
        txn::GUIDANCE@,
        runs(o, txn::ID@),
        without_fix(txn::concurrent_remarks(p.stmts@, n, o.assume_in_transaction)),
        sql,
        p.geoms@,
    );
    lemma_remarks_allowed(
        o,
        timeout::ID@,
        timeout::GUIDANCE@,
        runs(o, timeout::ID@),
        timeout::timeout_remarks(p.stmts@, n),
        sql,
        p.geoms@,
    );
}

proof fn lemma_default_allowed(sql: Seq<char>, p: ParsedSql, o: LintOptions)
    ensures
        all_allowed(o.disabled_rules@, default_findings(sql, p, o)),
{
    assert(synthesized_ids()[2] == identifier::ID@);
    assert(synthesized_ids()[3] == fk_index::ID@);
    lemma_remarks_allowed(
        o,
        identifier::ID@,
        IDENTIFIER_GUIDANCE@,
        runs(o, identifier::ID@),
        without_fix(
            identifier_remarks(identifier::long_identifiers_spec(sql, p.tokens@), p.geoms@),
        ),
        sql,
        p.geoms@,
    );
    lemma_remarks_allowed(
        o,
        fk_index::ID@,
        FK_GUIDANCE@,
        runs(o, fk_index::ID@),
        without_fix(
            fk_remarks(
                fk_index::uncovered(p.stmts@, fk_index::new_fks(p.stmts@, p.stmts@.len() as int)),
            ),
        ),
        sql,
        p.geoms@,
    );
    assert(synthesized_ids()[4] == enum_value::ID@);
    lemma_remarks_allowed(
        o,
        enum_value::ID@,
        enum_value::GUIDANCE@,
        runs(o, enum_value::ID@),
        without_fix(
            enum_value::early_uses_spec(
                sql,
                p.stmts@,
                p.geoms@,
                p.tokens@,
                p.stmts@.len() as int,
                o.assume_in_transaction,
            ),
        ),
        sql,
        p.geoms@,
    );
}

proof fn lemma_tables_allowed(sql: Seq<char>, p: ParsedSql, o: LintOptions)
    ensures
        all_allowed(o.disabled_rules@, table_findings(sql, p, o)),
{
    let n = p.stmts@.len() as int;
    assert(synthesized_ids()[5] == require_pk::ID@);
    assert(synthesized_ids()[6] == require_not_null::ID@);
    lemma_remarks_allowed(
        o,
        require_pk::ID@,
        require_pk::GUIDANCE@,
        opted_in(o, require_pk::ID@),
        without_fix(require_pk::missing_primary_keys_spec(p.stmts@, n)),
        sql,
        p.geoms@,
    );
    lemma_remarks_allowed(
        o,
        require_not_null::ID@,
        require_not_null::GUIDANCE@,
        opted_in(o, require_not_null::ID@),
        without_fix(require_not_null::nullable_columns_spec(p.stmts@, n)),
        sql,
        p.geoms@,
    );
}

proof fn lemma_nullable_fks_allowed(sql: Seq<char>, p: ParsedSql, o: LintOptions)
    ensures
        all_allowed(o.disabled_rules@, nullable_fk_findings(sql, p, o)),
{
    assert(synthesized_ids()[13] == forbid_nullable_fk::ID@);
    lemma_remarks_allowed(
        o,
        forbid_nullable_fk::ID@,
        forbid_nullable_fk::GUIDANCE@,
        opted_in(o, forbid_nullable_fk::ID@),
        without_fix(forbid_nullable_fk::nullable_fks_spec(p.stmts@)),
        sql,
        p.geoms@,
    );
}

proof fn lemma_configured_allowed(sql: Seq<char>, p: ParsedSql, o: LintOptions)
    ensures
        all_allowed(o.disabled_rules@, configured_findings(sql, p, o)),
{
    let n = p.stmts@.len() as int;
    assert(synthesized_ids()[7] == naming::ID@);
    assert(synthesized_ids()[8] == forbidden_types::ID@);
    lemma_remarks_allowed(
        o,
        naming::ID@,
        naming::GUIDANCE@,
        runs(o, naming::ID@),
        without_fix(naming::naming_violations_spec(p.stmts@, n, o.naming_patterns)),
        sql,
        p.geoms@,
    );
    lemma_remarks_allowed(
        o,
        forbidden_types::ID@,
        forbidden_types::GUIDANCE@,
        runs(o, forbidden_types::ID@),
        forbidden_types::forbidden_violations_spec(p.stmts@, n, p.forbidden@, sql),
        sql,
        p.geoms@,
    );
}

proof fn lemma_opt_in_allowed(sql: Seq<char>, p: ParsedSql, o: LintOptions)
    ensures
        all_allowed(o.disabled_rules@, opt_in_findings(sql, p, o)),
{
    let n = p.stmts@.len() as int;
    assert(synthesized_ids()[9] == require_if_exists::ID@);
    assert(synthesized_ids()[10] == do_block::ID@);
    assert(synthesized_ids()[11] == require_comment::ID@);
    lemma_remarks_allowed(
        o,
        require_if_exists::ID@,
        require_if_exists::GUIDANCE@,
        opted_in(o, require_if_exists::ID@),
        without_fix(require_if_exists::missing_if_exists_spec(p.stmts@)),
        sql,
        p.geoms@,
    );
    lemma_remarks_allowed(
        o,
        do_block::ID@,
        do_block::GUIDANCE@,
        opted_in(o, do_block::ID@),
        without_fix(do_block::unchecked_do_blocks_spec(p.stmts@)),
        sql,
        p.geoms@,
    );
    lemma_remarks_allowed(
        o,
        require_comment::ID@,
        require_comment::GUIDANCE@,
        opted_in(o, require_comment::ID@),
        without_fix(require_comment::missing_comments_spec(p.stmts@, n)),
        sql,
        p.geoms@,
    );
}

proof fn lemma_columns_allowed(sql: Seq<char>, p: ParsedSql, o: LintOptions)
    ensures
        all_allowed(o.disabled_rules@, column_findings(sql, p, o)),
{
    assert(synthesized_ids()[12] == require_columns::ID@);
    lemma_remarks_allowed(
        o,
        require_columns::ID@,
        require_columns::GUIDANCE@,
        runs(o, require_columns::ID@),
        without_fix(
            require_columns::missing_required_columns_spec(
                p.stmts@,
                p.stmts@.len() as int,
                o.required_columns@,
            ),
        ),
        sql,
        p.geoms@,
    );
}

proof fn lemma_hazards_allowed(sql: Seq<char>, p: ParsedSql, o: LintOptions)
    ensures
        all_allowed(o.disabled_rules@, hazard_findings(sql, p, o)),
{
    let disabled = o.disabled_rules@;
    let n = p.stmts@.len() as int;
    let m = p.do_bodies@.len() as int;
    lemma_rules_allowed(disabled, sql, p.stmts@, p.geoms@, n);
    lemma_do_allowed(disabled, sql, p.geoms@, p.do_bodies@, m);
    let found = rule_findings(disabled, sql, p.stmts@, p.geoms@, n) + do_findings(
        disabled,
        sql,
        p.geoms@,
        p.do_bodies@,
        m,
    );
    assert(all_allowed(disabled, found));
    let raised = found.map_values(|f: FindingView| escalated(p.stmts@, f));
    assert forall|i: int| 0 <= i < raised.len() implies is_allowed(disabled, #[trigger] raised[i]) by {
        assert(is_allowed(disabled, found[i]));
    }
    lemma_kept_allowed(disabled, p.stmts@, raised);
    let kept = kept_findings(p.stmts@, raised);
    let hazards = hazard_findings(sql, p, o);
    assert forall|i: int| 0 <= i < hazards.len() implies is_allowed(disabled, #[trigger] hazards[i]) by {
        assert(is_allowed(disabled, kept[i]));
    }
}

/// Whether findings are ordered by statement.
pub open spec fn ascends_by_statement(fs: Seq<FindingView>) -> bool {
    forall|i: int, j: int|
        0 <= i < j < fs.len() ==> (#[trigger] fs[i]).statement_index <= (
        #[trigger] fs[j]).statement_index
}

proof fn lemma_insert_by_statement(fs: Seq<FindingView>, f: FindingView)
    requires
        ascends_by_statement(fs),
    ensures
        ascends_by_statement(insert_by_statement(fs, f)),
        insert_by_statement(fs, f).len() == fs.len() + 1,
        forall|i: int|
            0 <= i < insert_by_statement(fs, f).len() ==> (#[trigger] insert_by_statement(fs, f)[i])
                == f || fs.contains(insert_by_statement(fs, f)[i]),
    decreases fs.len(),
{
    let r = insert_by_statement(fs, f);
    if fs.len() > 0 && fs.last().statement_index > f.statement_index {
        let init = fs.drop_last();
        lemma_insert_by_statement(init, f);
        let q = insert_by_statement(init, f);
        assert forall|i: int| 0 <= i < r.len() implies (#[trigger] r[i]) == f || fs.contains(
            r[i],
        ) by {
            if i < q.len() {
                assert(r[i] == q[i]);
                if q[i] != f {
                    let k = choose|k: int| 0 <= k < init.len() && init[k] == q[i];
                    assert(fs[k] == q[i]);
                }
            } else {
                assert(fs[fs.len() - 1] == r[i]);
            }
        }
        assert forall|i: int, j: int| 0 <= i < j < r.len() implies (
        #[trigger] r[i]).statement_index <= (#[trigger] r[j]).statement_index by {
            assert(r[i] == q[i]);
            if j == q.len() {
                if q[i] != f {
                    let k = choose|k: int| 0 <= k < init.len() && init[k] == q[i];
                    assert(fs[k].statement_index <= fs[fs.len() - 1].statement_index);
                }
            } else {
                assert(r[j] == q[j]);
            }
        }
    } else {
        assert forall|i: int| 0 <= i < r.len() implies (#[trigger] r[i]) == f || fs.contains(
            r[i],
        ) by {
            if i < fs.len() {
                assert(fs[i] == r[i]);
            }
        }
        assert forall|i: int, j: int| 0 <= i < j < r.len() implies (
        #[trigger] r[i]).statement_index <= (#[trigger] r[j]).statement_index by {
            if j == fs.len() {
                if i < fs.len() - 1 {
                    assert(fs[i].statement_index <= fs[fs.len() - 1].statement_index);
                }
            }
        }
    }
}

pub proof fn lemma_by_statement(fs: Seq<FindingView>)
    ensures
        ascends_by_statement(by_statement(fs)),
        by_statement(fs).len() == fs.len(),
        forall|i: int|
            0 <= i < by_statement(fs).len() ==> fs.contains(#[trigger] by_statement(fs)[i]),
    decreases fs.len(),
{
    if fs.len() > 0 {
        let init = fs.drop_last();
        lemma_by_statement(init);
        let s = by_statement(init);
        lemma_insert_by_statement(s, fs.last());
        let r = by_statement(fs);
        assert forall|i: int| 0 <= i < r.len() implies fs.contains(#[trigger] r[i]) by {
            if r[i] == fs.last() {
                assert(fs[fs.len() - 1] == r[i]);
            } else {
                let m = choose|m: int| 0 <= m < s.len() && s[m] == r[i];
                let k = choose|k: int| 0 <= k < init.len() && init[k] == s[m];
                assert(fs[k] == r[i]);
            }
        }
    }
}

/// What is reported of a finding: with the configured severity, and marked where a directive is
/// for it.
pub open spec fn settled(
    sql: Seq<char>,
    p: ParsedSql,
    o: LintOptions,
    f: FindingView,
) -> FindingView {
    suppressed(
        directives_spec(sql, p.geoms@, p.tokens@),
        with_severity(o.severity_overrides, f),
    )
}

/// Every finding is one of the rules and policy lints as it is reported, or one on a directive.
pub proof fn lemma_origin(sql: Seq<char>, p: ParsedSql, o: LintOptions, i: int) -> (k: int)
    requires
        0 <= i < lint_spec(sql, p, o).len(),
    ensures
        ({
            let all = hazard_findings(sql, p, o) + policy_findings(sql, p, o);
            let f = lint_spec(sql, p, o)[i];
            ||| 0 <= k < all.len() && f == settled(sql, p, o, all[k])
            ||| 0 <= k < hygiene_findings(sql, p, o).len() && f == hygiene_findings(sql, p, o)[k]
        }),
{
    let all = hazard_findings(sql, p, o) + policy_findings(sql, p, o);
    let marked = marked_findings(sql, p, o);
    let joined = marked + hygiene_findings(sql, p, o);
    lemma_by_statement(all);
    lemma_by_statement(joined);
    let f = lint_spec(sql, p, o)[i];
    let j = choose|j: int| 0 <= j < joined.len() && joined[j] == f;
    if j < marked.len() {
        assert(marked[j] == settled(sql, p, o, by_statement(all)[j]));
        choose|k: int| 0 <= k < all.len() && all[k] == by_statement(all)[j]
    } else {
        j - marked.len()
    }
}

proof fn lemma_insert_keeps(fs: Seq<FindingView>, f: FindingView, g: FindingView)
    requires
        g == f || fs.contains(g),
    ensures
        insert_by_statement(fs, f).contains(g),
    decreases fs.len(),
{
    let r = insert_by_statement(fs, f);
    if fs.len() > 0 && fs.last().statement_index > f.statement_index {
        let init = fs.drop_last();
        if g == fs.last() {
            assert(r[r.len() - 1] == g);
        } else {
            if g != f {
                let k = choose|k: int| 0 <= k < fs.len() && fs[k] == g;
                assert(init[k] == g);
            }
            lemma_insert_keeps(init, f, g);
            let q = insert_by_statement(init, f);
            let k = choose|k: int| 0 <= k < q.len() && q[k] == g;
            assert(r[k] == g);
        }
    } else if g == f {
        assert(r[r.len() - 1] == g);
    } else {
        let k = choose|k: int| 0 <= k < fs.len() && fs[k] == g;
        assert(r[k] == g);
    }
}

proof fn lemma_sorting_keeps(fs: Seq<FindingView>, g: FindingView)
    requires
        fs.contains(g),
    ensures
        by_statement(fs).contains(g),
    decreases fs.len(),
{
    let init = fs.drop_last();
    let k = choose|k: int| 0 <= k < fs.len() && fs[k] == g;
    if k < init.len() {
        assert(init[k] == g);
        lemma_sorting_keeps(init, g);
    }
    lemma_insert_keeps(by_statement(init), fs.last(), g);
}

/// No finding is lost: what a rule or a policy lint finds is reported, and so is every finding on a
/// directive.
pub proof fn every_finding_is_reported(
    sql: Seq<char>,
    p: ParsedSql,
    o: LintOptions,
    f: FindingView,
)
    ensures
        hazard_findings(sql, p, o).contains(f) || policy_findings(sql, p, o).contains(f)
            ==> lint_spec(sql, p, o).contains(settled(sql, p, o, f)),
        hygiene_findings(sql, p, o).contains(f) ==> lint_spec(sql, p, o).contains(f),
{
    let hazards = hazard_findings(sql, p, o);
    let policies = policy_findings(sql, p, o);
    let all = hazards + policies;
    let marked = marked_findings(sql, p, o);
    let hygiene = hygiene_findings(sql, p, o);
    let joined = marked + hygiene;
    if hazards.contains(f) || policies.contains(f) {
        if hazards.contains(f) {
            let k = choose|k: int| 0 <= k < hazards.len() && hazards[k] == f;
            assert(all[k] == f);
        } else {
            let k = choose|k: int| 0 <= k < policies.len() && policies[k] == f;
            assert(all[hazards.len() + k] == f);
        }
        lemma_sorting_keeps(all, f);
        let sorted = by_statement(all);
        let j = choose|j: int| 0 <= j < sorted.len() && sorted[j] == f;
        assert(marked[j] == settled(sql, p, o, f));
        assert(joined[j] == settled(sql, p, o, f));
        lemma_sorting_keeps(joined, settled(sql, p, o, f));
    }
    if hygiene.contains(f) {
        let k = choose|k: int| 0 <= k < hygiene.len() && hygiene[k] == f;
        assert(joined[marked.len() + k] == f);
        lemma_sorting_keeps(joined, f);
    }
}

proof fn lemma_hygiene_ids(sql: Seq<char>, p: ParsedSql, o: LintOptions)
    ensures
        forall|i: int|
            0 <= i < hygiene_findings(sql, p, o).len() ==> hygiene_ids().contains(
                (#[trigger] hygiene_findings(sql, p, o)[i]).rule_id,
            ),
{
    let ids = hygiene_ids();
    assert(ids.contains(ids[0]));
    assert(ids.contains(ids[1]));
    assert(ids.contains(ids[2]));
}

/// A disabled rule has no findings, and every finding is of a rule that the catalog lists, or on a
/// directive.
pub proof fn findings_are_of_listed_and_enabled_rules(
    sql: Seq<char>,
    p: ParsedSql,
    o: LintOptions,
    i: int,
)
    requires
        0 <= i < lint_spec(sql, p, o).len(),
    ensures
        hygiene_ids().contains(lint_spec(sql, p, o)[i].rule_id) || is_allowed(
            o.disabled_rules@,
            lint_spec(sql, p, o)[i],
        ),
{
    lemma_hazards_allowed(sql, p, o);
    lemma_locks_allowed(sql, p, o);
    lemma_default_allowed(sql, p, o);
    lemma_tables_allowed(sql, p, o);
    lemma_configured_allowed(sql, p, o);
    lemma_opt_in_allowed(sql, p, o);
    lemma_columns_allowed(sql, p, o);
    lemma_nullable_fks_allowed(sql, p, o);
    lemma_hygiene_ids(sql, p, o);
    let all = hazard_findings(sql, p, o) + policy_findings(sql, p, o);
    assert(all_allowed(o.disabled_rules@, all));
    let k = lemma_origin(sql, p, o, i);
    if k < all.len() && lint_spec(sql, p, o)[i] == settled(sql, p, o, all[k]) {
        assert(is_allowed(o.disabled_rules@, all[k]));
    }
}

/// Findings are in source order.
pub proof fn findings_are_in_source_order(sql: Seq<char>, p: ParsedSql, o: LintOptions)
    ensures
        ascends_by_statement(lint_spec(sql, p, o)),
{
    lemma_by_statement(marked_findings(sql, p, o) + hygiene_findings(sql, p, o));
}

/// An override has the final say on the severity of its rule. Findings on directives, which no
/// config can name, stay as they are.
pub proof fn overrides_set_the_severity(sql: Seq<char>, p: ParsedSql, o: LintOptions, i: int)
    requires
        0 <= i < lint_spec(sql, p, o).len(),
        o.severity_overrides.has(lint_spec(sql, p, o)[i].rule_id),
        !hygiene_ids().contains(lint_spec(sql, p, o)[i].rule_id),
    ensures
        lint_spec(sql, p, o)[i].severity == o.severity_overrides.value_of(
            lint_spec(sql, p, o)[i].rule_id,
        ),
{
    lemma_hygiene_ids(sql, p, o);
    let k = lemma_origin(sql, p, o, i);
}

proof fn lemma_kept_not_new(stmts: Seq<RawStmt>, fs: Seq<FindingView>)
    ensures
        forall|i: int|
            0 <= i < kept_findings(stmts, fs).len() ==> !on_new_table(
                stmts,
                (#[trigger] kept_findings(stmts, fs)[i]).statement_index,
            ),
    decreases fs.len(),
{
    if fs.len() > 0 {
        lemma_kept_not_new(stmts, fs.drop_last());
    }
}

/// A statement on a table that was created empty earlier in the same input is no hazard.
pub proof fn new_tables_are_no_hazard(sql: Seq<char>, p: ParsedSql, o: LintOptions, i: int)
    requires
        0 <= i < hazard_findings(sql, p, o).len(),
    ensures
        !on_new_table(p.stmts@, hazard_findings(sql, p, o)[i].statement_index),
{
    let disabled = o.disabled_rules@;
    let found = rule_findings(disabled, sql, p.stmts@, p.geoms@, p.stmts@.len() as int)
        + do_findings(disabled, sql, p.geoms@, p.do_bodies@, p.do_bodies@.len() as int);
    let raised = found.map_values(|f: FindingView| escalated(p.stmts@, f));
    lemma_kept_not_new(p.stmts@, raised);
    assert(hazard_findings(sql, p, o)[i].statement_index == kept_findings(
        p.stmts@,
        raised,
    )[i].statement_index);
}

proof fn lemma_no_patterns(stmts: Seq<RawStmt>, n: int, patterns: NamingPatterns)
    requires
        patterns.has_none(),
    ensures
        naming::naming_violations_spec(stmts, n, patterns).len() == 0,
    decreases n,
{
    if n > 0 {
        lemma_no_patterns(stmts, n - 1, patterns);
        if let Some(node) = stmts[n - 1].stmt {
            lemma_no_name_remarks(n - 1, naming::introduced_names_spec(node), patterns);
        }
    }
}

proof fn lemma_no_name_remarks(
    i: int,
    names: Seq<(NameKind, Seq<char>)>,
    patterns: NamingPatterns,
)
    requires
        patterns.has_none(),
    ensures
        naming::name_remarks(i, names, patterns).len() == 0,
    decreases names.len(),
{
    if names.len() > 0 {
        lemma_no_name_remarks(i, names.drop_last(), patterns);
    }
}

proof fn lemma_no_types(
    stmts: Seq<RawStmt>,
    n: int,
    types: Seq<forbidden_types::ForbiddenType>,
    sql: Seq<char>,
)
    requires
        types.len() == 0,
    ensures
        forbidden_types::forbidden_violations_spec(stmts, n, types, sql).len() == 0,
    decreases n,
{
    if n > 0 {
        lemma_no_types(stmts, n - 1, types, sql);
        if let Some(node) = stmts[n - 1].stmt {
            lemma_no_type_remarks(n - 1, defined_columns_spec(node), types, sql);
        }
    }
}

proof fn lemma_no_type_remarks(
    i: int,
    cols: Seq<crate::ast::ColumnDef>,
    types: Seq<forbidden_types::ForbiddenType>,
    sql: Seq<char>,
)
    requires
        types.len() == 0,
    ensures
        forbidden_types::forbidden_remarks(i, cols, types, sql).len() == 0,
    decreases cols.len(),
{
    if cols.len() > 0 {
        lemma_no_type_remarks(i, cols.drop_last(), types, sql);
    }
}

proof fn lemma_no_columns(stmts: Seq<RawStmt>, n: int, required: Seq<Seq<char>>)
    requires
        required.len() == 0,
    ensures
        require_columns::missing_required_columns_spec(stmts, n, required).len() == 0,
    decreases n,
{
    if n > 0 {
        lemma_no_columns(stmts, n - 1, required);
    }
}

/// Under default options the policy lints are silent: what is found comes from the registered
/// rules, or from the lints on transactions, lock timeouts, identifiers, foreign keys and enum
/// values.
pub proof fn policies_are_silent_by_default(sql: Seq<char>, p: ParsedSql, o: LintOptions)
    requires
        o.enabled_rules@.len() == 0,
        o.naming_patterns.has_none(),
        p.forbidden@.len() == 0,
        o.required_columns@.len() == 0,
    ensures
        policy_findings(sql, p, o) == lock_findings(sql, p, o) + default_findings(sql, p, o),
{
    let n = p.stmts@.len() as int;
    lemma_no_patterns(p.stmts@, n, o.naming_patterns);
    lemma_no_types(p.stmts@, n, p.forbidden@, sql);
    lemma_no_columns(p.stmts@, n, o.required_columns@);
    assert(table_findings(sql, p, o).len() == 0);
    assert(nullable_fk_findings(sql, p, o).len() == 0);
    assert(configured_findings(sql, p, o).len() == 0);
    assert(opt_in_findings(sql, p, o).len() == 0);
    assert(column_findings(sql, p, o).len() == 0);
    assert(policy_findings(sql, p, o) =~= lock_findings(sql, p, o) + default_findings(sql, p, o));
}

/// An opt-in policy that is not enabled finds nothing, whatever else is.
pub proof fn opt_in_policies_need_to_be_enabled(
    sql: Seq<char>,
    p: ParsedSql,
    o: LintOptions,
    f: FindingView,
)
    requires
        table_findings(sql, p, o).contains(f) || opt_in_findings(sql, p, o).contains(f)
            || nullable_fk_findings(sql, p, o).contains(f),
    ensures
        o.enabled_rules@.contains(f.rule_id),
{
}

/// On a statement.
pub open spec fn on_statement(i: int) -> spec_fn(FindingView) -> bool {
    |f: FindingView| f.statement_index == i
}

proof fn lemma_insert_is_stable(fs: Seq<FindingView>, f: FindingView, i: int)
    requires
        ascends_by_statement(fs),
    ensures
        insert_by_statement(fs, f).filter(on_statement(i)) == fs.push(f).filter(on_statement(i)),
    decreases fs.len(),
{
    reveal(Seq::filter);
    let such = on_statement(i);
    if fs.len() > 0 && fs.last().statement_index > f.statement_index {
        let init = fs.drop_last();
        let last = fs.last();
        assert(ascends_by_statement(init)) by {
            assert forall|a: int, b: int| 0 <= a < b < init.len() implies (
            #[trigger] init[a]).statement_index <= (#[trigger] init[b]).statement_index by {
                assert(fs[a].statement_index <= fs[b].statement_index);
            }
        }
        lemma_insert_is_stable(init, f, i);
        let q = insert_by_statement(init, f);
        assert(q.push(last).drop_last() =~= q);
        assert(init.push(f).drop_last() =~= init);
        assert(fs.push(f).drop_last() =~= fs);
        assert(q.push(last).last() == last);
        assert(init.push(f).last() == f);
        assert(fs.push(f).last() == f);
        let kept = init.filter(such);
        assert(q.filter(such) == if such(f) {
            kept.push(f)
        } else {
            kept
        });
        assert(fs.filter(such) == if such(last) {
            kept.push(last)
        } else {
            kept
        });
        assert(q.push(last).filter(such) == if such(last) {
            q.filter(such).push(last)
        } else {
            q.filter(such)
        });
        assert(fs.push(f).filter(such) == if such(f) {
            fs.filter(such).push(f)
        } else {
            fs.filter(such)
        });
        assert(!(such(f) && such(last)));
    } else {
        assert(insert_by_statement(fs, f) == fs.push(f));
    }
}

/// Ordering by statement keeps the findings on one statement in the order in which they were found:
/// those of the rules before those of the policies.
pub proof fn findings_on_a_statement_keep_their_order(fs: Seq<FindingView>, i: int)
    ensures
        by_statement(fs).filter(on_statement(i)) == fs.filter(on_statement(i)),
    decreases fs.len(),
{
    reveal(Seq::filter);
    if fs.len() > 0 {
        let init = fs.drop_last();
        findings_on_a_statement_keep_their_order(init, i);
        lemma_by_statement(init);
        let sorted = by_statement(init);
        lemma_insert_is_stable(sorted, fs.last(), i);
        assert(sorted.push(fs.last()).drop_last() =~= sorted);
        assert(sorted.push(fs.last()).last() == fs.last());
    }
}

/// Whether a finding is what a registered rule, which is not disabled, reports of a statement: one of
/// the rule's hits, under the rule's id and severity, at the statement's place.
pub open spec fn is_reported_by(
    f: FindingView,
    r: RegisteredRule,
    disabled: Seq<Seq<char>>,
    node: crate::ast::Node,
    i: int,
    sql: Seq<char>,
    g: Geometry,
) -> bool {
    !disabled.contains(r.id_spec()) && exists|k: int|
        0 <= k < r.hits(node).len() && f == finding_of(
            r.id_spec(),
            r.severity_spec(),
            #[trigger] r.hits(node)[k],
            i,
            sql,
            g,
        )
}

proof fn lemma_reported(
    rules: Seq<RegisteredRule>,
    disabled: Seq<Seq<char>>,
    node: crate::ast::Node,
    i: int,
    sql: Seq<char>,
    g: Geometry,
    f: FindingView,
)
    ensures
        statement_findings(rules, disabled, node, i, sql, g).contains(f) <==> exists|m: int|
            0 <= m < rules.len() && is_reported_by(f, #[trigger] rules[m], disabled, node, i, sql, g),
    decreases rules.len(),
{
    if rules.len() > 0 {
        let init = rules.drop_last();
        let r = rules.last();
        lemma_reported(init, disabled, node, i, sql, g, f);
        let before = statement_findings(init, disabled, node, i, sql, g);
        let more = findings_of(r.id_spec(), r.severity_spec(), r.hits(node), i, sql, g);
        lemma_concat_contains(before, more, f);
        assert(forall|m: int| 0 <= m < init.len() ==> #[trigger] init[m] == rules[m]);
        assert(rules[rules.len() - 1] == r);
        if more.contains(f) && !disabled.contains(r.id_spec()) {
            let k = choose|k: int| 0 <= k < more.len() && more[k] == f;
            assert(f == finding_of(
                r.id_spec(),
                r.severity_spec(),
                r.hits(node)[k],
                i,
                sql,
                g,
            ));
            assert(is_reported_by(f, rules[rules.len() - 1], disabled, node, i, sql, g));
        }
        if is_reported_by(f, r, disabled, node, i, sql, g) {
            let k = choose|k: int|
                0 <= k < r.hits(node).len() && f == finding_of(
                    r.id_spec(),
                    r.severity_spec(),
                    #[trigger] r.hits(node)[k],
                    i,
                    sql,
                    g,
                );
            assert(more[k] == f);
        }
        if before.contains(f) {
            let m = choose|m: int|
                0 <= m < init.len() && is_reported_by(
                    f,
                    #[trigger] init[m],
                    disabled,
                    node,
                    i,
                    sql,
                    g,
                );
            assert(is_reported_by(f, rules[m], disabled, node, i, sql, g));
        }
        if exists|m: int|
            0 <= m < rules.len() && is_reported_by(
                f,
                #[trigger] rules[m],
                disabled,
                node,
                i,
                sql,
                g,
            ) {
            let m = choose|m: int|
                0 <= m < rules.len() && is_reported_by(
                    f,
                    #[trigger] rules[m],
                    disabled,
                    node,
                    i,
                    sql,
                    g,
                );
            if m < init.len() {
                assert(is_reported_by(f, init[m], disabled, node, i, sql, g));
            }
        }
    } else {
        assert(!statement_findings(rules, disabled, node, i, sql, g).contains(f));
    }
}

/// Every statement is checked against every rule that is not disabled: what is found is exactly the
/// hits of those rules, each at its own statement.
pub proof fn every_rule_sees_every_statement(
    disabled: Seq<Seq<char>>,
    sql: Seq<char>,
    stmts: Seq<RawStmt>,
    geoms: Seq<Geometry>,
    n: int,
    f: FindingView,
)
    requires
        0 <= n <= stmts.len(),
    ensures
        rule_findings(disabled, sql, stmts, geoms, n).contains(f) <==> exists|i: int, m: int|
            0 <= i < n && 0 <= m < registry().len() && stmts[i].stmt is Some
                && #[trigger] is_reported_by(
                f,
                registry()[m],
                disabled,
                stmts[i].stmt->0,
                i,
                sql,
                geoms[i],
            ),
    decreases n,
{
    if n > 0 {
        every_rule_sees_every_statement(disabled, sql, stmts, geoms, n - 1, f);
        let before = rule_findings(disabled, sql, stmts, geoms, n - 1);
        let more = match stmts[n - 1].stmt {
            Some(node) => statement_findings(
                registry(),
                disabled,
                node,
                n - 1,
                sql,
                geoms[n - 1],
            ),
            None => Seq::empty(),
        };
        lemma_concat_contains(before, more, f);
        if let Some(node) = stmts[n - 1].stmt {
            lemma_reported(registry(), disabled, node, n - 1, sql, geoms[n - 1], f);
            if more.contains(f) {
                let m = choose|m: int|
                    0 <= m < registry().len() && is_reported_by(
                        f,
                        #[trigger] registry()[m],
                        disabled,
                        node,
                        n - 1,
                        sql,
                        geoms[n - 1],
                    );
                assert(is_reported_by(
                    f,
                    registry()[m],
                    disabled,
                    stmts[n - 1].stmt->0,
                    n - 1,
                    sql,
                    geoms[n - 1],
                ));
            }
        } else {
            assert(!more.contains(f));
        }
    } else {
        assert(!rule_findings(disabled, sql, stmts, geoms, n).contains(f));
    }
}

proof fn lemma_mapped_contains(
    fs: Seq<FindingView>,
    g: spec_fn(FindingView) -> FindingView,
    f: FindingView,
)
    requires
        fs.contains(f),
    ensures
        fs.map_values(g).contains(g(f)),
{
    let k = choose|k: int| 0 <= k < fs.len() && fs[k] == f;
    assert(fs.map_values(g)[k] == g(f));
}

/// Whatever the rules find, in a `DO` block or outside of one, is reported unless it is on a table that
/// was created empty earlier in the same input.
pub proof fn hazards_are_reported_unless_on_new_tables(
    sql: Seq<char>,
    p: ParsedSql,
    o: LintOptions,
    f: FindingView,
)
    requires
        rule_findings(o.disabled_rules@, sql, p.stmts@, p.geoms@, p.stmts@.len() as int).contains(f)
            || do_findings(
            o.disabled_rules@,
            sql,
            p.geoms@,
            p.do_bodies@,
            p.do_bodies@.len() as int,
        ).contains(f),
        !on_new_table(p.stmts@, f.statement_index),
    ensures
        hazard_findings(sql, p, o).contains(
            withdrawn(p.stmts@, o.assume_in_transaction, escalated(p.stmts@, f)),
        ),
{
    let a = rule_findings(o.disabled_rules@, sql, p.stmts@, p.geoms@, p.stmts@.len() as int);
    let b = do_findings(
        o.disabled_rules@,
        sql,
        p.geoms@,
        p.do_bodies@,
        p.do_bodies@.len() as int,
    );
    lemma_concat_contains(a, b, f);
    let raise = |f: FindingView| escalated(p.stmts@, f);
    let take_back = |f: FindingView| withdrawn(p.stmts@, o.assume_in_transaction, f);
    lemma_mapped_contains(a + b, raise, f);
    let raised = (a + b).map_values(raise);
    findings_stay_unless_exempt(p.stmts@, raised, escalated(p.stmts@, f));
    let kept = kept_findings(p.stmts@, raised);
    lemma_mapped_contains(kept, take_back, escalated(p.stmts@, f));
    assert(hazard_findings(sql, p, o) =~= kept.map_values(take_back));
}

proof fn lemma_body_findings(
    disabled: Seq<Seq<char>>,
    sql: Seq<char>,
    stmts: Seq<RawStmt>,
    i: int,
    g: Geometry,
    n: int,
    k: int,
    f: FindingView,
)
    requires
        0 <= k < n <= stmts.len(),
        stmts[k].stmt matches Some(node) && statement_findings(
            registry(),
            disabled,
            node,
            i,
            sql,
            g,
        ).contains(f),
    ensures
        body_findings(disabled, sql, stmts, i, g, n).contains(embedded(f)),
    decreases n,
{
    let before = body_findings(disabled, sql, stmts, i, g, n - 1);
    let mark = |f: FindingView| embedded(f);
    let more = match stmts[n - 1].stmt {
        Some(node) => statement_findings(registry(), disabled, node, i, sql, g).map_values(mark),
        None => Seq::empty(),
    };
    assert(body_findings(disabled, sql, stmts, i, g, n) =~= before + more);
    lemma_concat_contains(before, more, embedded(f));
    if k < n - 1 {
        lemma_body_findings(disabled, sql, stmts, i, g, n - 1, k, f);
    } else {
        let node = stmts[k].stmt->0;
        lemma_mapped_contains(
            statement_findings(registry(), disabled, node, i, sql, g),
            mark,
            f,
        );
    }
}

/// Every statement inside a `DO` block is checked against every rule that is not disabled, and what is
/// found is reported on the block.
pub proof fn every_rule_sees_inside_blocks(
    disabled: Seq<Seq<char>>,
    sql: Seq<char>,
    geoms: Seq<Geometry>,
    bodies: Seq<DoBody>,
    n: int,
    b: int,
    k: int,
    f: FindingView,
)
    requires
        0 <= b < n <= bodies.len(),
        0 <= k < bodies[b].stmts@.len(),
        bodies[b].stmts@[k].stmt matches Some(node) && statement_findings(
            registry(),
            disabled,
            node,
            bodies[b].statement_index as int,
            sql,
            place_spec(geoms, bodies[b].statement_index as int),
        ).contains(f),
    ensures
        do_findings(disabled, sql, geoms, bodies, n).contains(embedded(f)),
    decreases n,
{
    let before = do_findings(disabled, sql, geoms, bodies, n - 1);
    let last = bodies[n - 1];
    let i = last.statement_index as int;
    let more = body_findings(
        disabled,
        sql,
        last.stmts@,
        i,
        place_spec(geoms, i),
        last.stmts@.len() as int,
    );
    lemma_concat_contains(before, more, embedded(f));
    if b < n - 1 {
        every_rule_sees_inside_blocks(disabled, sql, geoms, bodies, n - 1, b, k, f);
    } else {
        lemma_body_findings(
            disabled,
            sql,
            last.stmts@,
            i,
            place_spec(geoms, i),
            last.stmts@.len() as int,
            k,
            f,
        );
    }
}

/// A long identifier is reported on the statement it belongs to, and a foreign key on the statement
/// that declares it.
pub proof fn remarks_are_on_their_statements(
    found: Seq<(int, Seq<char>, int)>,
    geoms: Seq<Geometry>,
    fks: Seq<(int, Seq<char>, Seq<char>)>,
    k: int,
)
    ensures
        0 <= k < found.len() ==> identifier_remarks(found, geoms)[k] == (
            owner_spec(geoms, found[k].0),
            identifier_message(found[k].1, found[k].2),
        ),
        identifier_remarks(found, geoms).len() == found.len(),
        0 <= k < fks.len() ==> fk_remarks(fks)[k] == (fks[k].0, fk_message(fks[k].1, fks[k].2)),
        fk_remarks(fks).len() == fks.len(),
{
}

} // verus!
