//! What holds of transactions and of the fixes offered inside them.
use vstd::prelude::*;

use crate::ast::{ColumnDef, RawStmt};
use crate::finding::FindingView;
use crate::fix::FixDraftView;
use crate::forbidden_types::ForbiddenType;
use crate::lint::{
    column_findings, configured_findings, default_findings, hazard_findings, hygiene_findings,
    lint_spec, lock_findings, nullable_fk_findings, opt_in_findings, policy_findings,
    table_findings, ParsedSql,
};
use crate::lint_laws::{lemma_origin, settled};
use crate::options::LintOptions;
use crate::rules::defined_columns_spec;
use crate::txn::{in_transaction, is_concurrent_index_op, offers_failure, ADD_CONCURRENTLY};
use crate::{forbidden_types, timeout, txn};

verus! {

/// Whether no remark drafts a fix that adds `CONCURRENTLY`.
spec fn none_add_concurrently(rs: Seq<(int, Seq<char>, Option<FixDraftView>)>) -> bool {
    forall|i: int|
        0 <= i < rs.len() ==> ((#[trigger] rs[i]).2 matches Some(d) ==> d.title
            != ADD_CONCURRENTLY@)
}

/// Whether no finding offers a fix that adds `CONCURRENTLY`.
spec fn none_offer_concurrently(fs: Seq<FindingView>) -> bool {
    forall|i: int|
        0 <= i < fs.len() ==> ((#[trigger] fs[i]).fix matches Some(fix) ==> fix.title
            != ADD_CONCURRENTLY@)
}

proof fn lemma_type_titles(i: int, cols: Seq<ColumnDef>, types: Seq<ForbiddenType>, sql: Seq<char>)
    ensures
        none_add_concurrently(forbidden_types::forbidden_remarks(i, cols, types, sql)),
    decreases cols.len(),
{
    reveal_strlit("Change to configured type");
    reveal_strlit("Add CONCURRENTLY");
    assert("Change to configured type"@[0] == 'C');
    assert(ADD_CONCURRENTLY@[0] == 'A');
    if cols.len() > 0 {
        lemma_type_titles(i, cols.drop_last(), types, sql);
    }
}

proof fn lemma_violation_titles(
    stmts: Seq<RawStmt>,
    n: int,
    types: Seq<ForbiddenType>,
    sql: Seq<char>,
)
    ensures
        none_add_concurrently(forbidden_types::forbidden_violations_spec(stmts, n, types, sql)),
    decreases n,
{
    if n > 0 {
        lemma_violation_titles(stmts, n - 1, types, sql);
        if let Some(node) = stmts[n - 1].stmt {
            lemma_type_titles(n - 1, defined_columns_spec(node), types, sql);
        }
    }
}

proof fn lemma_timeout_titles(stmts: Seq<RawStmt>, n: int)
    ensures
        none_add_concurrently(timeout::timeout_remarks(stmts, n)),
    decreases n,
{
    reveal_strlit("Set lock_timeout");
    reveal_strlit("Add CONCURRENTLY");
    if n > 0 {
        lemma_timeout_titles(stmts, n - 1);
        assert(timeout::prologue().title[0] == 'S');
        assert(ADD_CONCURRENTLY@[0] == 'A');
    }
}

proof fn lemma_policy_titles(sql: Seq<char>, p: ParsedSql, o: LintOptions)
    ensures
        none_offer_concurrently(policy_findings(sql, p, o)),
{
    let n = p.stmts@.len() as int;
    lemma_violation_titles(p.stmts@, n, p.forbidden@, sql);
    lemma_timeout_titles(p.stmts@, n);
    assert(none_offer_concurrently(lock_findings(sql, p, o)));
    assert(none_offer_concurrently(default_findings(sql, p, o)));
    assert(none_offer_concurrently(table_findings(sql, p, o)));
    assert(none_offer_concurrently(configured_findings(sql, p, o)));
    assert(none_offer_concurrently(opt_in_findings(sql, p, o)));
    assert(none_offer_concurrently(column_findings(sql, p, o)));
    assert(none_offer_concurrently(nullable_fk_findings(sql, p, o)));
}

/// No finding offers to add `CONCURRENTLY` to a statement that runs inside a transaction, where
/// PostgreSQL would reject the fixed statement.
pub proof fn concurrently_is_not_offered_in_a_transaction(
    sql: Seq<char>,
    p: ParsedSql,
    o: LintOptions,
    i: int,
)
    requires
        0 <= i < lint_spec(sql, p, o).len(),
    ensures
        !offers_failure(p.stmts@, o.assume_in_transaction, lint_spec(sql, p, o)[i]),
{
    lemma_policy_titles(sql, p, o);
    let hazards = hazard_findings(sql, p, o);
    let policies = policy_findings(sql, p, o);
    let all = hazards + policies;
    let k = lemma_origin(sql, p, o, i);
    if k < all.len() && lint_spec(sql, p, o)[i] == settled(sql, p, o, all[k]) {
        if k >= hazards.len() {
            assert(policies[k - hazards.len()] == all[k]);
        }
    } else {
        assert(none_offer_concurrently(hygiene_findings(sql, p, o)));
        assert(lint_spec(sql, p, o)[i] == hygiene_findings(sql, p, o)[k]);
    }
}

/// A `CONCURRENTLY` index operation is flagged exactly where it runs inside a transaction.
pub proof fn concurrent_operations_are_flagged_in_a_transaction(
    stmts: Seq<RawStmt>,
    n: int,
    at_start: bool,
    i: int,
)
    requires
        0 <= n <= stmts.len(),
    ensures
        (exists|k: int|
            0 <= k < txn::concurrent_remarks(stmts, n, at_start).len() && (
            #[trigger] txn::concurrent_remarks(stmts, n, at_start)[k]).0 == i) <==> 0 <= i < n && (
        stmts[i].stmt matches Some(node) && is_concurrent_index_op(node)) && in_transaction(
            stmts,
            i,
            at_start,
        ),
    decreases n,
{
    if n > 0 {
        concurrent_operations_are_flagged_in_a_transaction(stmts, n - 1, at_start, i);
        let before = txn::concurrent_remarks(stmts, n - 1, at_start);
        let after = txn::concurrent_remarks(stmts, n, at_start);
        assert forall|k: int| 0 <= k < before.len() implies #[trigger] after[k] == before[k] by {}
        if after.len() > before.len() {
            assert(after[before.len() as int].0 == n - 1);
        }
        if exists|k: int| 0 <= k < before.len() && (#[trigger] before[k]).0 == i {
            let k = choose|k: int| 0 <= k < before.len() && (#[trigger] before[k]).0 == i;
            assert(after[k].0 == i);
        }
        if exists|k: int| 0 <= k < after.len() && (#[trigger] after[k]).0 == i {
            let k = choose|k: int| 0 <= k < after.len() && (#[trigger] after[k]).0 == i;
            if k < before.len() {
                assert(before[k].0 == i);
            }
        }
    }
}

} // verus!
