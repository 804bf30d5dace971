//! Lock timeouts: a statement that waits for a lock makes every later query on the relation wait
//! behind it, so it is flagged unless a `lock_timeout` is set before it. A statement on a table
//! that was created earlier in the same input waits for nobody.
use vstd::prelude::*;

use crate::ast::{Node, ObjectType, RawStmt, VariableSetKind};
use crate::fix::{single_edit, FixAnchor, FixAnchorView, FixDraft, FixDraftView};
use crate::forbidden_types::fixable_view;
use crate::newtable::{contains_index, new_table_indices, on_new_table};
use crate::rules::{has_option, option_is_on, reindex_is_concurrent};
use crate::text::str_eq;

verus! {

/// Id of this lint.
pub const ID: &'static str = "require-timeout";

/// How to satisfy it.
pub const GUIDANCE: &'static str =
    "Set a lock_timeout before the statement, so that it gives up instead of blocking traffic, and \
     retry it.";

/// What it reports.
pub const MESSAGE: &'static str =
    "The statement waits for a lock with no lock_timeout set; while it waits, every later query on \
     the relation queues behind it.";

/// The title of its fix.
pub const TITLE: &'static str = "Set lock_timeout";

/// What its fix puts before the statement.
pub const PROLOGUE: &'static str = "SET lock_timeout = '5s';\n";

/// Whether a statement waits for a lock that conflicts with reads or writes of a relation.
pub open spec fn waits_for_lock(node: Node) -> bool {
    match node {
        Node::AlterTableStmt(_) => true,
        Node::IndexStmt(s) => !s.concurrent,
        Node::DropStmt(d) => !d.concurrent && (d.remove_type == ObjectType::Table || d.remove_type
            == ObjectType::Index),
        Node::TruncateStmt(_) => true,
        Node::CreateTrigStmt(_) => true,
        Node::ReindexStmt(r) => !option_is_on(r.params@, "concurrently"@),
        Node::RefreshMatViewStmt(r) => !r.concurrent,
        Node::VacuumStmt(v) => v.is_vacuumcmd && option_is_on(v.options@, "full"@),
        Node::ClusterStmt => true,
        _ => false,
    }
}

fn takes_lock(node: &Node) -> (r: bool)
    ensures
        r == waits_for_lock(*node),
{
    match node {
        Node::AlterTableStmt(_) => true,
        Node::IndexStmt(s) => !s.concurrent,
        Node::DropStmt(d) => !d.concurrent && (d.remove_type == ObjectType::Table || d.remove_type
            == ObjectType::Index),
        Node::TruncateStmt(_) => true,
        Node::CreateTrigStmt(_) => true,
        Node::ReindexStmt(r) => !reindex_is_concurrent(r),
        Node::RefreshMatViewStmt(r) => !r.concurrent,
        Node::VacuumStmt(v) => v.is_vacuumcmd && has_option(&v.options, "full"),
        Node::ClusterStmt => true,
        _ => false,
    }
}

/// Whether a `lock_timeout` is set behind a statement, given whether one is before it.
pub open spec fn set_after(node: Node, before: bool) -> bool {
    match node {
        Node::VariableSetStmt(v) => match v.kind {
            VariableSetKind::Value => before || v.name@ == "lock_timeout"@,
            VariableSetKind::Reset => before && v.name@ != "lock_timeout"@,
            VariableSetKind::ResetAll => false,
            VariableSetKind::Other => before,
        },
        _ => before,
    }
}

fn step(node: &Node, before: bool) -> (r: bool)
    ensures
        r == set_after(*node, before),
{
    match node {
        Node::VariableSetStmt(v) => match v.kind {
            VariableSetKind::Value => before || str_eq(v.name.as_str(), "lock_timeout"),
            VariableSetKind::Reset => before && !str_eq(v.name.as_str(), "lock_timeout"),
            VariableSetKind::ResetAll => false,
            VariableSetKind::Other => before,
        },
        _ => before,
    }
}

/// Whether a `lock_timeout` is set before statement `n`.
pub open spec fn timeout_set(stmts: Seq<RawStmt>, n: int) -> bool
    decreases n,
{
    if n <= 0 {
        false
    } else {
        let before = timeout_set(stmts, n - 1);
        match stmts[n - 1].stmt {
            Some(node) => set_after(node, before),
            None => before,
        }
    }
}

/// Whether statement `i` waits for a lock without a `lock_timeout`.
pub open spec fn lacks_timeout(stmts: Seq<RawStmt>, i: int) -> bool {
    &&& stmts[i].stmt matches Some(node) && waits_for_lock(node)
    &&& !timeout_set(stmts, i)
    &&& !on_new_table(stmts, i)
}

/// The fix: a `SET lock_timeout` before the statement.
pub open spec fn prologue() -> FixDraftView {
    single_edit(TITLE@, FixAnchorView::StatementStart, PROLOGUE@)
}

/// One remark, with its fix, for each of the first `n` statements that waits for a lock without a
/// `lock_timeout`.
pub open spec fn timeout_remarks(stmts: Seq<RawStmt>, n: int) -> Seq<
    (int, Seq<char>, Option<FixDraftView>),
>
    decreases n,
{
    if n <= 0 {
        Seq::empty()
    } else {
        let before = timeout_remarks(stmts, n - 1);
        if lacks_timeout(stmts, n - 1) {
            before.push((n - 1, MESSAGE@, Some(prologue())))
        } else {
            before
        }
    }
}

/// `(statement_index, message, fix)` for each statement that waits for a lock without a
/// `lock_timeout`.
pub fn missing_timeouts(stmts: &[RawStmt]) -> (r: Vec<(usize, String, Option<FixDraft>)>)
    ensures
        fixable_view(r@) == timeout_remarks(stmts@, stmts@.len() as int),
{
    let exempt = new_table_indices(stmts);
    let mut out: Vec<(usize, String, Option<FixDraft>)> = Vec::new();
    let mut set = false;
    let mut i: usize = 0;
    assert(fixable_view(out@) == timeout_remarks(stmts@, 0));
    while i < stmts.len()
        invariant
            i <= stmts@.len(),
            set == timeout_set(stmts@, i as int),
            forall|x: usize| #[trigger] exempt@.contains(x) <==> on_new_table(stmts@, x as int),
            fixable_view(out@) == timeout_remarks(stmts@, i as int),
        decreases stmts@.len() - i,
    {
        if let Some(node) = &stmts[i].stmt {
            if !set && takes_lock(node) && !contains_index(&exempt, i) {
                let fix = FixDraft::single(TITLE, FixAnchor::StatementStart, PROLOGUE);
                let x = (i, MESSAGE.to_owned(), Some(fix));
                assert(fixable_view(out@.push(x)) == fixable_view(out@).push(
                    (i as int, MESSAGE@, Some(prologue())),
                ));
                out.push(x);
            }
            set = step(node, set);
        }
        i += 1;
    }
    out
}

/// The lint speaks of exactly the statements that wait for a lock without a `lock_timeout`.
pub proof fn a_timeout_is_asked_for_where_it_is_missing(stmts: Seq<RawStmt>, n: int, i: int)
    requires
        0 <= n <= stmts.len(),
    ensures
        (exists|k: int|
            0 <= k < timeout_remarks(stmts, n).len() && (#[trigger] timeout_remarks(stmts, n)[k]).0
                == i) <==> 0 <= i < n && lacks_timeout(stmts, i),
    decreases n,
{
    if n > 0 {
        a_timeout_is_asked_for_where_it_is_missing(stmts, n - 1, i);
        let before = timeout_remarks(stmts, n - 1);
        let after = timeout_remarks(stmts, n);
        assert forall|k: int| 0 <= k < before.len() implies #[trigger] after[k] == before[k] by {}
        if lacks_timeout(stmts, n - 1) {
            assert(after[before.len() as int].0 == n - 1);
        }
        if exists|k: int| 0 <= k < before.len() && (#[trigger] before[k]).0 == i {
            let k = choose|k: int| 0 <= k < before.len() && (#[trigger] before[k]).0 == i;
            assert(after[k].0 == i);
        }
        if exists|k: int| 0 <= k < after.len() && (#[trigger] after[k]).0 == i {
            let k = choose|k: int| 0 <= k < after.len() && (#[trigger] after[k]).0 == i;
            if k < before.len() {
                assert(before[k].0 == i);
            }
        }
    }
}

} // verus!
