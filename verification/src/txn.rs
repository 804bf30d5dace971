//! Transactions: `CONCURRENTLY` fails inside one. An index operation that says `CONCURRENTLY`
//! there is flagged, and no fix that would add the word is offered there.
use vstd::prelude::*;

use crate::ast::{Node, ObjectType, RawStmt, TransactionKind};
use crate::finding::{findings_view, Finding, FindingView};
use crate::policy::{push_remark, remarks_view};
use crate::rules::{option_is_on, reindex_is_concurrent};
use crate::text::str_eq;

verus! {

/// Id of this lint.
pub const ID: &'static str = "concurrently-in-transaction";

/// How to satisfy it.
pub const GUIDANCE: &'static str =
    "Run it outside a transaction block: in a migration of its own, with the migration tool's \
     implicit transaction turned off.";

/// What it reports.
pub const MESSAGE: &'static str =
    "A CONCURRENTLY index operation cannot run inside a transaction block; PostgreSQL rejects it \
     at run time.";

/// The title of the fixes that add `CONCURRENTLY`.
pub const ADD_CONCURRENTLY: &'static str = "Add CONCURRENTLY";

/// Whether a transaction is open behind a statement, given whether one is open before it.
pub open spec fn open_after(node: Node, before: bool) -> bool {
    match node {
        Node::TransactionStmt(TransactionKind::Begin) => true,
        Node::TransactionStmt(TransactionKind::End) => false,
        _ => before,
    }
}

/// Whether statement `n` runs inside a transaction; `at_start` says whether the input starts in one.
pub open spec fn in_transaction(stmts: Seq<RawStmt>, n: int, at_start: bool) -> bool
    decreases n,
{
    if n <= 0 {
        at_start
    } else {
        let before = in_transaction(stmts, n - 1, at_start);
        match stmts[n - 1].stmt {
            Some(node) => open_after(node, before),
            None => before,
        }
    }
}

/// Whether a statement is an index operation with `CONCURRENTLY`.
pub open spec fn is_concurrent_index_op(node: Node) -> bool {
    match node {
        Node::IndexStmt(s) => s.concurrent,
        Node::DropStmt(d) => d.remove_type == ObjectType::Index && d.concurrent,
        Node::ReindexStmt(r) => option_is_on(r.params@, "concurrently"@),
        _ => false,
    }
}

fn concurrent_index_op(node: &Node) -> (r: bool)
    ensures
        r == is_concurrent_index_op(*node),
{
    match node {
        Node::IndexStmt(s) => s.concurrent,
        Node::DropStmt(d) => d.remove_type == ObjectType::Index && d.concurrent,
        Node::ReindexStmt(r) => reindex_is_concurrent(r),
        _ => false,
    }
}

/// One remark for each `CONCURRENTLY` index operation among the first `n` statements that runs
/// inside a transaction.
pub open spec fn concurrent_remarks(stmts: Seq<RawStmt>, n: int, at_start: bool) -> Seq<
    (int, Seq<char>),
>
    decreases n,
{
    if n <= 0 {
        Seq::empty()
    } else {
        let before = concurrent_remarks(stmts, n - 1, at_start);
        if stmts[n - 1].stmt matches Some(node) && is_concurrent_index_op(node) && in_transaction(
            stmts,
            n - 1,
            at_start,
        ) {
            before.push((n - 1, MESSAGE@))
        } else {
            before
        }
    }
}

/// Whether a transaction is open behind a statement.
pub(crate) fn step(node: &Node, before: bool) -> (r: bool)
    ensures
        r == open_after(*node, before),
{
    match node {
        Node::TransactionStmt(TransactionKind::Begin) => true,
        Node::TransactionStmt(TransactionKind::End) => false,
        _ => before,
    }
}

/// `(statement_index, message)` for each `CONCURRENTLY` index operation inside a transaction: an
/// explicit one, or the one that the input is assumed to run in.
pub fn concurrently_in_transaction(stmts: &[RawStmt], at_start: bool) -> (r: Vec<(usize, String)>)
    ensures
        remarks_view(r@) == concurrent_remarks(stmts@, stmts@.len() as int, at_start),
{
    let mut out: Vec<(usize, String)> = Vec::new();
    let mut inside = at_start;
    let mut i: usize = 0;
    assert(remarks_view(out@) == Seq::<(int, Seq<char>)>::empty());
    while i < stmts.len()
        invariant
            i <= stmts@.len(),
            inside == in_transaction(stmts@, i as int, at_start),
            remarks_view(out@) == concurrent_remarks(stmts@, i as int, at_start),
        decreases stmts@.len() - i,
    {
        if let Some(node) = &stmts[i].stmt {
            if inside && concurrent_index_op(node) {
                push_remark(&mut out, i, MESSAGE.to_owned());
            }
            inside = step(node, inside);
        }
        i += 1;
    }
    out
}

/// Whether a finding offers to add `CONCURRENTLY` to a statement that runs inside a transaction.
pub open spec fn offers_failure(stmts: Seq<RawStmt>, at_start: bool, f: FindingView) -> bool {
    &&& 0 <= f.statement_index < stmts.len()
    &&& in_transaction(stmts, f.statement_index, at_start)
    &&& f.fix matches Some(fix) && fix.title == ADD_CONCURRENTLY@
}

/// A finding without its fix where that would add `CONCURRENTLY` inside a transaction.
pub open spec fn withdrawn(stmts: Seq<RawStmt>, at_start: bool, f: FindingView) -> FindingView {
    if offers_failure(stmts, at_start, f) {
        FindingView { fix: None, ..f }
    } else {
        f
    }
}

/// Which statements run inside a transaction.
fn transaction_flags(stmts: &[RawStmt], at_start: bool) -> (r: Vec<bool>)
    ensures
        r@.len() == stmts@.len(),
        forall|i: int|
            0 <= i < r@.len() ==> #[trigger] r@[i] == in_transaction(stmts@, i, at_start),
{
    let mut out: Vec<bool> = Vec::new();
    let mut inside = at_start;
    let mut i: usize = 0;
    while i < stmts.len()
        invariant
            i <= stmts@.len(),
            out@.len() == i,
            inside == in_transaction(stmts@, i as int, at_start),
            forall|j: int|
                0 <= j < i ==> #[trigger] out@[j] == in_transaction(stmts@, j, at_start),
        decreases stmts@.len() - i,
    {
        out.push(inside);
        if let Some(node) = &stmts[i].stmt {
            inside = step(node, inside);
        }
        i += 1;
    }
    out
}

/// Takes back every fix that would add `CONCURRENTLY` inside a transaction.
pub fn withdraw_fixes(stmts: &[RawStmt], at_start: bool, findings: &mut Vec<Finding>)
    ensures
        findings_view(final(findings)@) == findings_view(old(findings)@).map_values(
            |f: FindingView| withdrawn(stmts@, at_start, f),
        ),
{
    let flags = transaction_flags(stmts, at_start);
    let ghost before = findings@;
    let mut i: usize = 0;
    while i < findings.len()
        invariant
            i <= findings@.len(),
            findings@.len() == before.len(),
            flags@.len() == stmts@.len(),
            forall|k: int|
                0 <= k < flags@.len() ==> #[trigger] flags@[k] == in_transaction(
                    stmts@,
                    k,
                    at_start,
                ),
            forall|j: int| i <= j < before.len() ==> findings@[j] == before[j],
            forall|j: int|
                0 <= j < i ==> (#[trigger] findings@[j])@ == withdrawn(
                    stmts@,
                    at_start,
                    before[j]@,
                ),
        decreases findings@.len() - i,
    {
        let at: usize = findings[i].statement_index;
        let offered = match &findings[i].fix {
            Some(fix) => str_eq(fix.title.as_str(), ADD_CONCURRENTLY),
            None => false,
        };
        if offered && at < flags.len() && flags[at] {
            let mut f = findings[i].duplicate();
            f.fix = None;
            assert(f@ == withdrawn(stmts@, at_start, before[i as int]@));
            findings.set(i, f);
        }
        i += 1;
    }
    assert(findings_view(findings@) == findings_view(before).map_values(
        |f: FindingView| withdrawn(stmts@, at_start, f),
    ));
}

} // verus!
