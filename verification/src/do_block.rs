//! Policy lint (opt-in, off by default): flag a `DO` block. pgsafe analyzes top-level SQL statements,
//! but a `DO $$ … $$` block's body is procedural PL/pgSQL that the SQL parser exposes only as an opaque
//! string — so any DDL or DML the block runs bypasses every rule. Teams that want migrations to be
//! fully analyzable enable this to keep hazards out of unchecked blocks.
use vstd::prelude::*;

use crate::ast::{Node, RawStmt};
use crate::policy::{push_remark, remarks_view};

verus! {

/// Id of this lint.
pub const ID: &'static str = "unchecked-do-block";

/// How to satisfy it.
pub const GUIDANCE: &'static str =
    "Move the DDL/DML out of the DO block into top-level statements so pgsafe can check it, or suppress \
     this finding with an inline `-- pgsafe:ignore unchecked-do-block <reason>` once the block is reviewed.";

/// What it reports.
pub const MESSAGE: &'static str =
    "A DO block's procedural body is not analyzed — any DDL or DML inside it bypasses \
     every pgsafe rule.";

/// One remark for each `DO` block.
pub open spec fn unchecked_do_blocks_spec(stmts: Seq<RawStmt>) -> Seq<(int, Seq<char>)>
    decreases stmts.len(),
{
    if stmts.len() == 0 {
        Seq::empty()
    } else {
        let before = unchecked_do_blocks_spec(stmts.drop_last());
        if stmts.last().stmt == Some(Node::DoStmt) {
            before.push((stmts.len() - 1, MESSAGE@))
        } else {
            before
        }
    }
}

/// `(statement_index, message)` for each `DO` block in the migration — its body is opaque to the linter.
pub fn unchecked_do_blocks(stmts: &[RawStmt]) -> (r: Vec<(usize, String)>)
    ensures
        remarks_view(r@) == unchecked_do_blocks_spec(stmts@),
{
    let mut out: Vec<(usize, String)> = Vec::new();
    let mut i: usize = 0;
    assert(remarks_view(out@) == Seq::<(int, Seq<char>)>::empty());
    while i < stmts.len()
        invariant
            i <= stmts@.len(),
            remarks_view(out@) == unchecked_do_blocks_spec(stmts@.take(i as int)),
        decreases stmts@.len() - i,
    {
        proof {
            assert(stmts@.take(i + 1).drop_last() == stmts@.take(i as int));
            assert(stmts@.take(i + 1).last() == stmts@[i as int]);
        }
        if let Some(Node::DoStmt) = &stmts[i].stmt {
            push_remark(&mut out, i, MESSAGE.to_owned());
        }
        i += 1;
    }
    assert(stmts@.take(stmts@.len() as int) == stmts@);
    out
}

} // verus!
