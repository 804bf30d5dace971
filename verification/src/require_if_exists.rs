//! Policy lint (opt-in, off by default): flag DDL that omits IF [NOT] EXISTS — a
//! CREATE TABLE/INDEX/SEQUENCE/SCHEMA/MATERIALIZED VIEW/TABLE-AS without IF NOT EXISTS, or a DROP
//! without IF EXISTS. Idempotent, re-runnable migrations guard their DDL this way.
use vstd::prelude::*;

use crate::ast::{Node, ObjectType, RawStmt};
use crate::policy::{push_remark, remarks_view};

verus! {

/// Id of this lint.
pub const ID: &'static str = "require-if-exists";

/// How to satisfy it.
pub const GUIDANCE: &'static str =
    "Add IF NOT EXISTS (CREATE) or IF EXISTS (DROP) so re-running the migration does not error.";

/// What is missing from a `DROP`, unless it has `IF EXISTS`.
pub open spec fn unguarded_drop(missing_ok: bool) -> Option<Seq<char>> {
    if missing_ok {
        None
    } else {
        Some(
            "DROP without IF EXISTS is not idempotent — it errors if the object does not exist."@,
        )
    }
}

fn drop_message(missing_ok: bool) -> (r: Option<&'static str>)
    ensures
        match r {
            Some(m) => unguarded_drop(missing_ok) == Some(m@),
            None => unguarded_drop(missing_ok) is None,
        },
{
    if missing_ok {
        None
    } else {
        Some("DROP without IF EXISTS is not idempotent — it errors if the object does not exist.")
    }
}

/// What is missing from a statement, if anything is. `CREATE MATERIALIZED VIEW` and
/// `CREATE TABLE … AS` share a node that `SELECT INTO` can lower to as well; that one has no
/// `IF NOT EXISTS` syntax.
pub open spec fn unguarded_spec(node: Node) -> Option<Seq<char>> {
    match node {
        Node::CreateStmt(c) => if !c.if_not_exists {
            Some(
                "CREATE TABLE without IF NOT EXISTS is not idempotent — it errors if the table already exists."@,
            )
        } else {
            None
        },
        Node::IndexStmt(i) => if !i.if_not_exists {
            Some(
                "CREATE INDEX without IF NOT EXISTS is not idempotent — it errors if the index already exists."@,
            )
        } else {
            None
        },
        Node::CreateSeqStmt(s) => if !s.if_not_exists {
            Some(
                "CREATE SEQUENCE without IF NOT EXISTS is not idempotent — it errors if the sequence already exists."@,
            )
        } else {
            None
        },
        Node::CreateSchemaStmt(s) => if !s.if_not_exists {
            Some(
                "CREATE SCHEMA without IF NOT EXISTS is not idempotent — it errors if the schema already exists."@,
            )
        } else {
            None
        },
        Node::CreateTableAsStmt(c) => if !c.if_not_exists && !c.is_select_into {
            match c.objtype {
                ObjectType::MatView => Some(
                    "CREATE MATERIALIZED VIEW without IF NOT EXISTS is not idempotent — it errors if the materialized view already exists."@,
                ),
                ObjectType::Table => Some(
                    "CREATE TABLE AS without IF NOT EXISTS is not idempotent — it errors if the table already exists."@,
                ),
                _ => None,
            }
        } else {
            None
        },
        Node::DropStmt(d) => unguarded_drop(d.missing_ok),
        Node::DropdbStmt(missing_ok) => unguarded_drop(missing_ok),
        Node::DropGlobalStmt(missing_ok) => unguarded_drop(missing_ok),
        _ => None,
    }
}

fn unguarded(node: &Node) -> (r: Option<&'static str>)
    ensures
        match r {
            Some(m) => unguarded_spec(*node) == Some(m@),
            None => unguarded_spec(*node) is None,
        },
{
    match node {
        Node::CreateStmt(c) => if !c.if_not_exists {
            Some(
                "CREATE TABLE without IF NOT EXISTS is not idempotent — it errors if the table already exists.",
            )
        } else {
            None
        },
        Node::IndexStmt(i) => if !i.if_not_exists {
            Some(
                "CREATE INDEX without IF NOT EXISTS is not idempotent — it errors if the index already exists.",
            )
        } else {
            None
        },
        Node::CreateSeqStmt(s) => if !s.if_not_exists {
            Some(
                "CREATE SEQUENCE without IF NOT EXISTS is not idempotent — it errors if the sequence already exists.",
            )
        } else {
            None
        },
        Node::CreateSchemaStmt(s) => if !s.if_not_exists {
            Some(
                "CREATE SCHEMA without IF NOT EXISTS is not idempotent — it errors if the schema already exists.",
            )
        } else {
            None
        },
        Node::CreateTableAsStmt(c) => if !c.if_not_exists && !c.is_select_into {
            match c.objtype {
                ObjectType::MatView => Some(
                    "CREATE MATERIALIZED VIEW without IF NOT EXISTS is not idempotent — it errors if the materialized view already exists.",
                ),
                ObjectType::Table => Some(
                    "CREATE TABLE AS without IF NOT EXISTS is not idempotent — it errors if the table already exists.",
                ),
                _ => None,
            }
        } else {
            None
        },
        Node::DropStmt(d) => drop_message(d.missing_ok),
        Node::DropdbStmt(missing_ok) => drop_message(*missing_ok),
        Node::DropGlobalStmt(missing_ok) => drop_message(*missing_ok),
        _ => None,
    }
}

/// One remark for each statement that lacks its guard.
pub open spec fn missing_if_exists_spec(stmts: Seq<RawStmt>) -> Seq<(int, Seq<char>)>
    decreases stmts.len(),
{
    if stmts.len() == 0 {
        Seq::empty()
    } else {
        let before = missing_if_exists_spec(stmts.drop_last());
        match stmts.last().stmt {
            Some(n) => match unguarded_spec(n) {
                Some(m) => before.push((stmts.len() - 1, m)),
                None => before,
            },
            None => before,
        }
    }
}

/// `(statement_index, message)` for each CREATE missing `IF NOT EXISTS` or DROP missing `IF EXISTS`.
pub fn missing_if_exists(stmts: &[RawStmt]) -> (r: Vec<(usize, String)>)
    ensures
        remarks_view(r@) == missing_if_exists_spec(stmts@),
{
    let mut out: Vec<(usize, String)> = Vec::new();
    let mut i: usize = 0;
    assert(remarks_view(out@) == Seq::<(int, Seq<char>)>::empty());
    while i < stmts.len()
        invariant
            i <= stmts@.len(),
            remarks_view(out@) == missing_if_exists_spec(stmts@.take(i as int)),
        decreases stmts@.len() - i,
    {
        proof {
            assert(stmts@.take(i + 1).drop_last() == stmts@.take(i as int));
            assert(stmts@.take(i + 1).last() == stmts@[i as int]);
        }
        if let Some(node) = &stmts[i].stmt {
            if let Some(m) = unguarded(node) {
                push_remark(&mut out, i, m.to_owned());
            }
        }
        i += 1;
    }
    assert(stmts@.take(stmts@.len() as int) == stmts@);
    out
}

} // verus!
