//! Policy lint (opt-in): flag a new column that the migration leaves nullable. Cross-statement — a
//! later `SET NOT NULL` or primary key in the same migration counts.
use vstd::prelude::*;

use crate::ast::{
    node_string, node_string_spec, values, AlterTableCmd, AlterTableType, ColumnDef, ConstrType,
    Constraint, Node, RawStmt,
};
use crate::policy::{push_remark, remarks_view};
use crate::require_columns::{table_of, table_of_spec};
use crate::require_comment::{introduced_table, introduced_table_spec};
use crate::rules::add_column_serial::{is_serial, is_serial_spec};
use crate::rules::{
    alter_table_cmds, alter_table_cmds_spec, column_has_constraint, defined_columns,
    defined_columns_spec, defined_table_constraints, defined_table_constraints_spec,
    has_constraint,
};
use crate::text::str_eq;

verus! {

/// Id of this lint.
pub const ID: &'static str = "require-not-null";

/// How to satisfy it.
pub const GUIDANCE: &'static str =
    "Declare the column NOT NULL; on a populated table, add it nullable, backfill it, and set NOT \
     NULL over a validated CHECK constraint.";

/// Whether a column definition rules out nulls: by `NOT NULL`, as a primary key, as an identity
/// column, or by a serial type.
pub open spec fn declared_not_null(col: ColumnDef) -> bool {
    ||| has_constraint(col.constraints@, ConstrType::NotNull)
    ||| has_constraint(col.constraints@, ConstrType::Primary)
    ||| has_constraint(col.constraints@, ConstrType::Identity)
    ||| is_serial_spec(col)
}

/// Whether a column of that name rules out nulls by its definition.
pub open spec fn defines_not_null(col: ColumnDef, name: Seq<char>) -> bool {
    col.colname@ == name && declared_not_null(col)
}

/// Whether some name nodes hold a name.
pub open spec fn names_hold(ns: Seq<Node>, name: Seq<char>) -> bool {
    exists|i: int| 0 <= i < ns.len() && node_string_spec(#[trigger] ns[i]) == Some(name)
}

/// Whether a table constraint is a primary key over the column.
pub open spec fn keys_column(con: Constraint, name: Seq<char>) -> bool {
    con.contype == ConstrType::Primary && names_hold(con.keys@, name)
}

/// Whether a command sets the column `NOT NULL`.
pub open spec fn sets_not_null(cmd: AlterTableCmd, name: Seq<char>) -> bool {
    cmd.subtype == AlterTableType::SetNotNull && cmd.name@ == name
}

/// Whether a `CREATE TABLE` or `ALTER TABLE` makes the column of its table `NOT NULL`.
pub open spec fn secures(node: Node, name: Seq<char>) -> bool {
    ||| exists|i: int|
        0 <= i < defined_columns_spec(node).len() && defines_not_null(
            #[trigger] defined_columns_spec(node)[i],
            name,
        )
    ||| exists|i: int|
        0 <= i < defined_table_constraints_spec(node).len() && keys_column(
            #[trigger] defined_table_constraints_spec(node)[i],
            name,
        )
    ||| exists|i: int|
        0 <= i < alter_table_cmds_spec(node).len() && sets_not_null(
            #[trigger] alter_table_cmds_spec(node)[i],
            name,
        )
}

/// Whether a statement makes the column of the table `NOT NULL`.
pub open spec fn secures_column(raw: RawStmt, table: Seq<char>, name: Seq<char>) -> bool {
    raw.stmt matches Some(n) && table_of_spec(n) == Some(table) && secures(n, name)
}

/// Whether no statement makes the column of the table `NOT NULL`.
pub open spec fn is_nullable(stmts: Seq<RawStmt>, table: Seq<char>, name: Seq<char>) -> bool {
    forall|i: int| 0 <= i < stmts.len() ==> !secures_column(#[trigger] stmts[i], table, name)
}

fn rules_out_nulls(col: &ColumnDef) -> (r: bool)
    ensures
        r == declared_not_null(*col),
{
    column_has_constraint(col, ConstrType::NotNull) || column_has_constraint(
        col,
        ConstrType::Primary,
    ) || column_has_constraint(col, ConstrType::Identity) || is_serial(col)
}

fn names_contain(ns: &Vec<Node>, name: &str) -> (r: bool)
    ensures
        r == names_hold(ns@, name@),
{
    let mut i: usize = 0;
    while i < ns.len()
        invariant
            i <= ns@.len(),
            forall|j: int| 0 <= j < i ==> node_string_spec(#[trigger] ns@[j]) != Some(name@),
        decreases ns@.len() - i,
    {
        if let Some(s) = node_string(&ns[i]) {
            if str_eq(s, name) {
                return true;
            }
        }
        i += 1;
    }
    false
}

fn columns_secure(node: &Node, name: &str) -> (r: bool)
    ensures
        r == exists|i: int|
            0 <= i < defined_columns_spec(*node).len() && defines_not_null(
                #[trigger] defined_columns_spec(*node)[i],
                name@,
            ),
{
    let cols = defined_columns(node);
    let ghost cv = values(cols@);
    let mut i: usize = 0;
    while i < cols.len()
        invariant
            i <= cols@.len(),
            cv == values(cols@),
            cv == defined_columns_spec(*node),
            forall|j: int| 0 <= j < i ==> !defines_not_null(#[trigger] cv[j], name@),
        decreases cols@.len() - i,
    {
        assert(cv[i as int] == *cols@[i as int]);
        if str_eq(cols[i].colname.as_str(), name) && rules_out_nulls(cols[i]) {
            assert(defines_not_null(defined_columns_spec(*node)[i as int], name@));
            return true;
        }
        i += 1;
    }
    false
}

fn constraints_secure(node: &Node, name: &str) -> (r: bool)
    ensures
        r == exists|i: int|
            0 <= i < defined_table_constraints_spec(*node).len() && keys_column(
                #[trigger] defined_table_constraints_spec(*node)[i],
                name@,
            ),
{
    let cons = defined_table_constraints(node);
    let ghost kv = values(cons@);
    let mut i: usize = 0;
    while i < cons.len()
        invariant
            i <= cons@.len(),
            kv == values(cons@),
            kv == defined_table_constraints_spec(*node),
            forall|j: int| 0 <= j < i ==> !keys_column(#[trigger] kv[j], name@),
        decreases cons@.len() - i,
    {
        assert(kv[i as int] == *cons@[i as int]);
        if cons[i].contype == ConstrType::Primary && names_contain(&cons[i].keys, name) {
            assert(keys_column(defined_table_constraints_spec(*node)[i as int], name@));
            return true;
        }
        i += 1;
    }
    false
}

fn commands_secure(node: &Node, name: &str) -> (r: bool)
    ensures
        r == exists|i: int|
            0 <= i < alter_table_cmds_spec(*node).len() && sets_not_null(
                #[trigger] alter_table_cmds_spec(*node)[i],
                name@,
            ),
{
    let cmds = alter_table_cmds(node);
    let ghost cv = values(cmds@);
    let mut i: usize = 0;
    while i < cmds.len()
        invariant
            i <= cmds@.len(),
            cv == values(cmds@),
            cv == alter_table_cmds_spec(*node),
            forall|j: int| 0 <= j < i ==> !sets_not_null(#[trigger] cv[j], name@),
        decreases cmds@.len() - i,
    {
        assert(cv[i as int] == *cmds@[i as int]);
        if cmds[i].subtype == AlterTableType::SetNotNull && str_eq(cmds[i].name.as_str(), name) {
            assert(sets_not_null(alter_table_cmds_spec(*node)[i as int], name@));
            return true;
        }
        i += 1;
    }
    false
}

/// Whether no statement makes the column of the table `NOT NULL`.
pub fn column_nullable(stmts: &[RawStmt], table: &str, name: &str) -> (r: bool)
    ensures
        r == is_nullable(stmts@, table@, name@),
{
    let mut i: usize = 0;
    while i < stmts.len()
        invariant
            i <= stmts@.len(),
            forall|j: int| 0 <= j < i ==> !secures_column(#[trigger] stmts@[j], table@, name@),
        decreases stmts@.len() - i,
    {
        if let Some(node) = &stmts[i].stmt {
            if let Some(t) = table_of(node) {
                if str_eq(t.as_str(), table) && (columns_secure(node, name) || constraints_secure(
                    node,
                    name,
                ) || commands_secure(node, name)) {
                    assert(secures_column(stmts@[i as int], table@, name@));
                    return false;
                }
            }
        }
        i += 1;
    }
    true
}

/// The remark on a nullable column.
pub open spec fn nullable_message(table: Seq<char>, name: Seq<char>) -> Seq<char> {
    "The column `"@ + table + "."@ + name + "` is nullable."@
}

/// The remarks on the nullable ones of some new columns.
pub open spec fn nullable_remarks(
    stmts: Seq<RawStmt>,
    i: int,
    table: Seq<char>,
    cols: Seq<ColumnDef>,
) -> Seq<(int, Seq<char>)>
    decreases cols.len(),
{
    if cols.len() == 0 {
        Seq::empty()
    } else {
        let before = nullable_remarks(stmts, i, table, cols.drop_last());
        let name = cols.last().colname@;
        if is_nullable(stmts, table, name) {
            before.push((i, nullable_message(table, name)))
        } else {
            before
        }
    }
}

/// The remarks on the first `n` statements.
pub open spec fn nullable_columns_spec(stmts: Seq<RawStmt>, n: int) -> Seq<(int, Seq<char>)>
    decreases n,
{
    if n <= 0 {
        Seq::empty()
    } else {
        nullable_columns_spec(stmts, n - 1) + match stmts[n - 1].stmt {
            Some(node) => match introduced_table_spec(node) {
                Some((table, _)) => nullable_remarks(
                    stmts,
                    n - 1,
                    table,
                    defined_columns_spec(node),
                ),
                None => Seq::empty(),
            },
            None => Seq::empty(),
        }
    }
}

/// `(statement_index, message)` for each new column the migration leaves nullable.
pub fn nullable_columns(stmts: &[RawStmt]) -> (r: Vec<(usize, String)>)
    ensures
        remarks_view(r@) == nullable_columns_spec(stmts@, stmts@.len() as int),
{
    let ghost all = stmts@;
    let mut out: Vec<(usize, String)> = Vec::new();
    let mut i: usize = 0;
    assert(remarks_view(out@) == Seq::<(int, Seq<char>)>::empty());
    while i < stmts.len()
        invariant
            i <= stmts@.len(),
            all == stmts@,
            remarks_view(out@) == nullable_columns_spec(all, i as int),
        decreases stmts@.len() - i,
    {
        let ghost before = remarks_view(out@);
        assert(before + Seq::<(int, Seq<char>)>::empty() == before);
        if let Some(node) = &stmts[i].stmt {
            if let Some((table, _new_table)) = introduced_table(node) {
                let cols = defined_columns(node);
                let ghost cv = values(cols@);
                let mut j: usize = 0;
                assert(before + nullable_remarks(all, i as int, table@, cv.take(0)) == before);
                while j < cols.len()
                    invariant
                        j <= cols@.len(),
                        all == stmts@,
                        cv == values(cols@),
                        remarks_view(out@) == before + nullable_remarks(
                            all,
                            i as int,
                            table@,
                            cv.take(j as int),
                        ),
                    decreases cols@.len() - j,
                {
                    proof {
                        assert(cv.take(j + 1).drop_last() == cv.take(j as int));
                        assert(cv.take(j + 1).last() == *cols@[j as int]);
                    }
                    let name = cols[j].colname.as_str();
                    if column_nullable(stmts, table.as_str(), name) {
                        let mut m = "The column `".to_owned();
                        m.append(table.as_str());
                        m.append(".");
                        m.append(name);
                        m.append("` is nullable.");
                        push_remark(&mut out, i, m);
                    }
                    assert(remarks_view(out@) == before + nullable_remarks(
                        all,
                        i as int,
                        table@,
                        cv.take(j + 1),
                    ));
                    j += 1;
                }
                assert(cv.take(cv.len() as int) == cv);
            }
        }
        i += 1;
    }
    out
}

} // verus!
