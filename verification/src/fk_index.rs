//! Cross-statement foreign-key index check: flag a foreign key on a column the
//! migration **creates or adds in the same statement** when no index built anywhere
//! in the migration covers that column (leads with it). A foreign key with no
//! covering index makes the parent's referential checks — and its `ON DELETE` /
//! `ON UPDATE` actions — scan and lock the child on every change. Scoped to new
//! columns because a static linter cannot know whether a pre-existing column is
//! already indexed.
use vstd::prelude::*;

use crate::ast::{node_string, node_string_spec, values, ColumnDef, ConstrType, Constraint, Node, RawStmt};
use crate::newtable::{rangevar_key, relation_key_spec};
use crate::require_columns::{contains_column, has_column, table_of, table_of_spec};
use crate::rules::{
    column_has_constraint, defined_columns, defined_columns_spec, defined_table_constraints,
    defined_table_constraints_spec, has_constraint,
};
use crate::text::str_eq;

verus! {

/// Id of this lint.
pub const ID: &'static str = "fk-without-covering-index";

/// The leading column of an index, where that is a column and not an expression.
pub open spec fn first_index_col_spec(params: Seq<Node>) -> Option<Seq<char>> {
    if params.len() > 0 {
        match params[0] {
            Node::IndexElem(e) => if e.name@.len() > 0 {
                Some(e.name@)
            } else {
                None
            },
            _ => None,
        }
    } else {
        None
    }
}

/// The leading column of an index's parameters, skipping expression elements
/// (which have an empty `name`).
pub fn first_index_col(params: &Vec<Node>) -> (r: Option<&str>)
    ensures
        match r {
            Some(c) => first_index_col_spec(params@) == Some(c@),
            None => first_index_col_spec(params@) is None,
        },
{
    if params.len() == 0 {
        return None;
    }
    match &params[0] {
        Node::IndexElem(e) => if e.name.as_str().is_empty() {
            None
        } else {
            Some(e.name.as_str())
        },
        _ => None,
    }
}

/// Whether a column is declared `PRIMARY KEY` or `UNIQUE` inline, which builds a leading index
/// on it.
pub open spec fn column_indexes(col: ColumnDef, name: Seq<char>) -> bool {
    col.colname@ == name && (has_constraint(col.constraints@, ConstrType::Primary)
        || has_constraint(col.constraints@, ConstrType::Unique))
}

/// The first of some name nodes.
pub open spec fn first_name(ns: Seq<Node>) -> Option<Seq<char>> {
    if ns.len() > 0 {
        node_string_spec(ns[0])
    } else {
        None
    }
}

fn first_name_is(ns: &Vec<Node>, name: &str) -> (r: bool)
    ensures
        r == (first_name(ns@) == Some(name@)),
{
    if ns.len() == 0 {
        return false;
    }
    match node_string(&ns[0]) {
        Some(s) => str_eq(s, name),
        None => false,
    }
}

/// Whether a table-level primary key or unique constraint leads with the column.
pub open spec fn constraint_indexes(con: Constraint, name: Seq<char>) -> bool {
    (con.contype == ConstrType::Primary || con.contype == ConstrType::Unique) && first_name(
        con.keys@,
    ) == Some(name)
}

/// Whether a statement creates an index on the table that leads with the column.
pub open spec fn covers(raw: RawStmt, table: Seq<char>, name: Seq<char>) -> bool {
    match raw.stmt {
        Some(node) => match node {
            Node::IndexStmt(idx) => relation_key_spec(idx.relation) == Some(table)
                && first_index_col_spec(idx.index_params@) == Some(name),
            _ => table_of_spec(node) == Some(table) && ((exists|i: int|
                0 <= i < defined_columns_spec(node).len() && column_indexes(
                    #[trigger] defined_columns_spec(node)[i],
                    name,
                )) || (exists|i: int|
                0 <= i < defined_table_constraints_spec(node).len() && constraint_indexes(
                    #[trigger] defined_table_constraints_spec(node)[i],
                    name,
                ))),
        },
        None => false,
    }
}

/// Whether some statement creates an index on the table that leads with the column.
pub open spec fn is_covered(stmts: Seq<RawStmt>, table: Seq<char>, name: Seq<char>) -> bool {
    exists|i: int| 0 <= i < stmts.len() && covers(#[trigger] stmts[i], table, name)
}

/// Whether a statement creates an index on the table that leads with the column.
fn statement_covers(raw: &RawStmt, table: &str, name: &str) -> (r: bool)
    ensures
        r == covers(*raw, table@, name@),
{
    let node = match &raw.stmt {
        Some(n) => n,
        None => {
            return false;
        },
    };
    if let Node::IndexStmt(idx) = node {
        return match (&idx.relation, first_index_col(&idx.index_params)) {
            (Some(rv), Some(col)) => {
                let key = rangevar_key(rv);
                str_eq(key.as_str(), table) && str_eq(col, name)
            },
            _ => false,
        };
    }
    match table_of(node) {
        Some(t) => if !str_eq(t.as_str(), table) {
            return false;
        },
        None => {
            return false;
        },
    }
    let cols = defined_columns(node);
    let ghost cv = values(cols@);
    let mut i: usize = 0;
    while i < cols.len()
        invariant
            i <= cols@.len(),
            cv == values(cols@),
            cv == defined_columns_spec(*node),
            raw.stmt == Some(*node),
            !(node is IndexStmt),
            table_of_spec(*node) == Some(table@),
            forall|j: int| 0 <= j < i ==> !column_indexes(#[trigger] cv[j], name@),
        decreases cols@.len() - i,
    {
        assert(cv[i as int] == *cols@[i as int]);
        if str_eq(cols[i].colname.as_str(), name) && (column_has_constraint(
            cols[i],
            ConstrType::Primary,
        ) || column_has_constraint(cols[i], ConstrType::Unique)) {
            assert(column_indexes(defined_columns_spec(*node)[i as int], name@));
            return true;
        }
        i += 1;
    }
    let cons = defined_table_constraints(node);
    let ghost kv = values(cons@);
    let mut k: usize = 0;
    while k < cons.len()
        invariant
            k <= cons@.len(),
            kv == values(cons@),
            kv == defined_table_constraints_spec(*node),
            raw.stmt == Some(*node),
            !(node is IndexStmt),
            table_of_spec(*node) == Some(table@),
            forall|j: int| 0 <= j < k ==> !constraint_indexes(#[trigger] kv[j], name@),
        decreases cons@.len() - k,
    {
        assert(kv[k as int] == *cons@[k as int]);
        if (cons[k].contype == ConstrType::Primary || cons[k].contype == ConstrType::Unique)
            && first_name_is(&cons[k].keys, name) {
            assert(constraint_indexes(defined_table_constraints_spec(*node)[k as int], name@));
            return true;
        }
        k += 1;
    }
    false
}

fn column_covered(stmts: &[RawStmt], table: &str, name: &str) -> (r: bool)
    ensures
        r == is_covered(stmts@, table@, name@),
{
    let mut i: usize = 0;
    while i < stmts.len()
        invariant
            i <= stmts@.len(),
            forall|j: int| 0 <= j < i ==> !covers(#[trigger] stmts@[j], table@, name@),
        decreases stmts@.len() - i,
    {
        if statement_covers(&stmts[i], table, name) {
            return true;
        }
        i += 1;
    }
    false
}

/// The foreign keys that columns declare inline.
pub open spec fn inline_fks(
    i: int,
    table: Seq<char>,
    cols: Seq<ColumnDef>,
) -> Seq<(int, Seq<char>, Seq<char>)>
    decreases cols.len(),
{
    if cols.len() == 0 {
        Seq::empty()
    } else {
        let before = inline_fks(i, table, cols.drop_last());
        if has_constraint(cols.last().constraints@, ConstrType::Foreign) {
            before.push((i, table, cols.last().colname@))
        } else {
            before
        }
    }
}

/// The table-level foreign keys whose first column is one of `cols`.
pub open spec fn table_fks(
    i: int,
    table: Seq<char>,
    cols: Seq<ColumnDef>,
    cons: Seq<Constraint>,
) -> Seq<(int, Seq<char>, Seq<char>)>
    decreases cons.len(),
{
    if cons.len() == 0 {
        Seq::empty()
    } else {
        let before = table_fks(i, table, cols, cons.drop_last());
        match first_name(cons.last().fk_attrs@) {
            Some(first) => if cons.last().contype == ConstrType::Foreign && has_column(
                cols,
                first,
            ) {
                before.push((i, table, first))
            } else {
                before
            },
            None => before,
        }
    }
}

/// The foreign keys a statement declares on a new column.
pub open spec fn new_fks_of(i: int, node: Node) -> Seq<(int, Seq<char>, Seq<char>)> {
    match table_of_spec(node) {
        Some(table) => inline_fks(i, table, defined_columns_spec(node)) + table_fks(
            i,
            table,
            defined_columns_spec(node),
            defined_table_constraints_spec(node),
        ),
        None => Seq::empty(),
    }
}

/// The foreign keys that the first `n` statements declare on new columns.
pub open spec fn new_fks(stmts: Seq<RawStmt>, n: int) -> Seq<(int, Seq<char>, Seq<char>)>
    decreases n,
{
    if n <= 0 {
        Seq::empty()
    } else {
        new_fks(stmts, n - 1) + match stmts[n - 1].stmt {
            Some(node) => new_fks_of(n - 1, node),
            None => Seq::empty(),
        }
    }
}

/// What a list of foreign keys holds.
pub open spec fn fks_view(v: Seq<(usize, String, String)>) -> Seq<(int, Seq<char>, Seq<char>)> {
    v.map_values(|x: (usize, String, String)| (x.0 as int, x.1@, x.2@))
}

pub(crate) fn push_fk(out: &mut Vec<(usize, String, String)>, i: usize, table: &str, col: &str)
    ensures
        fks_view(final(out)@) == fks_view(old(out)@).push((i as int, table@, col@)),
{
    let fk = (i, table.to_owned(), col.to_owned());
    assert(fks_view(out@.push(fk)) == fks_view(out@).push((i as int, table@, col@)));
    out.push(fk);
}

/// Record every foreign key this statement declares on a NEW column, as
/// `(statement_index, table_key, referencing_column)` (multi-column FKs key on the first).
pub fn collect_new_fks(i: usize, node: &Node, out: &mut Vec<(usize, String, String)>)
    ensures
        fks_view(final(out)@) == fks_view(old(out)@) + new_fks_of(i as int, *node),
{
    let ghost before = fks_view(out@);
    assert(before + Seq::<(int, Seq<char>, Seq<char>)>::empty() == before);
    let table = match table_of(node) {
        Some(t) => t,
        None => {
            return;
        },
    };
    let cols = defined_columns(node);
    let ghost cv = values(cols@);
    let mut j: usize = 0;
    assert(before + inline_fks(i as int, table@, cv.take(0)) == before);
    while j < cols.len()
        invariant
            j <= cols@.len(),
            cv == values(cols@),
            fks_view(out@) == before + inline_fks(i as int, table@, cv.take(j as int)),
        decreases cols@.len() - j,
    {
        proof {
            assert(cv.take(j + 1).drop_last() == cv.take(j as int));
            assert(cv.take(j + 1).last() == *cols@[j as int]);
        }
        if column_has_constraint(cols[j], ConstrType::Foreign) {
            push_fk(out, i, table.as_str(), cols[j].colname.as_str());
        }
        assert(fks_view(out@) == before + inline_fks(i as int, table@, cv.take(j + 1)));
        j += 1;
    }
    assert(cv.take(cv.len() as int) == cv);
    let ghost lead = fks_view(out@);
    let cons = defined_table_constraints(node);
    let ghost kv = values(cons@);
    let mut k: usize = 0;
    assert(lead + table_fks(i as int, table@, cv, kv.take(0)) == lead);
    while k < cons.len()
        invariant
            k <= cons@.len(),
            cv == values(cols@),
            kv == values(cons@),
            fks_view(out@) == lead + table_fks(i as int, table@, cv, kv.take(k as int)),
        decreases cons@.len() - k,
    {
        proof {
            assert(kv.take(k + 1).drop_last() == kv.take(k as int));
            assert(kv.take(k + 1).last() == *cons@[k as int]);
        }
        let con = cons[k];
        if con.contype == ConstrType::Foreign && con.fk_attrs.len() > 0 {
            if let Some(first) = node_string(&con.fk_attrs[0]) {
                if contains_column(&cols, first) {
                    push_fk(out, i, table.as_str(), first);
                }
            }
        }
        assert(fks_view(out@) == lead + table_fks(i as int, table@, cv, kv.take(k + 1)));
        k += 1;
    }
    assert(kv.take(kv.len() as int) == kv);
    assert(fks_view(out@) == before + new_fks_of(i as int, *node));
}

/// Whether a foreign key on that table and column stands among some.
pub open spec fn has_fk(
    fks: Seq<(int, Seq<char>, Seq<char>)>,
    table: Seq<char>,
    col: Seq<char>,
) -> bool {
    exists|i: int|
        0 <= i < fks.len() && (#[trigger] fks[i]).1 == table && fks[i].2 == col
}

/// The foreign keys that no index covers, each table and column once.
pub open spec fn uncovered(
    stmts: Seq<RawStmt>,
    fks: Seq<(int, Seq<char>, Seq<char>)>,
) -> Seq<(int, Seq<char>, Seq<char>)>
    decreases fks.len(),
{
    if fks.len() == 0 {
        Seq::empty()
    } else {
        let before = uncovered(stmts, fks.drop_last());
        let (i, table, col) = fks.last();
        if is_covered(stmts, table, col) || has_fk(before, table, col) {
            before
        } else {
            before.push(fks.last())
        }
    }
}

pub(crate) fn contains_fk(fks: &Vec<(usize, String, String)>, table: &str, col: &str) -> (r: bool)
    ensures
        r == has_fk(fks_view(fks@), table@, col@),
{
    let ghost fv = fks_view(fks@);
    let mut i: usize = 0;
    while i < fks.len()
        invariant
            i <= fks@.len(),
            fv == fks_view(fks@),
            forall|j: int|
                0 <= j < i ==> !((#[trigger] fv[j]).1 == table@ && fv[j].2 == col@),
        decreases fks@.len() - i,
    {
        assert(fv[i as int] == (fks@[i as int].0 as int, fks@[i as int].1@, fks@[i as int].2@));
        if str_eq(fks[i].1.as_str(), table) && str_eq(fks[i].2.as_str(), col) {
            return true;
        }
        i += 1;
    }
    false
}

/// The foreign keys on new columns, in statement order.
pub fn recorded_fks(stmts: &[RawStmt]) -> (r: Vec<(usize, String, String)>)
    ensures
        fks_view(r@) == new_fks(stmts@, stmts@.len() as int),
{
    let mut found: Vec<(usize, String, String)> = Vec::new();
    let mut i: usize = 0;
    assert(fks_view(found@) == Seq::<(int, Seq<char>, Seq<char>)>::empty());
    while i < stmts.len()
        invariant
            i <= stmts@.len(),
            fks_view(found@) == new_fks(stmts@, i as int),
        decreases stmts@.len() - i,
    {
        let ghost before = fks_view(found@);
        assert(before + Seq::<(int, Seq<char>, Seq<char>)>::empty() == before);
        if let Some(node) = &stmts[i].stmt {
            collect_new_fks(i, node, &mut found);
        }
        i += 1;
    }
    found
}

/// New-column foreign keys with no covering index anywhere in the migration, as
/// `(statement_index, table_key, referencing_column)`. Duplicates (same table+column)
/// collapse to the first occurrence.
pub fn fk_without_index(stmts: &[RawStmt]) -> (r: Vec<(usize, String, String)>)
    ensures
        fks_view(r@) == uncovered(stmts@, new_fks(stmts@, stmts@.len() as int)),
{
    let ghost all = stmts@;
    let found = recorded_fks(stmts);
    let ghost fv = fks_view(found@);
    let mut out: Vec<(usize, String, String)> = Vec::new();
    let mut k: usize = 0;
    assert(fks_view(out@) == Seq::<(int, Seq<char>, Seq<char>)>::empty());
    while k < found.len()
        invariant
            k <= found@.len(),
            all == stmts@,
            fv == fks_view(found@),
            fks_view(out@) == uncovered(all, fv.take(k as int)),
        decreases found@.len() - k,
    {
        proof {
            assert(fv.take(k + 1).drop_last() == fv.take(k as int));
            assert(fv.take(k + 1).last() == fv[k as int]);
        }
        let table = found[k].1.as_str();
        let col = found[k].2.as_str();
        if !column_covered(stmts, table, col) && !contains_fk(&out, table, col) {
            push_fk(&mut out, found[k].0, table, col);
        }
        k += 1;
    }
    assert(fv.take(fv.len() as int) == fv);
    out
}

} // verus!
