//! What holds of the foreign keys that a migration declares, and of the indexes that cover them.
use vstd::prelude::*;

use crate::ast::{ColumnDef, ConstrType, Constraint, Node, RawStmt};
use crate::fk_index::{
    column_indexes, constraint_indexes, covers, has_fk, inline_fks, is_covered, new_fks,
    new_fks_of, table_fks, uncovered,
};
use crate::newtable_laws::key_of;
use crate::require_columns::has_column;
use crate::rules::{defined_columns_spec, defined_table_constraints_spec};
use crate::tree_laws::{
    a_column_carries_its_constraints, a_statement_defines_its_columns,
    a_statement_has_its_constraints, carries, defines_column, defines_constraint,
};

verus! {

/// Whether a statement is a `CREATE TABLE` or `ALTER TABLE` of the table.
pub open spec fn is_about(node: Node, table: Seq<char>) -> bool {
    ||| node matches Node::CreateStmt(c) && (c.relation matches Some(rv) && key_of(rv) == table)
    ||| node matches Node::AlterTableStmt(a) && (a.relation matches Some(rv) && key_of(rv)
        == table)
}

/// Whether some name nodes begin with the name.
pub open spec fn begins_with(ns: Seq<Node>, name: Seq<char>) -> bool {
    ns.len() > 0 && (ns[0] matches Node::Str(s) && s@ == name)
}

/// Whether a constraint builds an index of its own.
pub open spec fn is_unique_kind(t: ConstrType) -> bool {
    t == ConstrType::Primary || t == ConstrType::Unique
}

/// Whether a column of that name is declared `PRIMARY KEY` or `UNIQUE` inline.
pub open spec fn is_unique_column(c: ColumnDef, name: Seq<char>) -> bool {
    c.colname@ == name && (carries(c, ConstrType::Primary) || carries(c, ConstrType::Unique))
}

/// Whether a statement builds an index on the table whose leading column is that one: by `CREATE
/// INDEX`, by an inline `PRIMARY KEY` or `UNIQUE`, or by a table-level one whose first key it is.
pub open spec fn indexes(raw: RawStmt, table: Seq<char>, col: Seq<char>) -> bool {
    ||| raw.stmt matches Some(Node::IndexStmt(x)) && (x.relation matches Some(rv) && key_of(rv)
        == table) && x.index_params@.len() > 0 && (x.index_params@[0] matches Node::IndexElem(e)
        && e.name@ == col && col.len() > 0)
    ||| raw.stmt matches Some(n) && is_about(n, table) && exists|c: ColumnDef| #[trigger]
        defines_column(n, c) && is_unique_column(c, col)
    ||| raw.stmt matches Some(n) && is_about(n, table) && exists|k: Constraint| #[trigger]
        defines_constraint(n, k) && is_unique_kind(k.contype) && begins_with(k.keys@, col)
}

/// Whether a statement declares a foreign key on a column that it also defines: inline, or by a
/// table-level constraint whose first referencing column it is.
pub open spec fn references(raw: RawStmt, table: Seq<char>, col: Seq<char>) -> bool {
    raw.stmt matches Some(n) && is_about(n, table) && exists|c: ColumnDef| #[trigger]
        defines_column(n, c) && c.colname@ == col && (carries(c, ConstrType::Foreign) || exists|
            k: Constraint,
        | #[trigger]
            defines_constraint(n, k) && k.contype == ConstrType::Foreign && begins_with(
                k.fk_attrs@,
                col,
            ))
}

proof fn lemma_covers(raw: RawStmt, table: Seq<char>, col: Seq<char>)
    ensures
        covers(raw, table, col) <==> indexes(raw, table, col),
{
    if let Some(n) = raw.stmt {
        let cols = defined_columns_spec(n);
        let cons = defined_table_constraints_spec(n);
        if !(n is IndexStmt) {
            if covers(raw, table, col) {
                if exists|i: int| 0 <= i < cols.len() && column_indexes(#[trigger] cols[i], col) {
                    let i = choose|i: int|
                        0 <= i < cols.len() && column_indexes(#[trigger] cols[i], col);
                    a_statement_defines_its_columns(n, cols[i]);
                    a_column_carries_its_constraints(cols[i], ConstrType::Primary);
                    a_column_carries_its_constraints(cols[i], ConstrType::Unique);
                    assert(defines_column(n, cols[i]));
                } else {
                    let i = choose|i: int|
                        0 <= i < cons.len() && constraint_indexes(#[trigger] cons[i], col);
                    a_statement_has_its_constraints(n, cons[i]);
                    assert(defines_constraint(n, cons[i]));
                }
            }
            if indexes(raw, table, col) {
                if exists|c: ColumnDef| #[trigger]
                    defines_column(n, c) && is_unique_column(c, col) {
                    let c = choose|c: ColumnDef| #[trigger]
                        defines_column(n, c) && is_unique_column(c, col);
                    a_statement_defines_its_columns(n, c);
                    a_column_carries_its_constraints(c, ConstrType::Primary);
                    a_column_carries_its_constraints(c, ConstrType::Unique);
                    let i = choose|i: int| 0 <= i < cols.len() && cols[i] == c;
                    assert(column_indexes(cols[i], col));
                } else {
                    let k = choose|k: Constraint| #[trigger]
                        defines_constraint(n, k) && is_unique_kind(k.contype) && begins_with(
                            k.keys@,
                            col,
                        );
                    a_statement_has_its_constraints(n, k);
                    let i = choose|i: int| 0 <= i < cons.len() && cons[i] == k;
                    assert(constraint_indexes(cons[i], col));
                }
            }
        }
    }
}

proof fn lemma_inline_fks(i: int, table: Seq<char>, cols: Seq<ColumnDef>, col: Seq<char>)
    ensures
        forall|k: int|
            0 <= k < inline_fks(i, table, cols).len() ==> (#[trigger] inline_fks(i, table, cols)[k]).0
                == i && inline_fks(i, table, cols)[k].1 == table,
        has_fk(inline_fks(i, table, cols), table, col) <==> exists|k: int|
            0 <= k < cols.len() && (#[trigger] cols[k]).colname@ == col && carries(
                cols[k],
                ConstrType::Foreign,
            ),
    decreases cols.len(),
{
    if cols.len() > 0 {
        let init = cols.drop_last();
        lemma_inline_fks(i, table, init, col);
        let before = inline_fks(i, table, init);
        let after = inline_fks(i, table, cols);
        a_column_carries_its_constraints(cols.last(), ConstrType::Foreign);
        assert(forall|k: int| 0 <= k < init.len() ==> #[trigger] init[k] == cols[k]);
        assert(forall|k: int| 0 <= k < before.len() ==> #[trigger] before[k] == after[k]);
        if has_fk(before, table, col) {
            let k = choose|k: int|
                0 <= k < before.len() && (#[trigger] before[k]).1 == table && before[k].2 == col;
            assert(after[k].1 == table && after[k].2 == col);
            let m = choose|m: int|
                0 <= m < init.len() && (#[trigger] init[m]).colname@ == col && carries(
                    init[m],
                    ConstrType::Foreign,
                );
            assert(cols[m].colname@ == col);
        } else if cols.last().colname@ == col && carries(cols.last(), ConstrType::Foreign) {
            assert(after[before.len() as int].1 == table);
            assert(cols[cols.len() - 1].colname@ == col);
        } else {
            if has_fk(after, table, col) {
                let k = choose|k: int|
                    0 <= k < after.len() && (#[trigger] after[k]).1 == table && after[k].2 == col;
                if k < before.len() {
                    assert(before[k].1 == table && before[k].2 == col);
                }
            }
            if exists|k: int|
                0 <= k < cols.len() && (#[trigger] cols[k]).colname@ == col && carries(
                    cols[k],
                    ConstrType::Foreign,
                ) {
                let k = choose|k: int|
                    0 <= k < cols.len() && (#[trigger] cols[k]).colname@ == col && carries(
                        cols[k],
                        ConstrType::Foreign,
                    );
                assert(init[k].colname@ == col);
            }
        }
    }
}

proof fn lemma_table_fks(
    i: int,
    table: Seq<char>,
    cols: Seq<ColumnDef>,
    cons: Seq<Constraint>,
    col: Seq<char>,
)
    ensures
        forall|k: int|
            0 <= k < table_fks(i, table, cols, cons).len() ==> (#[trigger] table_fks(
                i,
                table,
                cols,
                cons,
            )[k]).0 == i && table_fks(i, table, cols, cons)[k].1 == table,
        has_fk(table_fks(i, table, cols, cons), table, col) <==> has_column(cols, col) && exists|
            k: int,
        |
            0 <= k < cons.len() && (#[trigger] cons[k]).contype == ConstrType::Foreign
                && begins_with(cons[k].fk_attrs@, col),
    decreases cons.len(),
{
    if cons.len() > 0 {
        let init = cons.drop_last();
        lemma_table_fks(i, table, cols, init, col);
        let before = table_fks(i, table, cols, init);
        let after = table_fks(i, table, cols, cons);
        let last = cons.last();
        assert(forall|k: int| 0 <= k < init.len() ==> #[trigger] init[k] == cons[k]);
        assert(forall|k: int| 0 <= k < before.len() ==> #[trigger] before[k] == after[k]);
        if has_fk(before, table, col) {
            let k = choose|k: int|
                0 <= k < before.len() && (#[trigger] before[k]).1 == table && before[k].2 == col;
            assert(after[k].1 == table && after[k].2 == col);
            let m = choose|m: int|
                0 <= m < init.len() && (#[trigger] init[m]).contype == ConstrType::Foreign
                    && begins_with(init[m].fk_attrs@, col);
            assert(cons[m].contype == ConstrType::Foreign);
        } else if last.contype == ConstrType::Foreign && begins_with(last.fk_attrs@, col)
            && has_column(cols, col) {
            assert(after[before.len() as int].1 == table);
            assert(cons[cons.len() - 1].contype == ConstrType::Foreign);
        } else {
            if has_fk(after, table, col) {
                let k = choose|k: int|
                    0 <= k < after.len() && (#[trigger] after[k]).1 == table && after[k].2 == col;
                if k < before.len() {
                    assert(before[k].1 == table && before[k].2 == col);
                }
            }
            if has_column(cols, col) && exists|k: int|
                0 <= k < cons.len() && (#[trigger] cons[k]).contype == ConstrType::Foreign
                    && begins_with(cons[k].fk_attrs@, col) {
                let k = choose|k: int|
                    0 <= k < cons.len() && (#[trigger] cons[k]).contype == ConstrType::Foreign
                        && begins_with(cons[k].fk_attrs@, col);
                assert(init[k].contype == ConstrType::Foreign);
            }
        }
    }
}

proof fn lemma_has_fk_concat(
    a: Seq<(int, Seq<char>, Seq<char>)>,
    b: Seq<(int, Seq<char>, Seq<char>)>,
    table: Seq<char>,
    col: Seq<char>,
)
    ensures
        has_fk(a + b, table, col) <==> has_fk(a, table, col) || has_fk(b, table, col),
{
    let c = a + b;
    if has_fk(a, table, col) {
        let k = choose|k: int|
            0 <= k < a.len() && (#[trigger] a[k]).1 == table && a[k].2 == col;
        assert(c[k].1 == table && c[k].2 == col);
    }
    if has_fk(b, table, col) {
        let k = choose|k: int|
            0 <= k < b.len() && (#[trigger] b[k]).1 == table && b[k].2 == col;
        assert(c[a.len() + k].1 == table && c[a.len() + k].2 == col);
    }
    if has_fk(c, table, col) {
        let k = choose|k: int|
            0 <= k < c.len() && (#[trigger] c[k]).1 == table && c[k].2 == col;
        if k < a.len() {
            assert(a[k].1 == table && a[k].2 == col);
        } else {
            assert(b[k - a.len()].1 == table && b[k - a.len()].2 == col);
        }
    }
}

proof fn lemma_references(i: int, raw: RawStmt, table: Seq<char>, col: Seq<char>)
    ensures
        raw.stmt matches Some(n) ==> (has_fk(new_fks_of(i, n), table, col) <==> references(
            raw,
            table,
            col,
        )),
        raw.stmt matches Some(n) ==> forall|k: int|
            0 <= k < new_fks_of(i, n).len() ==> (#[trigger] new_fks_of(i, n)[k]).0 == i,
{
    if let Some(n) = raw.stmt {
        let cols = defined_columns_spec(n);
        let cons = defined_table_constraints_spec(n);
        let found = new_fks_of(i, n);
        if let Some(t) = crate::require_columns::table_of_spec(n) {
            lemma_inline_fks(i, t, cols, col);
            lemma_table_fks(i, t, cols, cons, col);
            let a = inline_fks(i, t, cols);
            let b = table_fks(i, t, cols, cons);
            assert(found == a + b);
            lemma_has_fk_concat(a, b, t, col);
            if t != table && has_fk(found, table, col) {
                let k = choose|k: int|
                    0 <= k < found.len() && (#[trigger] found[k]).1 == table && found[k].2 == col;
                if k < a.len() {
                    assert(a[k].1 == table);
                } else {
                    assert(b[k - a.len()].1 == table);
                }
            }
            if t == table {
                if has_fk(a, table, col) {
                    let k = choose|k: int|
                        0 <= k < cols.len() && (#[trigger] cols[k]).colname@ == col && carries(
                            cols[k],
                            ConstrType::Foreign,
                        );
                    a_statement_defines_its_columns(n, cols[k]);
                    assert(defines_column(n, cols[k]));
                }
                if has_fk(b, table, col) {
                    let m = choose|m: int|
                        0 <= m < cols.len() && (#[trigger] cols[m]).colname@ == col;
                    a_statement_defines_its_columns(n, cols[m]);
                    assert(defines_column(n, cols[m]));
                    let k = choose|k: int|
                        0 <= k < cons.len() && (#[trigger] cons[k]).contype == ConstrType::Foreign
                            && begins_with(cons[k].fk_attrs@, col);
                    a_statement_has_its_constraints(n, cons[k]);
                    assert(defines_constraint(n, cons[k]));
                }
                if references(raw, table, col) {
                    let c = choose|c: ColumnDef| #[trigger]
                        defines_column(n, c) && c.colname@ == col && (carries(
                            c,
                            ConstrType::Foreign,
                        ) || exists|k: Constraint| #[trigger]
                            defines_constraint(n, k) && k.contype == ConstrType::Foreign
                                && begins_with(k.fk_attrs@, col));
                    a_statement_defines_its_columns(n, c);
                    let m = choose|m: int| 0 <= m < cols.len() && cols[m] == c;
                    assert(cols[m].colname@ == col);
                    if !carries(c, ConstrType::Foreign) {
                        let x = choose|x: Constraint| #[trigger]
                            defines_constraint(n, x) && x.contype == ConstrType::Foreign
                                && begins_with(x.fk_attrs@, col);
                        a_statement_has_its_constraints(n, x);
                        let k = choose|k: int| 0 <= k < cons.len() && cons[k] == x;
                        assert(cons[k].contype == ConstrType::Foreign);
                    }
                }
            }
        } else {
            assert(!has_fk(found, table, col));
        }
    }
}

/// The foreign keys that some statements declare on new columns are those that their parse trees
/// hold.
pub proof fn recorded_foreign_keys_are_declared(
    stmts: Seq<RawStmt>,
    n: int,
    table: Seq<char>,
    col: Seq<char>,
)
    requires
        0 <= n <= stmts.len(),
    ensures
        has_fk(new_fks(stmts, n), table, col) <==> exists|i: int|
            0 <= i < n && references(#[trigger] stmts[i], table, col),
    decreases n,
{
    if n > 0 {
        recorded_foreign_keys_are_declared(stmts, n - 1, table, col);
        lemma_references(n - 1, stmts[n - 1], table, col);
        let before = new_fks(stmts, n - 1);
        let more = match stmts[n - 1].stmt {
            Some(node) => new_fks_of(n - 1, node),
            None => Seq::empty(),
        };
        lemma_has_fk_concat(before, more, table, col);
        if has_fk(before, table, col) {
            let i = choose|i: int| 0 <= i < n - 1 && references(#[trigger] stmts[i], table, col);
            assert(references(stmts[i], table, col));
        }
        if has_fk(more, table, col) {
            assert(references(stmts[n - 1], table, col));
        }
    }
}

proof fn lemma_uncovered(
    stmts: Seq<RawStmt>,
    fks: Seq<(int, Seq<char>, Seq<char>)>,
    table: Seq<char>,
    col: Seq<char>,
)
    ensures
        has_fk(uncovered(stmts, fks), table, col) <==> has_fk(fks, table, col) && !is_covered(
            stmts,
            table,
            col,
        ),
    decreases fks.len(),
{
    if fks.len() > 0 {
        let init = fks.drop_last();
        let last = seq![fks.last()];
        lemma_uncovered(stmts, init, table, col);
        assert(fks == init + last);
        lemma_has_fk_concat(init, last, table, col);
        let before = uncovered(stmts, init);
        assert(before.push(fks.last()) == before + last);
        lemma_has_fk_concat(before, last, table, col);
        if has_fk(last, table, col) {
            assert(last[0].1 == table && last[0].2 == col);
        } else if fks.last().1 == table && fks.last().2 == col {
            assert(last[0].1 == table && last[0].2 == col);
        }
    }
}

/// A foreign key on a new column is reported exactly if no statement of the migration builds an
/// index that leads with that column.
pub proof fn a_foreign_key_is_reported_unless_indexed(
    stmts: Seq<RawStmt>,
    table: Seq<char>,
    col: Seq<char>,
)
    ensures
        has_fk(uncovered(stmts, new_fks(stmts, stmts.len() as int)), table, col) <==> (exists|
            i: int,
        |
            0 <= i < stmts.len() && references(#[trigger] stmts[i], table, col)) && (forall|i: int|
            0 <= i < stmts.len() ==> !indexes(#[trigger] stmts[i], table, col)),
{
    let n = stmts.len() as int;
    recorded_foreign_keys_are_declared(stmts, n, table, col);
    lemma_uncovered(stmts, new_fks(stmts, n), table, col);
    if is_covered(stmts, table, col) {
        let i = choose|i: int| 0 <= i < stmts.len() && covers(#[trigger] stmts[i], table, col);
        lemma_covers(stmts[i], table, col);
        assert(indexes(stmts[i], table, col));
    } else {
        assert forall|i: int| 0 <= i < stmts.len() implies !indexes(
            #[trigger] stmts[i],
            table,
            col,
        ) by {
            lemma_covers(stmts[i], table, col);
            assert(!covers(stmts[i], table, col));
        }
    }
}

/// A table-level `PRIMARY KEY` or `UNIQUE` covers its first key column and no other: a foreign key
/// on the first is not reported, one on another column is, where nothing else indexes that.
pub proof fn a_key_covers_its_first_column_alone(
    stmts: Seq<RawStmt>,
    i: int,
    table: Seq<char>,
    key: Constraint,
    first: Seq<char>,
    other: Seq<char>,
)
    requires
        0 <= i < stmts.len(),
        stmts[i].stmt matches Some(n) && is_about(n, table) && defines_constraint(n, key),
        key.contype == ConstrType::Primary || key.contype == ConstrType::Unique,
        key.keys@.len() > 1,
        key.keys@[0] matches Node::Str(s) && s@ == first,
        other != first,
    ensures
        ({
            let reported = uncovered(stmts, new_fks(stmts, stmts.len() as int));
            &&& !has_fk(reported, table, first)
            &&& references(stmts[i], table, other) && only_the_key_indexes(stmts, i, key, table)
                ==> has_fk(reported, table, other)
        }),
{
    a_foreign_key_is_reported_unless_indexed(stmts, table, first);
    assert(begins_with(key.keys@, first));
    assert(indexes(stmts[i], table, first));
    if references(stmts[i], table, other) && only_the_key_indexes(stmts, i, key, table) {
        a_foreign_key_is_reported_unless_indexed(stmts, table, other);
        assert forall|j: int| 0 <= j < stmts.len() implies !indexes(
            #[trigger] stmts[j],
            table,
            other,
        ) by {
            if let Some(n) = stmts[j].stmt {
                assert(forall|c: ColumnDef| #[trigger]
                    defines_column(n, c) ==> !is_unique_column(c, other));
                assert(forall|k: Constraint| #[trigger]
                    defines_constraint(n, k) ==> !(is_unique_kind(k.contype) && begins_with(
                        k.keys@,
                        other,
                    )));
            }
        }
    }
}

/// Whether of all statements on the table only one builds an index, by one table-level key.
pub open spec fn only_the_key_indexes(
    stmts: Seq<RawStmt>,
    i: int,
    key: Constraint,
    table: Seq<char>,
) -> bool {
    forall|j: int| #![trigger stmts[j]]
        0 <= j < stmts.len() ==> (stmts[j].stmt matches Some(n) ==> {
            &&& !(n is IndexStmt)
            &&& forall|c: ColumnDef| #[trigger]
                defines_column(n, c) ==> !carries(c, ConstrType::Primary) && !carries(
                    c,
                    ConstrType::Unique,
                )
            &&& forall|k: Constraint| #[trigger]
                defines_constraint(n, k) ==> k == key || !is_unique_kind(k.contype)
        })
}

/// Each foreign key is reported once, on a statement that declares it.
pub proof fn a_foreign_key_is_reported_once(stmts: Seq<RawStmt>, a: int, b: int)
    requires
        0 <= a < uncovered(stmts, new_fks(stmts, stmts.len() as int)).len(),
        0 <= b < uncovered(stmts, new_fks(stmts, stmts.len() as int)).len(),
    ensures
        ({
            let reported = uncovered(stmts, new_fks(stmts, stmts.len() as int));
            let (i, table, col) = reported[a];
            &&& a != b ==> (reported[a].1, reported[a].2) != (reported[b].1, reported[b].2)
            &&& 0 <= i < stmts.len() && references(stmts[i], table, col)
        }),
{
    let n = stmts.len() as int;
    let fks = new_fks(stmts, n);
    if a != b {
        lemma_reported_once(stmts, fks, a, b);
    }
    lemma_uncovered_members(stmts, fks, a);
    let k = choose|k: int| 0 <= k < fks.len() && fks[k] == uncovered(stmts, fks)[a];
    lemma_declared_where_recorded(stmts, n, k);
}

proof fn lemma_uncovered_members(
    stmts: Seq<RawStmt>,
    fks: Seq<(int, Seq<char>, Seq<char>)>,
    a: int,
)
    requires
        0 <= a < uncovered(stmts, fks).len(),
    ensures
        fks.contains(uncovered(stmts, fks)[a]),
    decreases fks.len(),
{
    let init = fks.drop_last();
    let before = uncovered(stmts, init);
    if a < before.len() {
        lemma_uncovered_members(stmts, init, a);
        let k = choose|k: int| 0 <= k < init.len() && init[k] == before[a];
        assert(fks[k] == before[a]);
    } else {
        assert(fks[fks.len() - 1] == uncovered(stmts, fks)[a]);
    }
}

proof fn lemma_reported_once(
    stmts: Seq<RawStmt>,
    fks: Seq<(int, Seq<char>, Seq<char>)>,
    a: int,
    b: int,
)
    requires
        0 <= a < uncovered(stmts, fks).len(),
        0 <= b < uncovered(stmts, fks).len(),
        a != b,
    ensures
        (uncovered(stmts, fks)[a].1, uncovered(stmts, fks)[a].2) != (
            uncovered(stmts, fks)[b].1,
            uncovered(stmts, fks)[b].2,
        ),
    decreases fks.len(),
{
    let init = fks.drop_last();
    let before = uncovered(stmts, init);
    let after = uncovered(stmts, fks);
    if a < before.len() && b < before.len() {
        lemma_reported_once(stmts, init, a, b);
    } else {
        let c = if a < b {
            a
        } else {
            b
        };
        assert(after[c] == before[c]);
        assert(!has_fk(before, fks.last().1, fks.last().2));
    }
}

proof fn lemma_declared_where_recorded(stmts: Seq<RawStmt>, n: int, k: int)
    requires
        0 <= n <= stmts.len(),
        0 <= k < new_fks(stmts, n).len(),
    ensures
        ({
            let (i, table, col) = new_fks(stmts, n)[k];
            0 <= i < n && references(stmts[i], table, col)
        }),
    decreases n,
{
    if n > 0 {
        let before = new_fks(stmts, n - 1);
        if k < before.len() {
            lemma_declared_where_recorded(stmts, n - 1, k);
        } else if let Some(node) = stmts[n - 1].stmt {
            let more = new_fks_of(n - 1, node);
            let x = more[k - before.len()];
            lemma_references(n - 1, stmts[n - 1], x.1, x.2);
            assert(new_fks(stmts, n)[k] == x);
            assert(has_fk(more, x.1, x.2));
        }
    }
}

} // verus!
