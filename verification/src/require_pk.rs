//! Policy lint (opt-in): flag a `CREATE TABLE` that the migration leaves without a primary key.
//! Cross-statement — a key added by a later `ALTER TABLE` in the same migration counts.
use vstd::prelude::*;

use crate::ast::{values, ConstrType, Node, RawStmt};
use crate::newtable::{
    lintable_create_relation, lintable_create_relation_spec, rangevar_key, rangevar_key_spec,
};
use crate::policy::{push_remark, remarks_view};
use crate::require_columns::{table_of, table_of_spec};
use crate::rules::{
    column_has_constraint, defined_columns, defined_columns_spec, defined_table_constraints,
    defined_table_constraints_spec, has_constraint,
};
use crate::text::str_eq;

verus! {

/// Id of this lint.
pub const ID: &'static str = "require-primary-key";

/// How to satisfy it.
pub const GUIDANCE: &'static str =
    "Declare a PRIMARY KEY in the CREATE TABLE (or add one by a later ALTER TABLE in the same \
     migration).";

/// Whether a `CREATE TABLE` or `ALTER TABLE` declares a primary key.
pub open spec fn declares_key(node: Node) -> bool {
    ||| exists|i: int|
        0 <= i < defined_columns_spec(node).len() && has_constraint(
            (#[trigger] defined_columns_spec(node)[i]).constraints@,
            ConstrType::Primary,
        )
    ||| exists|i: int|
        0 <= i < defined_table_constraints_spec(node).len() && (
        #[trigger] defined_table_constraints_spec(node)[i]).contype == ConstrType::Primary
}

/// Whether a statement declares a primary key for the table.
pub open spec fn keys_table(raw: RawStmt, table: Seq<char>) -> bool {
    raw.stmt matches Some(n) && table_of_spec(n) == Some(table) && declares_key(n)
}

/// Whether some statement declares a primary key for the table.
pub open spec fn is_keyed(stmts: Seq<RawStmt>, table: Seq<char>) -> bool {
    exists|i: int| 0 <= i < stmts.len() && keys_table(#[trigger] stmts[i], table)
}

fn node_declares_key(node: &Node) -> (r: bool)
    ensures
        r == declares_key(*node),
{
    let cols = defined_columns(node);
    let ghost cv = values(cols@);
    let mut i: usize = 0;
    while i < cols.len()
        invariant
            i <= cols@.len(),
            cv == values(cols@),
            cv == defined_columns_spec(*node),
            forall|j: int|
                0 <= j < i ==> !has_constraint(
                    (#[trigger] cv[j]).constraints@,
                    ConstrType::Primary,
                ),
        decreases cols@.len() - i,
    {
        assert(cv[i as int] == *cols@[i as int]);
        if column_has_constraint(cols[i], ConstrType::Primary) {
            assert(has_constraint(
                defined_columns_spec(*node)[i as int].constraints@,
                ConstrType::Primary,
            ));
            return true;
        }
        i += 1;
    }
    let cons = defined_table_constraints(node);
    let ghost kv = values(cons@);
    let mut k: usize = 0;
    while k < cons.len()
        invariant
            k <= cons@.len(),
            kv == values(cons@),
            kv == defined_table_constraints_spec(*node),
            forall|j: int| 0 <= j < k ==> (#[trigger] kv[j]).contype != ConstrType::Primary,
        decreases cons@.len() - k,
    {
        assert(kv[k as int] == *cons@[k as int]);
        if cons[k].contype == ConstrType::Primary {
            assert(defined_table_constraints_spec(*node)[k as int].contype == ConstrType::Primary);
            return true;
        }
        k += 1;
    }
    false
}

fn table_is_keyed(stmts: &[RawStmt], table: &str) -> (r: bool)
    ensures
        r == is_keyed(stmts@, table@),
{
    let mut i: usize = 0;
    while i < stmts.len()
        invariant
            i <= stmts@.len(),
            forall|j: int| 0 <= j < i ==> !keys_table(#[trigger] stmts@[j], table@),
        decreases stmts@.len() - i,
    {
        if let Some(node) = &stmts[i].stmt {
            if let Some(t) = table_of(node) {
                if str_eq(t.as_str(), table) && node_declares_key(node) {
                    assert(keys_table(stmts@[i as int], table@));
                    return true;
                }
            }
        }
        i += 1;
    }
    false
}

/// The remarks on the first `n` statements.
pub open spec fn missing_primary_keys_spec(stmts: Seq<RawStmt>, n: int) -> Seq<(int, Seq<char>)>
    decreases n,
{
    if n <= 0 {
        Seq::empty()
    } else {
        let before = missing_primary_keys_spec(stmts, n - 1);
        match stmts[n - 1].stmt {
            Some(node) => match lintable_create_relation_spec(node) {
                Some(rv) => if is_keyed(stmts, rangevar_key_spec(rv)) {
                    before
                } else {
                    before.push(
                        (n - 1, "The table `"@ + rangevar_key_spec(rv) + "` has no primary key."@),
                    )
                },
                None => before,
            },
            None => before,
        }
    }
}

/// `(statement_index, message)` for each `CREATE TABLE` without a primary key. Temporary tables
/// and `PARTITION OF` children are exempt.
pub fn missing_primary_keys(stmts: &[RawStmt]) -> (r: Vec<(usize, String)>)
    ensures
        remarks_view(r@) == missing_primary_keys_spec(stmts@, stmts@.len() as int),
{
    let mut out: Vec<(usize, String)> = Vec::new();
    let mut i: usize = 0;
    assert(remarks_view(out@) == Seq::<(int, Seq<char>)>::empty());
    while i < stmts.len()
        invariant
            i <= stmts@.len(),
            remarks_view(out@) == missing_primary_keys_spec(stmts@, i as int),
        decreases stmts@.len() - i,
    {
        if let Some(node) = &stmts[i].stmt {
            if let Some(rv) = lintable_create_relation(node) {
                let table = rangevar_key(rv);
                if !table_is_keyed(stmts, table.as_str()) {
                    let mut m = "The table `".to_owned();
                    m.append(table.as_str());
                    m.append("` has no primary key.");
                    push_remark(&mut out, i, m);
                }
            }
        }
        i += 1;
    }
    out
}

} // verus!
