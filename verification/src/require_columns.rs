//! Policy lint (configured, off until set): flag a `CREATE TABLE` that the migration leaves without a
//! configured required column. Cross-statement — a column added by a later `ALTER TABLE … ADD COLUMN`
//! in the same migration counts.
use vstd::prelude::*;

use crate::ast::{values, ColumnDef, Node, RawStmt};
use crate::collections::TextSet;
use crate::newtable::{
    lintable_create_relation, lintable_create_relation_spec, rangevar_key, rangevar_key_spec,
    relation_key_spec,
};
use crate::policy::{push_remark, remarks_view};
use crate::rules::{defined_columns, defined_columns_spec};
use crate::text::{lower_text, str_eq, to_ascii_lower};

verus! {

/// Id of this lint.
pub const ID: &'static str = "require-columns";

/// How to satisfy it.
pub const GUIDANCE: &'static str =
    "Add the column to the CREATE TABLE (or a later ALTER TABLE … ADD COLUMN in the same migration), \
     or remove it from required-columns in your config.";

/// The table a `CREATE TABLE` or `ALTER TABLE` is about.
pub open spec fn table_of_spec(node: Node) -> Option<Seq<char>> {
    match node {
        Node::CreateStmt(c) => relation_key_spec(c.relation),
        Node::AlterTableStmt(a) => relation_key_spec(a.relation),
        _ => None,
    }
}

/// The table a `CREATE TABLE` or `ALTER TABLE` is about.
pub fn table_of(node: &Node) -> (r: Option<String>)
    ensures
        match r {
            Some(k) => table_of_spec(*node) == Some(k@),
            None => table_of_spec(*node) is None,
        },
{
    let rv = match node {
        Node::CreateStmt(c) => &c.relation,
        Node::AlterTableStmt(a) => &a.relation,
        _ => {
            return None;
        },
    };
    match rv {
        Some(r) => Some(rangevar_key(r)),
        None => None,
    }
}

/// Whether a column of that name stands among some columns.
pub open spec fn has_column(cols: Seq<ColumnDef>, name: Seq<char>) -> bool {
    exists|i: int| 0 <= i < cols.len() && (#[trigger] cols[i]).colname@ == name
}

/// Whether a column of that name stands among some columns.
pub fn contains_column(cols: &Vec<&ColumnDef>, name: &str) -> (r: bool)
    ensures
        r == has_column(values(cols@), name@),
{
    let ghost cv = values(cols@);
    let mut i: usize = 0;
    while i < cols.len()
        invariant
            i <= cols@.len(),
            cv == values(cols@),
            forall|j: int| 0 <= j < i ==> (#[trigger] cv[j]).colname@ != name@,
        decreases cols@.len() - i,
    {
        assert(cv[i as int] == *cols@[i as int]);
        if str_eq(cols[i].colname.as_str(), name) {
            return true;
        }
        i += 1;
    }
    false
}

/// Whether a statement introduces the column for the table.
pub open spec fn introduces_column(raw: RawStmt, table: Seq<char>, name: Seq<char>) -> bool {
    raw.stmt matches Some(n) && table_of_spec(n) == Some(table) && has_column(
        defined_columns_spec(n),
        name,
    )
}

/// Whether some statement introduces the column for the table.
pub open spec fn is_present(stmts: Seq<RawStmt>, table: Seq<char>, name: Seq<char>) -> bool {
    exists|i: int| 0 <= i < stmts.len() && introduces_column(#[trigger] stmts[i], table, name)
}

fn column_present(stmts: &[RawStmt], table: &str, name: &str) -> (r: bool)
    ensures
        r == is_present(stmts@, table@, name@),
{
    let mut i: usize = 0;
    while i < stmts.len()
        invariant
            i <= stmts@.len(),
            forall|j: int| 0 <= j < i ==> !introduces_column(#[trigger] stmts@[j], table@, name@),
        decreases stmts@.len() - i,
    {
        if let Some(node) = &stmts[i].stmt {
            if let Some(t) = table_of(node) {
                if str_eq(t.as_str(), table) {
                    let cols = defined_columns(node);
                    if contains_column(&cols, name) {
                        assert(introduces_column(stmts@[i as int], table@, name@));
                        return true;
                    }
                }
            }
        }
        i += 1;
    }
    false
}

/// Whether one of some names folds to `name`.
pub open spec fn folds_to(names: Seq<Seq<char>>, name: Seq<char>) -> bool {
    exists|k: int| 0 <= k < names.len() && lower_text(#[trigger] names[k]) == name
}

/// Whether one of the first `n` names folds to `name`.
fn is_folded(names: &TextSet, n: usize, name: &str) -> (r: bool)
    requires
        n <= names@.len(),
    ensures
        r == folds_to(names@.take(n as int), name@),
{
    let ghost front = names@.take(n as int);
    let mut k: usize = 0;
    while k < n
        invariant
            k <= n <= names@.len(),
            front == names@.take(n as int),
            forall|j: int| 0 <= j < k ==> lower_text(#[trigger] front[j]) != name@,
        decreases n - k,
    {
        assert(front[k as int] == names@[k as int]);
        let folded = to_ascii_lower(names.at(k).as_str());
        if str_eq(folded.as_str(), name) {
            return true;
        }
        k += 1;
    }
    false
}

/// The remarks on the required columns that a table lacks, each by its configured name. Names are
/// looked up in lower case, as PostgreSQL folds unquoted identifiers; of several names that fold
/// alike only the first counts, and empty names are skipped.
pub open spec fn lacking(
    stmts: Seq<RawStmt>,
    i: int,
    table: Seq<char>,
    required: Seq<Seq<char>>,
) -> Seq<(int, Seq<char>)>
    decreases required.len(),
{
    if required.len() == 0 {
        Seq::empty()
    } else {
        let before = lacking(stmts, i, table, required.drop_last());
        let name = lower_text(required.last());
        if name.len() == 0 || folds_to(required.drop_last(), name) || is_present(
            stmts,
            table,
            name,
        ) {
            before
        } else {
            before.push(
                (
                    i,
                    "The table `"@ + table + "` is missing the required column `"@
                        + required.last() + "`."@,
                ),
            )
        }
    }
}

/// The remarks on the first `n` statements.
pub open spec fn missing_required_columns_spec(
    stmts: Seq<RawStmt>,
    n: int,
    required: Seq<Seq<char>>,
) -> Seq<(int, Seq<char>)>
    decreases n,
{
    if n <= 0 {
        Seq::empty()
    } else {
        missing_required_columns_spec(stmts, n - 1, required) + match stmts[n - 1].stmt {
            Some(node) => match lintable_create_relation_spec(node) {
                Some(rv) => lacking(stmts, n - 1, rangevar_key_spec(rv), required),
                None => Seq::empty(),
            },
            None => Seq::empty(),
        }
    }
}

/// `(statement_index, message)` for each required column a `CREATE TABLE` is missing.
pub fn missing_required_columns(stmts: &[RawStmt], required: &TextSet) -> (r: Vec<(usize, String)>)
    ensures
        remarks_view(r@) == missing_required_columns_spec(
            stmts@,
            stmts@.len() as int,
            required@,
        ),
{
    let ghost all = stmts@;
    let ghost names = required@;
    let n: usize = required.len();
    let mut out: Vec<(usize, String)> = Vec::new();
    let mut i: usize = 0;
    assert(remarks_view(out@) == Seq::<(int, Seq<char>)>::empty());
    while i < stmts.len()
        invariant
            i <= stmts@.len(),
            all == stmts@,
            names == required@,
            n == names.len(),
            remarks_view(out@) == missing_required_columns_spec(all, i as int, names),
        decreases stmts@.len() - i,
    {
        let ghost before = remarks_view(out@);
        assert(before + Seq::<(int, Seq<char>)>::empty() == before);
        if let Some(node) = &stmts[i].stmt {
            if let Some(rv) = lintable_create_relation(node) {
                let table = rangevar_key(rv);
                let mut j: usize = 0;
                assert(before + lacking(all, i as int, table@, names.take(0)) == before);
                while j < n
                    invariant
                        j <= n,
                        all == stmts@,
                        names == required@,
                        n == names.len(),
                        remarks_view(out@) == before + lacking(
                            all,
                            i as int,
                            table@,
                            names.take(j as int),
                        ),
                    decreases n - j,
                {
                    proof {
                        assert(names.take(j + 1).drop_last() == names.take(j as int));
                        assert(names.take(j + 1).last() == names[j as int]);
                    }
                    let name = to_ascii_lower(required.at(j).as_str());
                    if !name.as_str().is_empty() && !is_folded(required, j, name.as_str())
                        && !column_present(stmts, table.as_str(), name.as_str()) {
                        let mut m = "The table `".to_owned();
                        m.append(table.as_str());
                        m.append("` is missing the required column `");
                        m.append(required.at(j).as_str());
                        m.append("`.");
                        push_remark(&mut out, i, m);
                    }
                    assert(remarks_view(out@) == before + lacking(
                        all,
                        i as int,
                        table@,
                        names.take(j + 1),
                    ));
                    j += 1;
                }
                assert(names.take(names.len() as int) == names);
            }
        }
        i += 1;
    }
    out
}

} // verus!
