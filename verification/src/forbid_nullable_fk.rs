//! Policy lint (opt-in): flag a foreign key on a column the migration creates or adds in the same
//! statement and leaves nullable. A null reference is not checked, so the row points nowhere.
use vstd::prelude::*;

use crate::ast::RawStmt;
use crate::fk_index::{contains_fk, fks_view, has_fk, new_fks, push_fk, recorded_fks};
use crate::policy::{push_remark, remarks_view};
use crate::require_not_null::{column_nullable, is_nullable};

verus! {

/// Id of this lint.
pub const ID: &'static str = "forbid-nullable-fk";

/// How to satisfy it.
pub const GUIDANCE: &'static str =
    "Declare the referencing column NOT NULL, or model an optional relation by a table of its own.";

/// The foreign keys on nullable columns, each table and column once.
pub open spec fn on_nullable(
    stmts: Seq<RawStmt>,
    fks: Seq<(int, Seq<char>, Seq<char>)>,
) -> Seq<(int, Seq<char>, Seq<char>)>
    decreases fks.len(),
{
    if fks.len() == 0 {
        Seq::empty()
    } else {
        let before = on_nullable(stmts, fks.drop_last());
        let (_, table, col) = fks.last();
        if is_nullable(stmts, table, col) && !has_fk(before, table, col) {
            before.push(fks.last())
        } else {
            before
        }
    }
}

/// The remarks on foreign keys whose column is nullable.
pub open spec fn nullable_fks_spec(stmts: Seq<RawStmt>) -> Seq<(int, Seq<char>)> {
    on_nullable(stmts, new_fks(stmts, stmts.len() as int)).map_values(
        |x: (int, Seq<char>, Seq<char>)|
            (x.0, "The foreign key on `"@ + x.1 + "."@ + x.2 + "` is nullable."@),
    )
}

/// `(statement_index, message)` for each foreign key on a new column that is nullable.
pub fn nullable_fks(stmts: &[RawStmt]) -> (r: Vec<(usize, String)>)
    ensures
        remarks_view(r@) == nullable_fks_spec(stmts@),
{
    let found = recorded_fks(stmts);
    let ghost fv = fks_view(found@);
    let mut kept: Vec<(usize, String, String)> = Vec::new();
    let mut out: Vec<(usize, String)> = Vec::new();
    let mut k: usize = 0;
    let ghost remark = |x: (int, Seq<char>, Seq<char>)|
        (x.0, "The foreign key on `"@ + x.1 + "."@ + x.2 + "` is nullable."@);
    assert(fks_view(kept@) == Seq::<(int, Seq<char>, Seq<char>)>::empty());
    assert(remarks_view(out@) == fks_view(kept@).map_values(remark));
    while k < found.len()
        invariant
            k <= found@.len(),
            fv == fks_view(found@),
            remark == |x: (int, Seq<char>, Seq<char>)|
                (x.0, "The foreign key on `"@ + x.1 + "."@ + x.2 + "` is nullable."@),
            fks_view(kept@) == on_nullable(stmts@, fv.take(k as int)),
            remarks_view(out@) == fks_view(kept@).map_values(remark),
        decreases found@.len() - k,
    {
        proof {
            assert(fv.take(k + 1).drop_last() == fv.take(k as int));
            assert(fv.take(k + 1).last() == fv[k as int]);
        }
        let table = found[k].1.as_str();
        let col = found[k].2.as_str();
        if column_nullable(stmts, table, col) && !contains_fk(&kept, table, col) {
            let ghost before = fks_view(kept@);
            push_fk(&mut kept, found[k].0, table, col);
            let mut m = "The foreign key on `".to_owned();
            m.append(table);
            m.append(".");
            m.append(col);
            m.append("` is nullable.");
            proof {
                let x = (found@[k as int].0 as int, table@, col@);
                assert(remark(x) == (x.0, m@));
                assert(before.push(x).map_values(remark) == before.map_values(remark).push(
                    remark(x),
                ));
            }
            push_remark(&mut out, found[k].0, m);
        }
        k += 1;
    }
    assert(fv.take(fv.len() as int) == fv);
    out
}

} // verus!
