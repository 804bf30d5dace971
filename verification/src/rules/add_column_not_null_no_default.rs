use vstd::prelude::*;

use super::{
    columns_being_added, columns_being_added_spec, plain_hit, push_hits, repeated, Rule, column_has_constraint, has_constraint,
};
use crate::ast::{values, ColumnDef, ConstrType, Node};
use crate::finding::{RuleHit, RuleHitView, Severity};

verus! {

pub const MESSAGE: &'static str = "ADD COLUMN ... NOT NULL with no DEFAULT fails immediately on any non-empty table — it \
    cannot fill existing rows.";

pub const GUIDANCE: &'static str = "Add the column nullable, backfill in batches, then enforce NOT NULL via CHECK (col IS NOT \
    NULL) NOT VALID + VALIDATE CONSTRAINT, then SET NOT NULL (PG12+ reuses the validated check \
    and skips the scan).";

/// A column that must not be null and has no default. A column-level `PRIMARY KEY` implies
/// `NOT NULL`, so it fails on a populated table in the same way.
pub open spec fn not_null_no_default_spec(col: ColumnDef) -> bool {
    &&& has_constraint(col.constraints@, ConstrType::NotNull) || has_constraint(
        col.constraints@,
        ConstrType::Primary,
    )
    &&& !has_constraint(col.constraints@, ConstrType::Default)
}

fn not_null_no_default(col: &ColumnDef) -> (r: bool)
    ensures
        r == not_null_no_default_spec(*col),
{
    (column_has_constraint(col, ConstrType::NotNull) || column_has_constraint(
        col,
        ConstrType::Primary,
    )) && !column_has_constraint(col, ConstrType::Default)
}

/// Number of such columns.
pub open spec fn count_spec(cols: Seq<ColumnDef>) -> int
    decreases cols.len(),
{
    if cols.len() == 0 {
        0
    } else {
        count_spec(cols.drop_last()) + if not_null_no_default_spec(cols.last()) {
            1int
        } else {
            0int
        }
    }
}

/// Flags `ADD COLUMN ... NOT NULL` without a `DEFAULT`.
pub struct AddColumnNotNullNoDefault;

impl Rule for AddColumnNotNullNoDefault {
    open spec fn id_spec(&self) -> Seq<char> {
        "add-column-not-null-no-default"@
    }

    open spec fn severity_spec(&self) -> Severity {
        Severity::Error
    }

    open spec fn hits(&self, node: Node) -> Seq<RuleHitView> {
        repeated(plain_hit(MESSAGE@, GUIDANCE@), count_spec(columns_being_added_spec(node)))
    }

    fn id(&self) -> (r: &'static str) {
        "add-column-not-null-no-default"
    }

    fn severity(&self) -> (r: Severity) {
        Severity::Error
    }

    fn check(&self, node: &Node, out: &mut Vec<RuleHit>) {
        let cols = columns_being_added(node);
        let ghost all = values(cols@);
        let mut n: usize = 0;
        let mut i: usize = 0;
        while i < cols.len()
            invariant
                i <= cols@.len(),
                n <= i,
                all == values(cols@),
                n == count_spec(all.take(i as int)),
            decreases cols@.len() - i,
        {
            proof {
                assert(all.take(i + 1).drop_last() == all.take(i as int));
                assert(all.take(i + 1).last() == *cols@[i as int]);
            }
            if not_null_no_default(cols[i]) {
                n += 1;
            }
            i += 1;
        }
        assert(all.take(all.len() as int) == all);
        push_hits(out, n, MESSAGE, GUIDANCE);
    }
}

} // verus!
