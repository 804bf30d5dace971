use vstd::prelude::*;

use super::{
    columns_being_added, columns_being_added_spec, constraints_being_added,
    constraints_being_added_spec, count_with_constraint, count_with_constraint_spec, hits_view,
    plain_hit, push_hit, Rule,
};
use crate::ast::{values, ConstrType, Constraint, Node};
use crate::finding::{RuleHit, RuleHitView, Severity};

verus! {

pub const MESSAGE: &'static str = "Adding a PRIMARY KEY inline builds its unique index (and may scan for NOT NULL) under an \
    ACCESS EXCLUSIVE lock.";

pub const GUIDANCE: &'static str = "Build the index with CREATE UNIQUE INDEX CONCURRENTLY, then attach it: ALTER TABLE ... ADD \
    CONSTRAINT ... PRIMARY KEY USING INDEX idx.";

pub const COLUMN_MESSAGE: &'static str = "Adding a column with an inline PRIMARY KEY builds a unique index (and enforces NOT NULL) \
    under an ACCESS EXCLUSIVE lock.";

pub const COLUMN_GUIDANCE: &'static str = "Add the column nullable first, backfill existing rows, build a unique index with CREATE \
    UNIQUE INDEX CONCURRENTLY, then attach it (ALTER TABLE ... ADD CONSTRAINT ... PRIMARY KEY \
    USING INDEX idx) and SET NOT NULL.";

/// Whether a constraint builds a fresh index: no `USING INDEX`.
pub open spec fn builds_index(c: Constraint) -> bool {
    c.contype == ConstrType::Primary && c.indexname@.len() == 0
}

/// Whether some constraint builds a fresh index.
pub open spec fn some_builds_index(cons: Seq<Constraint>) -> bool {
    exists|i: int| 0 <= i < cons.len() && builds_index(#[trigger] cons[i])
}

/// Flags a primary key that builds its own index, once for constraints and once for columns.
pub struct AddPrimaryKeyWithoutIndex;

impl Rule for AddPrimaryKeyWithoutIndex {
    open spec fn id_spec(&self) -> Seq<char> {
        "add-primary-key-without-index"@
    }

    open spec fn severity_spec(&self) -> Severity {
        Severity::Error
    }

    open spec fn hits(&self, node: Node) -> Seq<RuleHitView> {
        let cons = constraints_being_added_spec(node);
        let cols = columns_being_added_spec(node);
        (if some_builds_index(cons) {
            seq![plain_hit(MESSAGE@, GUIDANCE@)]
        } else {
            Seq::empty()
        }) + (if count_with_constraint_spec(cols, ConstrType::Primary) > 0 {
            seq![plain_hit(COLUMN_MESSAGE@, COLUMN_GUIDANCE@)]
        } else {
            Seq::empty()
        })
    }

    fn id(&self) -> (r: &'static str) {
        "add-primary-key-without-index"
    }

    fn severity(&self) -> (r: Severity) {
        Severity::Error
    }

    fn check(&self, node: &Node, out: &mut Vec<RuleHit>) {
        let ghost before = hits_view(out@);
        let cons = constraints_being_added(node);
        let ghost all = values(cons@);
        let mut via_constraint = false;
        let mut i: usize = 0;
        while i < cons.len()
            invariant
                i <= cons@.len(),
                all == values(cons@),
                via_constraint == exists|j: int| 0 <= j < i && builds_index(#[trigger] all[j]),
            decreases cons@.len() - i,
        {
            assert(all[i as int] == *cons@[i as int]);
            if cons[i].contype == ConstrType::Primary && cons[i].indexname.as_str().is_empty() {
                assert(builds_index(all[i as int]));
                via_constraint = true;
            }
            i += 1;
        }
        let cols = columns_being_added(node);
        let via_column = count_with_constraint(&cols, ConstrType::Primary) > 0;
        if via_constraint {
            push_hit(out, MESSAGE, GUIDANCE, None);
        }
        if via_column {
            push_hit(out, COLUMN_MESSAGE, COLUMN_GUIDANCE, None);
        }
        assert(hits_view(out@) == before + self.hits(*node));
    }
}

} // verus!
