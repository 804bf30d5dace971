use vstd::prelude::*;

use super::{
    columns_being_added, columns_being_added_spec, constraints_being_added,
    constraints_being_added_spec, count_with_constraint, count_with_constraint_spec, hits_view,
    plain_hit, push_hit, Rule,
};
use crate::ast::{values, ConstrType, Constraint, Node};
use crate::finding::{RuleHit, RuleHitView, Severity};

verus! {

pub const MESSAGE: &'static str = "Adding a UNIQUE constraint inline builds its underlying index while holding ACCESS \
    EXCLUSIVE on the table for the whole build.";

pub const GUIDANCE: &'static str = "Build the index first with CREATE UNIQUE INDEX CONCURRENTLY, then attach it: ALTER TABLE \
    ... ADD CONSTRAINT ... UNIQUE USING INDEX idx (a brief lock).";

pub const COLUMN_GUIDANCE: &'static str = "Add the column without UNIQUE first, then CREATE UNIQUE INDEX CONCURRENTLY on it, then \
    ALTER TABLE ... ADD CONSTRAINT ... UNIQUE USING INDEX idx (a brief lock).";

/// Whether a constraint builds a fresh index: no `USING INDEX`.
pub open spec fn builds_index(c: Constraint) -> bool {
    c.contype == ConstrType::Unique && c.indexname@.len() == 0
}

/// Whether some constraint builds a fresh index.
pub open spec fn some_builds_index(cons: Seq<Constraint>) -> bool {
    exists|i: int| 0 <= i < cons.len() && builds_index(#[trigger] cons[i])
}

/// Flags a unique constraint that builds its own index, once for constraints and once for
/// columns; a new column has to exist before its index can, so the safe sequence differs.
pub struct AddUniqueConstraint;

impl Rule for AddUniqueConstraint {
    open spec fn id_spec(&self) -> Seq<char> {
        "add-unique-constraint"@
    }

    open spec fn severity_spec(&self) -> Severity {
        Severity::Error
    }

    open spec fn hits(&self, node: Node) -> Seq<RuleHitView> {
        let cons = constraints_being_added_spec(node);
        let cols = columns_being_added_spec(node);
        (if some_builds_index(cons) {
            seq![plain_hit(MESSAGE@, GUIDANCE@)]
        } else {
            Seq::empty()
        }) + (if count_with_constraint_spec(cols, ConstrType::Unique) > 0 {
            seq![plain_hit(MESSAGE@, COLUMN_GUIDANCE@)]
        } else {
            Seq::empty()
        })
    }

    fn id(&self) -> (r: &'static str) {
        "add-unique-constraint"
    }

    fn severity(&self) -> (r: Severity) {
        Severity::Error
    }

    fn check(&self, node: &Node, out: &mut Vec<RuleHit>) {
        let ghost before = hits_view(out@);
        let cons = constraints_being_added(node);
        let ghost all = values(cons@);
        let mut via_constraint = false;
        let mut i: usize = 0;
        while i < cons.len()
            invariant
                i <= cons@.len(),
                all == values(cons@),
                via_constraint == exists|j: int| 0 <= j < i && builds_index(#[trigger] all[j]),
            decreases cons@.len() - i,
        {
            assert(all[i as int] == *cons@[i as int]);
            if cons[i].contype == ConstrType::Unique && cons[i].indexname.as_str().is_empty() {
                assert(builds_index(all[i as int]));
                via_constraint = true;
            }
            i += 1;
        }
        let cols = columns_being_added(node);
        let via_column = count_with_constraint(&cols, ConstrType::Unique) > 0;
        if via_constraint {
            push_hit(out, MESSAGE, GUIDANCE, None);
        }
        if via_column {
            push_hit(out, MESSAGE, COLUMN_GUIDANCE, None);
        }
        assert(hits_view(out@) == before + self.hits(*node));
    }
}

} // verus!
