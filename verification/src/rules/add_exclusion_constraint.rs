use vstd::prelude::*;

use super::{
    constraints_being_added, constraints_being_added_spec, count_constraints,
    count_constraints_spec, plain_hit, push_hits, repeated, Rule,
};
use crate::ast::{ConstrType, Node};
use crate::finding::{RuleHit, RuleHitView, Severity};

verus! {

pub const MESSAGE: &'static str = "ALTER TABLE ... ADD CONSTRAINT ... EXCLUDE builds an index under an ACCESS EXCLUSIVE lock, \
    scanning the whole table.";

pub const GUIDANCE: &'static str = "Adding an exclusion constraint locks the table while it builds the index. Add it during a \
    low-traffic window; on a large table, weigh whether the constraint is necessary.";

/// Flags `ADD CONSTRAINT ... EXCLUDE`.
pub struct AddExclusionConstraint;

impl Rule for AddExclusionConstraint {
    open spec fn id_spec(&self) -> Seq<char> {
        "add-exclusion-constraint"@
    }

    open spec fn severity_spec(&self) -> Severity {
        Severity::Error
    }

    open spec fn hits(&self, node: Node) -> Seq<RuleHitView> {
        repeated(
            plain_hit(MESSAGE@, GUIDANCE@),
            count_constraints_spec(
                constraints_being_added_spec(node),
                ConstrType::Exclusion,
                false,
            ),
        )
    }

    fn id(&self) -> (r: &'static str) {
        "add-exclusion-constraint"
    }

    fn severity(&self) -> (r: Severity) {
        Severity::Error
    }

    fn check(&self, node: &Node, out: &mut Vec<RuleHit>) {
        let cons = constraints_being_added(node);
        let n: usize = count_constraints(&cons, ConstrType::Exclusion, false);
        push_hits(out, n, MESSAGE, GUIDANCE);
    }
}

} // verus!
