use vstd::prelude::*;

use super::{
    columns_being_added, columns_being_added_spec, count_with_constraint, count_with_constraint_spec,
    plain_hit, push_hits, repeated, Rule,
};
use crate::ast::{ConstrType, Node};
use crate::finding::{RuleHit, RuleHitView, Severity};

verus! {

pub const MESSAGE: &'static str = "ADD COLUMN ... GENERATED AS IDENTITY creates a sequence and rewrites every existing row \
    under an ACCESS EXCLUSIVE lock.";

pub const GUIDANCE: &'static str = "Add a plain nullable integer column, backfill existing rows in batches, then attach the \
    identity/sequence — do not add an identity column directly to a populated table.";

/// Flags `ADD COLUMN ... GENERATED ... AS IDENTITY`.
pub struct AddColumnIdentity;

impl Rule for AddColumnIdentity {
    open spec fn id_spec(&self) -> Seq<char> {
        "add-column-identity"@
    }

    open spec fn severity_spec(&self) -> Severity {
        Severity::Error
    }

    open spec fn hits(&self, node: Node) -> Seq<RuleHitView> {
        repeated(
            plain_hit(MESSAGE@, GUIDANCE@),
            count_with_constraint_spec(columns_being_added_spec(node), ConstrType::Identity),
        )
    }

    fn id(&self) -> (r: &'static str) {
        "add-column-identity"
    }

    fn severity(&self) -> (r: Severity) {
        Severity::Error
    }

    fn check(&self, node: &Node, out: &mut Vec<RuleHit>) {
        let cols = columns_being_added(node);
        let n: usize = count_with_constraint(&cols, ConstrType::Identity);
        push_hits(out, n, MESSAGE, GUIDANCE);
    }
}

} // verus!
