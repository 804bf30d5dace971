use vstd::prelude::*;

use super::{
    columns_being_added, columns_being_added_spec, count_with_constraint, count_with_constraint_spec,
    plain_hit, push_hits, repeated, Rule,
};
use crate::ast::{ConstrType, Node};
use crate::finding::{RuleHit, RuleHitView, Severity};

verus! {

pub const MESSAGE: &'static str = "ADD COLUMN ... GENERATED ALWAYS AS (...) STORED computes and writes the value for every \
    existing row, rewriting the table under an ACCESS EXCLUSIVE lock.";

pub const GUIDANCE: &'static str = "Add a plain nullable column, backfill the computed value in batches, and keep it current \
    with a trigger or in application code — do not add a STORED generated column directly to a \
    populated table.";

/// Flags `ADD COLUMN ... GENERATED ALWAYS AS (...) STORED`; an identity column is another
/// kind of constraint and does not match.
pub struct AddColumnGeneratedStored;

impl Rule for AddColumnGeneratedStored {
    open spec fn id_spec(&self) -> Seq<char> {
        "add-column-generated-stored"@
    }

    open spec fn severity_spec(&self) -> Severity {
        Severity::Error
    }

    open spec fn hits(&self, node: Node) -> Seq<RuleHitView> {
        repeated(
            plain_hit(MESSAGE@, GUIDANCE@),
            count_with_constraint_spec(columns_being_added_spec(node), ConstrType::Generated),
        )
    }

    fn id(&self) -> (r: &'static str) {
        "add-column-generated-stored"
    }

    fn severity(&self) -> (r: Severity) {
        Severity::Error
    }

    fn check(&self, node: &Node, out: &mut Vec<RuleHit>) {
        let cols = columns_being_added(node);
        let n: usize = count_with_constraint(&cols, ConstrType::Generated);
        push_hits(out, n, MESSAGE, GUIDANCE);
    }
}

} // verus!
