use vstd::prelude::*;

use super::{
    alter_table_cmds, alter_table_cmds_spec, columns_being_added, columns_being_added_spec,
    constraints_being_added, constraints_being_added_spec, count_constraints,
    count_constraints_spec, count_with_constraint, count_with_constraint_spec, hits_view,
    plain_hit, push_hits, push_suffix_hits, repeated, suffix_hit, Rule,
};
use crate::ast::{ConstrType, Node};
use crate::finding::{RuleHit, RuleHitView, Severity};

verus! {

pub const MESSAGE: &'static str = "Adding a CHECK constraint without NOT VALID scans the whole table under an ACCESS EXCLUSIVE \
    lock.";

pub const GUIDANCE: &'static str = "Add the CHECK with NOT VALID, then run VALIDATE CONSTRAINT separately (SHARE UPDATE \
    EXCLUSIVE — concurrent reads and writes are allowed).";

pub const INLINE_MESSAGE: &'static str = "An inline CHECK on a new column scans the whole table to validate it under an ACCESS \
    EXCLUSIVE lock.";

pub const INLINE_GUIDANCE: &'static str = "Add the column without the CHECK, then ADD CONSTRAINT ... CHECK (...) NOT VALID, then \
    VALIDATE CONSTRAINT separately (SHARE UPDATE EXCLUSIVE).";

/// Flags a `CHECK` that is validated at once, as a constraint of its own or inline on a new
/// column. The inline form cannot take `NOT VALID`, so its safe rewrite differs.
pub struct AddCheckWithoutNotValid;

impl Rule for AddCheckWithoutNotValid {
    open spec fn id_spec(&self) -> Seq<char> {
        "add-check-without-not-valid"@
    }

    open spec fn severity_spec(&self) -> Severity {
        Severity::Error
    }

    open spec fn hits(&self, node: Node) -> Seq<RuleHitView> {
        repeated(
            suffix_hit(
                MESSAGE@,
                GUIDANCE@,
                "Add NOT VALID"@,
                " NOT VALID"@,
                alter_table_cmds_spec(node).len() == 1,
            ),
            count_constraints_spec(constraints_being_added_spec(node), ConstrType::Check, true),
        ) + repeated(
            plain_hit(INLINE_MESSAGE@, INLINE_GUIDANCE@),
            count_with_constraint_spec(columns_being_added_spec(node), ConstrType::Check),
        )
    }

    fn id(&self) -> (r: &'static str) {
        "add-check-without-not-valid"
    }

    fn severity(&self) -> (r: Severity) {
        Severity::Error
    }

    fn check(&self, node: &Node, out: &mut Vec<RuleHit>) {
        let ghost before = hits_view(out@);
        let cons = constraints_being_added(node);
        let n: usize = count_constraints(&cons, ConstrType::Check, true);
        // With more than one command the end of the statement is ambiguous: NOT VALID would
        // bind to the last one.
        let sole = alter_table_cmds(node).len() == 1;
        push_suffix_hits(out, n, MESSAGE, GUIDANCE, "Add NOT VALID", " NOT VALID", sole);
        let cols = columns_being_added(node);
        let inline: usize = count_with_constraint(&cols, ConstrType::Check);
        push_hits(out, inline, INLINE_MESSAGE, INLINE_GUIDANCE);
        assert(hits_view(out@) == before + self.hits(*node));
    }
}

} // verus!
