use vstd::prelude::*;

use super::{alter_table_cmds_spec, count_cmds, count_subtypes, plain_hit, push_hits, repeated, Rule};
use crate::ast::{AlterTableType, Node};
use crate::finding::{RuleHit, RuleHitView, Severity};

verus! {

pub const MESSAGE: &'static str = "DROP CONSTRAINT removes an integrity guarantee (foreign key, check, or unique) that \
    application code may rely on; dropping a primary key or unique constraint can also break \
    logical-replication replica identity.";

pub const GUIDANCE: &'static str = "Confirm no application logic or replication setup depends on the constraint before dropping \
    it.";

/// Flags `DROP CONSTRAINT`.
pub struct DropConstraint;

impl Rule for DropConstraint {
    open spec fn id_spec(&self) -> Seq<char> {
        "drop-constraint"@
    }

    open spec fn severity_spec(&self) -> Severity {
        Severity::Warning
    }

    open spec fn hits(&self, node: Node) -> Seq<RuleHitView> {
        repeated(
            plain_hit(MESSAGE@, GUIDANCE@),
            count_subtypes(
                alter_table_cmds_spec(node),
                AlterTableType::DropConstraint,
                AlterTableType::DropConstraint,
            ),
        )
    }

    fn id(&self) -> (r: &'static str) {
        "drop-constraint"
    }

    fn severity(&self) -> (r: Severity) {
        Severity::Warning
    }

    fn check(&self, node: &Node, out: &mut Vec<RuleHit>) {
        let n: usize = count_cmds(node, AlterTableType::DropConstraint, AlterTableType::DropConstraint);
        push_hits(out, n, MESSAGE, GUIDANCE);
    }
}

} // verus!
