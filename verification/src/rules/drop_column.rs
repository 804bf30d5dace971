use vstd::prelude::*;

use super::{alter_table_cmds_spec, count_cmds, count_subtypes, plain_hit, push_hits, repeated, Rule};
use crate::ast::{AlterTableType, Node};
use crate::finding::{RuleHit, RuleHitView, Severity};

verus! {

pub const MESSAGE: &'static str = "DROP COLUMN breaks any application code still referencing the column the moment it runs.";

pub const GUIDANCE: &'static str = "Use expand/contract: deploy code that stops using the column first, then drop it in a later \
    migration.";

/// Flags `DROP COLUMN`.
pub struct DropColumn;

impl Rule for DropColumn {
    open spec fn id_spec(&self) -> Seq<char> {
        "drop-column"@
    }

    open spec fn severity_spec(&self) -> Severity {
        Severity::Warning
    }

    open spec fn hits(&self, node: Node) -> Seq<RuleHitView> {
        repeated(
            plain_hit(MESSAGE@, GUIDANCE@),
            count_subtypes(
                alter_table_cmds_spec(node),
                AlterTableType::DropColumn,
                AlterTableType::DropColumn,
            ),
        )
    }

    fn id(&self) -> (r: &'static str) {
        "drop-column"
    }

    fn severity(&self) -> (r: Severity) {
        Severity::Warning
    }

    fn check(&self, node: &Node, out: &mut Vec<RuleHit>) {
        let n: usize = count_cmds(node, AlterTableType::DropColumn, AlterTableType::DropColumn);
        push_hits(out, n, MESSAGE, GUIDANCE);
    }
}

} // verus!
