use vstd::prelude::*;

use super::{alter_table_cmds_spec, count_cmds, count_subtypes, plain_hit, push_hits, repeated, Rule};
use crate::ast::{AlterTableType, Node};
use crate::finding::{RuleHit, RuleHitView, Severity};

verus! {

pub const MESSAGE: &'static str = "ATTACH PARTITION takes an ACCESS EXCLUSIVE lock on the table being attached and scans it to \
    validate the partition bound (the parent stays available under SHARE UPDATE EXCLUSIVE), so \
    the table being attached is unavailable for the scan's duration.";

pub const GUIDANCE: &'static str = "Add a CHECK constraint on the child matching the partition bound and validate it separately \
    first (ADD CONSTRAINT ... CHECK (...) NOT VALID, then VALIDATE CONSTRAINT); ATTACH then \
    skips the scan and the lock is brief.";

/// Flags `ATTACH PARTITION`.
pub struct AttachPartition;

impl Rule for AttachPartition {
    open spec fn id_spec(&self) -> Seq<char> {
        "attach-partition"@
    }

    open spec fn severity_spec(&self) -> Severity {
        Severity::Warning
    }

    open spec fn hits(&self, node: Node) -> Seq<RuleHitView> {
        repeated(
            plain_hit(MESSAGE@, GUIDANCE@),
            count_subtypes(
                alter_table_cmds_spec(node),
                AlterTableType::AttachPartition,
                AlterTableType::AttachPartition,
            ),
        )
    }

    fn id(&self) -> (r: &'static str) {
        "attach-partition"
    }

    fn severity(&self) -> (r: Severity) {
        Severity::Warning
    }

    fn check(&self, node: &Node, out: &mut Vec<RuleHit>) {
        let n: usize = count_cmds(node, AlterTableType::AttachPartition, AlterTableType::AttachPartition);
        push_hits(out, n, MESSAGE, GUIDANCE);
    }
}

} // verus!
