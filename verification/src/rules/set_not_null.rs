use vstd::prelude::*;

use super::{alter_table_cmds_spec, count_cmds, count_subtypes, plain_hit, push_hits, repeated, Rule};
use crate::ast::{AlterTableType, Node};
use crate::finding::{RuleHit, RuleHitView, Severity};

verus! {

pub const MESSAGE: &'static str = "ALTER COLUMN ... SET NOT NULL scans the whole table under an ACCESS EXCLUSIVE lock to prove \
    that no existing row is null.";

pub const GUIDANCE: &'static str = "Add CHECK (col IS NOT NULL) NOT VALID, run VALIDATE CONSTRAINT separately, then SET NOT \
    NULL (PG12+ reuses the validated check and skips the scan).";

/// Flags `ALTER COLUMN ... SET NOT NULL`.
pub struct SetNotNull;

impl Rule for SetNotNull {
    open spec fn id_spec(&self) -> Seq<char> {
        "set-not-null"@
    }

    open spec fn severity_spec(&self) -> Severity {
        Severity::Error
    }

    open spec fn hits(&self, node: Node) -> Seq<RuleHitView> {
        repeated(
            plain_hit(MESSAGE@, GUIDANCE@),
            count_subtypes(
                alter_table_cmds_spec(node),
                AlterTableType::SetNotNull,
                AlterTableType::SetNotNull,
            ),
        )
    }

    fn id(&self) -> (r: &'static str) {
        "set-not-null"
    }

    fn severity(&self) -> (r: Severity) {
        Severity::Error
    }

    fn check(&self, node: &Node, out: &mut Vec<RuleHit>) {
        let n: usize = count_cmds(node, AlterTableType::SetNotNull, AlterTableType::SetNotNull);
        push_hits(out, n, MESSAGE, GUIDANCE);
    }
}

} // verus!
