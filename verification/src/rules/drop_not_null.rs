use vstd::prelude::*;

use super::{alter_table_cmds_spec, count_cmds, count_subtypes, plain_hit, push_hits, repeated, Rule};
use crate::ast::{AlterTableType, Node};
use crate::finding::{RuleHit, RuleHitView, Severity};

verus! {

pub const MESSAGE: &'static str = "ALTER COLUMN ... DROP NOT NULL silently removes a not-null invariant that application code, \
    ORMs, and the query planner may rely on.";

pub const GUIDANCE: &'static str = "Confirm nothing depends on the column being non-null — planner assumptions, ORM models, \
    application code — before dropping the constraint.";

/// Flags `ALTER COLUMN ... DROP NOT NULL`.
pub struct DropNotNull;

impl Rule for DropNotNull {
    open spec fn id_spec(&self) -> Seq<char> {
        "drop-not-null"@
    }

    open spec fn severity_spec(&self) -> Severity {
        Severity::Warning
    }

    open spec fn hits(&self, node: Node) -> Seq<RuleHitView> {
        repeated(
            plain_hit(MESSAGE@, GUIDANCE@),
            count_subtypes(
                alter_table_cmds_spec(node),
                AlterTableType::DropNotNull,
                AlterTableType::DropNotNull,
            ),
        )
    }

    fn id(&self) -> (r: &'static str) {
        "drop-not-null"
    }

    fn severity(&self) -> (r: Severity) {
        Severity::Warning
    }

    fn check(&self, node: &Node, out: &mut Vec<RuleHit>) {
        let n: usize = count_cmds(node, AlterTableType::DropNotNull, AlterTableType::DropNotNull);
        push_hits(out, n, MESSAGE, GUIDANCE);
    }
}

} // verus!
