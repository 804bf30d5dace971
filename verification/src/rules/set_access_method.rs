use vstd::prelude::*;

use super::{alter_table_cmds_spec, count_cmds, count_subtypes, plain_hit, push_hits, repeated, Rule};
use crate::ast::{AlterTableType, Node};
use crate::finding::{RuleHit, RuleHitView, Severity};

verus! {

pub const MESSAGE: &'static str = "ALTER TABLE ... SET ACCESS METHOD rewrites the entire table and rebuilds its indexes under \
    an ACCESS EXCLUSIVE lock when the access method changes, blocking all reads and writes for \
    the rewrite.";

pub const GUIDANCE: &'static str = "There is no online way to change a table's access method. Do it in a maintenance window, or \
    create a new table with the target access method, copy the data in batches, then swap \
    (expand/contract).";

/// Flags `SET ACCESS METHOD`.
pub struct SetAccessMethod;

impl Rule for SetAccessMethod {
    open spec fn id_spec(&self) -> Seq<char> {
        "set-access-method"@
    }

    open spec fn severity_spec(&self) -> Severity {
        Severity::Error
    }

    open spec fn hits(&self, node: Node) -> Seq<RuleHitView> {
        repeated(
            plain_hit(MESSAGE@, GUIDANCE@),
            count_subtypes(
                alter_table_cmds_spec(node),
                AlterTableType::SetAccessMethod,
                AlterTableType::SetAccessMethod,
            ),
        )
    }

    fn id(&self) -> (r: &'static str) {
        "set-access-method"
    }

    fn severity(&self) -> (r: Severity) {
        Severity::Error
    }

    fn check(&self, node: &Node, out: &mut Vec<RuleHit>) {
        let n: usize = count_cmds(node, AlterTableType::SetAccessMethod, AlterTableType::SetAccessMethod);
        push_hits(out, n, MESSAGE, GUIDANCE);
    }
}

} // verus!
