use vstd::prelude::*;

use super::{alter_table_cmds_spec, count_cmds, count_subtypes, plain_hit, push_hits, repeated, Rule};
use crate::ast::{AlterTableType, Node};
use crate::finding::{RuleHit, RuleHitView, Severity};

verus! {

pub const MESSAGE: &'static str = "ALTER TABLE ... SET LOGGED/UNLOGGED rewrites the entire table and its indexes under an \
    ACCESS EXCLUSIVE lock.";

pub const GUIDANCE: &'static str = "There is no online alternative — toggling durability rewrites the table. Do it in a \
    maintenance window, and avoid it on a large live table.";

/// Flags `SET LOGGED` and `SET UNLOGGED`.
pub struct SetLoggedUnlogged;

impl Rule for SetLoggedUnlogged {
    open spec fn id_spec(&self) -> Seq<char> {
        "set-logged-unlogged"@
    }

    open spec fn severity_spec(&self) -> Severity {
        Severity::Error
    }

    open spec fn hits(&self, node: Node) -> Seq<RuleHitView> {
        repeated(
            plain_hit(MESSAGE@, GUIDANCE@),
            count_subtypes(
                alter_table_cmds_spec(node),
                AlterTableType::SetLogged,
                AlterTableType::SetUnLogged,
            ),
        )
    }

    fn id(&self) -> (r: &'static str) {
        "set-logged-unlogged"
    }

    fn severity(&self) -> (r: Severity) {
        Severity::Error
    }

    fn check(&self, node: &Node, out: &mut Vec<RuleHit>) {
        let n: usize = count_cmds(node, AlterTableType::SetLogged, AlterTableType::SetUnLogged);
        push_hits(out, n, MESSAGE, GUIDANCE);
    }
}

} // verus!
