use vstd::prelude::*;

use super::{push_hit, Rule};
use crate::ast::{Node, ObjectType};
use crate::finding::{RuleHit, RuleHitView, Severity};

verus! {

pub const MESSAGE: &'static str = "DROP TABLE permanently and irreversibly removes the table and all its data; in-flight \
    queries against it fail immediately.";

pub const GUIDANCE: &'static str = "Confirm all application references are retired and the table is traffic-free before \
    dropping; archive the data first if it may be needed.";

/// Flags `DROP TABLE`.
pub struct DropTable;

impl Rule for DropTable {
    open spec fn id_spec(&self) -> Seq<char> {
        "drop-table"@
    }

    open spec fn severity_spec(&self) -> Severity {
        Severity::Warning
    }

    open spec fn hits(&self, node: Node) -> Seq<RuleHitView> {
        if node matches Node::DropStmt(d) && d.remove_type == ObjectType::Table {
            seq![RuleHitView { message: MESSAGE@, guidance: GUIDANCE@, fix: None }]
        } else {
            Seq::empty()
        }
    }

    fn id(&self) -> (r: &'static str) {
        "drop-table"
    }

    fn severity(&self) -> (r: Severity) {
        Severity::Warning
    }

    fn check(&self, node: &Node, out: &mut Vec<RuleHit>) {
        let flagged = match node {
            Node::DropStmt(d) => d.remove_type == ObjectType::Table,
            _ => false,
        };
        if flagged {
            push_hit(out, MESSAGE, GUIDANCE, None);
        }
    }
}

} // verus!
