use vstd::prelude::*;

use super::{has_option, option_is_on, push_hit, Rule};
use crate::ast::Node;
use crate::finding::{RuleHit, RuleHitView, Severity};

verus! {

pub const MESSAGE: &'static str = "VACUUM FULL and CLUSTER rewrite the whole table and rebuild its indexes under an ACCESS \
    EXCLUSIVE lock, blocking all reads and writes for the rewrite.";

pub const GUIDANCE: &'static str = "Use plain VACUUM, or pg_repack to reclaim space online; otherwise run the rewrite in a \
    maintenance window.";

/// Flags `VACUUM FULL` and `CLUSTER`.
pub struct VacuumFullOrCluster;

impl Rule for VacuumFullOrCluster {
    open spec fn id_spec(&self) -> Seq<char> {
        "vacuum-full-cluster"@
    }

    open spec fn severity_spec(&self) -> Severity {
        Severity::Error
    }

    open spec fn hits(&self, node: Node) -> Seq<RuleHitView> {
        if node is ClusterStmt || (node matches Node::VacuumStmt(v) && v.is_vacuumcmd && option_is_on(v.options@, "full"@)) {
            seq![RuleHitView { message: MESSAGE@, guidance: GUIDANCE@, fix: None }]
        } else {
            Seq::empty()
        }
    }

    fn id(&self) -> (r: &'static str) {
        "vacuum-full-cluster"
    }

    fn severity(&self) -> (r: Severity) {
        Severity::Error
    }

    fn check(&self, node: &Node, out: &mut Vec<RuleHit>) {
        let flagged = match node {
            Node::ClusterStmt => true,
            Node::VacuumStmt(v) => v.is_vacuumcmd && has_option(&v.options, "full"),
            _ => false,
        };
        if flagged {
            push_hit(out, MESSAGE, GUIDANCE, None);
        }
    }
}

} // verus!
