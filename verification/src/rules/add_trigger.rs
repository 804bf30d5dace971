use vstd::prelude::*;

use super::{push_hit, Rule};
use crate::ast::Node;
use crate::finding::{RuleHit, RuleHitView, Severity};

verus! {

pub const MESSAGE: &'static str = "CREATE TRIGGER takes a SHARE ROW EXCLUSIVE lock (blocking writes and other DDL, though not \
    reads) and changes behavior for every subsequent write to the table.";

pub const GUIDANCE: &'static str = "Create the trigger during a low-traffic window; its lock conflicts with concurrent writes \
    on the table.";

/// Flags `CREATE TRIGGER`.
pub struct AddTrigger;

impl Rule for AddTrigger {
    open spec fn id_spec(&self) -> Seq<char> {
        "add-trigger"@
    }

    open spec fn severity_spec(&self) -> Severity {
        Severity::Warning
    }

    open spec fn hits(&self, node: Node) -> Seq<RuleHitView> {
        if node is CreateTrigStmt {
            seq![RuleHitView { message: MESSAGE@, guidance: GUIDANCE@, fix: None }]
        } else {
            Seq::empty()
        }
    }

    fn id(&self) -> (r: &'static str) {
        "add-trigger"
    }

    fn severity(&self) -> (r: Severity) {
        Severity::Warning
    }

    fn check(&self, node: &Node, out: &mut Vec<RuleHit>) {
        let flagged = matches!(node, Node::CreateTrigStmt(_));
        if flagged {
            push_hit(out, MESSAGE, GUIDANCE, None);
        }
    }
}

} // verus!
