use vstd::prelude::*;

use super::{push_hit, Rule};
use crate::ast::Node;
use crate::finding::{RuleHit, RuleHitView, Severity};

verus! {

pub const MESSAGE: &'static str = "TRUNCATE permanently removes every row of the table under an ACCESS EXCLUSIVE lock; \
    in-flight queries against it wait or fail.";

pub const GUIDANCE: &'static str = "Confirm the data is no longer needed before truncating, and run it during a low-traffic \
    window; delete in batches if only part of the data has to go.";

/// Flags `TRUNCATE`.
pub struct Truncate;

impl Rule for Truncate {
    open spec fn id_spec(&self) -> Seq<char> {
        "truncate"@
    }

    open spec fn severity_spec(&self) -> Severity {
        Severity::Warning
    }

    open spec fn hits(&self, node: Node) -> Seq<RuleHitView> {
        if node is TruncateStmt {
            seq![RuleHitView { message: MESSAGE@, guidance: GUIDANCE@, fix: None }]
        } else {
            Seq::empty()
        }
    }

    fn id(&self) -> (r: &'static str) {
        "truncate"
    }

    fn severity(&self) -> (r: Severity) {
        Severity::Warning
    }

    fn check(&self, node: &Node, out: &mut Vec<RuleHit>) {
        let flagged = matches!(node, Node::TruncateStmt(_));
        if flagged {
            push_hit(out, MESSAGE, GUIDANCE, None);
        }
    }
}

} // verus!
