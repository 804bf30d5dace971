use vstd::prelude::*;

use super::{push_hit, Rule};
use crate::ast::Node;
use crate::finding::{RuleHit, RuleHitView, Severity};

verus! {

pub const MESSAGE: &'static str = "DROP DATABASE permanently and irreversibly removes the database and all its contents. It \
    fails while any session is still connected, unless run WITH (FORCE), which terminates those \
    sessions and loses their in-flight work.";

pub const GUIDANCE: &'static str = "Confirm the database is fully retired and has no active connections before dropping it; \
    take a final backup first if the data may be needed.";

/// Flags `DROP DATABASE`.
pub struct DropDatabase;

impl Rule for DropDatabase {
    open spec fn id_spec(&self) -> Seq<char> {
        "drop-database"@
    }

    open spec fn severity_spec(&self) -> Severity {
        Severity::Warning
    }

    open spec fn hits(&self, node: Node) -> Seq<RuleHitView> {
        if node is DropdbStmt {
            seq![RuleHitView { message: MESSAGE@, guidance: GUIDANCE@, fix: None }]
        } else {
            Seq::empty()
        }
    }

    fn id(&self) -> (r: &'static str) {
        "drop-database"
    }

    fn severity(&self) -> (r: Severity) {
        Severity::Warning
    }

    fn check(&self, node: &Node, out: &mut Vec<RuleHit>) {
        let flagged = matches!(node, Node::DropdbStmt(_));
        if flagged {
            push_hit(out, MESSAGE, GUIDANCE, None);
        }
    }
}

} // verus!
