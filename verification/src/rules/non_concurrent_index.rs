use vstd::prelude::*;

use super::add_index_non_concurrent::{GUIDANCE, MESSAGE};
use super::{push_hit, Rule};
use crate::ast::Node;
use crate::finding::{RuleHit, RuleHitView, Severity};

verus! {

/// Flags `CREATE INDEX` without `CONCURRENTLY` as a warning, with no fix. Not registered: for
/// callers who want the hazard reported and nothing offered.
pub struct NonConcurrentIndex;

impl Rule for NonConcurrentIndex {
    open spec fn id_spec(&self) -> Seq<char> {
        "non-concurrent-index"@
    }

    open spec fn severity_spec(&self) -> Severity {
        Severity::Warning
    }

    open spec fn hits(&self, node: Node) -> Seq<RuleHitView> {
        if node matches Node::IndexStmt(i) && !i.concurrent {
            seq![RuleHitView { message: MESSAGE@, guidance: GUIDANCE@, fix: None }]
        } else {
            Seq::empty()
        }
    }

    fn id(&self) -> (r: &'static str) {
        "non-concurrent-index"
    }

    fn severity(&self) -> (r: Severity) {
        Severity::Warning
    }

    fn check(&self, node: &Node, out: &mut Vec<RuleHit>) {
        if let Node::IndexStmt(i) = node {
            if !i.concurrent {
                push_hit(out, MESSAGE, GUIDANCE, None);
            }
        }
    }
}

} // verus!
