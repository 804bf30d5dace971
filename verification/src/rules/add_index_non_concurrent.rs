use vstd::prelude::*;

use super::{push_hit, Rule};
use crate::ast::Node;
use crate::finding::{RuleHit, RuleHitView, Severity};
use crate::fix::{single_edit, FixAnchor, FixAnchorView, FixDraft};

verus! {

pub const MESSAGE: &'static str = "CREATE INDEX without CONCURRENTLY takes a lock that blocks writes to the table for the \
    entire build.";

pub const GUIDANCE: &'static str = "Use CREATE INDEX CONCURRENTLY (outside a transaction block). A failed CONCURRENTLY build \
    leaves an INVALID index: drop it with DROP INDEX CONCURRENTLY and retry, or rebuild with \
    REINDEX INDEX CONCURRENTLY.";

/// Flags `CREATE INDEX` without `CONCURRENTLY`.
pub struct AddIndexNonConcurrent;

impl Rule for AddIndexNonConcurrent {
    open spec fn id_spec(&self) -> Seq<char> {
        "add-index-non-concurrent"@
    }

    open spec fn severity_spec(&self) -> Severity {
        Severity::Error
    }

    open spec fn hits(&self, node: Node) -> Seq<RuleHitView> {
        if node matches Node::IndexStmt(i) && !i.concurrent {
            seq![RuleHitView { message: MESSAGE@, guidance: GUIDANCE@, fix: Some(single_edit("Add CONCURRENTLY"@, FixAnchorView::AfterKeyword("INDEX"@), " CONCURRENTLY"@)) }]
        } else {
            Seq::empty()
        }
    }

    fn id(&self) -> (r: &'static str) {
        "add-index-non-concurrent"
    }

    fn severity(&self) -> (r: Severity) {
        Severity::Error
    }

    fn check(&self, node: &Node, out: &mut Vec<RuleHit>) {
        let flagged = match node {
            Node::IndexStmt(i) => !i.concurrent,
            _ => false,
        };
        if flagged {
            push_hit(out, MESSAGE, GUIDANCE, Some(
                FixDraft::single("Add CONCURRENTLY", FixAnchor::AfterKeyword("INDEX"), " CONCURRENTLY"),
            ));
        }
    }
}

} // verus!
