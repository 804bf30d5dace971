use vstd::prelude::*;

use super::{push_hit, Rule};
use crate::ast::Node;
use crate::finding::{RuleHit, RuleHitView, Severity};

verus! {

pub const MESSAGE: &'static str = "REFRESH MATERIALIZED VIEW without CONCURRENTLY takes an ACCESS EXCLUSIVE lock and blocks \
    all reads of the view while it rebuilds.";

pub const GUIDANCE: &'static str = "Use REFRESH MATERIALIZED VIEW CONCURRENTLY (requires a unique index on the matview) so \
    reads are not blocked during the rebuild.";

/// Flags `REFRESH MATERIALIZED VIEW` without `CONCURRENTLY`. `WITH NO DATA` just empties the
/// view and is fast, so it is not flagged.
pub struct RefreshMatviewNonConcurrent;

impl Rule for RefreshMatviewNonConcurrent {
    open spec fn id_spec(&self) -> Seq<char> {
        "refresh-matview-non-concurrent"@
    }

    open spec fn severity_spec(&self) -> Severity {
        Severity::Error
    }

    open spec fn hits(&self, node: Node) -> Seq<RuleHitView> {
        if node matches Node::RefreshMatViewStmt(r) && !r.concurrent && !r.skip_data {
            seq![RuleHitView { message: MESSAGE@, guidance: GUIDANCE@, fix: None }]
        } else {
            Seq::empty()
        }
    }

    fn id(&self) -> (r: &'static str) {
        "refresh-matview-non-concurrent"
    }

    fn severity(&self) -> (r: Severity) {
        Severity::Error
    }

    fn check(&self, node: &Node, out: &mut Vec<RuleHit>) {
        let flagged = match node {
            Node::RefreshMatViewStmt(r) => !r.concurrent && !r.skip_data,
            _ => false,
        };
        if flagged {
            push_hit(out, MESSAGE, GUIDANCE, None);
        }
    }
}

} // verus!
