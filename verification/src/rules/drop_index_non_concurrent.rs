use vstd::prelude::*;

use super::{push_hit, Rule};
use crate::ast::{Node, ObjectType};
use crate::finding::{RuleHit, RuleHitView, Severity};
use crate::fix::{single_edit, FixAnchor, FixAnchorView, FixDraft};

verus! {

pub const MESSAGE: &'static str = "DROP INDEX without CONCURRENTLY takes an ACCESS EXCLUSIVE lock on the index's table, \
    blocking reads and writes while it runs.";

pub const GUIDANCE: &'static str = "Use DROP INDEX CONCURRENTLY (outside a transaction block).";

/// Flags `DROP INDEX` without `CONCURRENTLY`.
pub struct DropIndexNonConcurrent;

impl Rule for DropIndexNonConcurrent {
    open spec fn id_spec(&self) -> Seq<char> {
        "drop-index-non-concurrent"@
    }

    open spec fn severity_spec(&self) -> Severity {
        Severity::Error
    }

    open spec fn hits(&self, node: Node) -> Seq<RuleHitView> {
        match node {
            Node::DropStmt(d) => if d.remove_type == ObjectType::Index && !d.concurrent {
                seq![
                    RuleHitView {
                        message: MESSAGE@,
                        guidance: GUIDANCE@,
                        fix: if d.objects@.len() == 1 {
                            Some(
                                single_edit(
                                    "Add CONCURRENTLY"@,
                                    FixAnchorView::AfterKeyword("INDEX"@),
                                    " CONCURRENTLY"@,
                                ),
                            )
                        } else {
                            None
                        },
                    },
                ]
            } else {
                Seq::empty()
            },
            _ => Seq::empty(),
        }
    }

    fn id(&self) -> (r: &'static str) {
        "drop-index-non-concurrent"
    }

    fn severity(&self) -> (r: Severity) {
        Severity::Error
    }

    fn check(&self, node: &Node, out: &mut Vec<RuleHit>) {
        if let Node::DropStmt(d) = node {
            if d.remove_type == ObjectType::Index && !d.concurrent {
                // CONCURRENTLY is illegal where several indexes are dropped at once.
                let fix = if d.objects.len() == 1 {
                    Some(
                        FixDraft::single(
                            "Add CONCURRENTLY",
                            FixAnchor::AfterKeyword("INDEX"),
                            " CONCURRENTLY",
                        ),
                    )
                } else {
                    None
                };
                push_hit(out, MESSAGE, GUIDANCE, fix);
            }
        }
    }
}

} // verus!
