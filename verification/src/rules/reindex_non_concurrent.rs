use vstd::prelude::*;

use super::{option_is_on, push_hit, reindex_is_concurrent, Rule};
use crate::ast::{Node, ReindexObjectType};
use crate::finding::{RuleHit, RuleHitView, Severity};
use crate::fix::{single_edit, FixAnchor, FixAnchorView, FixDraft};

verus! {

pub const MESSAGE: &'static str = "REINDEX without CONCURRENTLY takes an ACCESS EXCLUSIVE lock on each index it rebuilds, \
    blocking writes (and reads through that index).";

pub const GUIDANCE: &'static str = "Use REINDEX INDEX CONCURRENTLY (PG12+, outside a transaction); on older servers use \
    pg_repack or a maintenance window.";

/// The keyword `CONCURRENTLY` must follow, by what is rebuilt. `REINDEX SYSTEM` has no
/// concurrent form.
pub open spec fn target_keyword_spec(kind: ReindexObjectType) -> Option<Seq<char>> {
    match kind {
        ReindexObjectType::Index => Some("INDEX"@),
        ReindexObjectType::Table => Some("TABLE"@),
        ReindexObjectType::Schema => Some("SCHEMA"@),
        ReindexObjectType::Database => Some("DATABASE"@),
        _ => None,
    }
}

fn target_keyword(kind: ReindexObjectType) -> (r: Option<&'static str>)
    ensures
        match r {
            Some(kw) => target_keyword_spec(kind) == Some(kw@),
            None => target_keyword_spec(kind) is None,
        },
{
    match kind {
        ReindexObjectType::Index => Some("INDEX"),
        ReindexObjectType::Table => Some("TABLE"),
        ReindexObjectType::Schema => Some("SCHEMA"),
        ReindexObjectType::Database => Some("DATABASE"),
        _ => None,
    }
}

/// Flags `REINDEX` without `CONCURRENTLY`.
pub struct ReindexNonConcurrent;

impl Rule for ReindexNonConcurrent {
    open spec fn id_spec(&self) -> Seq<char> {
        "reindex-non-concurrent"@
    }

    open spec fn severity_spec(&self) -> Severity {
        Severity::Error
    }

    open spec fn hits(&self, node: Node) -> Seq<RuleHitView> {
        match node {
            Node::ReindexStmt(r) => if !option_is_on(r.params@, "concurrently"@) {
                seq![
                    RuleHitView {
                        message: MESSAGE@,
                        guidance: GUIDANCE@,
                        fix: match target_keyword_spec(r.kind) {
                            Some(kw) => Some(
                                single_edit(
                                    "Add CONCURRENTLY"@,
                                    FixAnchorView::AfterKeyword(kw),
                                    " CONCURRENTLY"@,
                                ),
                            ),
                            None => None,
                        },
                    },
                ]
            } else {
                Seq::empty()
            },
            _ => Seq::empty(),
        }
    }

    fn id(&self) -> (r: &'static str) {
        "reindex-non-concurrent"
    }

    fn severity(&self) -> (r: Severity) {
        Severity::Error
    }

    fn check(&self, node: &Node, out: &mut Vec<RuleHit>) {
        if let Node::ReindexStmt(r) = node {
            if !reindex_is_concurrent(r) {
                let fix = match target_keyword(r.kind) {
                    Some(kw) => Some(
                        FixDraft::single(
                            "Add CONCURRENTLY",
                            FixAnchor::AfterKeyword(kw),
                            " CONCURRENTLY",
                        ),
                    ),
                    None => None,
                };
                push_hit(out, MESSAGE, GUIDANCE, fix);
            }
        }
    }
}

} // verus!
