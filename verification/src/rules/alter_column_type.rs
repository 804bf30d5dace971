use vstd::prelude::*;

use super::{alter_table_cmds_spec, count_cmds, count_subtypes, plain_hit, push_hits, repeated, Rule};
use crate::ast::{AlterTableType, Node};
use crate::finding::{RuleHit, RuleHitView, Severity};

verus! {

pub const MESSAGE: &'static str = "ALTER COLUMN ... TYPE usually rewrites the whole table and rebuilds its indexes under an \
    ACCESS EXCLUSIVE lock. Even a metadata-only change that does not rewrite (widening a \
    varchar/numeric/timestamp precision, or varchar->text) changes the column's result type and \
    breaks cached query plans and prepared statements in live sessions ('cached plan must not \
    change result type') until they re-plan.";

pub const GUIDANCE: &'static str = "Use expand/contract for a rewriting change: add a new column, dual-write and backfill in \
    batches, then swap (some changes, e.g. int->bigint, always rewrite). A no-rewrite change \
    (e.g. varchar->text or widening a varchar) avoids the table rewrite but still invalidates \
    cached plans, so recycle pooled connections or run DISCARD PLANS afterward, or apply it \
    during a deploy window.";

/// Flags `ALTER COLUMN ... TYPE`.
pub struct AlterColumnType;

impl Rule for AlterColumnType {
    open spec fn id_spec(&self) -> Seq<char> {
        "alter-column-type"@
    }

    open spec fn severity_spec(&self) -> Severity {
        Severity::Error
    }

    open spec fn hits(&self, node: Node) -> Seq<RuleHitView> {
        repeated(
            plain_hit(MESSAGE@, GUIDANCE@),
            count_subtypes(
                alter_table_cmds_spec(node),
                AlterTableType::AlterColumnType,
                AlterTableType::AlterColumnType,
            ),
        )
    }

    fn id(&self) -> (r: &'static str) {
        "alter-column-type"
    }

    fn severity(&self) -> (r: Severity) {
        Severity::Error
    }

    fn check(&self, node: &Node, out: &mut Vec<RuleHit>) {
        let n: usize = count_cmds(node, AlterTableType::AlterColumnType, AlterTableType::AlterColumnType);
        push_hits(out, n, MESSAGE, GUIDANCE);
    }
}

} // verus!
