use vstd::prelude::*;

use super::{
    alter_table_cmds, alter_table_cmds_spec, push_suffix_hits, repeated, suffix_hit, Rule,
};
use crate::ast::{values, AlterTableCmd, AlterTableType, Node};
use crate::finding::{RuleHit, RuleHitView, Severity};

verus! {

pub const MESSAGE: &'static str = "DETACH PARTITION takes an ACCESS EXCLUSIVE lock on the parent table and the partition, \
    blocking all access to the whole partitioned table while it runs.";

pub const GUIDANCE: &'static str = "Use ALTER TABLE ... DETACH PARTITION ... CONCURRENTLY (PostgreSQL 14+; it takes only SHARE \
    UPDATE EXCLUSIVE on the parent, so reads and writes keep working). It must run outside a \
    transaction block.";

/// Whether a command detaches a partition other than concurrently.
pub open spec fn detaches(cmd: AlterTableCmd) -> bool {
    cmd.subtype == AlterTableType::DetachPartition && !(match cmd.def {
        Some(d) => *d matches Node::PartitionCmd(pc) && pc.concurrent,
        None => false,
    })
}

/// Number of such commands.
pub open spec fn count_detaches(cmds: Seq<AlterTableCmd>) -> int
    decreases cmds.len(),
{
    if cmds.len() == 0 {
        0
    } else {
        count_detaches(cmds.drop_last()) + if detaches(cmds.last()) {
            1int
        } else {
            0int
        }
    }
}

/// Flags `DETACH PARTITION` without `CONCURRENTLY`.
pub struct DetachPartitionNonConcurrent;

impl Rule for DetachPartitionNonConcurrent {
    open spec fn id_spec(&self) -> Seq<char> {
        "detach-partition-non-concurrent"@
    }

    open spec fn severity_spec(&self) -> Severity {
        Severity::Error
    }

    open spec fn hits(&self, node: Node) -> Seq<RuleHitView> {
        repeated(
            suffix_hit(
                MESSAGE@,
                GUIDANCE@,
                "Add CONCURRENTLY"@,
                " CONCURRENTLY"@,
                alter_table_cmds_spec(node).len() == 1,
            ),
            count_detaches(alter_table_cmds_spec(node)),
        )
    }

    fn id(&self) -> (r: &'static str) {
        "detach-partition-non-concurrent"
    }

    fn severity(&self) -> (r: Severity) {
        Severity::Error
    }

    fn check(&self, node: &Node, out: &mut Vec<RuleHit>) {
        let cmds = alter_table_cmds(node);
        let ghost all = values(cmds@);
        let mut n: usize = 0;
        let mut i: usize = 0;
        while i < cmds.len()
            invariant
                i <= cmds@.len(),
                n <= i,
                all == values(cmds@),
                n == count_detaches(all.take(i as int)),
            decreases cmds@.len() - i,
        {
            proof {
                assert(all.take(i + 1).drop_last() == all.take(i as int));
                assert(all.take(i + 1).last() == *cmds@[i as int]);
            }
            let concurrent = match &cmds[i].def {
                Some(d) => match &**d {
                    Node::PartitionCmd(pc) => pc.concurrent,
                    _ => false,
                },
                None => false,
            };
            if cmds[i].subtype == AlterTableType::DetachPartition && !concurrent {
                n += 1;
            }
            i += 1;
        }
        assert(all.take(all.len() as int) == all);
        // A statement of several commands needs a manual rewrite: its end is ambiguous.
        let sole = cmds.len() == 1;
        push_suffix_hits(out, n, MESSAGE, GUIDANCE, "Add CONCURRENTLY", " CONCURRENTLY", sole);
    }
}

} // verus!
