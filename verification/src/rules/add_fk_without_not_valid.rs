use vstd::prelude::*;

use super::{
    alter_table_cmds, alter_table_cmds_spec, column_has_constraint, columns_being_added,
    columns_being_added_spec, constraints_being_added, constraints_being_added_spec,
    count_constraints, count_constraints_spec, has_constraint, hits_view, plain_hit, push_hits,
    push_suffix_hits, repeated, suffix_hit, Rule,
};
use crate::ast::{values, ColumnDef, ConstrType, Node};
use crate::finding::{RuleHit, RuleHitView, Severity};

verus! {

pub const MESSAGE: &'static str = "Adding a FOREIGN KEY without NOT VALID validates every existing row while holding locks on \
    both tables.";

pub const GUIDANCE: &'static str = "Add the constraint with NOT VALID first (brief lock, no scan), then run ALTER TABLE ... \
    VALIDATE CONSTRAINT in a separate statement (it allows concurrent reads and writes).";

pub const INLINE_MESSAGE: &'static str = "An inline FOREIGN KEY on a new column with a DEFAULT validates the default against every \
    existing row while holding locks on both tables.";

pub const INLINE_GUIDANCE: &'static str = "Add the column without the REFERENCES clause, then ADD CONSTRAINT ... FOREIGN KEY ... NOT \
    VALID, then VALIDATE CONSTRAINT separately.";

/// Number of columns with both a reference and a default.
pub open spec fn count_defaulted_references(cols: Seq<ColumnDef>) -> int
    decreases cols.len(),
{
    if cols.len() == 0 {
        0
    } else {
        count_defaulted_references(cols.drop_last()) + if has_constraint(
            cols.last().constraints@,
            ConstrType::Foreign,
        ) && has_constraint(cols.last().constraints@, ConstrType::Default) {
            1int
        } else {
            0int
        }
    }
}

/// Flags a `FOREIGN KEY` that is validated at once, as a constraint of its own or inline on
/// a new column with a `DEFAULT` (a nullable column with no default is exempt: NULL needs no
/// referenced row).
pub struct AddFkWithoutNotValid;

impl Rule for AddFkWithoutNotValid {
    open spec fn id_spec(&self) -> Seq<char> {
        "add-fk-without-not-valid"@
    }

    open spec fn severity_spec(&self) -> Severity {
        Severity::Error
    }

    open spec fn hits(&self, node: Node) -> Seq<RuleHitView> {
        repeated(
            suffix_hit(
                MESSAGE@,
                GUIDANCE@,
                "Add NOT VALID"@,
                " NOT VALID"@,
                alter_table_cmds_spec(node).len() == 1,
            ),
            count_constraints_spec(constraints_being_added_spec(node), ConstrType::Foreign, true),
        ) + repeated(
            plain_hit(INLINE_MESSAGE@, INLINE_GUIDANCE@),
            count_defaulted_references(columns_being_added_spec(node)),
        )
    }

    fn id(&self) -> (r: &'static str) {
        "add-fk-without-not-valid"
    }

    fn severity(&self) -> (r: Severity) {
        Severity::Error
    }

    fn check(&self, node: &Node, out: &mut Vec<RuleHit>) {
        let ghost before = hits_view(out@);
        let cons = constraints_being_added(node);
        let n: usize = count_constraints(&cons, ConstrType::Foreign, true);
        // With more than one command the end of the statement is ambiguous: NOT VALID would
        // bind to the last one.
        let sole = alter_table_cmds(node).len() == 1;
        push_suffix_hits(out, n, MESSAGE, GUIDANCE, "Add NOT VALID", " NOT VALID", sole);
        let cols = columns_being_added(node);
        let ghost all = values(cols@);
        let mut inline: usize = 0;
        let mut i: usize = 0;
        while i < cols.len()
            invariant
                i <= cols@.len(),
                inline <= i,
                all == values(cols@),
                inline == count_defaulted_references(all.take(i as int)),
            decreases cols@.len() - i,
        {
            proof {
                assert(all.take(i + 1).drop_last() == all.take(i as int));
                assert(all.take(i + 1).last() == *cols@[i as int]);
            }
            if column_has_constraint(cols[i], ConstrType::Foreign) && column_has_constraint(
                cols[i],
                ConstrType::Default,
            ) {
                inline += 1;
            }
            i += 1;
        }
        assert(all.take(all.len() as int) == all);
        push_hits(out, inline, INLINE_MESSAGE, INLINE_GUIDANCE);
        assert(hits_view(out@) == before + self.hits(*node));
    }
}

} // verus!
