use vstd::prelude::*;

use super::{
    columns_being_added, columns_being_added_spec, plain_hit, push_hits, repeated, Rule,
};
use crate::ast::{values, ColumnDef, Node};
use crate::finding::{RuleHit, RuleHitView, Severity};
use crate::text::{lower_text, str_eq, to_ascii_lower};

verus! {

pub const MESSAGE: &'static str = "ADD COLUMN with a serial type (e.g. bigserial) creates a sequence and rewrites every \
    existing row under an ACCESS EXCLUSIVE lock.";

pub const GUIDANCE: &'static str = "Add a plain nullable integer column (e.g. bigint), create the sequence and backfill \
    existing rows in batches, then ALTER COLUMN ... SET DEFAULT nextval(...) and add NOT NULL \
    via the safe two-step — do not add serial directly to a populated table.";

/// The serial pseudo-types.
pub open spec fn is_serial_name(t: Seq<char>) -> bool {
    ||| t == "serial"@
    ||| t == "serial2"@
    ||| t == "serial4"@
    ||| t == "serial8"@
    ||| t == "smallserial"@
    ||| t == "bigserial"@
}

/// A column of a serial pseudo-type. Each is sugar for a sequence + `nextval` default +
/// NOT NULL, so adding one to a populated table rewrites every row. Serial pseudo-types parse
/// as a single, unqualified name; real types are schema-qualified.
pub open spec fn is_serial_spec(col: ColumnDef) -> bool {
    match col.coltype {
        Some(t) => t.names@.len() == 1 && match t.names@[0] {
            Node::Str(s) => is_serial_name(lower_text(s@)),
            _ => false,
        },
        None => false,
    }
}

pub(crate) fn is_serial(col: &ColumnDef) -> (r: bool)
    ensures
        r == is_serial_spec(*col),
{
    match &col.coltype {
        Some(t) => {
            if t.names.len() != 1 {
                return false;
            }
            match &t.names[0] {
                Node::Str(s) => {
                    let name = to_ascii_lower(s.as_str());
                    let w = name.as_str();
                    str_eq(w, "serial") || str_eq(w, "serial2") || str_eq(w, "serial4") || str_eq(
                        w,
                        "serial8",
                    ) || str_eq(w, "smallserial") || str_eq(w, "bigserial")
                },
                _ => false,
            }
        },
        None => false,
    }
}

/// Number of such columns.
pub open spec fn count_spec(cols: Seq<ColumnDef>) -> int
    decreases cols.len(),
{
    if cols.len() == 0 {
        0
    } else {
        count_spec(cols.drop_last()) + if is_serial_spec(cols.last()) {
            1int
        } else {
            0int
        }
    }
}

/// Flags `ADD COLUMN` with a serial type.
pub struct AddColumnSerial;

impl Rule for AddColumnSerial {
    open spec fn id_spec(&self) -> Seq<char> {
        "add-column-serial"@
    }

    open spec fn severity_spec(&self) -> Severity {
        Severity::Error
    }

    open spec fn hits(&self, node: Node) -> Seq<RuleHitView> {
        repeated(plain_hit(MESSAGE@, GUIDANCE@), count_spec(columns_being_added_spec(node)))
    }

    fn id(&self) -> (r: &'static str) {
        "add-column-serial"
    }

    fn severity(&self) -> (r: Severity) {
        Severity::Error
    }

    fn check(&self, node: &Node, out: &mut Vec<RuleHit>) {
        let cols = columns_being_added(node);
        let ghost all = values(cols@);
        let mut n: usize = 0;
        let mut i: usize = 0;
        while i < cols.len()
            invariant
                i <= cols@.len(),
                n <= i,
                all == values(cols@),
                n == count_spec(all.take(i as int)),
            decreases cols@.len() - i,
        {
            proof {
                assert(all.take(i + 1).drop_last() == all.take(i as int));
                assert(all.take(i + 1).last() == *cols@[i as int]);
            }
            if is_serial(cols[i]) {
                n += 1;
            }
            i += 1;
        }
        assert(all.take(all.len() as int) == all);
        push_hits(out, n, MESSAGE, GUIDANCE);
    }
}

} // verus!
