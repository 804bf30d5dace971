use vstd::prelude::*;

use super::{
    columns_being_added, columns_being_added_spec, plain_hit, push_hits, repeated, Rule,
};
use crate::ast::{values, ColumnDef, ConstrType, Node};
use crate::finding::{RuleHit, RuleHitView, Severity};
use crate::text::{lower_text, str_eq, to_ascii_lower};

verus! {

pub const MESSAGE: &'static str = "ADD COLUMN with a volatile DEFAULT (e.g. random(), gen_random_uuid()) rewrites every \
    existing row under an ACCESS EXCLUSIVE lock.";

pub const GUIDANCE: &'static str = "Add the column nullable with no default, backfill existing rows in batches, then ALTER \
    COLUMN ... SET DEFAULT for new rows (add NOT NULL via the safe two-step if needed).";

/// Known-volatile functions whose use in an `ADD COLUMN` default forces a full
/// table rewrite. Stable functions (`now`, `current_timestamp`, …) are not among them
/// because PostgreSQL evaluates them once and keeps the fast path.
pub open spec fn is_volatile_name(t: Seq<char>) -> bool {
    ||| t == "random"@
    ||| t == "random_normal"@
    ||| t == "gen_random_uuid"@
    ||| t == "gen_random_bytes"@
    ||| t == "uuid_generate_v4"@
    ||| t == "uuid_generate_v1"@
    ||| t == "uuid_generate_v1mc"@
    ||| t == "clock_timestamp"@
    ||| t == "timeofday"@
    ||| t == "nextval"@
}

/// Whether the last part of a (possibly schema-qualified) function name is on
/// the volatile denylist, matched case-insensitively.
pub open spec fn is_volatile_funcname_spec(funcname: Seq<Node>) -> bool {
    funcname.len() > 0 && match funcname.last() {
        Node::Str(s) => is_volatile_name(lower_text(s@)),
        _ => false,
    }
}

fn is_volatile_funcname(funcname: &Vec<Node>) -> (r: bool)
    ensures
        r == is_volatile_funcname_spec(funcname@),
{
    let n: usize = funcname.len();
    if n == 0 {
        return false;
    }
    match &funcname[n - 1] {
        Node::Str(s) => {
            let name = to_ascii_lower(s.as_str());
            let w = name.as_str();
            str_eq(w, "random") || str_eq(w, "random_normal") || str_eq(w, "gen_random_uuid") || str_eq(w, "gen_random_bytes") || str_eq(w, "uuid_generate_v4") || str_eq(w, "uuid_generate_v1") || str_eq(w, "uuid_generate_v1mc") || str_eq(w, "clock_timestamp") || str_eq(w, "timeofday") || str_eq(w, "nextval")
        },
        _ => false,
    }
}

/// Whether an expression subtree calls a denylisted volatile function. Descends
/// through the expression-composition nodes that realistically appear in a
/// default; any other node is a leaf.
pub open spec fn contains_volatile(n: Node) -> bool
    decreases n,
{
    match n {
        Node::FuncCall(fc) => is_volatile_funcname_spec(fc.funcname@) || any_contains_volatile(
            fc.args@,
        ),
        Node::TypeCast(arg) => operand_contains_volatile(arg),
        Node::AExpr(l, r) => operand_contains_volatile(l) || operand_contains_volatile(r),
        Node::BoolExpr(args) => any_contains_volatile(args@),
        Node::CoalesceExpr(args) => any_contains_volatile(args@),
        Node::CaseExpr(e) => operand_contains_volatile(e.arg) || operand_contains_volatile(
            e.defresult,
        ) || any_contains_volatile(e.args@),
        Node::CaseWhen(cond, result) => operand_contains_volatile(cond)
            || operand_contains_volatile(result),
        Node::MinMaxExpr(args) => any_contains_volatile(args@),
        Node::AArrayExpr(elements) => any_contains_volatile(elements@),
        _ => false,
    }
}

/// Whether an optional operand contains a volatile call.
pub open spec fn operand_contains_volatile(o: Option<Box<Node>>) -> bool
    decreases o,
{
    match o {
        Some(n) => contains_volatile(*n),
        None => false,
    }
}

/// Whether one of some operands contains a volatile call.
pub open spec fn any_contains_volatile(ns: Seq<Node>) -> bool
    decreases ns,
{
    ns.len() > 0 && (contains_volatile(ns.last()) || any_contains_volatile(ns.drop_last()))
}

fn expr_contains_volatile(node: &Node) -> (r: bool)
    ensures
        r == contains_volatile(*node),
    decreases node,
{
    match node {
        Node::FuncCall(fc) => is_volatile_funcname(&fc.funcname) || any_expr_contains_volatile(
            &fc.args,
        ),
        Node::TypeCast(arg) => operand_expr_contains_volatile(arg),
        Node::AExpr(l, r) => operand_expr_contains_volatile(l) || operand_expr_contains_volatile(r),
        Node::BoolExpr(args) => any_expr_contains_volatile(args),
        Node::CoalesceExpr(args) => any_expr_contains_volatile(args),
        Node::CaseExpr(e) => operand_expr_contains_volatile(&e.arg)
            || operand_expr_contains_volatile(&e.defresult) || any_expr_contains_volatile(&e.args),
        Node::CaseWhen(cond, result) => operand_expr_contains_volatile(cond)
            || operand_expr_contains_volatile(result),
        Node::MinMaxExpr(args) => any_expr_contains_volatile(args),
        Node::AArrayExpr(elements) => any_expr_contains_volatile(elements),
        _ => false,
    }
}

fn operand_expr_contains_volatile(o: &Option<Box<Node>>) -> (r: bool)
    ensures
        r == operand_contains_volatile(*o),
    decreases o,
{
    match o {
        Some(n) => expr_contains_volatile(&**n),
        None => false,
    }
}

fn any_expr_contains_volatile(ns: &Vec<Node>) -> (r: bool)
    ensures
        r == any_contains_volatile(ns@),
    decreases ns,
{
    let mut found = false;
    let mut i: usize = 0;
    while i < ns.len()
        invariant
            i <= ns@.len(),
            found == any_contains_volatile(ns@.take(i as int)),
        decreases ns@.len() - i,
    {
        proof {
            assert(ns@.take(i + 1).drop_last() == ns@.take(i as int));
            assert(ns@.take(i + 1).last() == ns@[i as int]);
        }
        let here = expr_contains_volatile(&ns[i]);
        found = here || found;
        i += 1;
    }
    assert(ns@.take(ns@.len() as int) == ns@);
    found
}

/// Whether a node is a default whose expression contains a volatile call.
pub open spec fn is_volatile_default(n: Node) -> bool {
    n matches Node::Constraint(c) && c.contype == ConstrType::Default && operand_contains_volatile(
        c.raw_expr,
    )
}

/// A column whose default calls a volatile function.
pub open spec fn has_volatile_default_spec(col: ColumnDef) -> bool {
    exists|i: int|
        0 <= i < col.constraints@.len() && is_volatile_default(#[trigger] col.constraints@[i])
}

fn has_volatile_default(col: &ColumnDef) -> (r: bool)
    ensures
        r == has_volatile_default_spec(*col),
{
    let mut i: usize = 0;
    while i < col.constraints.len()
        invariant
            i <= col.constraints@.len(),
            forall|j: int| 0 <= j < i ==> !is_volatile_default(#[trigger] col.constraints@[j]),
        decreases col.constraints@.len() - i,
    {
        if let Node::Constraint(c) = &col.constraints[i] {
            if c.contype == ConstrType::Default && operand_expr_contains_volatile(&c.raw_expr) {
                assert(is_volatile_default(col.constraints@[i as int]));
                return true;
            }
        }
        i += 1;
    }
    false
}

/// Number of such columns.
pub open spec fn count_spec(cols: Seq<ColumnDef>) -> int
    decreases cols.len(),
{
    if cols.len() == 0 {
        0
    } else {
        count_spec(cols.drop_last()) + if has_volatile_default_spec(cols.last()) {
            1int
        } else {
            0int
        }
    }
}

/// Flags `ADD COLUMN` with a volatile `DEFAULT`.
pub struct AddColumnVolatileDefault;

impl Rule for AddColumnVolatileDefault {
    open spec fn id_spec(&self) -> Seq<char> {
        "add-column-volatile-default"@
    }

    open spec fn severity_spec(&self) -> Severity {
        Severity::Error
    }

    open spec fn hits(&self, node: Node) -> Seq<RuleHitView> {
        repeated(plain_hit(MESSAGE@, GUIDANCE@), count_spec(columns_being_added_spec(node)))
    }

    fn id(&self) -> (r: &'static str) {
        "add-column-volatile-default"
    }

    fn severity(&self) -> (r: Severity) {
        Severity::Error
    }

    fn check(&self, node: &Node, out: &mut Vec<RuleHit>) {
        let cols = columns_being_added(node);
        let ghost all = values(cols@);
        let mut n: usize = 0;
        let mut i: usize = 0;
        while i < cols.len()
            invariant
                i <= cols@.len(),
                n <= i,
                all == values(cols@),
                n == count_spec(all.take(i as int)),
            decreases cols@.len() - i,
        {
            proof {
                assert(all.take(i + 1).drop_last() == all.take(i as int));
                assert(all.take(i + 1).last() == *cols@[i as int]);
            }
            if has_volatile_default(cols[i]) {
                n += 1;
            }
            i += 1;
        }
        assert(all.take(all.len() as int) == all);
        push_hits(out, n, MESSAGE, GUIDANCE);
    }
}

} // verus!
