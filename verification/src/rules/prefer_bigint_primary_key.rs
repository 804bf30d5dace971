use vstd::prelude::*;

use super::prefer_jsonb::{type_token_fix, type_token_fix_spec};
use super::{
    column_base_type, column_base_type_spec, column_has_constraint, defined_columns,
    defined_columns_spec, defined_table_constraints, defined_table_constraints_spec,
    has_constraint, hits_view, push_hit, Rule,
};
use crate::ast::{node_string, node_string_spec, values, ColumnDef, ConstrType, Constraint, Node};
use crate::finding::{RuleHit, RuleHitView, Severity};
use crate::fix::{FixDraft, FixDraftView};
use crate::text::str_eq;

verus! {

pub const MESSAGE: &'static str = "A small-integer PRIMARY KEY overflows its id space (int4 at ~2.1 billion rows, int2 at ~32 \
    thousand) — a hard outage once ids run out, with no online fix.";

pub const GUIDANCE: &'static str = "Use `bigint`/`bigserial`, or `GENERATED ALWAYS AS IDENTITY`. Migrating a live int primary \
    key to bigint later is a major, painful operation — start with bigint.";

/// Integer types too small for a primary key (int4 overflows at ~2.1B rows, int2 at ~32k),
/// under their SQL aliases and canonical names.
pub open spec fn is_small_int(t: Seq<char>) -> bool {
    ||| t == "int2"@
    ||| t == "smallint"@
    ||| t == "int4"@
    ||| t == "int"@
    ||| t == "integer"@
    ||| t == "serial"@
    ||| t == "serial4"@
    ||| t == "serial2"@
    ||| t == "smallserial"@
}

fn small_int(t: &str) -> (r: bool)
    ensures
        r == is_small_int(t@),
{
    str_eq(t, "int2") || str_eq(t, "smallint") || str_eq(t, "int4") || str_eq(t, "int") || str_eq(t, "integer") || str_eq(t, "serial") || str_eq(t, "serial4") || str_eq(t, "serial2") || str_eq(t, "smallserial")
}

/// The serial aliases among them.
pub open spec fn is_small_serial(t: Seq<char>) -> bool {
    ||| t == "serial"@
    ||| t == "serial2"@
    ||| t == "serial4"@
    ||| t == "smallserial"@
}

fn small_serial(t: &str) -> (r: bool)
    ensures
        r == is_small_serial(t@),
{
    str_eq(t, "serial") || str_eq(t, "serial2") || str_eq(t, "serial4") || str_eq(t, "smallserial")
}

/// The upgrade of a small-integer type. Serial aliases carry a sequence that plain `bigint`
/// would silently drop, so they become `bigserial`.
pub open spec fn bigint_fix_spec(ty: Seq<char>, col: ColumnDef) -> Option<FixDraftView> {
    type_token_fix_spec(
        col,
        "Use bigint"@,
        if is_small_serial(ty) {
            "bigserial"@
        } else {
            "bigint"@
        },
    )
}

fn bigint_fix(ty: &str, col: &ColumnDef) -> (r: Option<FixDraft>)
    ensures
        match r {
            Some(d) => bigint_fix_spec(ty@, *col) == Some(d@),
            None => bigint_fix_spec(ty@, *col) is None,
        },
{
    let replacement = if small_serial(ty) {
        "bigserial"
    } else {
        "bigint"
    };
    type_token_fix(col, "Use bigint", replacement)
}

/// Whether a column of that name is declared `PRIMARY KEY` inline.
pub open spec fn inline_key(cols: Seq<ColumnDef>, name: Seq<char>) -> bool {
    exists|i: int|
        0 <= i < cols.len() && (#[trigger] cols[i]).colname@ == name && has_constraint(
            cols[i].constraints@,
            ConstrType::Primary,
        )
}

/// Whether a list of key columns names it.
pub open spec fn names_key(keys: Seq<Node>, name: Seq<char>) -> bool {
    exists|i: int| 0 <= i < keys.len() && node_string_spec(#[trigger] keys[i]) == Some(name)
}

/// Whether a table-level `PRIMARY KEY (...)` names it.
pub open spec fn table_key(cons: Seq<Constraint>, name: Seq<char>) -> bool {
    exists|i: int|
        0 <= i < cons.len() && (#[trigger] cons[i]).contype == ConstrType::Primary && names_key(
            cons[i].keys@,
            name,
        )
}

/// Whether the statement makes the column of that name part of a primary key: inline, or by
/// a constraint of the same `CREATE TABLE` or `ALTER TABLE`.
pub open spec fn is_key(node: Node, name: Seq<char>) -> bool {
    inline_key(defined_columns_spec(node), name) || table_key(
        defined_table_constraints_spec(node),
        name,
    )
}

fn column_is_key(cols: &Vec<&ColumnDef>, cons: &Vec<&Constraint>, name: &str) -> (r: bool)
    ensures
        r == (inline_key(values(cols@), name@) || table_key(values(cons@), name@)),
{
    let ghost cv = values(cols@);
    let ghost kv = values(cons@);
    let mut i: usize = 0;
    while i < cols.len()
        invariant
            i <= cols@.len(),
            cv == values(cols@),
            forall|j: int|
                0 <= j < i ==> !((#[trigger] cv[j]).colname@ == name@ && has_constraint(
                    cv[j].constraints@,
                    ConstrType::Primary,
                )),
        decreases cols@.len() - i,
    {
        assert(cv[i as int] == *cols@[i as int]);
        if str_eq(cols[i].colname.as_str(), name) && column_has_constraint(
            cols[i],
            ConstrType::Primary,
        ) {
            return true;
        }
        i += 1;
    }
    let mut k: usize = 0;
    while k < cons.len()
        invariant
            k <= cons@.len(),
            kv == values(cons@),
            forall|j: int|
                0 <= j < k ==> !((#[trigger] kv[j]).contype == ConstrType::Primary && names_key(
                    kv[j].keys@,
                    name@,
                )),
        decreases cons@.len() - k,
    {
        assert(kv[k as int] == *cons@[k as int]);
        if cons[k].contype == ConstrType::Primary && keys_contain(&cons[k].keys, name) {
            return true;
        }
        k += 1;
    }
    false
}

fn keys_contain(keys: &Vec<Node>, name: &str) -> (r: bool)
    ensures
        r == names_key(keys@, name@),
{
    let mut i: usize = 0;
    while i < keys.len()
        invariant
            i <= keys@.len(),
            forall|j: int| 0 <= j < i ==> node_string_spec(#[trigger] keys@[j]) != Some(name@),
        decreases keys@.len() - i,
    {
        if let Some(k) = node_string(&keys[i]) {
            if str_eq(k, name) {
                assert(node_string_spec(keys@[i as int]) == Some(name@));
                return true;
            }
        }
        i += 1;
    }
    false
}

/// One hit for each of `cols` that is a small-integer key of the statement.
pub open spec fn small_key_hits(node: Node, cols: Seq<ColumnDef>) -> Seq<RuleHitView>
    decreases cols.len(),
{
    if cols.len() == 0 {
        Seq::empty()
    } else {
        let before = small_key_hits(node, cols.drop_last());
        let col = cols.last();
        match column_base_type_spec(col) {
            Some(ty) => if is_key(node, col.colname@) && is_small_int(ty) {
                before.push(
                    RuleHitView {
                        message: MESSAGE@,
                        guidance: GUIDANCE@,
                        fix: bigint_fix_spec(ty, col),
                    },
                )
            } else {
                before
            },
            None => before,
        }
    }
}

/// Flags a primary key of a small integer type.
pub struct PreferBigintPrimaryKey;

impl Rule for PreferBigintPrimaryKey {
    open spec fn id_spec(&self) -> Seq<char> {
        "prefer-bigint-primary-key"@
    }

    open spec fn severity_spec(&self) -> Severity {
        Severity::Warning
    }

    open spec fn hits(&self, node: Node) -> Seq<RuleHitView> {
        small_key_hits(node, defined_columns_spec(node))
    }

    fn id(&self) -> (r: &'static str) {
        "prefer-bigint-primary-key"
    }

    fn severity(&self) -> (r: Severity) {
        Severity::Warning
    }

    fn check(&self, node: &Node, out: &mut Vec<RuleHit>) {
        let ghost before = hits_view(out@);
        let cols = defined_columns(node);
        let cons = defined_table_constraints(node);
        let ghost all = values(cols@);
        let mut i: usize = 0;
        assert(before + small_key_hits(*node, all.take(0)) == before);
        while i < cols.len()
            invariant
                i <= cols@.len(),
                all == values(cols@),
                all == defined_columns_spec(*node),
                values(cons@) == defined_table_constraints_spec(*node),
                hits_view(out@) == before + small_key_hits(*node, all.take(i as int)),
            decreases cols@.len() - i,
        {
            proof {
                assert(all.take(i + 1).drop_last() == all.take(i as int));
                assert(all.take(i + 1).last() == *cols@[i as int]);
            }
            let col = cols[i];
            if column_is_key(&cols, &cons, col.colname.as_str()) {
                if let Some(ty) = column_base_type(col) {
                    if small_int(ty.as_str()) {
                        push_hit(out, MESSAGE, GUIDANCE, bigint_fix(ty.as_str(), col));
                    }
                }
            }
            assert(hits_view(out@) == before + small_key_hits(*node, all.take(i + 1)));
            i += 1;
        }
        assert(all.take(all.len() as int) == all);
    }
}

} // verus!
