use vstd::prelude::*;

use super::{
    column_base_type, column_base_type_spec, defined_columns, defined_columns_spec, hits_view,
    push_hit, Rule,
};
use crate::ast::{values, ColumnDef, Node};
use crate::finding::{RuleHit, RuleHitView, Severity};
use crate::fix::{single_edit, FixAnchor, FixAnchorView, FixDraft, FixDraftView};
use crate::text::str_eq;

verus! {

pub const MESSAGE: &'static str = "A `json` column has no equality or ordering operators, so SELECT DISTINCT, GROUP BY, UNION, \
    and ORDER BY on it fail at query time.";

pub const GUIDANCE: &'static str = "Use `jsonb` instead — it supports those operators and indexing. `json` only preserves exact \
    input text and duplicate/key order, which is rarely needed.";

/// Swaps the type token of a column, where its place in the source is known.
pub open spec fn type_token_fix_spec(
    col: ColumnDef,
    title: Seq<char>,
    replacement: Seq<char>,
) -> Option<FixDraftView> {
    match col.coltype {
        Some(t) => if t.location >= 0 {
            Some(single_edit(title, FixAnchorView::ReplaceTokenAt(t.location as int), replacement))
        } else {
            None
        },
        None => None,
    }
}

/// A draft that swaps the type token of a column. The location of a type always points at
/// the token as written in the source; it is -1 where the source position is unknown.
pub fn type_token_fix(col: &ColumnDef, title: &'static str, replacement: &str) -> (r: Option<
    FixDraft,
>)
    ensures
        match r {
            Some(d) => type_token_fix_spec(*col, title@, replacement@) == Some(d@),
            None => type_token_fix_spec(*col, title@, replacement@) is None,
        },
{
    match &col.coltype {
        Some(t) => if t.location >= 0 {
            Some(
                FixDraft::single(title, FixAnchor::ReplaceTokenAt(t.location as u32), replacement),
            )
        } else {
            None
        },
        None => None,
    }
}

/// One hit for each `json` column.
pub open spec fn json_hits(cols: Seq<ColumnDef>) -> Seq<RuleHitView>
    decreases cols.len(),
{
    if cols.len() == 0 {
        Seq::empty()
    } else {
        let before = json_hits(cols.drop_last());
        if column_base_type_spec(cols.last()) == Some("json"@) {
            before.push(
                RuleHitView {
                    message: MESSAGE@,
                    guidance: GUIDANCE@,
                    fix: type_token_fix_spec(cols.last(), "Use jsonb"@, "jsonb"@),
                },
            )
        } else {
            before
        }
    }
}

/// Flags a `json` column.
pub struct PreferJsonb;

impl Rule for PreferJsonb {
    open spec fn id_spec(&self) -> Seq<char> {
        "prefer-jsonb"@
    }

    open spec fn severity_spec(&self) -> Severity {
        Severity::Warning
    }

    open spec fn hits(&self, node: Node) -> Seq<RuleHitView> {
        json_hits(defined_columns_spec(node))
    }

    fn id(&self) -> (r: &'static str) {
        "prefer-jsonb"
    }

    fn severity(&self) -> (r: Severity) {
        Severity::Warning
    }

    fn check(&self, node: &Node, out: &mut Vec<RuleHit>) {
        let ghost before = hits_view(out@);
        let cols = defined_columns(node);
        let ghost all = values(cols@);
        let mut i: usize = 0;
        assert(before + json_hits(all.take(0)) == before);
        while i < cols.len()
            invariant
                i <= cols@.len(),
                all == values(cols@),
                hits_view(out@) == before + json_hits(all.take(i as int)),
            decreases cols@.len() - i,
        {
            proof {
                assert(all.take(i + 1).drop_last() == all.take(i as int));
                assert(all.take(i + 1).last() == *cols@[i as int]);
            }
            let is_json = match column_base_type(cols[i]) {
                Some(t) => str_eq(t.as_str(), "json"),
                None => false,
            };
            if is_json {
                push_hit(out, MESSAGE, GUIDANCE, type_token_fix(cols[i], "Use jsonb", "jsonb"));
            }
            assert(hits_view(out@) == before + json_hits(all.take(i + 1)));
            i += 1;
        }
        assert(all.take(all.len() as int) == all);
    }
}

} // verus!
