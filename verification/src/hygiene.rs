//! The hygiene of inline directives: one that names no known rule, that gives no reason, or that
//! has nothing to suppress is itself reported, on the statement it is for.
use vstd::prelude::*;

use crate::ast::RawStmt;
use crate::collections::TextSet;
use crate::finding::{findings_view, Finding, FindingView};
use crate::newtable::{contains_index, on_new_table};
use crate::policy::{push_remark, remarks_view};
use crate::rules::words_view;
use crate::suppression::{directives_view, reason_for, suppressed, Directive, DirectiveView};
use crate::text::str_eq;

verus! {

/// Id of the finding on a directive that names no known rule.
pub const UNKNOWN_RULE_ID: &'static str = "suppression-unknown-rule";

/// Id of the finding on a directive without a reason.
pub const MISSING_REASON_ID: &'static str = "suppression-missing-reason";

/// Id of the finding on a directive with nothing to suppress.
pub const UNUSED_ID: &'static str = "suppression-unused";

/// How to mend a directive that names no known rule.
pub const UNKNOWN_RULE_GUIDANCE: &'static str =
    "Name one of the rules that `pgsafe --list-rules` prints.";

/// How to mend a directive without a reason.
pub const MISSING_REASON_GUIDANCE: &'static str =
    "Say behind the rule why the finding is acceptable: -- pgsafe:ignore <rule> <reason>.";

/// How to mend a directive with nothing to suppress.
pub const UNUSED_GUIDANCE: &'static str =
    "Remove the directive, or move it to the statement that it is meant for.";

/// The ids of the findings on directives.
pub open spec fn hygiene_ids() -> Seq<Seq<char>> {
    seq![UNKNOWN_RULE_ID@, MISSING_REASON_ID@, UNUSED_ID@]
}

/// What is wrong with a directive.
#[derive(Debug, Clone, Copy, PartialEq, Eq, Structural)]
pub enum Fault {
    /// It names no known rule.
    UnknownRule,
    /// It gives no reason.
    MissingReason,
    /// Its rule has no finding on its statement.
    Unused,
}

/// Whether a finding is of the directive's rule, on its statement.
pub open spec fn is_for(d: DirectiveView, f: FindingView) -> bool {
    d.statement_index == f.statement_index && d.rule_id == f.rule_id
}

/// Whether a directive is for one of some findings.
pub open spec fn has_target(d: DirectiveView, fs: Seq<FindingView>) -> bool {
    exists|i: int| 0 <= i < fs.len() && is_for(d, #[trigger] fs[i])
}

/// What is wrong with a directive, if anything. One for a disabled rule, or on a table that the
/// input itself creates, is not held to have a finding: the rule would have found one.
pub open spec fn fault_spec(
    d: DirectiveView,
    stmts: Seq<RawStmt>,
    fs: Seq<FindingView>,
    known: Seq<Seq<char>>,
    disabled: Seq<Seq<char>>,
) -> Option<Fault> {
    if !known.contains(d.rule_id) {
        Some(Fault::UnknownRule)
    } else if d.reason.len() == 0 {
        Some(Fault::MissingReason)
    } else if !has_target(d, fs) && !disabled.contains(d.rule_id) && !on_new_table(
        stmts,
        d.statement_index,
    ) {
        Some(Fault::Unused)
    } else {
        None
    }
}

/// What is said of a fault.
pub open spec fn fault_message(fault: Fault, rule_id: Seq<char>) -> Seq<char> {
    "The pgsafe:ignore directive for `"@ + rule_id + (match fault {
        Fault::UnknownRule => "` names no known rule, so it suppresses nothing."@,
        Fault::MissingReason => "` gives no reason, so it suppresses nothing."@,
        Fault::Unused => "` suppresses nothing: the rule has no finding on this statement."@,
    })
}

/// The remarks on those of some directives that have the fault.
pub open spec fn fault_remarks(
    fault: Fault,
    ds: Seq<DirectiveView>,
    stmts: Seq<RawStmt>,
    fs: Seq<FindingView>,
    known: Seq<Seq<char>>,
    disabled: Seq<Seq<char>>,
) -> Seq<(int, Seq<char>)>
    decreases ds.len(),
{
    if ds.len() == 0 {
        Seq::empty()
    } else {
        let before = fault_remarks(fault, ds.drop_last(), stmts, fs, known, disabled);
        let d = ds.last();
        if fault_spec(d, stmts, fs, known, disabled) == Some(fault) {
            before.push((d.statement_index, fault_message(fault, d.rule_id)))
        } else {
            before
        }
    }
}

fn is_known(known: &Vec<&'static str>, id: &str) -> (r: bool)
    ensures
        r == words_view(known@).contains(id@),
{
    let ghost kv = words_view(known@);
    let mut i: usize = 0;
    while i < known.len()
        invariant
            i <= known@.len(),
            kv == words_view(known@),
            forall|j: int| 0 <= j < i ==> #[trigger] kv[j] != id@,
        decreases known@.len() - i,
    {
        assert(kv[i as int] == known@[i as int]@);
        if str_eq(known[i], id) {
            assert(kv[i as int] == id@);
            return true;
        }
        i += 1;
    }
    false
}

fn finds_target(d: &Directive, findings: &Vec<Finding>) -> (r: bool)
    ensures
        r == has_target(d@, findings_view(findings@)),
{
    let ghost fv = findings_view(findings@);
    let mut i: usize = 0;
    while i < findings.len()
        invariant
            i <= findings@.len(),
            fv == findings_view(findings@),
            forall|j: int| 0 <= j < i ==> !is_for(d@, #[trigger] fv[j]),
        decreases findings@.len() - i,
    {
        assert(fv[i as int] == findings@[i as int]@);
        if d.statement_index == findings[i].statement_index && str_eq(
            d.rule_id.as_str(),
            findings[i].rule_id.as_str(),
        ) {
            assert(is_for(d@, fv[i as int]));
            return true;
        }
        i += 1;
    }
    false
}

/// What the hygiene of a directive is judged by, besides the directive.
pub struct Context<'a> {
    /// The findings of the input.
    pub findings: &'a Vec<Finding>,
    /// The statements on tables that the input itself creates.
    pub exempt: &'a Vec<usize>,
    /// The ids of the known rules.
    pub known: &'a Vec<&'static str>,
    /// The ids of the disabled rules.
    pub disabled: &'a TextSet,
}

impl<'a> Context<'a> {
    /// Whether the exempt statements are those on tables that the input creates.
    pub open spec fn is_of(&self, stmts: Seq<RawStmt>) -> bool {
        forall|i: usize| #[trigger]
            self.exempt@.contains(i) <==> on_new_table(stmts, i as int)
    }
}

/// What is wrong with a directive, if anything.
pub fn fault(d: &Directive, stmts: &[RawStmt], c: &Context) -> (r: Option<Fault>)
    requires
        c.is_of(stmts@),
    ensures
        r == fault_spec(
            d@,
            stmts@,
            findings_view(c.findings@),
            words_view(c.known@),
            c.disabled@,
        ),
{
    let id = d.rule_id.as_str();
    if !is_known(c.known, id) {
        Some(Fault::UnknownRule)
    } else if d.reason.as_str().is_empty() {
        Some(Fault::MissingReason)
    } else if !finds_target(d, c.findings) && !c.disabled.contains(id) && !contains_index(
        c.exempt,
        d.statement_index,
    ) {
        Some(Fault::Unused)
    } else {
        None
    }
}

fn fault_text(fault: Fault, rule_id: &str) -> (r: String)
    ensures
        r@ == fault_message(fault, rule_id@),
{
    let mut m = "The pgsafe:ignore directive for `".to_owned();
    m.append(rule_id);
    match fault {
        Fault::UnknownRule => m.append("` names no known rule, so it suppresses nothing."),
        Fault::MissingReason => m.append("` gives no reason, so it suppresses nothing."),
        Fault::Unused => m.append(
            "` suppresses nothing: the rule has no finding on this statement.",
        ),
    }
    m
}

/// `(statement_index, message)` for each directive that has the fault.
pub fn faulty(
    fault_kind: Fault,
    ds: &Vec<Directive>,
    stmts: &[RawStmt],
    c: &Context,
) -> (r: Vec<(usize, String)>)
    requires
        c.is_of(stmts@),
    ensures
        remarks_view(r@) == fault_remarks(
            fault_kind,
            directives_view(ds@),
            stmts@,
            findings_view(c.findings@),
            words_view(c.known@),
            c.disabled@,
        ),
{
    let ghost all = directives_view(ds@);
    let ghost fs = findings_view(c.findings@);
    let ghost known = words_view(c.known@);
    let mut out: Vec<(usize, String)> = Vec::new();
    let mut i: usize = 0;
    assert(remarks_view(out@) == Seq::<(int, Seq<char>)>::empty());
    while i < ds.len()
        invariant
            i <= ds@.len(),
            c.is_of(stmts@),
            all == directives_view(ds@),
            fs == findings_view(c.findings@),
            known == words_view(c.known@),
            remarks_view(out@) == fault_remarks(
                fault_kind,
                all.take(i as int),
                stmts@,
                fs,
                known,
                c.disabled@,
            ),
        decreases ds@.len() - i,
    {
        proof {
            assert(all.take(i + 1).drop_last() == all.take(i as int));
            assert(all.take(i + 1).last() == ds@[i as int]@);
        }
        if let Some(x) = fault(&ds[i], stmts, c) {
            if x == fault_kind {
                push_remark(
                    &mut out,
                    ds[i].statement_index,
                    fault_text(fault_kind, ds[i].rule_id.as_str()),
                );
            }
        }
        i += 1;
    }
    assert(all.take(all.len() as int) == all);
    out
}

/// Every faulty directive is reported for its fault on its statement, and nothing else is.
pub proof fn faulty_directives_are_reported(
    fault: Fault,
    ds: Seq<DirectiveView>,
    stmts: Seq<RawStmt>,
    fs: Seq<FindingView>,
    known: Seq<Seq<char>>,
    disabled: Seq<Seq<char>>,
    remark: (int, Seq<char>),
)
    ensures
        fault_remarks(fault, ds, stmts, fs, known, disabled).contains(remark) <==> exists|i: int|
            0 <= i < ds.len() && fault_spec(#[trigger] ds[i], stmts, fs, known, disabled) == Some(
                fault,
            ) && remark == (ds[i].statement_index, fault_message(fault, ds[i].rule_id)),
    decreases ds.len(),
{
    if ds.len() > 0 {
        let init = ds.drop_last();
        faulty_directives_are_reported(fault, init, stmts, fs, known, disabled, remark);
        let before = fault_remarks(fault, init, stmts, fs, known, disabled);
        let after = fault_remarks(fault, ds, stmts, fs, known, disabled);
        if before.contains(remark) {
            let k = choose|k: int| 0 <= k < before.len() && before[k] == remark;
            assert(after[k] == remark);
            let i = choose|i: int|
                0 <= i < init.len() && fault_spec(#[trigger] init[i], stmts, fs, known, disabled)
                    == Some(fault) && remark == (
                    init[i].statement_index,
                    fault_message(fault, init[i].rule_id),
                );
            assert(ds[i] == init[i]);
        } else if after.contains(remark) {
            let k = choose|k: int| 0 <= k < after.len() && after[k] == remark;
            if k < before.len() {
                assert(before[k] == remark);
            }
            assert(ds[ds.len() - 1] == ds.last());
        } else {
            assert forall|i: int| 0 <= i < ds.len() implies !(fault_spec(
                #[trigger] ds[i],
                stmts,
                fs,
                known,
                disabled,
            ) == Some(fault) && remark == (
                ds[i].statement_index,
                fault_message(fault, ds[i].rule_id),
            )) by {
                if i < init.len() {
                    assert(ds[i] == init[i]);
                } else if fault_spec(ds[i], stmts, fs, known, disabled) == Some(fault) {
                    assert(after[after.len() - 1] == (
                        ds[i].statement_index,
                        fault_message(fault, ds[i].rule_id),
                    ));
                }
            }
        }
    }
}

/// A directive that marks a finding is sound where its rule is known, so it is never reported.
pub proof fn a_directive_that_marks_is_sound(
    d: DirectiveView,
    f: FindingView,
    stmts: Seq<RawStmt>,
    fs: Seq<FindingView>,
    known: Seq<Seq<char>>,
    disabled: Seq<Seq<char>>,
)
    requires
        fs.contains(f),
        known.contains(f.rule_id),
        f.suppression is None,
        suppressed(seq![d], f).suppression is Some,
    ensures
        fault_spec(d, stmts, fs, known, disabled) is None,
{
    let i = choose|i: int| 0 <= i < fs.len() && fs[i] == f;
    assert(seq![d].last() == d);
    assert(seq![d].drop_last() == Seq::<DirectiveView>::empty());
    assert(reason_for(seq![d].drop_last(), f) is None);
    assert(is_for(d, fs[i]));
}

/// A directive is at fault exactly if it names no known rule; else if it gives no reason; else if
/// its rule, which is not disabled, has no finding on its statement, which is not on a table that the
/// input itself creates.
pub proof fn directives_are_at_fault_for_cause(
    d: DirectiveView,
    stmts: Seq<RawStmt>,
    fs: Seq<FindingView>,
    known: Seq<Seq<char>>,
    disabled: Seq<Seq<char>>,
)
    ensures
        ({
            let fault = fault_spec(d, stmts, fs, known, disabled);
            let listed = known.contains(d.rule_id);
            let found = exists|i: int|
                0 <= i < fs.len() && (#[trigger] fs[i]).rule_id == d.rule_id
                    && fs[i].statement_index == d.statement_index;
            let excused = disabled.contains(d.rule_id) || on_new_table(stmts, d.statement_index);
            &&& fault == Some(Fault::UnknownRule) <==> !listed
            &&& fault == Some(Fault::MissingReason) <==> listed && d.reason == Seq::<char>::empty()
            &&& fault == Some(Fault::Unused) <==> listed && d.reason != Seq::<char>::empty()
                && !found && !excused
        }),
{
    assert(d.reason.len() == 0 ==> d.reason =~= Seq::<char>::empty());
    if has_target(d, fs) {
        let i = choose|i: int| 0 <= i < fs.len() && is_for(d, #[trigger] fs[i]);
        assert(fs[i].rule_id == d.rule_id);
    }
    if exists|i: int|
        0 <= i < fs.len() && (#[trigger] fs[i]).rule_id == d.rule_id && fs[i].statement_index
            == d.statement_index {
        let i = choose|i: int|
            0 <= i < fs.len() && (#[trigger] fs[i]).rule_id == d.rule_id && fs[i].statement_index
                == d.statement_index;
        assert(is_for(d, fs[i]));
    }
}

} // verus!
