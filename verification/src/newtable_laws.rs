//! What holds of tables that a migration creates and fills.
use vstd::prelude::*;

use crate::ast::{AlterTableType, ConstrType, Node, ObjectType, RangeVar, RawStmt};
use crate::finding::{FindingView, Severity};
use crate::newtable::{
    added_checks, adds_check, attach_partition_child_spec, created_before, creates, empty_before,
    escalated, escalates, first_attached_child, kept_findings, on_new_table, prepared_before,
    prepares, qualified_key_spec, target_table_key_spec, unvalidated_before, validates,
    validates_table, ESCALATION,
};

verus! {

/// Whether a relation is meant by a bare name: it is unqualified or in the default schema.
pub open spec fn is_bare(rv: RangeVar) -> bool {
    rv.schemaname@ == Seq::<char>::empty() || rv.schemaname@ == "public"@
}

/// Whether two relations are the same table: of the same name, and both in the default schema or
/// both in the same other one.
pub open spec fn same_table(a: RangeVar, b: RangeVar) -> bool {
    a.relname@ == b.relname@ && (is_bare(a) && is_bare(b) || !is_bare(a) && a.schemaname@
        == b.schemaname@)
}

/// Whether no part of a relation's name has a dot in it.
pub open spec fn is_dotless(rv: RangeVar) -> bool {
    !rv.schemaname@.contains('.') && !rv.relname@.contains('.')
}

/// The cross-statement key of a relation.
pub open spec fn key_of(rv: RangeVar) -> Seq<char> {
    qualified_key_spec(rv.schemaname@, rv.relname@)
}

proof fn lemma_dot_place(s: Seq<char>, t: Seq<char>)
    requires
        !s.contains('.'),
    ensures
        (s + "."@ + t)[s.len() as int] == '.',
        forall|i: int| 0 <= i < s.len() ==> (#[trigger] (s + "."@ + t)[i]) != '.',
        (s + "."@ + t).len() == s.len() + 1 + t.len(),
{
    reveal_strlit(".");
    assert forall|i: int| 0 <= i < s.len() implies (#[trigger] (s + "."@ + t)[i]) != '.' by {
        assert((s + "."@ + t)[i] == s[i]);
        assert(s.contains(s[i]));
    }
}

/// Two relations have one key exactly if they are the same table: `t` and `public.t` are, `app.t`
/// and `t` are not.
pub proof fn a_key_stands_for_one_table(a: RangeVar, b: RangeVar)
    requires
        is_dotless(a),
        is_dotless(b),
    ensures
        key_of(a) == key_of(b) <==> same_table(a, b),
        is_bare(a) ==> key_of(a) == a.relname@,
        !is_bare(a) ==> key_of(a) == a.schemaname@ + "."@ + a.relname@,
{
    reveal_strlit(".");
    assert(a.schemaname@.len() == 0 ==> a.schemaname@ =~= Seq::<char>::empty());
    assert(b.schemaname@.len() == 0 ==> b.schemaname@ =~= Seq::<char>::empty());
    if !is_bare(a) {
        lemma_dot_place(a.schemaname@, a.relname@);
    }
    if !is_bare(b) {
        lemma_dot_place(b.schemaname@, b.relname@);
    }
    if key_of(a) == key_of(b) {
        let k = key_of(a);
        let n = a.schemaname@.len() as int;
        let m = b.schemaname@.len() as int;
        if !is_bare(a) && is_bare(b) {
            assert(b.relname@.contains(k[n]));
        } else if is_bare(a) && !is_bare(b) {
            assert(a.relname@.contains(k[m]));
        } else if !is_bare(a) && !is_bare(b) {
            assert(n == m) by {
                if n < m {
                    assert(k[n] != '.');
                } else if m < n {
                    assert(k[m] != '.');
                }
            }
            assert(a.schemaname@ == k.take(n));
            assert(b.schemaname@ == k.take(n));
            assert(a.relname@ == k.skip(n + 1));
            assert(b.relname@ == k.skip(n + 1));
        }
    }
}

/// Whether a statement is a `CREATE TABLE` of the table.
pub open spec fn creates_table(raw: RawStmt, key: Seq<char>) -> bool {
    raw.stmt matches Some(Node::CreateStmt(c)) && (c.relation matches Some(rv) && key_of(rv)
        == key)
}

/// Whether a statement is an `INSERT` or `MERGE` into the table, or a `COPY ... FROM` into it.
pub open spec fn populates_table(raw: RawStmt, key: Seq<char>) -> bool {
    ||| raw.stmt matches Some(Node::InsertStmt(Some(rv))) && key_of(rv) == key
    ||| raw.stmt matches Some(Node::MergeStmt(Some(rv))) && key_of(rv) == key
    ||| raw.stmt matches Some(Node::CopyStmt(c)) && c.is_from && (c.relation matches Some(rv)
        && key_of(rv) == key)
}

/// A table is known to be empty before a statement exactly if some earlier statement creates it
/// and none in between populates that same table.
pub proof fn a_table_is_empty_until_it_is_populated(stmts: Seq<RawStmt>, i: int, key: Seq<char>)
    requires
        0 <= i <= stmts.len(),
    ensures
        empty_before(stmts, i, key) <==> exists|j: int|
            0 <= j < i && #[trigger] creates_table(stmts[j], key) && forall|k: int|
                j < k < i ==> !#[trigger] populates_table(stmts[k], key),
    decreases i,
{
    if i > 0 {
        a_table_is_empty_until_it_is_populated(stmts, i - 1, key);
        let last = stmts[i - 1];
        if creates_table(last, key) {
            assert(empty_before(stmts, i, key));
            assert forall|k: int| i - 1 < k < i implies !#[trigger] populates_table(
                stmts[k],
                key,
            ) by {}
        } else if populates_table(last, key) {
            assert(!empty_before(stmts, i, key));
            assert forall|j: int| 0 <= j < i && #[trigger] creates_table(
                stmts[j],
                key,
            ) implies !(forall|k: int| j < k < i ==> !#[trigger] populates_table(stmts[k], key)) by {
                assert(j < i - 1);
                assert(populates_table(stmts[i - 1], key));
            }
        } else {
            assert(empty_before(stmts, i, key) == empty_before(stmts, i - 1, key));
            if empty_before(stmts, i - 1, key) {
                let j = choose|j: int|
                    0 <= j < i - 1 && #[trigger] creates_table(stmts[j], key) && forall|k: int|
                        j < k < i - 1 ==> !#[trigger] populates_table(stmts[k], key);
                assert(creates_table(stmts[j], key));
            }
        }
    }
}

/// Populating one table leaves what is known of every other table as it was.
pub proof fn populating_a_table_leaves_the_others(
    stmts: Seq<RawStmt>,
    i: int,
    filled: Seq<char>,
    other: Seq<char>,
)
    requires
        0 <= i < stmts.len(),
        populates_table(stmts[i], filled),
        other != filled,
    ensures
        empty_before(stmts, i + 1, other) == empty_before(stmts, i, other),
        !empty_before(stmts, i + 1, filled),
{
}

/// A statement that neither creates nor populates a table leaves what is known of it as it was.
pub proof fn other_statements_keep_what_is_known(stmts: Seq<RawStmt>, i: int, key: Seq<char>)
    requires
        0 <= i < stmts.len(),
        !creates_table(stmts[i], key),
        !populates_table(stmts[i], key),
    ensures
        empty_before(stmts, i + 1, key) == empty_before(stmts, i, key),
{
}

/// Whether a statement works on the table of one relation: an `ALTER TABLE` that attaches no
/// partition, a `CREATE INDEX`, a `CREATE TRIGGER`, a rename, or a `TRUNCATE` of that table alone.
pub open spec fn works_on(node: Node, rv: RangeVar) -> bool {
    ||| node matches Node::AlterTableStmt(a) && a.relation == Some(rv)
        && attach_partition_child_spec(node) is None
    ||| node matches Node::IndexStmt(x) && x.relation == Some(rv)
    ||| node matches Node::CreateTrigStmt(t) && t.relation == Some(rv)
    ||| node matches Node::RenameStmt(r) && r.relation == Some(rv)
    ||| node matches Node::TruncateStmt(t) && t.relations@ == seq![Node::RangeVar(rv)]
}

/// A statement that works on the table of a relation is exempt exactly if that table is empty.
pub proof fn a_statement_is_exempt_with_its_table(stmts: Seq<RawStmt>, i: int, rv: RangeVar)
    requires
        0 <= i < stmts.len(),
        stmts[i].stmt is Some,
        works_on(stmts[i].stmt->0, rv),
    ensures
        on_new_table(stmts, i) <==> empty_before(stmts, i, key_of(rv)),
{
    let node = stmts[i].stmt->0;
    if let Node::TruncateStmt(t) = node {
        assert(t.relations@[0] == Node::RangeVar(rv));
    }
    assert(target_table_key_spec(node) == Some(key_of(rv)));
}

/// A `DROP TABLE` of one table is exempt exactly if that table is empty; one of several tables never
/// is.
pub proof fn a_drop_is_exempt_with_its_only_table(
    stmts: Seq<RawStmt>,
    i: int,
    rv: RangeVar,
    parts: Seq<Node>,
)
    requires
        0 <= i < stmts.len(),
        stmts[i].stmt matches Some(Node::DropStmt(d)) && d.remove_type == ObjectType::Table
            && d.objects@.len() > 0 && (d.objects@[0] matches Node::List(items) && items@ == parts),
        parts.len() == 1 && rv.schemaname@ == Seq::<char>::empty() && (parts[0] matches Node::Str(
            s,
        ) && s@ == rv.relname@) || parts.len() == 2 && (parts[0] matches Node::Str(s) && s@
            == rv.schemaname@) && (parts[1] matches Node::Str(t) && t@ == rv.relname@),
    ensures
        on_new_table(stmts, i) <==> empty_before(stmts, i, key_of(rv)) && (
        stmts[i].stmt->0->DropStmt_0).objects@.len() == 1,
{
    let front = parts.drop_last();
    assert(parts.last() == parts[parts.len() - 1]);
    reveal_with_fuel(crate::newtable::name_parts_spec, 3);
    if parts.len() == 2 {
        assert(front.last() == parts[0]);
        assert(front.drop_last() == Seq::<Node>::empty());
    } else {
        assert(front == Seq::<Node>::empty());
    }
}

/// Creating, filling or commenting on a table is no operation that the exemption is about, nor is a
/// statement on a database, a materialized view, a domain or an enum.
pub proof fn statements_on_no_table_are_never_exempt(stmts: Seq<RawStmt>, i: int)
    requires
        0 <= i < stmts.len(),
        match stmts[i].stmt {
            None => true,
            Some(n) => !(n is AlterTableStmt || n is IndexStmt || n is CreateTrigStmt
                || n is RenameStmt || n is DropStmt || n is TruncateStmt),
        },
    ensures
        !on_new_table(stmts, i),
{
}

/// Of the findings of an input exactly those stay that are on no exempt statement.
pub proof fn findings_stay_unless_exempt(
    stmts: Seq<RawStmt>,
    fs: Seq<FindingView>,
    f: FindingView,
)
    ensures
        kept_findings(stmts, fs).contains(f) <==> fs.contains(f) && !on_new_table(
            stmts,
            f.statement_index,
        ),
    decreases fs.len(),
{
    if fs.len() > 0 {
        let init = fs.drop_last();
        findings_stay_unless_exempt(stmts, init, f);
        let before = kept_findings(stmts, init);
        let after = kept_findings(stmts, fs);
        assert(fs == init.push(fs.last()));
        if before.contains(f) {
            let k = choose|k: int| 0 <= k < before.len() && before[k] == f;
            assert(after[k] == f);
            let m = choose|m: int| 0 <= m < init.len() && init[m] == f;
            assert(fs[m] == f);
        } else if f == fs.last() {
            assert(fs[fs.len() - 1] == f);
            if !on_new_table(stmts, f.statement_index) {
                assert(after[after.len() - 1] == f);
            } else {
                assert(after == before);
            }
        } else {
            if fs.contains(f) {
                let m = choose|m: int| 0 <= m < fs.len() && fs[m] == f;
                assert(init[m] == f);
            }
            if after.contains(f) {
                let k = choose|k: int| 0 <= k < after.len() && after[k] == f;
                assert(before[k] == f);
            }
        }
    }
}

/// Whether a node is an `ADD CONSTRAINT` of a `CHECK` that holds at once, or of one that does not yet.
pub open spec fn adds_check_node(n: Node, holds: bool) -> bool {
    n matches Node::AlterTableCmd(c) && c.subtype == AlterTableType::AddConstraint && (
    c.def matches Some(d) && (*d matches Node::Constraint(k) && k.contype == ConstrType::Check
        && k.skip_validation != holds))
}

/// Whether some node adds such a `CHECK`.
pub open spec fn some_add_check(ns: Seq<Node>, holds: bool) -> bool {
    exists|i: int| 0 <= i < ns.len() && adds_check_node(#[trigger] ns[i], holds)
}

/// Whether a statement is an `ALTER TABLE` of the table.
pub open spec fn alters(raw: RawStmt, key: Seq<char>) -> bool {
    raw.stmt matches Some(Node::AlterTableStmt(a)) && (a.relation matches Some(rv) && key_of(rv)
        == key)
}

/// The commands of a statement.
pub open spec fn commands_in(raw: RawStmt) -> Seq<Node> {
    match raw.stmt {
        Some(Node::AlterTableStmt(a)) => a.cmds@,
        _ => Seq::empty(),
    }
}

proof fn lemma_added_checks(ns: Seq<Node>)
    ensures
        added_checks(ns) == Some(true) <==> some_add_check(ns, true),
        added_checks(ns) == Some(false) <==> some_add_check(ns, false) && !some_add_check(ns, true),
    decreases ns.len(),
{
    if ns.len() > 0 {
        let init = ns.drop_last();
        lemma_added_checks(init);
        lemma_some_add_check(ns, true);
        lemma_some_add_check(ns, false);
    }
}

proof fn lemma_some_add_check(ns: Seq<Node>, holds: bool)
    requires
        ns.len() > 0,
    ensures
        some_add_check(ns, holds) <==> some_add_check(ns.drop_last(), holds) || adds_check_node(
            ns.last(),
            holds,
        ),
{
    let init = ns.drop_last();
    assert(forall|i: int| 0 <= i < init.len() ==> #[trigger] init[i] == ns[i]);
    assert(ns[ns.len() - 1] == ns.last());
    if some_add_check(init, holds) {
        let i = choose|i: int| 0 <= i < init.len() && adds_check_node(#[trigger] init[i], holds);
        assert(adds_check_node(ns[i], holds));
    }
    if some_add_check(ns, holds) {
        let i = choose|i: int| 0 <= i < ns.len() && adds_check_node(#[trigger] ns[i], holds);
        if i < init.len() {
            assert(adds_check_node(init[i], holds));
        }
    }
}

/// Whether statement `j` leaves a `CHECK` on the table in force: it adds one that holds at once, or it
/// validates a constraint of the table, to which it or an earlier statement added a `CHECK` that does
/// not hold yet and none that does.
pub open spec fn enforces_check(stmts: Seq<RawStmt>, j: int, key: Seq<char>) -> bool {
    alters(stmts[j], key) && {
        ||| some_add_check(commands_in(stmts[j]), true)
        ||| (exists|i: int|
            0 <= i < commands_in(stmts[j]).len() && ((#[trigger] commands_in(
                stmts[j],
            )[i]) matches Node::AlterTableCmd(c) && c.subtype
                == AlterTableType::ValidateConstraint)) && (exists|m: int|
            0 <= m <= j && alters(#[trigger] stmts[m], key) && some_add_check(
                commands_in(stmts[m]),
                false,
            ) && !some_add_check(commands_in(stmts[m]), true))
    }
}

proof fn lemma_enforces_check(stmts: Seq<RawStmt>, j: int, key: Seq<char>)
    requires
        0 <= j < stmts.len(),
    ensures
        prepares(stmts, j, key) <==> enforces_check(stmts, j, key),
{
    assert forall|m: int| #[trigger] adds_check(stmts, m, key, true) <==> alters(stmts[m], key)
        && some_add_check(commands_in(stmts[m]), true) by {
        lemma_added_checks(commands_in(stmts[m]));
    }
    assert forall|m: int| #[trigger] adds_check(stmts, m, key, false) <==> alters(stmts[m], key)
        && some_add_check(commands_in(stmts[m]), false) && !some_add_check(
        commands_in(stmts[m]),
        true,
    ) by {
        lemma_added_checks(commands_in(stmts[m]));
    }
    let cmds = commands_in(stmts[j]);
    if validates_table(stmts, j, key) {
        let i = choose|i: int| 0 <= i < cmds.len() && validates(#[trigger] cmds[i]);
        assert(commands_in(stmts[j])[i] matches Node::AlterTableCmd(c) && c.subtype
            == AlterTableType::ValidateConstraint);
    }
    if exists|i: int|
        0 <= i < cmds.len() && ((#[trigger] cmds[i]) matches Node::AlterTableCmd(c) && c.subtype
            == AlterTableType::ValidateConstraint) {
        let i = choose|i: int|
            0 <= i < cmds.len() && ((#[trigger] cmds[i]) matches Node::AlterTableCmd(c) && c.subtype
                == AlterTableType::ValidateConstraint);
        assert(validates(cmds[i]));
    }
    if unvalidated_before(stmts, j + 1, key) {
        let m = choose|m: int| 0 <= m < j + 1 && #[trigger] adds_check(stmts, m, key, false);
        assert(alters(stmts[m], key));
    }
    if exists|m: int|
        0 <= m <= j && alters(#[trigger] stmts[m], key) && some_add_check(
            commands_in(stmts[m]),
            false,
        ) && !some_add_check(commands_in(stmts[m]), true) {
        let m = choose|m: int|
            0 <= m <= j && alters(#[trigger] stmts[m], key) && some_add_check(
                commands_in(stmts[m]),
                false,
            ) && !some_add_check(commands_in(stmts[m]), true);
        assert(adds_check(stmts, m, key, false));
    }
}

/// Whether a statement is an `ALTER TABLE` whose only command attaches the child as a partition.
pub open spec fn attaches(raw: RawStmt, child: RangeVar) -> bool {
    commands_in(raw).len() == 1 && (commands_in(raw)[0] matches Node::AlterTableCmd(c) && c.subtype
        == AlterTableType::AttachPartition && (c.def matches Some(d) && (
    *d matches Node::PartitionCmd(p) && p.name == Some(child))))
}

/// Attaching a partition is escalated exactly if the migration has neither created the child before
/// nor put a `CHECK` on it in force.
pub proof fn an_attach_is_escalated_unless_prepared(stmts: Seq<RawStmt>, i: int, child: RangeVar)
    requires
        0 <= i < stmts.len(),
        attaches(stmts[i], child),
    ensures
        escalates(stmts, i) <==> forall|j: int|
            0 <= j < i ==> !creates_table(#[trigger] stmts[j], key_of(child)) && !enforces_check(
                stmts,
                j,
                key_of(child),
            ),
{
    let key = key_of(child);
    let cmds = commands_in(stmts[i]);
    assert(crate::newtable::attached_child(cmds[0]) == Some(key));
    assert(first_attached_child(cmds) == Some(key));
    assert forall|j: int| 0 <= j < i implies prepares(stmts, j, key) == enforces_check(
        stmts,
        j,
        key,
    ) by {
        lemma_enforces_check(stmts, j, key);
    }
    if created_before(stmts, i, key) {
        let j = choose|j: int| 0 <= j < i && #[trigger] creates(stmts, j, key);
        assert(creates_table(stmts[j], key));
    }
    if prepared_before(stmts, i, key) {
        let j = choose|j: int| 0 <= j < i && #[trigger] prepares(stmts, j, key);
        assert(enforces_check(stmts, j, key));
        assert(stmts[j] == stmts[j]);
    }
    if !created_before(stmts, i, key) && !prepared_before(stmts, i, key) {
        assert forall|j: int| 0 <= j < i implies !creates_table(#[trigger] stmts[j], key)
            && !enforces_check(stmts, j, key) by {
            assert(!creates(stmts, j, key));
            assert(!prepares(stmts, j, key));
        }
    }
}

/// Escalation makes an error of an attach and says why; it leaves everything else about a finding, and
/// every other finding, as it was.
pub proof fn escalation_makes_an_error_of_an_attach(stmts: Seq<RawStmt>, f: FindingView)
    ensures
        f.rule_id == "attach-partition"@ && escalates(stmts, f.statement_index) ==> escalated(
            stmts,
            f,
        ).severity == Severity::Error && f.message.is_prefix_of(escalated(stmts, f).message)
            && f.message != escalated(stmts, f).message,
        !(f.rule_id == "attach-partition"@ && escalates(stmts, f.statement_index)) ==> escalated(
            stmts,
            f,
        ) == f,
        escalated(stmts, f).rule_id == f.rule_id,
        escalated(stmts, f).statement_index == f.statement_index,
        escalated(stmts, f).location == f.location,
        escalated(stmts, f).fix == f.fix,
{
    let e = escalated(stmts, f);
    if f.rule_id == "attach-partition"@ && escalates(stmts, f.statement_index) {
        assert(f.message =~= e.message.subrange(0, f.message.len() as int));
        lemma_escalation_is_said();
        assert(e.message.len() == f.message.len() + ESCALATION@.len());
    }
}

proof fn lemma_escalation_is_said()
    ensures
        ESCALATION@.len() > 0,
{
    reveal_strlit(
        " The child table is not created in this migration, so it may already be receiving traffic; the validation scan blocks it under ACCESS EXCLUSIVE for the scan's duration.",
    );
}

} // verus!
