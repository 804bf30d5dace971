//! New-table awareness: drop findings on operations against a table created
//! (empty) earlier in the same input, since those operations cannot lock,
//! rewrite, or scan an empty, not-yet-visible table. A table that is later
//! populated (INSERT / COPY ... FROM) is no longer treated as empty.
use vstd::prelude::*;

use crate::ast::{
    AlterTableCmd, AlterTableType, ConstrType, Node, ObjectType, RangeVar, RawStmt,
};
use crate::collections::TextSet;
use crate::finding::{findings_view, Finding, FindingView, Severity};
use crate::text::{str_eq, text_of};

verus! {

/// A cross-statement table key. The default `public` schema is normalized to bare, so a table
/// written `t` in one statement and `public.t` in another correlates (`public` is the default
/// search_path schema); any other schema stays distinct (`app.t` is not `t`).
pub open spec fn qualified_key_spec(schema: Seq<char>, relname: Seq<char>) -> Seq<char> {
    if schema.len() == 0 || schema == "public"@ {
        relname
    } else {
        schema + "."@ + relname
    }
}

/// A cross-statement table key. The default `public` schema is normalized to bare, so a table
/// written `t` in one statement and `public.t` in another correlates (`public` is the default
/// search_path schema); any other schema stays distinct (`app.t` is not `t`). This is what lets the
/// cross-statement rules (fk-without-covering-index, require-comment, require-columns, the new-table
/// exemption) match the same table across spellings.
pub fn qualified_key(schema: &str, relname: &str) -> (r: String)
    ensures
        r@ == qualified_key_spec(schema@, relname@),
{
    if schema.is_empty() || str_eq(schema, "public") {
        relname.to_owned()
    } else {
        let mut out = schema.to_owned();
        out.append(".");
        out.append(relname);
        out
    }
}

/// The cross-statement key of a relation.
pub open spec fn rangevar_key_spec(rv: RangeVar) -> Seq<char> {
    qualified_key_spec(rv.schemaname@, rv.relname@)
}

/// The cross-statement key of a relation (see [`qualified_key`]).
pub fn rangevar_key(rv: &RangeVar) -> (r: String)
    ensures
        r@ == rangevar_key_spec(*rv),
{
    qualified_key(rv.schemaname.as_str(), rv.relname.as_str())
}

/// The key of an optional relation.
pub open spec fn relation_key_spec(rv: Option<RangeVar>) -> Option<Seq<char>> {
    match rv {
        Some(r) => Some(rangevar_key_spec(r)),
        None => None,
    }
}

fn relation_key(rv: &Option<RangeVar>) -> (r: Option<String>)
    ensures
        text_of(r) == relation_key_spec(*rv),
{
    match rv {
        Some(r) => Some(rangevar_key(r)),
        None => None,
    }
}

/// The relation of a `CREATE TABLE` that is neither temporary nor a partition child.
pub open spec fn lintable_create_relation_spec(node: Node) -> Option<RangeVar> {
    match node {
        Node::CreateStmt(c) => if c.partbound {
            None
        } else {
            match c.relation {
                Some(rv) => if rv.relpersistence@ == "t"@ {
                    None
                } else {
                    Some(rv)
                },
                None => None,
            }
        },
        _ => None,
    }
}

/// The relation of a `CREATE TABLE` the schema-design and policy lints care about: a persistent,
/// non-partition-child table. `None` for any other node, a `PARTITION OF` child (it inherits the
/// parent's columns), or a temporary table.
pub fn lintable_create_relation(node: &Node) -> (r: Option<&RangeVar>)
    ensures
        match r {
            Some(rv) => lintable_create_relation_spec(*node) == Some(*rv),
            None => lintable_create_relation_spec(*node) is None,
        },
{
    match node {
        Node::CreateStmt(c) => {
            if c.partbound {
                return None;
            }
            match &c.relation {
                Some(rv) => if str_eq(rv.relpersistence.as_str(), "t") {
                    None
                } else {
                    Some(rv)
                },
                None => None,
            }
        },
        _ => None,
    }
}

/// Table created by a bare `CREATE TABLE`. `CREATE TABLE AS` is not among these — it is
/// populated.
pub open spec fn created_table_key_spec(node: Node) -> Option<Seq<char>> {
    match node {
        Node::CreateStmt(c) => relation_key_spec(c.relation),
        _ => None,
    }
}

/// Table created by a bare `CREATE TABLE`. `CREATE TABLE AS` is not among these — it is
/// populated.
pub fn created_table_key(node: &Node) -> (r: Option<String>)
    ensures
        text_of(r) == created_table_key_spec(*node),
{
    match node {
        Node::CreateStmt(c) => relation_key(&c.relation),
        _ => None,
    }
}

/// Table an `INSERT`, `MERGE INTO`, or `COPY ... FROM` populates.
pub open spec fn populated_table_key_spec(node: Node) -> Option<Seq<char>> {
    match node {
        Node::InsertStmt(rv) => relation_key_spec(rv),
        Node::MergeStmt(rv) => relation_key_spec(rv),
        Node::CopyStmt(c) => if c.is_from {
            relation_key_spec(c.relation)
        } else {
            None
        },
        _ => None,
    }
}

/// Table an `INSERT`, `MERGE INTO`, or `COPY ... FROM` populates. A top-level writable CTE that
/// populates a tracked table is not detected.
pub fn populated_table_key(node: &Node) -> (r: Option<String>)
    ensures
        text_of(r) == populated_table_key_spec(*node),
{
    match node {
        Node::InsertStmt(rv) => relation_key(rv),
        Node::MergeStmt(rv) => relation_key(rv),
        Node::CopyStmt(c) => if c.is_from {
            relation_key(&c.relation)
        } else {
            None
        },
        _ => None,
    }
}

/// The child a command attaches.
pub open spec fn attached_child(n: Node) -> Option<Seq<char>> {
    match n {
        Node::AlterTableCmd(cmd) => if cmd.subtype == AlterTableType::AttachPartition {
            match cmd.def {
                Some(d) => match *d {
                    Node::PartitionCmd(pc) => relation_key_spec(pc.name),
                    _ => None,
                },
                None => None,
            }
        } else {
            None
        },
        _ => None,
    }
}

/// The first child that some commands attach.
pub open spec fn first_attached_child(cmds: Seq<Node>) -> Option<Seq<char>>
    decreases cmds.len(),
{
    if cmds.len() == 0 {
        None
    } else {
        match attached_child(cmds[0]) {
            Some(k) => Some(k),
            None => first_attached_child(cmds.drop_first()),
        }
    }
}

/// For an `ALTER TABLE … ATTACH PARTITION child …`, the child being attached.
pub open spec fn attach_partition_child_spec(node: Node) -> Option<Seq<char>> {
    match node {
        Node::AlterTableStmt(a) => first_attached_child(a.cmds@),
        _ => None,
    }
}

/// For an `ALTER TABLE … ATTACH PARTITION child …`, the child being attached — whose emptiness, not
/// the parent's, determines whether the validation scan is trivial. `None` for any other node.
pub fn attach_partition_child(node: &Node) -> (r: Option<String>)
    ensures
        text_of(r) == attach_partition_child_spec(*node),
{
    if let Node::AlterTableStmt(a) = node {
        let ghost all = a.cmds@;
        let mut i: usize = 0;
        assert(all.skip(0) == all);
        while i < a.cmds.len()
            invariant
                i <= a.cmds@.len(),
                all == a.cmds@,
                node matches Node::AlterTableStmt(x) && x.cmds@ == all,
                first_attached_child(all) == first_attached_child(all.skip(i as int)),
            decreases a.cmds@.len() - i,
        {
            assert(all.skip(i as int)[0] == all[i as int]);
            assert(all.skip(i as int).drop_first() == all.skip(i + 1));
            if let Node::AlterTableCmd(cmd) = &a.cmds[i] {
                if cmd.subtype == AlterTableType::AttachPartition {
                    if let Some(d) = &cmd.def {
                        if let Node::PartitionCmd(pc) = &**d {
                            if let Some(rv) = &pc.name {
                                return Some(rangevar_key(rv));
                            }
                        }
                    }
                }
            }
            i += 1;
        }
    }
    None
}

/// Whether a command adds a `CHECK`, and if so whether it holds at once.
pub open spec fn added_check(n: Node) -> Option<bool> {
    match n {
        Node::AlterTableCmd(cmd) => if cmd.subtype == AlterTableType::AddConstraint {
            match cmd.def {
                Some(d) => match *d {
                    Node::Constraint(c) => if c.contype == ConstrType::Check {
                        Some(!c.skip_validation)
                    } else {
                        None
                    },
                    _ => None,
                },
                None => None,
            }
        } else {
            None
        },
        _ => None,
    }
}

/// Whether some commands add a `CHECK`, and if so whether one of them holds at once.
pub open spec fn added_checks(cmds: Seq<Node>) -> Option<bool>
    decreases cmds.len(),
{
    if cmds.len() == 0 {
        None
    } else {
        match (added_checks(cmds.drop_last()), added_check(cmds.last())) {
            (Some(u), Some(v)) => Some(u || v),
            (Some(u), None) => Some(u),
            (None, v) => v,
        }
    }
}

/// For an `ALTER TABLE T ADD CONSTRAINT … CHECK (…)`, the key of `T` and whether a constraint
/// that it adds holds at once.
pub open spec fn added_check_constraint_spec(node: Node) -> Option<(Seq<char>, bool)> {
    match node {
        Node::AlterTableStmt(a) => match (relation_key_spec(a.relation), added_checks(a.cmds@)) {
            (Some(k), Some(v)) => Some((k, v)),
            _ => None,
        },
        _ => None,
    }
}

fn checks_at_once(n: &Node) -> (r: Option<bool>)
    ensures
        r == added_check(*n),
{
    if let Node::AlterTableCmd(cmd) = n {
        if cmd.subtype == AlterTableType::AddConstraint {
            if let Some(d) = &cmd.def {
                if let Node::Constraint(c) = &**d {
                    if c.contype == ConstrType::Check {
                        return Some(!c.skip_validation);
                    }
                }
            }
        }
    }
    None
}

/// For an `ALTER TABLE T ADD CONSTRAINT … CHECK (…)`, returns `(key of T, immediately_valid)`.
/// `immediately_valid` is `false` for `… NOT VALID` (the constraint is recorded but not enforced
/// until a later `VALIDATE CONSTRAINT`); of several, one that holds at once suffices. `None` for
/// any other node, a non-`ALTER TABLE`, or a non-CHECK constraint.
pub fn added_check_constraint(node: &Node) -> (r: Option<(String, bool)>)
    ensures
        match r {
            Some((k, v)) => added_check_constraint_spec(*node) == Some((k@, v)),
            None => added_check_constraint_spec(*node) is None,
        },
{
    if let Node::AlterTableStmt(a) = node {
        let key = match relation_key(&a.relation) {
            Some(k) => k,
            None => {
                return None;
            },
        };
        let ghost all = a.cmds@;
        let mut found: Option<bool> = None;
        let mut i: usize = 0;
        while i < a.cmds.len()
            invariant
                i <= a.cmds@.len(),
                all == a.cmds@,
                found == added_checks(all.take(i as int)),
            decreases a.cmds@.len() - i,
        {
            proof {
                assert(all.take(i + 1).drop_last() == all.take(i as int));
                assert(all.take(i + 1).last() == all[i as int]);
            }
            let v = checks_at_once(&a.cmds[i]);
            found = match (found, v) {
                (Some(x), Some(y)) => Some(x || y),
                (Some(x), None) => Some(x),
                (None, y) => y,
            };
            i += 1;
        }
        assert(all.take(all.len() as int) == all);
        match found {
            Some(v) => Some((key, v)),
            None => None,
        }
    } else {
        None
    }
}

/// Whether a command validates a constraint.
pub open spec fn validates(n: Node) -> bool {
    n matches Node::AlterTableCmd(cmd) && cmd.subtype == AlterTableType::ValidateConstraint
}

/// For an `ALTER TABLE T VALIDATE CONSTRAINT …`, the key of table `T`.
pub open spec fn validated_constraint_table_spec(node: Node) -> Option<Seq<char>> {
    match node {
        Node::AlterTableStmt(a) => if exists|i: int|
            0 <= i < a.cmds@.len() && validates(#[trigger] a.cmds@[i]) {
            relation_key_spec(a.relation)
        } else {
            None
        },
        _ => None,
    }
}

/// For an `ALTER TABLE T VALIDATE CONSTRAINT …`, the key of table `T`. `None` for any other node.
pub fn validated_constraint_table(node: &Node) -> (r: Option<String>)
    ensures
        text_of(r) == validated_constraint_table_spec(*node),
{
    if let Node::AlterTableStmt(a) = node {
        let mut i: usize = 0;
        while i < a.cmds.len()
            invariant
                i <= a.cmds@.len(),
                node matches Node::AlterTableStmt(x) && x == *a,
                forall|j: int| 0 <= j < i ==> !validates(#[trigger] a.cmds@[j]),
            decreases a.cmds@.len() - i,
        {
            if let Node::AlterTableCmd(cmd) = &a.cmds[i] {
                if cmd.subtype == AlterTableType::ValidateConstraint {
                    assert(validates(a.cmds@[i as int]));
                    return relation_key(&a.relation);
                }
            }
            i += 1;
        }
    }
    None
}

/// The texts of the string nodes among some nodes.
pub open spec fn name_parts_spec(ns: Seq<Node>) -> Seq<Seq<char>>
    decreases ns.len(),
{
    if ns.len() == 0 {
        Seq::empty()
    } else {
        match ns.last() {
            Node::Str(s) => name_parts_spec(ns.drop_last()).push(s@),
            _ => name_parts_spec(ns.drop_last()),
        }
    }
}

/// The texts of a list of references to strings.
pub open spec fn parts_view(ps: Seq<&String>) -> Seq<Seq<char>> {
    ps.map_values(|p: &String| p@)
}

/// The texts of the string nodes among some nodes.
pub fn name_parts(ns: &Vec<Node>) -> (r: Vec<&String>)
    ensures
        parts_view(r@) == name_parts_spec(ns@),
{
    let mut out: Vec<&String> = Vec::new();
    let mut i: usize = 0;
    assert(parts_view(out@) == Seq::<Seq<char>>::empty());
    while i < ns.len()
        invariant
            i <= ns@.len(),
            parts_view(out@) == name_parts_spec(ns@.take(i as int)),
        decreases ns@.len() - i,
    {
        proof {
            assert(ns@.take(i + 1).drop_last() == ns@.take(i as int));
            assert(ns@.take(i + 1).last() == ns@[i as int]);
        }
        if let Node::Str(s) = &ns[i] {
            assert(parts_view(out@.push(s)) == parts_view(out@).push(s@));
            out.push(s);
        }
        i += 1;
    }
    assert(ns@.take(ns@.len() as int) == ns@);
    out
}

/// The key of a table named by its parts: `["t"]` or `["schema", "t"]`.
pub open spec fn parts_key(parts: Seq<Seq<char>>) -> Option<Seq<char>> {
    if parts.len() == 1 {
        Some(qualified_key_spec(Seq::empty(), parts[0]))
    } else if parts.len() == 2 {
        Some(qualified_key_spec(parts[0], parts[1]))
    } else {
        None
    }
}

/// The single table a `DROP TABLE` targets.
pub open spec fn drop_table_key_spec(node: Node) -> Option<Seq<char>> {
    match node {
        Node::DropStmt(d) => if d.remove_type == ObjectType::Table && d.objects@.len() == 1 {
            match d.objects@[0] {
                Node::List(items) => parts_key(name_parts_spec(items@)),
                _ => None,
            }
        } else {
            None
        },
        _ => None,
    }
}

/// The single table a `DROP TABLE` targets, or `None` for a non-table drop or a multi-table
/// `DROP TABLE a, b` (conservatively not exempted).
pub fn drop_table_key(node: &Node) -> (r: Option<String>)
    ensures
        text_of(r) == drop_table_key_spec(*node),
{
    if let Node::DropStmt(d) = node {
        if d.remove_type == ObjectType::Table && d.objects.len() == 1 {
            if let Node::List(items) = &d.objects[0] {
                let parts = name_parts(items);
                let ghost pv = parts_view(parts@);
                if parts.len() == 1 {
                    assert(pv[0] == parts@[0]@);
                    return Some(parts[0].clone());
                }
                if parts.len() == 2 {
                    assert(pv[0] == parts@[0]@ && pv[1] == parts@[1]@);
                    return Some(qualified_key(parts[0].as_str(), parts[1].as_str()));
                }
            }
        }
    }
    None
}

/// The single table a `TRUNCATE` targets.
pub open spec fn truncate_table_key_spec(node: Node) -> Option<Seq<char>> {
    match node {
        Node::TruncateStmt(t) => if t.relations@.len() == 1 {
            match t.relations@[0] {
                Node::RangeVar(rv) => Some(rangevar_key_spec(rv)),
                _ => None,
            }
        } else {
            None
        },
        _ => None,
    }
}

/// The single table a `TRUNCATE` targets, or `None` for a multi-table truncate.
pub fn truncate_table_key(node: &Node) -> (r: Option<String>)
    ensures
        text_of(r) == truncate_table_key_spec(*node),
{
    if let Node::TruncateStmt(t) = node {
        if t.relations.len() == 1 {
            if let Node::RangeVar(rv) = &t.relations[0] {
                return Some(rangevar_key(rv));
            }
        }
    }
    None
}

/// The table a statement operates on.
pub open spec fn target_table_key_spec(node: Node) -> Option<Seq<char>> {
    match attach_partition_child_spec(node) {
        Some(child) => Some(child),
        None => match node {
            Node::AlterTableStmt(a) => relation_key_spec(a.relation),
            Node::IndexStmt(i) => relation_key_spec(i.relation),
            Node::CreateTrigStmt(t) => relation_key_spec(t.relation),
            Node::RenameStmt(r) => relation_key_spec(r.relation),
            Node::DropStmt(_) => drop_table_key_spec(node),
            Node::TruncateStmt(_) => truncate_table_key_spec(node),
            _ => None,
        },
    }
}

/// Table an `ALTER TABLE`, `CREATE INDEX`, `CREATE TRIGGER`, `RENAME`, single-table `DROP TABLE`, or
/// single-table `TRUNCATE` operates on. For an `ALTER TABLE … ATTACH PARTITION`, the operated-on table
/// is the partition child.
pub fn target_table_key(node: &Node) -> (r: Option<String>)
    ensures
        text_of(r) == target_table_key_spec(*node),
{
    if let Some(child) = attach_partition_child(node) {
        return Some(child);
    }
    match node {
        Node::AlterTableStmt(a) => relation_key(&a.relation),
        Node::IndexStmt(i) => relation_key(&i.relation),
        Node::CreateTrigStmt(t) => relation_key(&t.relation),
        Node::RenameStmt(r) => relation_key(&r.relation),
        Node::DropStmt(_) => drop_table_key(node),
        Node::TruncateStmt(_) => truncate_table_key(node),
        _ => None,
    }
}

/// Whether statement `j` creates the table.
pub open spec fn creates(stmts: Seq<RawStmt>, j: int, key: Seq<char>) -> bool {
    stmts[j].stmt matches Some(n) && created_table_key_spec(n) == Some(key)
}

/// Whether statement `j` adds a `CHECK` to the table that holds at once (`valid`) or not yet.
pub open spec fn adds_check(stmts: Seq<RawStmt>, j: int, key: Seq<char>, valid: bool) -> bool {
    stmts[j].stmt matches Some(n) && added_check_constraint_spec(n) == Some((key, valid))
}

/// Whether statement `j` validates a constraint of the table.
pub open spec fn validates_table(stmts: Seq<RawStmt>, j: int, key: Seq<char>) -> bool {
    stmts[j].stmt matches Some(n) && validated_constraint_table_spec(n) == Some(key)
}

/// Whether a statement before `i` creates the table.
pub open spec fn created_before(stmts: Seq<RawStmt>, i: int, key: Seq<char>) -> bool {
    exists|j: int| 0 <= j < i && #[trigger] creates(stmts, j, key)
}

/// Whether a statement before `i` adds a `CHECK ... NOT VALID` to the table.
pub open spec fn unvalidated_before(stmts: Seq<RawStmt>, i: int, key: Seq<char>) -> bool {
    exists|j: int| 0 <= j < i && #[trigger] adds_check(stmts, j, key, false)
}

/// Whether, before statement `i`, a `CHECK` on the table is in force: added plainly, or added
/// `NOT VALID` and then validated.
pub open spec fn prepared_before(stmts: Seq<RawStmt>, i: int, key: Seq<char>) -> bool {
    exists|j: int| 0 <= j < i && #[trigger] prepares(stmts, j, key)
}

/// Whether statement `j` puts a `CHECK` on the table in force.
pub open spec fn prepares(stmts: Seq<RawStmt>, j: int, key: Seq<char>) -> bool {
    adds_check(stmts, j, key, true) || (validates_table(stmts, j, key) && unvalidated_before(
        stmts,
        j + 1,
        key,
    ))
}

/// Whether statement `i` attaches a partition whose child is neither created nor CHECK-prepared
/// earlier in the migration.
pub open spec fn escalates(stmts: Seq<RawStmt>, i: int) -> bool {
    0 <= i < stmts.len() && match stmts[i].stmt {
        Some(n) => match attach_partition_child_spec(n) {
            Some(child) => !created_before(stmts, i, child) && !prepared_before(stmts, i, child),
            None => false,
        },
        None => false,
    }
}

/// A strictly ascending list of statement indices.
pub open spec fn indices_ascend(v: Seq<usize>) -> bool {
    forall|i: int, j: int| 0 <= i < j < v.len() ==> #[trigger] v[i] < #[trigger] v[j]
}

/// Whether an index stands in a list.
pub fn contains_index(v: &Vec<usize>, k: usize) -> (r: bool)
    ensures
        r == v@.contains(k),
{
    let mut i: usize = 0;
    while i < v.len()
        invariant
            i <= v@.len(),
            forall|j: int| 0 <= j < i ==> v@[j] != k,
        decreases v@.len() - i,
    {
        if v[i] == k {
            return true;
        }
        i += 1;
    }
    false
}

/// Adds an index behind all smaller ones.
fn push_index(v: &mut Vec<usize>, i: usize)
    requires
        indices_ascend(old(v)@),
        forall|j: int| 0 <= j < old(v)@.len() ==> (#[trigger] old(v)@[j]) < i,
    ensures
        indices_ascend(final(v)@),
        forall|j: int| 0 <= j < final(v)@.len() ==> (#[trigger] final(v)@[j]) <= i,
        forall|x: usize| #[trigger] final(v)@.contains(x) <==> (old(v)@.contains(x) || x == i),
{
    let ghost before = v@;
    v.push(i);
    proof {
        assert forall|x: usize| #[trigger] v@.contains(x) <==> (before.contains(x) || x == i) by {
            if before.contains(x) {
                let j = choose|j: int| 0 <= j < before.len() && before[j] == x;
                assert(v@[j] == x);
            }
            if x == i {
                assert(v@[before.len() as int] == x);
            }
            if v@.contains(x) && x != i {
                let j = choose|j: int| 0 <= j < v@.len() && v@[j] == x;
                assert(before[j] == x);
            }
        }
    }
}

/// Statement indices whose `attach-partition` finding should be escalated from `Warning` to
/// `Error`. A statement qualifies when it is an `ATTACH PARTITION` whose child was **not** created
/// earlier in this same migration **and** has **no** CHECK constraint prepared on it earlier in the
/// migration — either a plain `ADD … CHECK`, or an `ADD … CHECK … NOT VALID` later completed by a
/// `VALIDATE CONSTRAINT`. Such a child may be a pre-existing, live table, so the validation scan
/// blocks it under ACCESS EXCLUSIVE for the scan's duration. The CHECK match is name-agnostic
/// per-child and does not verify the predicate implies the partition bound (it errs toward not
/// escalating — never toward silence).
pub fn attach_escalation_indices(stmts: &[RawStmt]) -> (r: Vec<usize>)
    ensures
        indices_ascend(r@),
        forall|i: usize| #[trigger] r@.contains(i) <==> escalates(stmts@, i as int),
{
    let ghost all = stmts@;
    let mut created = TextSet::new();
    let mut check_not_valid = TextSet::new();
    let mut check_prepared = TextSet::new();
    let mut escalate: Vec<usize> = Vec::new();
    let mut i: usize = 0;
    while i < stmts.len()
        invariant
            i <= stmts@.len(),
            all == stmts@,
            forall|k: Seq<char>| #[trigger]
                created@.contains(k) <==> created_before(all, i as int, k),
            forall|k: Seq<char>| #[trigger]
                check_not_valid@.contains(k) <==> unvalidated_before(all, i as int, k),
            forall|k: Seq<char>| #[trigger]
                check_prepared@.contains(k) <==> prepared_before(all, i as int, k),
            indices_ascend(escalate@),
            forall|j: int| 0 <= j < escalate@.len() ==> (#[trigger] escalate@[j]) < i,
            forall|x: usize| #[trigger]
                escalate@.contains(x) <==> (x < i && escalates(all, x as int)),
        decreases stmts@.len() - i,
    {
        let ghost n0 = i as int;
        if let Some(node) = &stmts[i].stmt {
            if let Some(child) = attach_partition_child(node) {
                if !created.contains(child.as_str()) && !check_prepared.contains(child.as_str()) {
                    assert(escalates(all, n0));
                    push_index(&mut escalate, i);
                }
            }
            if let Some(key) = created_table_key(node) {
                assert(creates(all, n0, key@));
                created.insert(key);
            }
            if let Some((key, immediately_valid)) = added_check_constraint(node) {
                if immediately_valid {
                    assert(adds_check(all, n0, key@, true));
                    assert(prepares(all, n0, key@));
                    check_prepared.insert(key);
                } else {
                    assert(adds_check(all, n0, key@, false));
                    check_not_valid.insert(key);
                }
            }
            proof {
                assert forall|k: Seq<char>| #[trigger]
                    check_not_valid@.contains(k) <==> unvalidated_before(all, n0 + 1, k) by {
                    assert(adds_check(all, n0, k, false) ==> unvalidated_before(all, n0 + 1, k));
                }
            }
            if let Some(key) = validated_constraint_table(node) {
                if check_not_valid.contains(key.as_str()) {
                    assert(prepares(all, n0, key@));
                    check_prepared.insert(key);
                }
            }
        }
        proof {
            assert forall|k: Seq<char>| #[trigger]
                created@.contains(k) <==> created_before(all, n0 + 1, k) by {
                assert(creates(all, n0, k) ==> created_before(all, n0 + 1, k));
            }
            assert forall|k: Seq<char>| #[trigger]
                check_not_valid@.contains(k) <==> unvalidated_before(all, n0 + 1, k) by {
                assert(adds_check(all, n0, k, false) ==> unvalidated_before(all, n0 + 1, k));
            }
            assert forall|k: Seq<char>| #[trigger]
                check_prepared@.contains(k) <==> prepared_before(all, n0 + 1, k) by {
                assert(prepares(all, n0, k) ==> prepared_before(all, n0 + 1, k));
            }
        }
        i += 1;
    }
    escalate
}

/// What the engine appends to the message of an escalated finding.
pub const ESCALATION: &'static str = " The child table is not created in this migration, so it may already be \
    receiving traffic; the validation scan blocks it under ACCESS EXCLUSIVE for the \
    scan's duration.";

/// A finding after escalation.
pub open spec fn escalated(stmts: Seq<RawStmt>, f: FindingView) -> FindingView {
    if f.rule_id == "attach-partition"@ && escalates(stmts, f.statement_index) {
        FindingView { severity: Severity::Error, message: f.message + ESCALATION@, ..f }
    } else {
        f
    }
}

/// Escalate `attach-partition` findings from `Warning` to `Error` for an `ATTACH PARTITION` of a
/// child that is neither created nor CHECK-prepared earlier in this migration (see
/// [`attach_escalation_indices`]). The escalated finding gets one sentence appended explaining why
/// the pre-existing child makes the operation error-grade. All other findings are untouched.
/// Runs before user `severity_overrides`, so an explicit override still has the final say.
pub fn escalate_pre_existing_attach(stmts: &[RawStmt], findings: &mut Vec<Finding>)
    ensures
        final(findings)@.len() == old(findings)@.len(),
        forall|i: int|
            0 <= i < old(findings)@.len() ==> (#[trigger] final(findings)@[i])@ == escalated(
                stmts@,
                old(findings)@[i]@,
            ),
{
    let escalate = attach_escalation_indices(stmts);
    let ghost before = findings@;
    let mut i: usize = 0;
    while i < findings.len()
        invariant
            i <= findings@.len(),
            findings@.len() == before.len(),
            forall|x: usize| #[trigger] escalate@.contains(x) <==> escalates(stmts@, x as int),
            forall|j: int| i <= j < before.len() ==> findings@[j] == before[j],
            forall|j: int|
                0 <= j < i ==> (#[trigger] findings@[j])@ == escalated(stmts@, before[j]@),
        decreases findings@.len() - i,
    {
        if str_eq(findings[i].rule_id.as_str(), "attach-partition") && contains_index(
            &escalate,
            findings[i].statement_index,
        ) {
            let mut f = findings[i].duplicate();
            f.severity = Severity::Error;
            f.message.append(ESCALATION);
            assert(f@ == escalated(stmts@, before[i as int]@));
            findings.set(i, f);
        }
        i += 1;
    }
}

/// Whether the table is known to be empty before statement `i`: the last earlier statement that
/// creates or fills it creates it.
pub open spec fn empty_before(stmts: Seq<RawStmt>, i: int, key: Seq<char>) -> bool
    decreases i,
{
    if i <= 0 {
        false
    } else {
        match stmts[i - 1].stmt {
            Some(n) => if created_table_key_spec(n) == Some(key) {
                true
            } else if populated_table_key_spec(n) == Some(key) {
                false
            } else {
                empty_before(stmts, i - 1, key)
            },
            None => empty_before(stmts, i - 1, key),
        }
    }
}

/// Whether statement `i` operates on a table that is known to be empty.
pub open spec fn on_new_table(stmts: Seq<RawStmt>, i: int) -> bool {
    0 <= i < stmts.len() && match stmts[i].stmt {
        Some(n) => match target_table_key_spec(n) {
            Some(key) => empty_before(stmts, i, key),
            None => false,
        },
        None => false,
    }
}

/// The findings on statements that do not operate on a new table.
pub open spec fn kept_findings(stmts: Seq<RawStmt>, fs: Seq<FindingView>) -> Seq<FindingView>
    decreases fs.len(),
{
    if fs.len() == 0 {
        Seq::empty()
    } else {
        let before = kept_findings(stmts, fs.drop_last());
        if on_new_table(stmts, fs.last().statement_index) {
            before
        } else {
            before.push(fs.last())
        }
    }
}

/// Statement indices that operate on a table created empty earlier and not since populated.
pub fn new_table_indices(stmts: &[RawStmt]) -> (r: Vec<usize>)
    ensures
        indices_ascend(r@),
        forall|i: usize| #[trigger] r@.contains(i) <==> on_new_table(stmts@, i as int),
{
    let ghost all = stmts@;
    let mut empty = TextSet::new();
    let mut dropped: Vec<usize> = Vec::new();
    let mut i: usize = 0;
    while i < stmts.len()
        invariant
            i <= stmts@.len(),
            all == stmts@,
            forall|k: Seq<char>| #[trigger] empty@.contains(k) <==> empty_before(all, i as int, k),
            indices_ascend(dropped@),
            forall|j: int| 0 <= j < dropped@.len() ==> (#[trigger] dropped@[j]) < i,
            forall|x: usize| #[trigger]
                dropped@.contains(x) <==> (x < i && on_new_table(all, x as int)),
        decreases stmts@.len() - i,
    {
        if let Some(node) = &stmts[i].stmt {
            if let Some(key) = target_table_key(node) {
                if empty.contains(key.as_str()) {
                    push_index(&mut dropped, i);
                }
            }
            if let Some(key) = created_table_key(node) {
                empty.insert(key);
            } else if let Some(key) = populated_table_key(node) {
                empty.remove(key.as_str());
            }
        }
        i += 1;
    }
    dropped
}

/// Drop findings on statements that target a table created empty earlier in the
/// same input and not since populated. Returns the kept findings and the
/// dropped statement indices (so inline-suppression can avoid reporting a now-redundant
/// directive on such a statement as unused).
pub fn drop_new_table_findings(stmts: &[RawStmt], findings: Vec<Finding>) -> (r: (
    Vec<Finding>,
    Vec<usize>,
))
    ensures
        findings_view(r.0@) == kept_findings(stmts@, findings_view(findings@)),
        indices_ascend(r.1@),
        forall|i: usize| #[trigger] r.1@.contains(i) <==> on_new_table(stmts@, i as int),
{
    let dropped = new_table_indices(stmts);
    let ghost all = findings_view(findings@);
    let mut kept: Vec<Finding> = Vec::new();
    let mut i: usize = 0;
    assert(findings_view(kept@) == Seq::<FindingView>::empty());
    while i < findings.len()
        invariant
            i <= findings@.len(),
            all == findings_view(findings@),
            forall|x: usize| #[trigger] dropped@.contains(x) <==> on_new_table(stmts@, x as int),
            findings_view(kept@) == kept_findings(stmts@, all.take(i as int)),
        decreases findings@.len() - i,
    {
        proof {
            assert(all.take(i + 1).drop_last() == all.take(i as int));
            assert(all.take(i + 1).last() == findings@[i as int]@);
        }
        if !contains_index(&dropped, findings[i].statement_index) {
            let f = findings[i].duplicate();
            assert(findings_view(kept@.push(f)) == findings_view(kept@).push(f@));
            kept.push(f);
        }
        i += 1;
    }
    assert(all.take(all.len() as int) == all);
    (kept, dropped)
}

} // verus!
