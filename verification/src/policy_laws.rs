//! Which statements the synthesized lints speak of.
use vstd::prelude::*;

use crate::anchor_laws::{a_prologue_lands_before_the_statement, fixed, is_small};
use crate::ast::{
    ColumnDef, Constraint, Node, ObjectType, RawStmt, TransactionKind, VariableSetKind,
};
use crate::do_block::unchecked_do_blocks_spec;
use crate::finding::{FindingView, NameKind, Severity};
use crate::lint::{fk_message, identifier_message, lint_severity};
use crate::naming::{
    introduced_names_spec, name_remarks, naming_message, naming_violations_spec, with_column_names,
    with_columns, with_constraints, with_name,
};
use crate::newtable::on_new_table;
use crate::options::NamingPatterns;
use crate::outside::{regex_is_match, regex_new_error};
use crate::require_if_exists::{missing_if_exists_spec, unguarded_spec};
use crate::rules::{constraints_of, defined_columns_spec, defined_table_constraints_spec};
use crate::text::decimal_spec;
use crate::timeout::{lacks_timeout, prologue, timeout_set, waits_for_lock};
use crate::tree_laws::{
    a_statement_defines_its_columns, a_statement_has_its_constraints, defines_column,
    defines_constraint, is_set, lemma_push_contains, options_are_read_by_name,
};
use crate::txn::{in_transaction, is_concurrent_index_op, withdrawn};

verus! {

/// Whether a statement sets a `lock_timeout`.
pub open spec fn sets_timeout(raw: RawStmt) -> bool {
    raw.stmt matches Some(Node::VariableSetStmt(v)) && v.kind == VariableSetKind::Value && v.name@
        == "lock_timeout"@
}

/// Whether a statement takes the `lock_timeout` back, alone or with all settings.
pub open spec fn resets_timeout(raw: RawStmt) -> bool {
    raw.stmt matches Some(Node::VariableSetStmt(v)) && (v.kind == VariableSetKind::ResetAll
        || v.kind == VariableSetKind::Reset && v.name@ == "lock_timeout"@)
}

/// A `lock_timeout` is set before a statement exactly if some earlier statement sets it and none in
/// between takes it back.
pub proof fn a_timeout_holds_until_it_is_reset(stmts: Seq<RawStmt>, n: int)
    requires
        0 <= n <= stmts.len(),
    ensures
        timeout_set(stmts, n) <==> exists|j: int|
            0 <= j < n && #[trigger] sets_timeout(stmts[j]) && forall|k: int|
                j < k < n ==> !#[trigger] resets_timeout(stmts[k]),
    decreases n,
{
    if n > 0 {
        a_timeout_holds_until_it_is_reset(stmts, n - 1);
        let last = stmts[n - 1];
        if sets_timeout(last) {
            assert(timeout_set(stmts, n));
            assert(forall|k: int| n - 1 < k < n ==> !#[trigger] resets_timeout(stmts[k]));
        } else if resets_timeout(last) {
            assert(!timeout_set(stmts, n));
            assert forall|j: int| 0 <= j < n && #[trigger] sets_timeout(stmts[j]) implies !(
            forall|k: int| j < k < n ==> !#[trigger] resets_timeout(stmts[k])) by {
                assert(j < n - 1);
                assert(resets_timeout(stmts[n - 1]));
            }
        } else {
            assert(timeout_set(stmts, n) == timeout_set(stmts, n - 1));
            if timeout_set(stmts, n - 1) {
                let j = choose|j: int|
                    0 <= j < n - 1 && #[trigger] sets_timeout(stmts[j]) && forall|k: int|
                        j < k < n - 1 ==> !#[trigger] resets_timeout(stmts[k]);
                assert(sets_timeout(stmts[j]));
            }
        }
    }
}

/// A statement waits for a lock exactly if it alters, truncates, clusters or fully vacuums a table,
/// creates a trigger, drops a table, or works on an index or a materialized view other than
/// concurrently.
pub proof fn statements_that_wait_for_a_lock(node: Node)
    ensures
        waits_for_lock(node) <==> {
            ||| node is AlterTableStmt || node is TruncateStmt || node is ClusterStmt
                || node is CreateTrigStmt
            ||| node matches Node::VacuumStmt(v) && v.is_vacuumcmd && is_set(v.options@, "full"@)
            ||| node matches Node::DropStmt(d) && (d.remove_type == ObjectType::Table
                || d.remove_type == ObjectType::Index) && !d.concurrent
            ||| node matches Node::IndexStmt(x) && !x.concurrent
            ||| node matches Node::ReindexStmt(r) && !is_set(r.params@, "concurrently"@)
            ||| node matches Node::RefreshMatViewStmt(r) && !r.concurrent
        },
{
    if let Node::ReindexStmt(r) = node {
        options_are_read_by_name(r.params@, "concurrently"@);
    }
    if let Node::VacuumStmt(v) = node {
        options_are_read_by_name(v.options@, "full"@);
    }
}

/// The fix of a statement without a `lock_timeout` sets one of five seconds right before it.
pub proof fn a_timeout_is_set_before_the_statement(
    before: Seq<char>,
    stmt: Seq<char>,
    after: Seq<char>,
)
    requires
        is_small(before, stmt, after),
    ensures
        fixed(Some(prologue()), before, stmt, after) == Some(
            before + "SET lock_timeout = '5s';\n"@ + stmt + after,
        ),
{
    a_prologue_lands_before_the_statement(
        "Set lock_timeout"@,
        "SET lock_timeout = '5s';\n"@,
        before,
        stmt,
        after,
    );
}

/// Whether a statement begins a transaction.
pub open spec fn begins(raw: RawStmt) -> bool {
    raw.stmt == Some(Node::TransactionStmt(TransactionKind::Begin))
}

/// Whether a statement ends a transaction.
pub open spec fn ends(raw: RawStmt) -> bool {
    raw.stmt == Some(Node::TransactionStmt(TransactionKind::End))
}

/// A statement runs inside a transaction exactly if one was begun before it and not ended since, or
/// the input starts in one and nothing before it ended that.
pub proof fn a_transaction_is_open_until_it_ends(stmts: Seq<RawStmt>, n: int, at_start: bool)
    requires
        0 <= n <= stmts.len(),
    ensures
        in_transaction(stmts, n, at_start) <==> {
            ||| exists|j: int|
                0 <= j < n && #[trigger] begins(stmts[j]) && forall|k: int|
                    j < k < n ==> !#[trigger] ends(stmts[k])
            ||| at_start && forall|k: int| 0 <= k < n ==> !#[trigger] ends(stmts[k])
        },
    decreases n,
{
    if n > 0 {
        a_transaction_is_open_until_it_ends(stmts, n - 1, at_start);
        let last = stmts[n - 1];
        if begins(last) {
            assert(in_transaction(stmts, n, at_start));
            assert(forall|k: int| n - 1 < k < n ==> !#[trigger] ends(stmts[k]));
        } else if ends(last) {
            assert(!in_transaction(stmts, n, at_start));
            assert(ends(stmts[n - 1]));
            assert forall|j: int| 0 <= j < n && #[trigger] begins(stmts[j]) implies !(forall|
                k: int,
            |
                j < k < n ==> !#[trigger] ends(stmts[k])) by {
                assert(j < n - 1);
                assert(ends(stmts[n - 1]));
            }
        } else {
            assert(in_transaction(stmts, n, at_start) == in_transaction(stmts, n - 1, at_start));
            if exists|j: int|
                0 <= j < n - 1 && #[trigger] begins(stmts[j]) && forall|k: int|
                    j < k < n - 1 ==> !#[trigger] ends(stmts[k]) {
                let j = choose|j: int|
                    0 <= j < n - 1 && #[trigger] begins(stmts[j]) && forall|k: int|
                        j < k < n - 1 ==> !#[trigger] ends(stmts[k]);
                assert(begins(stmts[j]));
            }
        }
    }
}

/// What cannot run inside a transaction: building, dropping or rebuilding an index concurrently.
pub proof fn concurrent_index_operations(node: Node)
    ensures
        is_concurrent_index_op(node) <==> {
            ||| node matches Node::IndexStmt(x) && x.concurrent
            ||| node matches Node::DropStmt(d) && d.concurrent && d.remove_type
                == ObjectType::Index
            ||| node matches Node::ReindexStmt(r) && is_set(r.params@, "concurrently"@)
        },
{
    if let Node::ReindexStmt(r) = node {
        options_are_read_by_name(r.params@, "concurrently"@);
    }
}

/// Inside a transaction a finding loses a fix that would add `CONCURRENTLY`, and keeps all else;
/// outside of one it keeps everything.
pub proof fn a_fix_is_withdrawn_inside_a_transaction(
    stmts: Seq<RawStmt>,
    at_start: bool,
    f: FindingView,
)
    requires
        0 <= f.statement_index < stmts.len(),
    ensures
        in_transaction(stmts, f.statement_index, at_start) && (f.fix matches Some(x) && x.title
            == "Add CONCURRENTLY"@) ==> withdrawn(stmts, at_start, f).fix is None,
        !(in_transaction(stmts, f.statement_index, at_start) && (f.fix matches Some(x) && x.title
            == "Add CONCURRENTLY"@)) ==> withdrawn(stmts, at_start, f) == f,
        withdrawn(stmts, at_start, f).rule_id == f.rule_id,
        withdrawn(stmts, at_start, f).message == f.message,
        withdrawn(stmts, at_start, f).severity == f.severity,
        withdrawn(stmts, at_start, f).statement_index == f.statement_index,
        withdrawn(stmts, at_start, f).location == f.location,
        withdrawn(stmts, at_start, f).suppression == f.suppression,
{
}

/// What PostgreSQL rejects at run time is an error; every other synthesized lint warns.
pub proof fn lints_on_failures_are_errors(id: Seq<char>)
    ensures
        lint_severity(id) == Severity::Error <==> id == "concurrently-in-transaction"@ || id
            == "enum-value-used-in-transaction"@,
{
}

/// Whether some remarks speak of a statement.
pub open spec fn speak_of(rs: Seq<(int, Seq<char>)>, i: int) -> bool {
    exists|k: int| 0 <= k < rs.len() && (#[trigger] rs[k]).0 == i
}

proof fn lemma_speak_push(rs: Seq<(int, Seq<char>)>, x: (int, Seq<char>), i: int)
    ensures
        speak_of(rs.push(x), i) <==> x.0 == i || speak_of(rs, i),
{
    let all = rs.push(x);
    assert(all[rs.len() as int] == x);
    if speak_of(rs, i) {
        let k = choose|k: int| 0 <= k < rs.len() && (#[trigger] rs[k]).0 == i;
        assert(all[k].0 == i);
    }
    if speak_of(all, i) {
        let k = choose|k: int| 0 <= k < all.len() && (#[trigger] all[k]).0 == i;
        if k < rs.len() {
            assert(rs[k].0 == i);
        }
    }
}

/// Whether a statement creates or drops something without its guard: a table, an index, a sequence,
/// a schema, a materialized view or a table from a query without `IF NOT EXISTS`, or anything that
/// is dropped without `IF EXISTS`.
pub open spec fn is_unguarded(node: Node) -> bool {
    match node {
        Node::CreateStmt(c) => !c.if_not_exists,
        Node::IndexStmt(x) => !x.if_not_exists,
        Node::CreateSeqStmt(s) => !s.if_not_exists,
        Node::CreateSchemaStmt(s) => !s.if_not_exists,
        Node::CreateTableAsStmt(c) => !(c.if_not_exists || c.is_select_into) && (c.objtype
            == ObjectType::MatView || c.objtype == ObjectType::Table),
        Node::DropStmt(d) => !d.missing_ok,
        Node::DropdbStmt(guarded) => !guarded,
        Node::DropGlobalStmt(guarded) => !guarded,
        _ => false,
    }
}

/// The lint on guards speaks of exactly the statements that lack theirs, once each.
pub proof fn unguarded_statements_are_flagged(stmts: Seq<RawStmt>, i: int)
    ensures
        speak_of(missing_if_exists_spec(stmts), i) <==> 0 <= i < stmts.len() && (
        stmts[i].stmt matches Some(n) && is_unguarded(n)),
    decreases stmts.len(),
{
    if stmts.len() > 0 {
        let init = stmts.drop_last();
        unguarded_statements_are_flagged(init, i);
        let before = missing_if_exists_spec(init);
        if let Some(n) = stmts.last().stmt {
            if let Some(m) = unguarded_spec(n) {
                lemma_speak_push(before, (stmts.len() - 1, m), i);
            }
        }
        if 0 <= i < init.len() {
            assert(init[i] == stmts[i]);
        }
    }
}

/// The lint on `DO` blocks speaks of exactly the `DO` blocks.
pub proof fn do_blocks_are_flagged(stmts: Seq<RawStmt>, i: int)
    ensures
        speak_of(unchecked_do_blocks_spec(stmts), i) <==> 0 <= i < stmts.len() && stmts[i].stmt
            == Some(Node::DoStmt),
    decreases stmts.len(),
{
    if stmts.len() > 0 {
        let init = stmts.drop_last();
        do_blocks_are_flagged(init, i);
        let before = unchecked_do_blocks_spec(init);
        lemma_speak_push(before, (stmts.len() - 1, crate::do_block::MESSAGE@), i);
        if 0 <= i < init.len() {
            assert(init[i] == stmts[i]);
        }
    }
}

/// Whether some constraint has that name, which is not empty.
pub open spec fn names_constraint(cons: Seq<Constraint>, name: Seq<char>) -> bool {
    exists|i: int| 0 <= i < cons.len() && (#[trigger] cons[i]).conname@ == name
}

/// Whether a statement introduces a name of a kind.
pub open spec fn introduces(node: Node, kind: NameKind, name: Seq<char>) -> bool {
    match kind {
        NameKind::Table => {
            ||| node matches Node::CreateStmt(c) && (c.relation matches Some(rv) && rv.relname@
                == name)
            ||| node matches Node::CreateTableAsStmt(c) && c.objtype == ObjectType::Table && (
            c.relation matches Some(rv) && rv.relname@ == name)
            ||| node matches Node::RenameStmt(r) && r.rename_type == ObjectType::Table && r.newname@
                == name
        },
        NameKind::Column => {
            ||| exists|c: ColumnDef| #[trigger] defines_column(node, c) && c.colname@ == name
            ||| node matches Node::CreateTableAsStmt(c) && c.objtype == ObjectType::Table && exists|
                i: int,
            |
                0 <= i < c.col_names@.len() && (#[trigger] c.col_names@[i])@ == name
            ||| node matches Node::RenameStmt(r) && r.rename_type == ObjectType::Column
                && r.newname@ == name
        },
        NameKind::Constraint => {
            ||| exists|k: Constraint| #[trigger] defines_constraint(node, k) && k.conname@ == name
            ||| exists|c: ColumnDef| #[trigger]
                defines_column(node, c) && exists|k: Constraint|
                    k.conname@ == name && #[trigger] c.constraints@.contains(Node::Constraint(k))
            ||| node matches Node::RenameStmt(r) && r.rename_type == ObjectType::TabConstraint
                && r.newname@ == name
        },
        NameKind::Index => {
            ||| node matches Node::IndexStmt(x) && x.idxname@ == name
            ||| node matches Node::RenameStmt(r) && r.rename_type == ObjectType::Index && r.newname@
                == name
        },
        NameKind::Sequence => {
            ||| node matches Node::CreateSeqStmt(s) && (s.sequence matches Some(rv) && rv.relname@
                == name)
            ||| node matches Node::RenameStmt(r) && r.rename_type == ObjectType::Sequence
                && r.newname@ == name
        },
        NameKind::Trigger => {
            ||| node matches Node::CreateTrigStmt(t) && t.trigname@ == name
            ||| node matches Node::RenameStmt(r) && r.rename_type == ObjectType::Trigger
                && r.newname@ == name
        },
        NameKind::Schema => {
            ||| node matches Node::CreateSchemaStmt(s) && s.schemaname@ == name
            ||| node matches Node::RenameStmt(r) && r.rename_type == ObjectType::Schema
                && r.newname@ == name
        },
    }
}

proof fn lemma_with_name(
    names: Seq<(NameKind, Seq<char>)>,
    kind: NameKind,
    name: Seq<char>,
    x: (NameKind, Seq<char>),
)
    requires
        x.1.len() > 0,
    ensures
        with_name(names, kind, name).contains(x) <==> names.contains(x) || x == (kind, name),
{
    lemma_push_contains(names, (kind, name), x);
}

proof fn lemma_with_constraints(
    names: Seq<(NameKind, Seq<char>)>,
    cons: Seq<Constraint>,
    x: (NameKind, Seq<char>),
)
    requires
        x.1.len() > 0,
    ensures
        with_constraints(names, cons).contains(x) <==> names.contains(x) || x.0
            == NameKind::Constraint && names_constraint(cons, x.1),
    decreases cons.len(),
{
    if cons.len() > 0 {
        let init = cons.drop_last();
        lemma_with_constraints(names, init, x);
        lemma_with_name(
            with_constraints(names, init),
            NameKind::Constraint,
            cons.last().conname@,
            x,
        );
        assert(forall|i: int| 0 <= i < init.len() ==> #[trigger] init[i] == cons[i]);
        assert(cons[cons.len() - 1] == cons.last());
        if names_constraint(init, x.1) {
            let i = choose|i: int| 0 <= i < init.len() && (#[trigger] init[i]).conname@ == x.1;
            assert(cons[i].conname@ == x.1);
        }
        if names_constraint(cons, x.1) {
            let i = choose|i: int| 0 <= i < cons.len() && (#[trigger] cons[i]).conname@ == x.1;
            if i < init.len() {
                assert(init[i].conname@ == x.1);
            }
        }
    }
}

spec fn columns_introduce(cols: Seq<ColumnDef>, x: (NameKind, Seq<char>)) -> bool {
    exists|i: int| 0 <= i < cols.len() && column_introduces(#[trigger] cols[i], x)
}

spec fn column_introduces(c: ColumnDef, x: (NameKind, Seq<char>)) -> bool {
    x == (NameKind::Column, c.colname@) || x.0 == NameKind::Constraint && names_constraint(
        constraints_of(c.constraints@),
        x.1,
    )
}

proof fn lemma_with_columns(
    names: Seq<(NameKind, Seq<char>)>,
    cols: Seq<ColumnDef>,
    x: (NameKind, Seq<char>),
)
    requires
        x.1.len() > 0,
    ensures
        with_columns(names, cols).contains(x) <==> names.contains(x) || columns_introduce(cols, x),
    decreases cols.len(),
{
    if cols.len() > 0 {
        let init = cols.drop_last();
        let last = cols.last();
        lemma_with_columns(names, init, x);
        let before = with_columns(names, init);
        lemma_with_name(before, NameKind::Column, last.colname@, x);
        lemma_with_constraints(
            with_name(before, NameKind::Column, last.colname@),
            constraints_of(last.constraints@),
            x,
        );
        assert(forall|i: int| 0 <= i < init.len() ==> #[trigger] init[i] == cols[i]);
        assert(cols[cols.len() - 1] == last);
        if columns_introduce(init, x) {
            let i = choose|i: int| 0 <= i < init.len() && column_introduces(#[trigger] init[i], x);
            assert(column_introduces(cols[i], x));
        }
        if columns_introduce(cols, x) {
            let i = choose|i: int| 0 <= i < cols.len() && column_introduces(#[trigger] cols[i], x);
            if i < init.len() {
                assert(column_introduces(init[i], x));
            }
        }
    }
}

proof fn lemma_with_column_names(
    names: Seq<(NameKind, Seq<char>)>,
    cols: Seq<Seq<char>>,
    x: (NameKind, Seq<char>),
)
    requires
        x.1.len() > 0,
    ensures
        with_column_names(names, cols).contains(x) <==> names.contains(x) || x.0
            == NameKind::Column && cols.contains(x.1),
    decreases cols.len(),
{
    if cols.len() > 0 {
        let init = cols.drop_last();
        lemma_with_column_names(names, init, x);
        lemma_with_name(with_column_names(names, init), NameKind::Column, cols.last(), x);
        assert(cols == init.push(cols.last()));
        lemma_push_contains(init, cols.last(), x.1);
    } else {
        assert(!cols.contains(x.1));
    }
}

proof fn lemma_constraint_names(ns: Seq<Node>, name: Seq<char>)
    ensures
        names_constraint(constraints_of(ns), name) <==> exists|k: Constraint|
            k.conname@ == name && #[trigger] ns.contains(Node::Constraint(k)),
{
    let cons = constraints_of(ns);
    if names_constraint(cons, name) {
        let i = choose|i: int| 0 <= i < cons.len() && (#[trigger] cons[i]).conname@ == name;
        crate::tree_laws::lemma_constraints_of(ns, cons[i]);
        assert(cons.contains(cons[i]));
    }
    if exists|k: Constraint| k.conname@ == name && #[trigger] ns.contains(Node::Constraint(k)) {
        let k = choose|k: Constraint|
            k.conname@ == name && #[trigger] ns.contains(Node::Constraint(k));
        crate::tree_laws::lemma_constraints_of(ns, k);
        let i = choose|i: int| 0 <= i < cons.len() && cons[i] == k;
        assert(cons[i].conname@ == name);
    }
}

proof fn lemma_table_names(node: Node, x: (NameKind, Seq<char>))
    requires
        x.1.len() > 0,
    ensures
        columns_introduce(defined_columns_spec(node), x) || x.0 == NameKind::Constraint
            && names_constraint(defined_table_constraints_spec(node), x.1) <==> {
            ||| x.0 == NameKind::Column && exists|c: ColumnDef| #[trigger]
                defines_column(node, c) && c.colname@ == x.1
            ||| x.0 == NameKind::Constraint && exists|k: Constraint| #[trigger]
                defines_constraint(node, k) && k.conname@ == x.1
            ||| x.0 == NameKind::Constraint && exists|c: ColumnDef| #[trigger]
                defines_column(node, c) && exists|k: Constraint|
                    k.conname@ == x.1 && #[trigger] c.constraints@.contains(Node::Constraint(k))
        },
{
    let cols = defined_columns_spec(node);
    let cons = defined_table_constraints_spec(node);
    if columns_introduce(cols, x) {
        let i = choose|i: int| 0 <= i < cols.len() && column_introduces(#[trigger] cols[i], x);
        a_statement_defines_its_columns(node, cols[i]);
        lemma_constraint_names(cols[i].constraints@, x.1);
        assert(defines_column(node, cols[i]));
    }
    if x.0 == NameKind::Constraint && names_constraint(cons, x.1) {
        let i = choose|i: int| 0 <= i < cons.len() && (#[trigger] cons[i]).conname@ == x.1;
        a_statement_has_its_constraints(node, cons[i]);
        assert(defines_constraint(node, cons[i]));
    }
    if x.0 == NameKind::Column && exists|c: ColumnDef| #[trigger]
        defines_column(node, c) && c.colname@ == x.1 {
        let c = choose|c: ColumnDef| #[trigger] defines_column(node, c) && c.colname@ == x.1;
        a_statement_defines_its_columns(node, c);
        let i = choose|i: int| 0 <= i < cols.len() && cols[i] == c;
        assert(column_introduces(cols[i], x));
    }
    if x.0 == NameKind::Constraint && exists|k: Constraint| #[trigger]
        defines_constraint(node, k) && k.conname@ == x.1 {
        let k = choose|k: Constraint| #[trigger] defines_constraint(node, k) && k.conname@ == x.1;
        a_statement_has_its_constraints(node, k);
        let i = choose|i: int| 0 <= i < cons.len() && cons[i] == k;
        assert(cons[i].conname@ == x.1);
    }
    if x.0 == NameKind::Constraint && exists|c: ColumnDef| #[trigger]
        defines_column(node, c) && exists|k: Constraint|
            k.conname@ == x.1 && #[trigger] c.constraints@.contains(Node::Constraint(k)) {
        let c = choose|c: ColumnDef| #[trigger]
            defines_column(node, c) && exists|k: Constraint|
                k.conname@ == x.1 && #[trigger] c.constraints@.contains(Node::Constraint(k));
        a_statement_defines_its_columns(node, c);
        lemma_constraint_names(c.constraints@, x.1);
        let i = choose|i: int| 0 <= i < cols.len() && cols[i] == c;
        assert(column_introduces(cols[i], x));
    }
}

/// The names that are held to the conventions are those that a statement introduces, each under the
/// kind of thing that it names.
pub proof fn names_are_held_to_their_kind(node: Node, kind: NameKind, name: Seq<char>)
    requires
        name.len() > 0,
    ensures
        introduced_names_spec(node).contains((kind, name)) <==> introduces(node, kind, name),
{
    let none = Seq::<(NameKind, Seq<char>)>::empty();
    let x = (kind, name);
    assert(!none.contains(x));
    lemma_table_names(node, x);
    match node {
        Node::CreateStmt(c) => {
            let table = match c.relation {
                Some(rv) => with_name(none, NameKind::Table, rv.relname@),
                None => none,
            };
            if let Some(rv) = c.relation {
                lemma_with_name(none, NameKind::Table, rv.relname@, x);
            }
            lemma_with_columns(table, defined_columns_spec(node), x);
            lemma_with_constraints(
                with_columns(table, defined_columns_spec(node)),
                defined_table_constraints_spec(node),
                x,
            );
        },
        Node::AlterTableStmt(_) => {
            lemma_with_columns(none, defined_columns_spec(node), x);
            lemma_with_constraints(
                with_columns(none, defined_columns_spec(node)),
                defined_table_constraints_spec(node),
                x,
            );
        },
        Node::CreateTableAsStmt(c) => {
            let table = match c.relation {
                Some(rv) => with_name(none, NameKind::Table, rv.relname@),
                None => none,
            };
            if let Some(rv) = c.relation {
                lemma_with_name(none, NameKind::Table, rv.relname@, x);
            }
            let cols = crate::collections::texts(c.col_names@);
            lemma_with_column_names(table, cols, x);
            if cols.contains(name) {
                let i = choose|i: int| 0 <= i < cols.len() && cols[i] == name;
                assert(c.col_names@[i]@ == name);
            }
            if exists|i: int| 0 <= i < c.col_names@.len() && (#[trigger] c.col_names@[i])@ == name {
                let i = choose|i: int|
                    0 <= i < c.col_names@.len() && (#[trigger] c.col_names@[i])@ == name;
                assert(cols[i] == name);
            }
        },
        Node::IndexStmt(i) => {
            lemma_with_name(none, NameKind::Index, i.idxname@, x);
        },
        Node::CreateTrigStmt(t) => {
            lemma_with_name(none, NameKind::Trigger, t.trigname@, x);
        },
        Node::CreateSeqStmt(s) => {
            if let Some(rv) = s.sequence {
                lemma_with_name(none, NameKind::Sequence, rv.relname@, x);
            }
        },
        Node::CreateSchemaStmt(s) => {
            lemma_with_name(none, NameKind::Schema, s.schemaname@, x);
        },
        Node::RenameStmt(r) => {
            if let Some(k) = crate::naming::rename_kind_spec(r.rename_type) {
                lemma_with_name(none, k, r.newname@, x);
            }
        },
        _ => {},
    }
}

proof fn lemma_name_remarks(
    i: int,
    names: Seq<(NameKind, Seq<char>)>,
    patterns: NamingPatterns,
    r: (int, Seq<char>),
)
    ensures
        name_remarks(i, names, patterns).contains(r) <==> exists|k: int|
            0 <= k < names.len() && breaks_convention(#[trigger] names[k], patterns) && r == (
                i,
                naming_message(names[k].0, names[k].1, patterns.pattern(names[k].0)->0),
            ),
    decreases names.len(),
{
    if names.len() > 0 {
        let init = names.drop_last();
        lemma_name_remarks(i, init, patterns, r);
        let before = name_remarks(i, init, patterns);
        let last = names.last();
        let x = (i, naming_message(last.0, last.1, patterns.pattern(last.0)->0));
        lemma_push_contains(before, x, r);
        assert(forall|k: int| 0 <= k < init.len() ==> #[trigger] init[k] == names[k]);
        assert(names[names.len() - 1] == last);
        if before.contains(r) {
            let k = choose|k: int|
                0 <= k < init.len() && breaks_convention(#[trigger] init[k], patterns) && r == (
                    i,
                    naming_message(init[k].0, init[k].1, patterns.pattern(init[k].0)->0),
                );
            assert(breaks_convention(names[k], patterns));
        }
        if exists|k: int|
            0 <= k < names.len() && breaks_convention(#[trigger] names[k], patterns) && r == (
                i,
                naming_message(names[k].0, names[k].1, patterns.pattern(names[k].0)->0),
            ) {
            let k = choose|k: int|
                0 <= k < names.len() && breaks_convention(#[trigger] names[k], patterns) && r == (
                    i,
                    naming_message(names[k].0, names[k].1, patterns.pattern(names[k].0)->0),
                );
            if k < init.len() {
                assert(breaks_convention(init[k], patterns));
            }
        }
    } else {
        assert(!name_remarks(i, names, patterns).contains(r));
    }
}

/// Whether a name does not match the pattern that is configured for its kind, which compiles.
pub open spec fn breaks_convention(x: (NameKind, Seq<char>), patterns: NamingPatterns) -> bool {
    let configured = match x.0 {
        NameKind::Table => patterns.table,
        NameKind::Column => patterns.column,
        NameKind::Index => patterns.index,
        NameKind::Constraint => patterns.constraint,
        NameKind::Sequence => patterns.sequence,
        NameKind::Trigger => patterns.trigger,
        NameKind::Schema => patterns.schema,
    };
    configured matches Some(p) && regex_new_error(p@) is None && !regex_is_match(p@, x.1)
}

/// A name is remarked on exactly if a statement introduces it and it breaks the convention for its
/// kind, and the remark is on that statement.
pub proof fn broken_conventions_are_flagged(
    stmts: Seq<RawStmt>,
    n: int,
    patterns: NamingPatterns,
    r: (int, Seq<char>),
)
    requires
        0 <= n <= stmts.len(),
    ensures
        naming_violations_spec(stmts, n, patterns).contains(r) <==> 0 <= r.0 < n && (
        stmts[r.0].stmt matches Some(node) && exists|x: (NameKind, Seq<char>)| #[trigger]
            introduced_names_spec(node).contains(x) && breaks_convention(x, patterns) && r.1
                == naming_message(x.0, x.1, patterns.pattern(x.0)->0)),
    decreases n,
{
    if n > 0 {
        broken_conventions_are_flagged(stmts, n - 1, patterns, r);
        let before = naming_violations_spec(stmts, n - 1, patterns);
        let more = match stmts[n - 1].stmt {
            Some(node) => name_remarks(n - 1, introduced_names_spec(node), patterns),
            None => Seq::empty(),
        };
        lemma_concat_contains(before, more, r);
        if let Some(node) = stmts[n - 1].stmt {
            let names = introduced_names_spec(node);
            lemma_name_remarks(n - 1, names, patterns, r);
            if more.contains(r) {
                let k = choose|k: int|
                    0 <= k < names.len() && breaks_convention(#[trigger] names[k], patterns) && r
                        == (
                        n - 1,
                        naming_message(names[k].0, names[k].1, patterns.pattern(names[k].0)->0),
                    );
                assert(names.contains(names[k]));
            }
            if r.0 == n - 1 && exists|x: (NameKind, Seq<char>)| #[trigger]
                names.contains(x) && breaks_convention(x, patterns) && r.1 == naming_message(
                    x.0,
                    x.1,
                    patterns.pattern(x.0)->0,
                ) {
                let x = choose|x: (NameKind, Seq<char>)| #[trigger]
                    names.contains(x) && breaks_convention(x, patterns) && r.1 == naming_message(
                        x.0,
                        x.1,
                        patterns.pattern(x.0)->0,
                    );
                let k = choose|k: int| 0 <= k < names.len() && names[k] == x;
                assert(breaks_convention(names[k], patterns));
            }
        } else {
            assert(!more.contains(r));
        }
    }
}

/// What two lists hold together.
pub proof fn lemma_concat_contains<T>(a: Seq<T>, b: Seq<T>, x: T)
    ensures
        (a + b).contains(x) <==> a.contains(x) || b.contains(x),
{
    let c = a + b;
    if a.contains(x) {
        let k = choose|k: int| 0 <= k < a.len() && a[k] == x;
        assert(c[k] == x);
    }
    if b.contains(x) {
        let k = choose|k: int| 0 <= k < b.len() && b[k] == x;
        assert(c[a.len() + k] == x);
    }
    if c.contains(x) {
        let k = choose|k: int| 0 <= k < c.len() && c[k] == x;
        if k < a.len() {
            assert(a[k] == x);
        } else {
            assert(b[k - a.len()] == x);
        }
    }
}

/// The remarks on foreign keys and on identifiers name what they are about: the table and the column
/// of the key, and the identifier with its length.
pub proof fn remarks_name_what_they_are_about(
    table: Seq<char>,
    col: Seq<char>,
    name: Seq<char>,
    len: int,
)
    requires
        len >= 0,
    ensures
        ("The foreign key on `"@ + table + "."@ + col + "` "@).is_prefix_of(fk_message(table, col)),
        ("The identifier `"@ + name + "` is "@ + decimal_spec(len as nat)
            + " bytes long"@).is_prefix_of(identifier_message(name, len)),
{
    reveal_strlit("` ");
    reveal_strlit(
        "` has no covering index in this migration; every change to the referenced table scans and locks this one.",
    );
    reveal_strlit(" bytes long");
    reveal_strlit(
        " bytes long; PostgreSQL silently truncates it to 63 bytes, so it can collide with another name.",
    );
    let a = "The foreign key on `"@ + table + "."@ + col;
    let b = "` has no covering index in this migration; every change to the referenced table scans and locks this one."@;
    assert(b.take(2) =~= "` "@);
    assert((a + b).subrange(0, (a.len() + 2) as int) =~= a + "` "@);
    let c = "The identifier `"@ + name + "` is "@ + decimal_spec(len as nat);
    let d = " bytes long; PostgreSQL silently truncates it to 63 bytes, so it can collide with another name."@;
    assert(d.take(11) =~= " bytes long"@);
    assert((c + d).subrange(0, (c.len() + 11) as int) =~= c + " bytes long"@);
}

/// The remark on a name says what kind of thing it names, the name, and the pattern for that kind.
pub proof fn a_naming_remark_says_what_breaks_what(
    kind: NameKind,
    name: Seq<char>,
    pattern: Seq<char>,
)
    ensures
        naming_message(kind, name, pattern) == "The "@ + (match kind {
            NameKind::Table => "table"@,
            NameKind::Column => "column"@,
            NameKind::Index => "index"@,
            NameKind::Constraint => "constraint"@,
            NameKind::Sequence => "sequence"@,
            NameKind::Trigger => "trigger"@,
            NameKind::Schema => "schema"@,
        }) + " name `"@ + name + "` does not match the configured naming pattern `"@ + pattern
            + "`."@,
{
}

/// What is said of a statement without its guard begins with what it does.
pub proof fn a_missing_guard_is_named(node: Node)
    ensures
        node is CreateStmt && is_unguarded(node) ==> (unguarded_spec(node) matches Some(m)
            && "CREATE TABLE without IF NOT EXISTS"@.is_prefix_of(m)),
        node is IndexStmt && is_unguarded(node) ==> (unguarded_spec(node) matches Some(m)
            && "CREATE INDEX without IF NOT EXISTS"@.is_prefix_of(m)),
        node is CreateSeqStmt && is_unguarded(node) ==> (unguarded_spec(node) matches Some(m)
            && "CREATE SEQUENCE without IF NOT EXISTS"@.is_prefix_of(m)),
        node is CreateSchemaStmt && is_unguarded(node) ==> (unguarded_spec(node) matches Some(m)
            && "CREATE SCHEMA without IF NOT EXISTS"@.is_prefix_of(m)),
        (node is DropStmt || node is DropdbStmt || node is DropGlobalStmt) && is_unguarded(node)
            ==> (unguarded_spec(node) matches Some(m) && "DROP without IF EXISTS"@.is_prefix_of(
            m,
        )),
        unguarded_spec(node) is Some <==> is_unguarded(node),
{
    reveal_strlit("CREATE TABLE without IF NOT EXISTS");
    reveal_strlit("CREATE INDEX without IF NOT EXISTS");
    reveal_strlit("CREATE SEQUENCE without IF NOT EXISTS");
    reveal_strlit("CREATE SCHEMA without IF NOT EXISTS");
    reveal_strlit("DROP without IF EXISTS");
    reveal_strlit(
        "CREATE TABLE without IF NOT EXISTS is not idempotent — it errors if the table already exists.",
    );
    reveal_strlit(
        "CREATE INDEX without IF NOT EXISTS is not idempotent — it errors if the index already exists.",
    );
    reveal_strlit(
        "CREATE SEQUENCE without IF NOT EXISTS is not idempotent — it errors if the sequence already exists.",
    );
    reveal_strlit(
        "CREATE SCHEMA without IF NOT EXISTS is not idempotent — it errors if the schema already exists.",
    );
    reveal_strlit(
        "DROP without IF EXISTS is not idempotent — it errors if the object does not exist.",
    );
    if let Some(m) = unguarded_spec(node) {
        match node {
            Node::CreateStmt(_) => {
                assert("CREATE TABLE without IF NOT EXISTS"@ =~= m.subrange(0, 34));
            },
            Node::IndexStmt(_) => {
                assert("CREATE INDEX without IF NOT EXISTS"@ =~= m.subrange(0, 34));
            },
            Node::CreateSeqStmt(_) => {
                assert("CREATE SEQUENCE without IF NOT EXISTS"@ =~= m.subrange(0, 37));
            },
            Node::CreateSchemaStmt(_) => {
                assert("CREATE SCHEMA without IF NOT EXISTS"@ =~= m.subrange(0, 35));
            },
            Node::DropStmt(_) | Node::DropdbStmt(_) | Node::DropGlobalStmt(_) => {
                assert("DROP without IF EXISTS"@ =~= m.subrange(0, 22));
            },
            _ => {},
        }
    }
}

/// A statement lacks a `lock_timeout` exactly if it waits for a lock, none is set before it, and it is
/// not on a table that was created empty earlier in the same input.
pub proof fn a_lock_needs_a_timeout_unless_on_a_new_table(stmts: Seq<RawStmt>, i: int)
    requires
        0 <= i < stmts.len(),
    ensures
        lacks_timeout(stmts, i) <==> (stmts[i].stmt matches Some(n) && waits_for_lock(n))
            && !timeout_set(stmts, i) && !on_new_table(stmts, i),
{
}

} // verus!
