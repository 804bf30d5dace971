//! Which statements the registered rules flag, and how often.
use vstd::prelude::*;

use crate::ast::{
    AlterTableCmd, AlterTableType, ColumnDef, ConstrType, Constraint, Node, ObjectType,
};
use crate::finding::Severity;
use crate::rules::add_check_without_not_valid::AddCheckWithoutNotValid;
use crate::rules::add_column_generated_stored::AddColumnGeneratedStored;
use crate::rules::add_column_identity::AddColumnIdentity;
use crate::rules::add_column_not_null_no_default::AddColumnNotNullNoDefault;
use crate::rules::add_column_serial::AddColumnSerial;
use crate::rules::add_column_volatile_default::{
    any_contains_volatile, contains_volatile, has_volatile_default_spec, is_volatile_default,
    AddColumnVolatileDefault,
};
use crate::rules::add_domain_constraint_without_not_valid::AddDomainConstraintWithoutNotValid;
use crate::rules::add_domain_not_null::AddDomainNotNull;
use crate::rules::add_exclusion_constraint::AddExclusionConstraint;
use crate::rules::add_fk_without_not_valid::AddFkWithoutNotValid;
use crate::rules::add_index_non_concurrent::AddIndexNonConcurrent;
use crate::rules::add_primary_key_without_index::AddPrimaryKeyWithoutIndex;
use crate::rules::add_trigger::AddTrigger;
use crate::rules::add_unique_constraint::AddUniqueConstraint;
use crate::rules::alter_column_type::AlterColumnType;
use crate::rules::attach_partition::AttachPartition;
use crate::rules::detach_partition_non_concurrent::{count_detaches, DetachPartitionNonConcurrent};
use crate::rules::drop_column::DropColumn;
use crate::rules::drop_constraint::DropConstraint;
use crate::rules::drop_database::DropDatabase;
use crate::rules::drop_index_non_concurrent::DropIndexNonConcurrent;
use crate::rules::drop_not_null::DropNotNull;
use crate::rules::drop_table::DropTable;
use crate::rules::prefer_bigint_primary_key::{
    inline_key, is_key, is_small_int, names_key, small_key_hits, table_key, PreferBigintPrimaryKey,
};
use crate::rules::prefer_jsonb::{json_hits, PreferJsonb};
use crate::rules::refresh_matview_non_concurrent::RefreshMatviewNonConcurrent;
use crate::rules::reindex_non_concurrent::ReindexNonConcurrent;
use crate::rules::rename::Rename;
use crate::rules::set_access_method::SetAccessMethod;
use crate::rules::set_logged_unlogged::SetLoggedUnlogged;
use crate::rules::set_not_null::SetNotNull;
use crate::rules::truncate::Truncate;
use crate::rules::vacuum_full_cluster::VacuumFullOrCluster;
use crate::rules::{
    add_column_not_null_no_default, add_column_serial, add_column_volatile_default,
    add_fk_without_not_valid, add_primary_key_without_index, add_unique_constraint,
    added_columns_of, added_constraints_of, cmds_of, columns_of, count_constraints_spec,
    count_subtypes, count_with_constraint_spec, defined_columns_spec,
    defined_table_constraints_spec, has_constraint, registry, Rule,
};
use crate::text::lower_text;
use crate::tree_laws::{
    a_column_carries_its_constraints, a_statement_defines_its_columns,
    a_statement_has_its_constraints, carries, defines_column, defines_constraint, is_set,
    options_are_read_by_name,
};

verus! {

/// The commands of an `ALTER TABLE`; none for any other statement.
pub open spec fn commands(node: Node) -> Seq<Node> {
    match node {
        Node::AlterTableStmt(a) => a.cmds@,
        _ => Seq::empty(),
    }
}

/// How many commands of a statement are such.
pub open spec fn number(node: Node, such: spec_fn(Node) -> bool) -> int {
    commands(node).filter(such).len() as int
}

/// Of the kind `a` or `b`.
pub open spec fn command_of(a: AlterTableType, b: AlterTableType) -> spec_fn(Node) -> bool {
    |n: Node| n matches Node::AlterTableCmd(c) && (c.subtype == a || c.subtype == b)
}

/// Detaching a partition other than concurrently.
pub open spec fn detaching() -> spec_fn(Node) -> bool {
    |n: Node|
        n matches Node::AlterTableCmd(c) && c.subtype == AlterTableType::DetachPartition && !(
        c.def matches Some(d) && (*d matches Node::PartitionCmd(p) && p.concurrent))
}

/// Adding such a column.
pub open spec fn adding_column(such: spec_fn(ColumnDef) -> bool) -> spec_fn(Node) -> bool {
    |n: Node|
        n matches Node::AlterTableCmd(c) && c.subtype == AlterTableType::AddColumn && (
        c.def matches Some(d) && (*d matches Node::ColumnDef(x) && such(x)))
}

/// Adding such a constraint.
pub open spec fn adding_constraint(such: spec_fn(Constraint) -> bool) -> spec_fn(Node) -> bool {
    |n: Node|
        n matches Node::AlterTableCmd(c) && c.subtype == AlterTableType::AddConstraint && (
        c.def matches Some(d) && (*d matches Node::Constraint(x) && such(x)))
}

/// Defining such a column, as an element of a `CREATE TABLE`.
pub open spec fn column_element(such: spec_fn(ColumnDef) -> bool) -> spec_fn(Node) -> bool {
    |n: Node| n matches Node::ColumnDef(x) && such(x)
}

/// With an inline constraint of a kind.
pub open spec fn carrying(t: ConstrType) -> spec_fn(ColumnDef) -> bool {
    |c: ColumnDef| carries(c, t)
}

/// With a reference and a default.
pub open spec fn defaulted_reference() -> spec_fn(ColumnDef) -> bool {
    |c: ColumnDef| carries(c, ConstrType::Foreign) && carries(c, ConstrType::Default)
}

/// Required, but without a default.
pub open spec fn required_without_default() -> spec_fn(ColumnDef) -> bool {
    |c: ColumnDef|
        (carries(c, ConstrType::NotNull) || carries(c, ConstrType::Primary)) && !carries(
            c,
            ConstrType::Default,
        )
}

/// Of a type that is one bare name out of a list, in any case.
pub open spec fn typed_one_of(names: Seq<Seq<char>>) -> spec_fn(ColumnDef) -> bool {
    |c: ColumnDef|
        c.coltype matches Some(t) && t.names@.len() == 1 && (t.names@[0] matches Node::Str(s)
            && names.contains(lower_text(s@)))
}

/// With a default that calls a volatile function.
pub open spec fn volatile_default() -> spec_fn(ColumnDef) -> bool {
    |c: ColumnDef|
        exists|k: Constraint|
            k.contype == ConstrType::Default && (k.raw_expr matches Some(e) && contains_volatile(
                *e,
            )) && #[trigger] c.constraints@.contains(Node::Constraint(k))
}

/// Of a kind, and validated at once.
pub open spec fn unvalidated(t: ConstrType) -> spec_fn(Constraint) -> bool {
    |k: Constraint| k.contype == t && !k.skip_validation
}

/// Of a kind.
pub open spec fn of_kind(t: ConstrType) -> spec_fn(Constraint) -> bool {
    |k: Constraint| k.contype == t
}

/// Of a kind, and building an index of its own rather than using one.
pub open spec fn building_index(t: ConstrType) -> spec_fn(Constraint) -> bool {
    |k: Constraint| k.contype == t && k.indexname@ == Seq::<char>::empty()
}

proof fn lemma_cmds(ns: Seq<Node>, a: AlterTableType, b: AlterTableType)
    ensures
        count_subtypes(cmds_of(ns), a, b) == ns.filter(command_of(a, b)).len(),
        count_detaches(cmds_of(ns)) == ns.filter(detaching()).len(),
    decreases ns.len(),
{
    reveal(Seq::filter);
    if ns.len() > 0 {
        let init = ns.drop_last();
        lemma_cmds(init, a, b);
        if let Node::AlterTableCmd(c) = ns.last() {
            assert(cmds_of(ns).drop_last() == cmds_of(init));
            assert(cmds_of(ns).last() == c);
        }
    }
}

proof fn lemma_columns(ns: Seq<Node>, such: spec_fn(ColumnDef) -> bool)
    ensures
        added_columns_of(cmds_of(ns)).filter(such).len() == ns.filter(adding_column(such)).len(),
        columns_of(ns).filter(such).len() == ns.filter(column_element(such)).len(),
    decreases ns.len(),
{
    reveal(Seq::filter);
    if ns.len() > 0 {
        let init = ns.drop_last();
        lemma_columns(init, such);
        let before = added_columns_of(cmds_of(init));
        if let Node::AlterTableCmd(c) = ns.last() {
            assert(cmds_of(ns).drop_last() == cmds_of(init));
            assert(cmds_of(ns).last() == c);
            if let Some(d) = c.def {
                if let Node::ColumnDef(x) = *d {
                    assert(before.push(x).drop_last() == before);
                    assert(before.push(x).last() == x);
                }
            }
        }
        if let Node::ColumnDef(x) = ns.last() {
            assert(columns_of(ns).drop_last() == columns_of(init));
            assert(columns_of(ns).last() == x);
        }
    }
}

proof fn lemma_constraints(ns: Seq<Node>, such: spec_fn(Constraint) -> bool)
    ensures
        added_constraints_of(cmds_of(ns)).filter(such).len() == ns.filter(
            adding_constraint(such),
        ).len(),
    decreases ns.len(),
{
    reveal(Seq::filter);
    if ns.len() > 0 {
        let init = ns.drop_last();
        lemma_constraints(init, such);
        let before = added_constraints_of(cmds_of(init));
        if let Node::AlterTableCmd(c) = ns.last() {
            assert(cmds_of(ns).drop_last() == cmds_of(init));
            assert(cmds_of(ns).last() == c);
            if let Some(d) = c.def {
                if let Node::Constraint(x) = *d {
                    assert(before.push(x).drop_last() == before);
                    assert(before.push(x).last() == x);
                }
            }
        }
    }
}

proof fn lemma_counted_columns(cols: Seq<ColumnDef>, t: ConstrType)
    ensures
        count_with_constraint_spec(cols, t) == cols.filter(carrying(t)).len(),
        add_fk_without_not_valid::count_defaulted_references(cols) == cols.filter(
            defaulted_reference(),
        ).len(),
        add_column_not_null_no_default::count_spec(cols) == cols.filter(
            required_without_default(),
        ).len(),
        add_column_volatile_default::count_spec(cols) == cols.filter(volatile_default()).len(),
    decreases cols.len(),
{
    reveal(Seq::filter);
    if cols.len() > 0 {
        lemma_counted_columns(cols.drop_last(), t);
        let c = cols.last();
        a_column_carries_its_constraints(c, t);
        a_column_carries_its_constraints(c, ConstrType::Foreign);
        a_column_carries_its_constraints(c, ConstrType::Default);
        a_column_carries_its_constraints(c, ConstrType::NotNull);
        a_column_carries_its_constraints(c, ConstrType::Primary);
        lemma_volatile_column(c);
    }
}

proof fn lemma_volatile_column(c: ColumnDef)
    ensures
        has_volatile_default_spec(c) <==> volatile_default()(c),
{
    let ns = c.constraints@;
    if has_volatile_default_spec(c) {
        let i = choose|i: int| 0 <= i < ns.len() && is_volatile_default(#[trigger] ns[i]);
        let k = ns[i]->Constraint_0;
        assert(ns.contains(Node::Constraint(k)));
    }
    if volatile_default()(c) {
        let k = choose|k: Constraint|
            k.contype == ConstrType::Default && (k.raw_expr matches Some(e) && contains_volatile(
                *e,
            )) && #[trigger] ns.contains(Node::Constraint(k));
        let i = choose|i: int| 0 <= i < ns.len() && ns[i] == Node::Constraint(k);
        assert(is_volatile_default(ns[i]));
    }
}

proof fn lemma_counted_constraints(cons: Seq<Constraint>, t: ConstrType)
    ensures
        count_constraints_spec(cons, t, true) == cons.filter(unvalidated(t)).len(),
        count_constraints_spec(cons, t, false) == cons.filter(of_kind(t)).len(),
    decreases cons.len(),
{
    reveal(Seq::filter);
    if cons.len() > 0 {
        lemma_counted_constraints(cons.drop_last(), t);
    }
}

proof fn lemma_filter_exists<T>(s: Seq<T>, p: spec_fn(T) -> bool)
    ensures
        s.filter(p).len() > 0 <==> exists|i: int| 0 <= i < s.len() && p(#[trigger] s[i]),
    decreases s.len(),
{
    reveal(Seq::filter);
    if s.len() > 0 {
        let init = s.drop_last();
        lemma_filter_exists(init, p);
        assert(forall|i: int| 0 <= i < init.len() ==> #[trigger] init[i] == s[i]);
        if init.filter(p).len() > 0 {
            let i = choose|i: int| 0 <= i < init.len() && p(#[trigger] init[i]);
            assert(p(s[i]));
        }
        if exists|i: int| 0 <= i < s.len() && p(#[trigger] s[i]) {
            let i = choose|i: int| 0 <= i < s.len() && p(#[trigger] s[i]);
            if i < init.len() {
                assert(p(init[i]));
            }
        }
        if p(s.last()) {
            assert(p(s[s.len() - 1]));
        }
    }
}

proof fn lemma_commands(node: Node)
    ensures
        crate::rules::alter_table_cmds_spec(node) == cmds_of(commands(node)),
{
    assert(cmds_of(Seq::<Node>::empty()) =~= Seq::<AlterTableCmd>::empty());
}

/// The rules on single commands flag every command of their kind, and nothing else.
pub proof fn commands_are_flagged_by_their_kind(node: Node)
    ensures
        AlterColumnType.hits(node).len() == number(
            node,
            command_of(AlterTableType::AlterColumnType, AlterTableType::AlterColumnType),
        ),
        AttachPartition.hits(node).len() == number(
            node,
            command_of(AlterTableType::AttachPartition, AlterTableType::AttachPartition),
        ),
        DropColumn.hits(node).len() == number(
            node,
            command_of(AlterTableType::DropColumn, AlterTableType::DropColumn),
        ),
        DropConstraint.hits(node).len() == number(
            node,
            command_of(AlterTableType::DropConstraint, AlterTableType::DropConstraint),
        ),
        DropNotNull.hits(node).len() == number(
            node,
            command_of(AlterTableType::DropNotNull, AlterTableType::DropNotNull),
        ),
        SetAccessMethod.hits(node).len() == number(
            node,
            command_of(AlterTableType::SetAccessMethod, AlterTableType::SetAccessMethod),
        ),
        SetNotNull.hits(node).len() == number(
            node,
            command_of(AlterTableType::SetNotNull, AlterTableType::SetNotNull),
        ),
        SetLoggedUnlogged.hits(node).len() == number(
            node,
            command_of(AlterTableType::SetLogged, AlterTableType::SetUnLogged),
        ),
        DetachPartitionNonConcurrent.hits(node).len() == number(node, detaching()),
{
    let ns = commands(node);
    lemma_commands(node);
    lemma_cmds(ns, AlterTableType::AlterColumnType, AlterTableType::AlterColumnType);
    lemma_cmds(ns, AlterTableType::AttachPartition, AlterTableType::AttachPartition);
    lemma_cmds(ns, AlterTableType::DropColumn, AlterTableType::DropColumn);
    lemma_cmds(ns, AlterTableType::DropConstraint, AlterTableType::DropConstraint);
    lemma_cmds(ns, AlterTableType::DropNotNull, AlterTableType::DropNotNull);
    lemma_cmds(ns, AlterTableType::SetAccessMethod, AlterTableType::SetAccessMethod);
    lemma_cmds(ns, AlterTableType::SetNotNull, AlterTableType::SetNotNull);
    lemma_cmds(ns, AlterTableType::SetLogged, AlterTableType::SetUnLogged);
}

/// The rules on new columns flag every column that is added with the hazard, and nothing else.
pub proof fn new_columns_are_flagged_by_their_hazard(node: Node)
    ensures
        AddColumnGeneratedStored.hits(node).len() == number(
            node,
            adding_column(carrying(ConstrType::Generated)),
        ),
        AddColumnIdentity.hits(node).len() == number(
            node,
            adding_column(carrying(ConstrType::Identity)),
        ),
        AddColumnNotNullNoDefault.hits(node).len() == number(
            node,
            adding_column(required_without_default()),
        ),
        AddColumnVolatileDefault.hits(node).len() == number(
            node,
            adding_column(volatile_default()),
        ),
{
    let ns = commands(node);
    lemma_commands(node);
    let cols = added_columns_of(cmds_of(ns));
    lemma_counted_columns(cols, ConstrType::Generated);
    lemma_counted_columns(cols, ConstrType::Identity);
    lemma_columns(ns, carrying(ConstrType::Generated));
    lemma_columns(ns, carrying(ConstrType::Identity));
    lemma_columns(ns, required_without_default());
    lemma_columns(ns, volatile_default());
}

/// The names of the types that stand for an integer with a sequence.
pub open spec fn serial_types() -> Seq<Seq<char>> {
    seq!["serial"@, "serial2"@, "serial4"@, "serial8"@, "smallserial"@, "bigserial"@]
}

proof fn lemma_counted_serials(cols: Seq<ColumnDef>)
    ensures
        add_column_serial::count_spec(cols) == cols.filter(typed_one_of(serial_types())).len(),
    decreases cols.len(),
{
    reveal(Seq::filter);
    if cols.len() > 0 {
        lemma_counted_serials(cols.drop_last());
        let c = cols.last();
        let names = serial_types();
        if let Some(t) = c.coltype {
            if t.names@.len() == 1 {
                if let Node::Str(s) = t.names@[0] {
                    let w = lower_text(s@);
                    assert(names[0] == "serial"@ && names[1] == "serial2"@ && names[2]
                        == "serial4"@ && names[3] == "serial8"@ && names[4] == "smallserial"@
                        && names[5] == "bigserial"@);
                    assert(names.contains(w) <==> add_column_serial::is_serial_name(w));
                }
            }
        }
    }
}

/// A new column of a serial type is flagged, and no other is.
pub proof fn new_serial_columns_are_flagged(node: Node)
    ensures
        AddColumnSerial.hits(node).len() == number(
            node,
            adding_column(typed_one_of(serial_types())),
        ),
{
    let ns = commands(node);
    lemma_commands(node);
    lemma_counted_serials(added_columns_of(cmds_of(ns)));
    lemma_columns(ns, typed_one_of(serial_types()));
}

/// The functions that give another value for every row.
pub open spec fn volatile_functions() -> Seq<Seq<char>> {
    seq![
        "random"@,
        "random_normal"@,
        "gen_random_uuid"@,
        "gen_random_bytes"@,
        "uuid_generate_v4"@,
        "uuid_generate_v1"@,
        "uuid_generate_v1mc"@,
        "clock_timestamp"@,
        "timeofday"@,
        "nextval"@,
    ]
}

/// Whether a node is a call of a volatile function: the last part of the name, in any case, is one
/// of theirs.
pub open spec fn calls_volatile(n: Node) -> bool {
    n matches Node::FuncCall(fc) && fc.funcname@.len() > 0 && (fc.funcname@[fc.funcname@.len() - 1]
        matches Node::Str(s) && volatile_functions().contains(lower_text(s@)))
}

/// What an optional operand holds.
pub open spec fn operand(o: Option<Box<Node>>) -> Seq<Node> {
    match o {
        Some(n) => seq![*n],
        None => Seq::empty(),
    }
}

/// The expressions right inside an expression.
pub open spec fn operands(n: Node) -> Seq<Node> {
    match n {
        Node::FuncCall(fc) => fc.args@,
        Node::TypeCast(x) => operand(x),
        Node::AExpr(x, y) => operand(x) + operand(y),
        Node::BoolExpr(xs) => xs@,
        Node::CoalesceExpr(xs) => xs@,
        Node::CaseExpr(e) => operand(e.arg) + e.args@ + operand(e.defresult),
        Node::CaseWhen(x, y) => operand(x) + operand(y),
        Node::MinMaxExpr(xs) => xs@,
        Node::AArrayExpr(xs) => xs@,
        _ => Seq::empty(),
    }
}

/// Whether one of some expressions is volatile.
pub open spec fn some_volatile(ns: Seq<Node>) -> bool {
    exists|i: int| 0 <= i < ns.len() && contains_volatile(#[trigger] ns[i])
}

proof fn lemma_any_volatile(ns: Seq<Node>)
    ensures
        any_contains_volatile(ns) <==> some_volatile(ns),
    decreases ns.len(),
{
    if ns.len() > 0 {
        let init = ns.drop_last();
        lemma_any_volatile(init);
        assert(forall|i: int| 0 <= i < init.len() ==> #[trigger] init[i] == ns[i]);
        if some_volatile(init) {
            let i = choose|i: int| 0 <= i < init.len() && contains_volatile(#[trigger] init[i]);
            assert(contains_volatile(ns[i]));
        }
        if contains_volatile(ns.last()) {
            assert(contains_volatile(ns[ns.len() - 1]));
        }
        if some_volatile(ns) {
            let i = choose|i: int| 0 <= i < ns.len() && contains_volatile(#[trigger] ns[i]);
            if i < init.len() {
                assert(contains_volatile(init[i]));
            }
        }
    }
}

proof fn lemma_volatile_names(t: Seq<char>)
    ensures
        volatile_functions().contains(t) <==> add_column_volatile_default::is_volatile_name(t),
{
    let names = volatile_functions();
    assert(names[0] == "random"@ && names[1] == "random_normal"@ && names[2] == "gen_random_uuid"@
        && names[3] == "gen_random_bytes"@ && names[4] == "uuid_generate_v4"@ && names[5]
        == "uuid_generate_v1"@ && names[6] == "uuid_generate_v1mc"@ && names[7]
        == "clock_timestamp"@ && names[8] == "timeofday"@ && names[9] == "nextval"@);
}

proof fn lemma_concat_volatile(a: Seq<Node>, b: Seq<Node>)
    ensures
        some_volatile(a + b) <==> some_volatile(a) || some_volatile(b),
{
    let c = a + b;
    if some_volatile(a) {
        let i = choose|i: int| 0 <= i < a.len() && contains_volatile(#[trigger] a[i]);
        assert(contains_volatile(c[i]));
    }
    if some_volatile(b) {
        let i = choose|i: int| 0 <= i < b.len() && contains_volatile(#[trigger] b[i]);
        assert(contains_volatile(c[a.len() + i]));
    }
    if some_volatile(c) {
        let i = choose|i: int| 0 <= i < c.len() && contains_volatile(#[trigger] c[i]);
        if i < a.len() {
            assert(contains_volatile(a[i]));
        } else {
            assert(contains_volatile(b[i - a.len()]));
        }
    }
}

proof fn lemma_operand_volatile(o: Option<Box<Node>>)
    ensures
        some_volatile(operand(o)) <==> add_column_volatile_default::operand_contains_volatile(o),
{
    if let Some(n) = o {
        assert(operand(o)[0] == *n);
    }
}

/// An expression is volatile exactly if it calls a volatile function or one of the expressions right
/// inside it is volatile.
pub proof fn an_expression_is_volatile_by_what_it_calls(n: Node)
    ensures
        contains_volatile(n) <==> calls_volatile(n) || some_volatile(operands(n)),
{
    match n {
        Node::FuncCall(fc) => {
            lemma_any_volatile(fc.args@);
            if fc.funcname@.len() > 0 {
                if let Node::Str(s) = fc.funcname@.last() {
                    lemma_volatile_names(lower_text(s@));
                }
            }
        },
        Node::TypeCast(x) => {
            lemma_operand_volatile(x);
        },
        Node::AExpr(x, y) => {
            lemma_operand_volatile(x);
            lemma_operand_volatile(y);
            lemma_concat_volatile(operand(x), operand(y));
        },
        Node::BoolExpr(xs) => {
            lemma_any_volatile(xs@);
        },
        Node::CoalesceExpr(xs) => {
            lemma_any_volatile(xs@);
        },
        Node::CaseExpr(e) => {
            lemma_operand_volatile(e.arg);
            lemma_operand_volatile(e.defresult);
            lemma_any_volatile(e.args@);
            lemma_concat_volatile(operand(e.arg), e.args@);
            lemma_concat_volatile(operand(e.arg) + e.args@, operand(e.defresult));
        },
        Node::CaseWhen(x, y) => {
            lemma_operand_volatile(x);
            lemma_operand_volatile(y);
            lemma_concat_volatile(operand(x), operand(y));
        },
        Node::MinMaxExpr(xs) => {
            lemma_any_volatile(xs@);
        },
        Node::AArrayExpr(xs) => {
            lemma_any_volatile(xs@);
        },
        _ => {},
    }
}

/// Whether a statement is an `ALTER TABLE` of one command that adds a column whose only constraint
/// is a default, a call without arguments of the function of that name.
pub open spec fn adds_defaulted_column(node: Node, parts: Seq<Node>) -> bool {
    node matches Node::AlterTableStmt(a) && a.cmds@.len() == 1 && (
    a.cmds@[0] matches Node::AlterTableCmd(c) && c.subtype == AlterTableType::AddColumn && (
    c.def matches Some(d) && (*d matches Node::ColumnDef(x) && x.constraints@.len() == 1 && (
    x.constraints@[0] matches Node::Constraint(k) && k.contype == ConstrType::Default && (
    k.raw_expr matches Some(e) && (*e matches Node::FuncCall(fc) && fc.funcname@ == parts
        && fc.args@.len() == 0))))))
}

/// A new column whose default is the call of a function is flagged exactly if the last part of the
/// function's name is that of a volatile function, in any case; a default of `now()` never is.
pub proof fn a_default_is_flagged_by_the_function_it_calls(
    node: Node,
    parts: Seq<Node>,
    name: Seq<char>,
)
    requires
        adds_defaulted_column(node, parts),
        parts.len() > 0,
        parts[parts.len() - 1] matches Node::Str(s) && s@ == name,
    ensures
        AddColumnVolatileDefault.hits(node).len() == (if volatile_functions().contains(
            lower_text(name),
        ) {
            1int
        } else {
            0int
        }),
        lower_text(name) == "now"@ ==> AddColumnVolatileDefault.hits(node).len() == 0,
{
    reveal(Seq::filter);
    new_columns_are_flagged_by_their_hazard(node);
    let a = node->AlterTableStmt_0;
    let c = a.cmds@[0]->AlterTableCmd_0;
    let x = (*(c.def->0))->ColumnDef_0;
    let k = x.constraints@[0]->Constraint_0;
    let e = *(k.raw_expr->0);
    an_expression_is_volatile_by_what_it_calls(e);
    assert(!some_volatile(operands(e)));
    assert(calls_volatile(e) <==> volatile_functions().contains(lower_text(name)));
    assert(volatile_default()(x) <==> contains_volatile(e)) by {
        assert(x.constraints@.contains(x.constraints@[0]));
        assert forall|m: Constraint| #[trigger]
            x.constraints@.contains(Node::Constraint(m)) implies m == k by {
            let i = choose|i: int|
                0 <= i < x.constraints@.len() && x.constraints@[i] == Node::Constraint(m);
            assert(i == 0);
        }
    }
    let such = adding_column(volatile_default());
    assert(a.cmds@.drop_last() =~= Seq::<Node>::empty());
    assert(Seq::<Node>::empty().filter(such) =~= Seq::<Node>::empty());
    assert(a.cmds@.last() == a.cmds@[0]);
    if lower_text(name) == "now"@ {
        lemma_now_is_not_volatile();
    }
}

proof fn lemma_now_is_not_volatile()
    ensures
        !volatile_functions().contains("now"@),
{
    reveal_strlit("now");
    reveal_strlit("random");
    reveal_strlit("random_normal");
    reveal_strlit("gen_random_uuid");
    reveal_strlit("gen_random_bytes");
    reveal_strlit("uuid_generate_v4");
    reveal_strlit("uuid_generate_v1");
    reveal_strlit("uuid_generate_v1mc");
    reveal_strlit("clock_timestamp");
    reveal_strlit("timeofday");
    reveal_strlit("nextval");
    let names = volatile_functions();
    assert(names[0].len() > 3 && names[1].len() > 3 && names[2].len() > 3 && names[3].len() > 3
        && names[4].len() > 3 && names[5].len() > 3 && names[6].len() > 3 && names[7].len() > 3
        && names[8].len() > 3 && names[9].len() > 3);
    assert("now"@.len() == 3);
}

/// The rules on new constraints flag every constraint that is added with the hazard, and the inline
/// forms on new columns; those on keys once for each form.
pub proof fn new_constraints_are_flagged_by_their_hazard(node: Node)
    ensures
        AddCheckWithoutNotValid.hits(node).len() == number(
            node,
            adding_constraint(unvalidated(ConstrType::Check)),
        ) + number(node, adding_column(carrying(ConstrType::Check))),
        AddFkWithoutNotValid.hits(node).len() == number(
            node,
            adding_constraint(unvalidated(ConstrType::Foreign)),
        ) + number(node, adding_column(defaulted_reference())),
        AddExclusionConstraint.hits(node).len() == number(
            node,
            adding_constraint(of_kind(ConstrType::Exclusion)),
        ),
{
    let ns = commands(node);
    lemma_commands(node);
    let cols = added_columns_of(cmds_of(ns));
    let cons = added_constraints_of(cmds_of(ns));
    lemma_counted_columns(cols, ConstrType::Check);
    lemma_counted_constraints(cons, ConstrType::Check);
    lemma_counted_constraints(cons, ConstrType::Foreign);
    lemma_counted_constraints(cons, ConstrType::Exclusion);
    lemma_columns(ns, carrying(ConstrType::Check));
    lemma_columns(ns, defaulted_reference());
    lemma_constraints(ns, unvalidated(ConstrType::Check));
    lemma_constraints(ns, unvalidated(ConstrType::Foreign));
    lemma_constraints(ns, of_kind(ConstrType::Exclusion));
}

/// One where something holds, else nothing.
pub open spec fn one_if(b: bool) -> int {
    if b {
        1
    } else {
        0
    }
}

proof fn lemma_building(cons: Seq<Constraint>)
    ensures
        add_primary_key_without_index::some_builds_index(cons) <==> cons.filter(
            building_index(ConstrType::Primary),
        ).len() > 0,
        add_unique_constraint::some_builds_index(cons) <==> cons.filter(
            building_index(ConstrType::Unique),
        ).len() > 0,
{
    let p = building_index(ConstrType::Primary);
    let u = building_index(ConstrType::Unique);
    lemma_filter_exists(cons, p);
    lemma_filter_exists(cons, u);
    assert forall|k: Constraint| k.indexname@.len() == 0 <==> #[trigger] k.indexname@
        == Seq::<char>::empty() by {
        assert(k.indexname@.len() == 0 ==> k.indexname@ =~= Seq::<char>::empty());
    }
    assert(forall|k: Constraint|
        #[trigger] add_primary_key_without_index::builds_index(k) <==> p(k)) by {
        assert forall|k: Constraint|
            #[trigger] add_primary_key_without_index::builds_index(k) <==> p(k) by {
            assert(k.indexname@.len() == 0 ==> k.indexname@ =~= Seq::<char>::empty());
        }
    }
    assert forall|k: Constraint| #[trigger] add_unique_constraint::builds_index(k) <==> u(k) by {
        assert(k.indexname@.len() == 0 ==> k.indexname@ =~= Seq::<char>::empty());
    }
    if add_primary_key_without_index::some_builds_index(cons) {
        let i = choose|i: int|
            0 <= i < cons.len() && add_primary_key_without_index::builds_index(#[trigger] cons[i]);
        assert(p(cons[i]));
    }
    if cons.filter(p).len() > 0 {
        let i = choose|i: int| 0 <= i < cons.len() && p(#[trigger] cons[i]);
        assert(add_primary_key_without_index::builds_index(cons[i]));
    }
    if add_unique_constraint::some_builds_index(cons) {
        let i = choose|i: int|
            0 <= i < cons.len() && add_unique_constraint::builds_index(#[trigger] cons[i]);
        assert(u(cons[i]));
    }
    if cons.filter(u).len() > 0 {
        let i = choose|i: int| 0 <= i < cons.len() && u(#[trigger] cons[i]);
        assert(add_unique_constraint::builds_index(cons[i]));
    }
}

/// A new primary key or unique constraint is flagged once if some constraint builds an index of its
/// own, and once if some new column carries one.
pub proof fn new_keys_are_flagged_unless_they_use_an_index(node: Node)
    ensures
        AddPrimaryKeyWithoutIndex.hits(node).len() == one_if(
            number(node, adding_constraint(building_index(ConstrType::Primary))) > 0,
        ) + one_if(number(node, adding_column(carrying(ConstrType::Primary))) > 0),
        AddUniqueConstraint.hits(node).len() == one_if(
            number(node, adding_constraint(building_index(ConstrType::Unique))) > 0,
        ) + one_if(number(node, adding_column(carrying(ConstrType::Unique))) > 0),
{
    let ns = commands(node);
    lemma_commands(node);
    let cols = added_columns_of(cmds_of(ns));
    let cons = added_constraints_of(cmds_of(ns));
    lemma_counted_columns(cols, ConstrType::Primary);
    lemma_counted_columns(cols, ConstrType::Unique);
    lemma_building(cons);
    lemma_columns(ns, carrying(ConstrType::Primary));
    lemma_columns(ns, carrying(ConstrType::Unique));
    lemma_constraints(ns, building_index(ConstrType::Primary));
    lemma_constraints(ns, building_index(ConstrType::Unique));
}

/// What queries refer to by name, and what a rename of it is called.
pub open spec fn renamed_words() -> Seq<(ObjectType, Seq<char>)> {
    seq![
        (ObjectType::Table, "table"@),
        (ObjectType::Column, "column"@),
        (ObjectType::Index, "index"@),
        (ObjectType::TabConstraint, "constraint"@),
        (ObjectType::View, "view"@),
        (ObjectType::MatView, "materialized view"@),
        (ObjectType::Sequence, "sequence"@),
        (ObjectType::Schema, "schema"@),
        (ObjectType::Type, "type"@),
        (ObjectType::Attribute, "type attribute"@),
        (ObjectType::Function, "function"@),
        (ObjectType::Procedure, "procedure"@),
        (ObjectType::Domain, "domain"@),
    ]
}

/// A rename of anything that queries refer to by name is flagged, and the message says what kind of
/// thing it is; a rename of anything else is not.
pub proof fn renames_are_flagged_by_what_they_rename(node: Node, k: int)
    requires
        0 <= k < renamed_words().len(),
    ensures
        node matches Node::RenameStmt(r) && r.rename_type == renamed_words()[k].0
            ==> Rename.hits(node).len() == 1 && Rename.hits(node)[0].message == "Renaming this "@
            + renamed_words()[k].1
            + " breaks every application query, view, and function that references the old name."@,
        node matches Node::RenameStmt(r) && (r.rename_type == ObjectType::Trigger || r.rename_type
            == ObjectType::Other) ==> Rename.hits(node).len() == 0,
        node matches Node::AlterEnumStmt(e) && e.old_val@ != Seq::<char>::empty() ==> Rename.hits(
            node,
        ).len() == 1 && Rename.hits(node)[0].message == "Renaming this "@ + "enum value"@
            + " breaks every application query, view, and function that references the old name."@,
        node matches Node::AlterEnumStmt(e) && e.old_val@ == Seq::<char>::empty() ==> Rename.hits(
            node,
        ).len() == 0,
        !(node is RenameStmt) && !(node is AlterEnumStmt) ==> Rename.hits(node).len() == 0,
{
    if let Node::AlterEnumStmt(e) = node {
        assert(e.old_val@.len() == 0 ==> e.old_val@ =~= Seq::<char>::empty());
    }
}

/// The rules on whole statements flag exactly the statements they are named after.
pub proof fn statements_are_flagged_by_what_they_do(node: Node)
    ensures
        AddIndexNonConcurrent.hits(node).len() == one_if(
            node matches Node::IndexStmt(x) && !x.concurrent,
        ),
        DropIndexNonConcurrent.hits(node).len() == one_if(
            node matches Node::DropStmt(d) && d.remove_type == ObjectType::Index && !d.concurrent,
        ),
        DropTable.hits(node).len() == one_if(
            node matches Node::DropStmt(d) && d.remove_type == ObjectType::Table,
        ),
        DropDatabase.hits(node).len() == one_if(node is DropdbStmt),
        Truncate.hits(node).len() == one_if(node is TruncateStmt),
        AddTrigger.hits(node).len() == one_if(node is CreateTrigStmt),
        RefreshMatviewNonConcurrent.hits(node).len() == one_if(
            node matches Node::RefreshMatViewStmt(r) && !(r.concurrent || r.skip_data),
        ),
        ReindexNonConcurrent.hits(node).len() == one_if(
            node matches Node::ReindexStmt(r) && !is_set(r.params@, "concurrently"@),
        ),
        VacuumFullOrCluster.hits(node).len() == one_if(
            node is ClusterStmt || (node matches Node::VacuumStmt(v) && v.is_vacuumcmd && is_set(
                v.options@,
                "full"@,
            )),
        ),
{
    if let Node::ReindexStmt(r) = node {
        options_are_read_by_name(r.params@, "concurrently"@);
    }
    if let Node::VacuumStmt(v) = node {
        options_are_read_by_name(v.options@, "full"@);
    }
}

/// An `ALTER DOMAIN` is flagged if it adds a `CHECK` that is validated at once, and if it puts `NOT
/// NULL` on the domain in either form.
pub proof fn domain_constraints_are_flagged(node: Node)
    ensures
        AddDomainConstraintWithoutNotValid.hits(node).len() == one_if(
            node matches Node::AlterDomainStmt(a) && a.subtype@ == "C"@ && (a.def matches Some(d)
                && (*d matches Node::Constraint(k) && unvalidated(ConstrType::Check)(k))),
        ),
        AddDomainNotNull.hits(node).len() == one_if(
            node matches Node::AlterDomainStmt(a) && (a.subtype@ == "O"@ || a.subtype@ == "C"@ && (
            a.def matches Some(d) && (*d matches Node::Constraint(k) && of_kind(
                ConstrType::NotNull,
            )(k)))),
        ),
{
}

/// How many such columns a `CREATE TABLE` or `ALTER TABLE` defines.
pub open spec fn columns_defined(node: Node, such: spec_fn(ColumnDef) -> bool) -> int {
    match node {
        Node::CreateStmt(c) => c.table_elts@.filter(column_element(such)).len() as int,
        _ => number(node, adding_column(such)),
    }
}

/// Of a type whose last name part is one out of a list, in any case.
pub open spec fn typed(names: Seq<Seq<char>>) -> spec_fn(ColumnDef) -> bool {
    |c: ColumnDef|
        c.coltype matches Some(t) && t.names@.len() > 0 && (t.names@[t.names@.len() - 1]
            matches Node::Str(s) && names.contains(lower_text(s@)))
}

proof fn lemma_defined_columns(node: Node, such: spec_fn(ColumnDef) -> bool)
    ensures
        defined_columns_spec(node).filter(such).len() == columns_defined(node, such),
{
    reveal(Seq::filter);
    match node {
        Node::CreateStmt(c) => {
            lemma_columns(c.table_elts@, such);
        },
        Node::AlterTableStmt(a) => {
            lemma_columns(a.cmds@, such);
        },
        _ => {},
    }
}

proof fn lemma_json_count(cols: Seq<ColumnDef>)
    ensures
        json_hits(cols).len() == cols.filter(typed(seq!["json"@])).len(),
    decreases cols.len(),
{
    reveal(Seq::filter);
    if cols.len() > 0 {
        lemma_json_count(cols.drop_last());
        let names = seq!["json"@];
        assert(names[0] == "json"@);
        let c = cols.last();
        if let Some(t) = c.coltype {
            if t.names@.len() > 0 {
                if let Node::Str(s) = t.names@.last() {
                    assert(names.contains(lower_text(s@)) <==> lower_text(s@) == "json"@);
                }
            }
        }
    }
}

/// Every column of type `json` is flagged, and no other is.
pub proof fn json_columns_are_flagged(node: Node)
    ensures
        PreferJsonb.hits(node).len() == columns_defined(node, typed(seq!["json"@])),
{
    lemma_json_count(defined_columns_spec(node));
    lemma_defined_columns(node, typed(seq!["json"@]));
}

/// The integer types that run out of ids.
pub open spec fn small_integers() -> Seq<Seq<char>> {
    seq![
        "int2"@,
        "smallint"@,
        "int4"@,
        "int"@,
        "integer"@,
        "serial"@,
        "serial4"@,
        "serial2"@,
        "smallserial"@,
    ]
}

/// Whether a statement makes the column of that name part of a primary key: inline, or by a table
/// constraint that names it among its keys.
pub open spec fn makes_key(node: Node, name: Seq<char>) -> bool {
    ||| exists|c: ColumnDef| #[trigger]
        defines_column(node, c) && c.colname@ == name && carries(c, ConstrType::Primary)
    ||| exists|k: Constraint| #[trigger]
        defines_constraint(node, k) && k.contype == ConstrType::Primary && exists|i: int|
            0 <= i < k.keys@.len() && ((#[trigger] k.keys@[i]) matches Node::Str(s) && s@ == name)
}

/// Part of a primary key, and of a small integer type.
pub open spec fn small_key(node: Node) -> spec_fn(ColumnDef) -> bool {
    |c: ColumnDef| typed(small_integers())(c) && makes_key(node, c.colname@)
}

proof fn lemma_makes_key(node: Node, name: Seq<char>)
    ensures
        is_key(node, name) <==> makes_key(node, name),
{
    let cols = defined_columns_spec(node);
    let cons = defined_table_constraints_spec(node);
    if inline_key(cols, name) {
        let i = choose|i: int|
            0 <= i < cols.len() && (#[trigger] cols[i]).colname@ == name && has_constraint(
                cols[i].constraints@,
                ConstrType::Primary,
            );
        a_statement_defines_its_columns(node, cols[i]);
        a_column_carries_its_constraints(cols[i], ConstrType::Primary);
        assert(defines_column(node, cols[i]));
    }
    if table_key(cons, name) {
        let i = choose|i: int|
            0 <= i < cons.len() && (#[trigger] cons[i]).contype == ConstrType::Primary
                && names_key(cons[i].keys@, name);
        a_statement_has_its_constraints(node, cons[i]);
        assert(defines_constraint(node, cons[i]));
        let ks = cons[i].keys@;
        let j = choose|j: int|
            0 <= j < ks.len() && crate::ast::node_string_spec(#[trigger] ks[j]) == Some(name);
        assert(ks[j] matches Node::Str(s) && s@ == name);
    }
    if exists|c: ColumnDef| #[trigger]
        defines_column(node, c) && c.colname@ == name && carries(c, ConstrType::Primary) {
        let c = choose|c: ColumnDef| #[trigger]
            defines_column(node, c) && c.colname@ == name && carries(c, ConstrType::Primary);
        a_statement_defines_its_columns(node, c);
        a_column_carries_its_constraints(c, ConstrType::Primary);
        let i = choose|i: int| 0 <= i < cols.len() && cols[i] == c;
        assert(cols[i].colname@ == name);
    }
    if exists|k: Constraint| #[trigger]
        defines_constraint(node, k) && k.contype == ConstrType::Primary && exists|i: int|
            0 <= i < k.keys@.len() && ((#[trigger] k.keys@[i]) matches Node::Str(s) && s@ == name) {
        let k = choose|k: Constraint| #[trigger]
            defines_constraint(node, k) && k.contype == ConstrType::Primary && exists|i: int|
                0 <= i < k.keys@.len() && ((#[trigger] k.keys@[i]) matches Node::Str(s) && s@
                    == name);
        a_statement_has_its_constraints(node, k);
        let i = choose|i: int| 0 <= i < cons.len() && cons[i] == k;
        let j = choose|j: int|
            0 <= j < k.keys@.len() && ((#[trigger] k.keys@[j]) matches Node::Str(s) && s@ == name);
        assert(crate::ast::node_string_spec(k.keys@[j]) == Some(name));
        assert(names_key(cons[i].keys@, name));
    }
}

proof fn lemma_small_names(t: Seq<char>)
    ensures
        small_integers().contains(t) <==> is_small_int(t),
{
    let names = small_integers();
    assert(names[0] == "int2"@ && names[1] == "smallint"@ && names[2] == "int4"@ && names[3]
        == "int"@ && names[4] == "integer"@ && names[5] == "serial"@ && names[6] == "serial4"@
        && names[7] == "serial2"@ && names[8] == "smallserial"@);
}

proof fn lemma_small_key_count(node: Node, cols: Seq<ColumnDef>)
    ensures
        small_key_hits(node, cols).len() == cols.filter(small_key(node)).len(),
    decreases cols.len(),
{
    reveal(Seq::filter);
    if cols.len() > 0 {
        lemma_small_key_count(node, cols.drop_last());
        let c = cols.last();
        lemma_makes_key(node, c.colname@);
        if let Some(t) = c.coltype {
            if t.names@.len() > 0 {
                if let Node::Str(s) = t.names@.last() {
                    lemma_small_names(lower_text(s@));
                }
            }
        }
    }
}

/// Every column that is part of a primary key and of a small integer type is flagged, and no other
/// is.
pub proof fn small_keys_are_flagged(node: Node)
    ensures
        PreferBigintPrimaryKey.hits(node).len() == columns_defined(node, small_key(node)),
{
    lemma_small_key_count(node, defined_columns_spec(node));
    lemma_defined_columns(node, small_key(node));
}

/// What rewrites or locks a table is an error; what breaks running code, or is a matter of design,
/// is a warning.
pub proof fn severities_go_by_the_hazard()
    ensures
        AddIndexNonConcurrent.severity_spec() == Severity::Error,
        AddFkWithoutNotValid.severity_spec() == Severity::Error,
        AddCheckWithoutNotValid.severity_spec() == Severity::Error,
        SetNotNull.severity_spec() == Severity::Error,
        AlterColumnType.severity_spec() == Severity::Error,
        DropIndexNonConcurrent.severity_spec() == Severity::Error,
        VacuumFullOrCluster.severity_spec() == Severity::Error,
        ReindexNonConcurrent.severity_spec() == Severity::Error,
        AddUniqueConstraint.severity_spec() == Severity::Error,
        AddPrimaryKeyWithoutIndex.severity_spec() == Severity::Error,
        AddColumnVolatileDefault.severity_spec() == Severity::Error,
        AddColumnSerial.severity_spec() == Severity::Error,
        AddColumnIdentity.severity_spec() == Severity::Error,
        AddColumnGeneratedStored.severity_spec() == Severity::Error,
        AddColumnNotNullNoDefault.severity_spec() == Severity::Error,
        AddExclusionConstraint.severity_spec() == Severity::Error,
        SetLoggedUnlogged.severity_spec() == Severity::Error,
        SetAccessMethod.severity_spec() == Severity::Error,
        RefreshMatviewNonConcurrent.severity_spec() == Severity::Error,
        DetachPartitionNonConcurrent.severity_spec() == Severity::Error,
        AddDomainConstraintWithoutNotValid.severity_spec() == Severity::Error,
        AddDomainNotNull.severity_spec() == Severity::Error,
        Rename.severity_spec() == Severity::Warning,
        DropTable.severity_spec() == Severity::Warning,
        DropDatabase.severity_spec() == Severity::Warning,
        DropColumn.severity_spec() == Severity::Warning,
        DropConstraint.severity_spec() == Severity::Warning,
        DropNotNull.severity_spec() == Severity::Warning,
        Truncate.severity_spec() == Severity::Warning,
        AddTrigger.severity_spec() == Severity::Warning,
        AttachPartition.severity_spec() == Severity::Warning,
        PreferJsonb.severity_spec() == Severity::Warning,
        PreferBigintPrimaryKey.severity_spec() == Severity::Warning,
{
}

/// The catalog runs each rule under its own id, with its own severity, once and in this order.
pub proof fn the_catalog_runs_each_rule(node: Node)
    ensures
        registry().len() == 30,
        registry()[0].id_spec() == "add-index-non-concurrent"@ && registry()[0].hits(node) == AddIndexNonConcurrent.hits(node)
            && registry()[0].severity_spec() == AddIndexNonConcurrent.severity_spec(),
        registry()[1].id_spec() == "add-fk-without-not-valid"@ && registry()[1].hits(node) == AddFkWithoutNotValid.hits(node)
            && registry()[1].severity_spec() == AddFkWithoutNotValid.severity_spec(),
        registry()[2].id_spec() == "add-check-without-not-valid"@ && registry()[2].hits(node) == AddCheckWithoutNotValid.hits(node)
            && registry()[2].severity_spec() == AddCheckWithoutNotValid.severity_spec(),
        registry()[3].id_spec() == "set-not-null"@ && registry()[3].hits(node) == SetNotNull.hits(node)
            && registry()[3].severity_spec() == SetNotNull.severity_spec(),
        registry()[4].id_spec() == "alter-column-type"@ && registry()[4].hits(node) == AlterColumnType.hits(node)
            && registry()[4].severity_spec() == AlterColumnType.severity_spec(),
        registry()[5].id_spec() == "rename"@ && registry()[5].hits(node) == Rename.hits(node)
            && registry()[5].severity_spec() == Rename.severity_spec(),
        registry()[6].id_spec() == "drop-index-non-concurrent"@ && registry()[6].hits(node) == DropIndexNonConcurrent.hits(node)
            && registry()[6].severity_spec() == DropIndexNonConcurrent.severity_spec(),
        registry()[7].id_spec() == "drop-table"@ && registry()[7].hits(node) == DropTable.hits(node)
            && registry()[7].severity_spec() == DropTable.severity_spec(),
        registry()[8].id_spec() == "drop-database"@ && registry()[8].hits(node) == DropDatabase.hits(node)
            && registry()[8].severity_spec() == DropDatabase.severity_spec(),
        registry()[9].id_spec() == "drop-column"@ && registry()[9].hits(node) == DropColumn.hits(node)
            && registry()[9].severity_spec() == DropColumn.severity_spec(),
        registry()[10].id_spec() == "truncate"@ && registry()[10].hits(node) == Truncate.hits(node)
            && registry()[10].severity_spec() == Truncate.severity_spec(),
        registry()[11].id_spec() == "vacuum-full-cluster"@ && registry()[11].hits(node) == VacuumFullOrCluster.hits(node)
            && registry()[11].severity_spec() == VacuumFullOrCluster.severity_spec(),
        registry()[12].id_spec() == "reindex-non-concurrent"@ && registry()[12].hits(node) == ReindexNonConcurrent.hits(node)
            && registry()[12].severity_spec() == ReindexNonConcurrent.severity_spec(),
        registry()[13].id_spec() == "add-unique-constraint"@ && registry()[13].hits(node) == AddUniqueConstraint.hits(node)
            && registry()[13].severity_spec() == AddUniqueConstraint.severity_spec(),
        registry()[14].id_spec() == "add-primary-key-without-index"@ && registry()[14].hits(node) == AddPrimaryKeyWithoutIndex.hits(node)
            && registry()[14].severity_spec() == AddPrimaryKeyWithoutIndex.severity_spec(),
        registry()[15].id_spec() == "add-column-not-null-no-default"@ && registry()[15].hits(node) == AddColumnNotNullNoDefault.hits(node)
            && registry()[15].severity_spec() == AddColumnNotNullNoDefault.severity_spec(),
        registry()[16].id_spec() == "add-column-volatile-default"@ && registry()[16].hits(node) == AddColumnVolatileDefault.hits(node)
            && registry()[16].severity_spec() == AddColumnVolatileDefault.severity_spec(),
        registry()[17].id_spec() == "add-column-serial"@ && registry()[17].hits(node) == AddColumnSerial.hits(node)
            && registry()[17].severity_spec() == AddColumnSerial.severity_spec(),
        registry()[18].id_spec() == "add-column-identity"@ && registry()[18].hits(node) == AddColumnIdentity.hits(node)
            && registry()[18].severity_spec() == AddColumnIdentity.severity_spec(),
        registry()[19].id_spec() == "add-column-generated-stored"@ && registry()[19].hits(node) == AddColumnGeneratedStored.hits(node)
            && registry()[19].severity_spec() == AddColumnGeneratedStored.severity_spec(),
        registry()[20].id_spec() == "set-logged-unlogged"@ && registry()[20].hits(node) == SetLoggedUnlogged.hits(node)
            && registry()[20].severity_spec() == SetLoggedUnlogged.severity_spec(),
        registry()[21].id_spec() == "refresh-matview-non-concurrent"@ && registry()[21].hits(node) == RefreshMatviewNonConcurrent.hits(node)
            && registry()[21].severity_spec() == RefreshMatviewNonConcurrent.severity_spec(),
        registry()[22].id_spec() == "add-exclusion-constraint"@ && registry()[22].hits(node) == AddExclusionConstraint.hits(node)
            && registry()[22].severity_spec() == AddExclusionConstraint.severity_spec(),
        registry()[23].id_spec() == "prefer-jsonb"@ && registry()[23].hits(node) == PreferJsonb.hits(node)
            && registry()[23].severity_spec() == PreferJsonb.severity_spec(),
        registry()[24].id_spec() == "prefer-bigint-primary-key"@ && registry()[24].hits(node) == PreferBigintPrimaryKey.hits(node)
            && registry()[24].severity_spec() == PreferBigintPrimaryKey.severity_spec(),
        registry()[25].id_spec() == "drop-constraint"@ && registry()[25].hits(node) == DropConstraint.hits(node)
            && registry()[25].severity_spec() == DropConstraint.severity_spec(),
        registry()[26].id_spec() == "add-trigger"@ && registry()[26].hits(node) == AddTrigger.hits(node)
            && registry()[26].severity_spec() == AddTrigger.severity_spec(),
        registry()[27].id_spec() == "detach-partition-non-concurrent"@ && registry()[27].hits(node) == DetachPartitionNonConcurrent.hits(node)
            && registry()[27].severity_spec() == DetachPartitionNonConcurrent.severity_spec(),
        registry()[28].id_spec() == "attach-partition"@ && registry()[28].hits(node) == AttachPartition.hits(node)
            && registry()[28].severity_spec() == AttachPartition.severity_spec(),
        registry()[29].id_spec() == "set-access-method"@ && registry()[29].hits(node) == SetAccessMethod.hits(node)
            && registry()[29].severity_spec() == SetAccessMethod.severity_spec(),
{
}

/// The rules that flag constraints and their inline forms on new columns speak of the constraints
/// first, and then of the columns, each in words of their own.
pub proof fn constraints_and_columns_are_told_apart(node: Node, i: int)
    ensures
        ({
            let n = number(node, adding_constraint(unvalidated(ConstrType::Check)));
            let hits = AddCheckWithoutNotValid.hits(node);
            0 <= i < hits.len() ==> hits[i].message == (if i < n {
                "Adding a CHECK constraint without NOT VALID scans the whole table under an ACCESS EXCLUSIVE lock."@
            } else {
                "An inline CHECK on a new column scans the whole table to validate it under an ACCESS EXCLUSIVE lock."@
            })
        }),
        ({
            let n = number(node, adding_constraint(unvalidated(ConstrType::Foreign)));
            let hits = AddFkWithoutNotValid.hits(node);
            0 <= i < hits.len() ==> hits[i].message == (if i < n {
                "Adding a FOREIGN KEY without NOT VALID validates every existing row while holding locks on both tables."@
            } else {
                "An inline FOREIGN KEY on a new column with a DEFAULT validates the default against every existing row while holding locks on both tables."@
            })
        }),
        ({
            let n = one_if(number(node, adding_constraint(building_index(ConstrType::Primary))) > 0);
            let hits = AddPrimaryKeyWithoutIndex.hits(node);
            0 <= i < hits.len() ==> hits[i].message == (if i < n {
                "Adding a PRIMARY KEY inline builds its unique index (and may scan for NOT NULL) under an ACCESS EXCLUSIVE lock."@
            } else {
                "Adding a column with an inline PRIMARY KEY builds a unique index (and enforces NOT NULL) under an ACCESS EXCLUSIVE lock."@
            })
        }),
{
    let ns = commands(node);
    lemma_commands(node);
    let cons = added_constraints_of(cmds_of(ns));
    lemma_counted_constraints(cons, ConstrType::Check);
    lemma_counted_constraints(cons, ConstrType::Foreign);
    lemma_constraints(ns, unvalidated(ConstrType::Check));
    lemma_constraints(ns, unvalidated(ConstrType::Foreign));
    lemma_building(cons);
    lemma_constraints(ns, building_index(ConstrType::Primary));
}

} // verus!
