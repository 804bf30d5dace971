//! What the parts of a parse tree hold that the rules read.
use vstd::prelude::*;

use crate::ast::{
    AlterTableCmd, AlterTableType, ColumnDef, ConstrType, Constraint, DefElem, Node,
};
use crate::rules::{
    added_columns_of, added_constraints_of, alter_table_cmds_spec, cmds_of, columns_of,
    constraints_of, defelem_is_true_spec, defined_columns_spec, defined_table_constraints_spec,
    has_constraint, option_is_on,
};
use crate::text::lower_text;

verus! {

/// Whether a node is an `ADD COLUMN` of that column.
pub open spec fn adds_column(n: Node, c: ColumnDef) -> bool {
    n matches Node::AlterTableCmd(cmd) && cmd.subtype == AlterTableType::AddColumn && (
    cmd.def matches Some(d) && *d == Node::ColumnDef(c))
}

/// Whether a node is an `ADD CONSTRAINT` of that constraint.
pub open spec fn adds_constraint(n: Node, c: Constraint) -> bool {
    n matches Node::AlterTableCmd(cmd) && cmd.subtype == AlterTableType::AddConstraint && (
    cmd.def matches Some(d) && *d == Node::Constraint(c))
}

/// Whether a statement defines the column: it is an element of a `CREATE TABLE`, or a command of an
/// `ALTER TABLE` adds it.
pub open spec fn defines_column(node: Node, c: ColumnDef) -> bool {
    match node {
        Node::CreateStmt(s) => s.table_elts@.contains(Node::ColumnDef(c)),
        Node::AlterTableStmt(a) => exists|i: int|
            0 <= i < a.cmds@.len() && adds_column(#[trigger] a.cmds@[i], c),
        _ => false,
    }
}

/// Whether a statement has the table constraint: it is an element of a `CREATE TABLE`, or a command
/// of an `ALTER TABLE` adds it.
pub open spec fn defines_constraint(node: Node, c: Constraint) -> bool {
    match node {
        Node::CreateStmt(s) => s.table_elts@.contains(Node::Constraint(c)),
        Node::AlterTableStmt(a) => exists|i: int|
            0 <= i < a.cmds@.len() && adds_constraint(#[trigger] a.cmds@[i], c),
        _ => false,
    }
}

proof fn lemma_columns_of(ns: Seq<Node>, c: ColumnDef)
    ensures
        columns_of(ns).contains(c) <==> ns.contains(Node::ColumnDef(c)),
    decreases ns.len(),
{
    if ns.len() > 0 {
        let init = ns.drop_last();
        lemma_columns_of(init, c);
        lemma_push_contains(init, ns.last(), Node::ColumnDef(c));
        assert(ns == init.push(ns.last()));
        if let Node::ColumnDef(x) = ns.last() {
            lemma_push_contains(columns_of(init), x, c);
        }
    } else {
        assert(!columns_of(ns).contains(c));
        assert(!ns.contains(Node::ColumnDef(c)));
    }
}

/// The constraints among some nodes are the constraint nodes.
pub proof fn lemma_constraints_of(ns: Seq<Node>, c: Constraint)
    ensures
        constraints_of(ns).contains(c) <==> ns.contains(Node::Constraint(c)),
    decreases ns.len(),
{
    if ns.len() > 0 {
        let init = ns.drop_last();
        lemma_constraints_of(init, c);
        lemma_push_contains(init, ns.last(), Node::Constraint(c));
        assert(ns == init.push(ns.last()));
        if let Node::Constraint(x) = ns.last() {
            lemma_push_contains(constraints_of(init), x, c);
        }
    } else {
        assert(!constraints_of(ns).contains(c));
        assert(!ns.contains(Node::Constraint(c)));
    }
}

/// What a longer list holds.
pub proof fn lemma_push_contains<T>(s: Seq<T>, x: T, y: T)
    ensures
        s.push(x).contains(y) <==> x == y || s.contains(y),
{
    if s.contains(y) {
        let k = choose|k: int| 0 <= k < s.len() && s[k] == y;
        assert(s.push(x)[k] == y);
    }
    assert(s.push(x)[s.len() as int] == x);
    if s.push(x).contains(y) {
        let k = choose|k: int| 0 <= k < s.push(x).len() && s.push(x)[k] == y;
        if k < s.len() {
            assert(s[k] == y);
        }
    }
}

/// The commands of an `ALTER TABLE` are its command nodes.
pub proof fn lemma_cmds_of(ns: Seq<Node>, c: AlterTableCmd)
    ensures
        cmds_of(ns).contains(c) <==> ns.contains(Node::AlterTableCmd(c)),
    decreases ns.len(),
{
    if ns.len() > 0 {
        let init = ns.drop_last();
        lemma_cmds_of(init, c);
        lemma_push_contains(init, ns.last(), Node::AlterTableCmd(c));
        assert(ns == init.push(ns.last()));
        if let Node::AlterTableCmd(x) = ns.last() {
            lemma_push_contains(cmds_of(init), x, c);
        }
    } else {
        assert(!cmds_of(ns).contains(c));
        assert(!ns.contains(Node::AlterTableCmd(c)));
    }
}

spec fn cmd_adds_column(cmd: AlterTableCmd, c: ColumnDef) -> bool {
    cmd.subtype == AlterTableType::AddColumn && (cmd.def matches Some(d) && *d == Node::ColumnDef(
        c,
    ))
}

spec fn cmd_adds_constraint(cmd: AlterTableCmd, c: Constraint) -> bool {
    cmd.subtype == AlterTableType::AddConstraint && (cmd.def matches Some(d) && *d
        == Node::Constraint(c))
}

proof fn lemma_added_columns(cmds: Seq<AlterTableCmd>, c: ColumnDef)
    ensures
        added_columns_of(cmds).contains(c) <==> exists|i: int|
            0 <= i < cmds.len() && cmd_adds_column(#[trigger] cmds[i], c),
    decreases cmds.len(),
{
    if cmds.len() > 0 {
        let init = cmds.drop_last();
        let last = cmds.last();
        lemma_added_columns(init, c);
        let before = added_columns_of(init);
        if let Some(d) = last.def {
            if let Node::ColumnDef(x) = *d {
                lemma_push_contains(before, x, c);
            }
        }
        assert(cmds[cmds.len() - 1] == last);
        assert(forall|i: int| 0 <= i < init.len() ==> #[trigger] init[i] == cmds[i]);
        if before.contains(c) {
            let i = choose|i: int| 0 <= i < init.len() && cmd_adds_column(#[trigger] init[i], c);
            assert(cmd_adds_column(cmds[i], c));
        }
        if exists|i: int| 0 <= i < cmds.len() && cmd_adds_column(#[trigger] cmds[i], c) {
            let i = choose|i: int| 0 <= i < cmds.len() && cmd_adds_column(#[trigger] cmds[i], c);
            if i < init.len() {
                assert(cmd_adds_column(init[i], c));
            }
        }
    } else {
        assert(!added_columns_of(cmds).contains(c));
    }
}

proof fn lemma_added_constraints(cmds: Seq<AlterTableCmd>, c: Constraint)
    ensures
        added_constraints_of(cmds).contains(c) <==> exists|i: int|
            0 <= i < cmds.len() && cmd_adds_constraint(#[trigger] cmds[i], c),
    decreases cmds.len(),
{
    if cmds.len() > 0 {
        let init = cmds.drop_last();
        let last = cmds.last();
        lemma_added_constraints(init, c);
        let before = added_constraints_of(init);
        if let Some(d) = last.def {
            if let Node::Constraint(x) = *d {
                lemma_push_contains(before, x, c);
            }
        }
        assert(cmds[cmds.len() - 1] == last);
        assert(forall|i: int| 0 <= i < init.len() ==> #[trigger] init[i] == cmds[i]);
        if before.contains(c) {
            let i = choose|i: int|
                0 <= i < init.len() && cmd_adds_constraint(#[trigger] init[i], c);
            assert(cmd_adds_constraint(cmds[i], c));
        }
        if exists|i: int| 0 <= i < cmds.len() && cmd_adds_constraint(#[trigger] cmds[i], c) {
            let i = choose|i: int|
                0 <= i < cmds.len() && cmd_adds_constraint(#[trigger] cmds[i], c);
            if i < init.len() {
                assert(cmd_adds_constraint(init[i], c));
            }
        }
    } else {
        assert(!added_constraints_of(cmds).contains(c));
    }
}

/// The columns that the lints read of a statement are those that it defines.
pub proof fn a_statement_defines_its_columns(node: Node, c: ColumnDef)
    ensures
        defined_columns_spec(node).contains(c) <==> defines_column(node, c),
{
    match node {
        Node::CreateStmt(s) => {
            lemma_columns_of(s.table_elts@, c);
        },
        Node::AlterTableStmt(a) => {
            let cmds = cmds_of(a.cmds@);
            lemma_added_columns(cmds, c);
            if exists|i: int| 0 <= i < cmds.len() && cmd_adds_column(#[trigger] cmds[i], c) {
                let i = choose|i: int|
                    0 <= i < cmds.len() && cmd_adds_column(#[trigger] cmds[i], c);
                assert(cmds.contains(cmds[i]));
                lemma_cmds_of(a.cmds@, cmds[i]);
                let k = choose|k: int|
                    0 <= k < a.cmds@.len() && a.cmds@[k] == Node::AlterTableCmd(cmds[i]);
                assert(adds_column(a.cmds@[k], c));
            }
            if exists|i: int| 0 <= i < a.cmds@.len() && adds_column(#[trigger] a.cmds@[i], c) {
                let i = choose|i: int|
                    0 <= i < a.cmds@.len() && adds_column(#[trigger] a.cmds@[i], c);
                let cmd = a.cmds@[i]->AlterTableCmd_0;
                assert(a.cmds@.contains(Node::AlterTableCmd(cmd)));
                lemma_cmds_of(a.cmds@, cmd);
                let k = choose|k: int| 0 <= k < cmds.len() && cmds[k] == cmd;
                assert(cmd_adds_column(cmds[k], c));
            }
        },
        _ => {
            assert(!defined_columns_spec(node).contains(c));
        },
    }
}

/// The table constraints that the lints read of a statement are those that it has.
pub proof fn a_statement_has_its_constraints(node: Node, c: Constraint)
    ensures
        defined_table_constraints_spec(node).contains(c) <==> defines_constraint(node, c),
{
    match node {
        Node::CreateStmt(s) => {
            lemma_constraints_of(s.table_elts@, c);
        },
        Node::AlterTableStmt(a) => {
            let cmds = cmds_of(a.cmds@);
            lemma_added_constraints(cmds, c);
            if exists|i: int| 0 <= i < cmds.len() && cmd_adds_constraint(#[trigger] cmds[i], c) {
                let i = choose|i: int|
                    0 <= i < cmds.len() && cmd_adds_constraint(#[trigger] cmds[i], c);
                assert(cmds.contains(cmds[i]));
                lemma_cmds_of(a.cmds@, cmds[i]);
                let k = choose|k: int|
                    0 <= k < a.cmds@.len() && a.cmds@[k] == Node::AlterTableCmd(cmds[i]);
                assert(adds_constraint(a.cmds@[k], c));
            }
            if exists|i: int| 0 <= i < a.cmds@.len() && adds_constraint(#[trigger] a.cmds@[i], c) {
                let i = choose|i: int|
                    0 <= i < a.cmds@.len() && adds_constraint(#[trigger] a.cmds@[i], c);
                let cmd = a.cmds@[i]->AlterTableCmd_0;
                assert(a.cmds@.contains(Node::AlterTableCmd(cmd)));
                lemma_cmds_of(a.cmds@, cmd);
                let k = choose|k: int| 0 <= k < cmds.len() && cmds[k] == cmd;
                assert(cmd_adds_constraint(cmds[k], c));
            }
        },
        _ => {
            assert(!defined_table_constraints_spec(node).contains(c));
        },
    }
}

/// Whether a column carries an inline constraint of a kind.
pub open spec fn carries(c: ColumnDef, t: ConstrType) -> bool {
    exists|x: Constraint|
        x.contype == t && #[trigger] c.constraints@.contains(Node::Constraint(x))
}

/// The inline constraints that the rules see on a column are those it carries.
pub proof fn a_column_carries_its_constraints(c: ColumnDef, t: ConstrType)
    ensures
        has_constraint(c.constraints@, t) <==> carries(c, t),
{
    let ns = c.constraints@;
    if has_constraint(ns, t) {
        let i = choose|i: int|
            0 <= i < ns.len() && crate::rules::is_constraint(#[trigger] ns[i], t);
        assert(ns.contains(Node::Constraint(ns[i]->Constraint_0)));
    }
    if carries(c, t) {
        let x = choose|x: Constraint|
            x.contype == t && #[trigger] ns.contains(Node::Constraint(x));
        let i = choose|i: int| 0 <= i < ns.len() && ns[i] == Node::Constraint(x);
        assert(crate::rules::is_constraint(ns[i], t));
    }
}

/// Whether an option says no: a false boolean, a zero, or a word for no in any case.
pub open spec fn says_no(de: DefElem) -> bool {
    de.arg matches Some(n) && match *n {
        Node::Boolean(b) => !b,
        Node::Integer(i) => i == 0,
        Node::Str(s) => seq!["false"@, "off"@, "0"@, "f"@, "no"@, "n"@].contains(lower_text(s@)),
        _ => false,
    }
}

/// An option is on unless it says no; one without a value is on.
pub proof fn an_option_is_on_unless_it_says_no(de: DefElem)
    ensures
        defelem_is_true_spec(de) <==> !says_no(de),
{
    let words = seq!["false"@, "off"@, "0"@, "f"@, "no"@, "n"@];
    if let Some(n) = de.arg {
        if let Node::Str(s) = *n {
            let t = lower_text(s@);
            assert(words[0] == "false"@);
            assert(words[1] == "off"@);
            assert(words[2] == "0"@);
            assert(words[3] == "f"@);
            assert(words[4] == "no"@);
            assert(words[5] == "n"@);
            if words.contains(t) {
                let k = choose|k: int| 0 <= k < words.len() && words[k] == t;
            }
        }
    }
}

/// Whether one of some options has the name and does not say no.
pub open spec fn is_set(ns: Seq<Node>, name: Seq<char>) -> bool {
    exists|de: DefElem|
        de.defname@ == name && !says_no(de) && #[trigger] ns.contains(Node::DefElem(de))
}

/// The options that the rules see set are those that have the name and do not say no.
pub proof fn options_are_read_by_name(ns: Seq<Node>, name: Seq<char>)
    ensures
        option_is_on(ns, name) <==> is_set(ns, name),
{
    if option_is_on(ns, name) {
        let i = choose|i: int|
            0 <= i < ns.len() && crate::rules::is_option_on(#[trigger] ns[i], name);
        let de = ns[i]->DefElem_0;
        an_option_is_on_unless_it_says_no(de);
        assert(ns.contains(Node::DefElem(de)));
    }
    if is_set(ns, name) {
        let de = choose|de: DefElem|
            de.defname@ == name && !says_no(de) && #[trigger] ns.contains(Node::DefElem(de));
        an_option_is_on_unless_it_says_no(de);
        let i = choose|i: int| 0 <= i < ns.len() && ns[i] == Node::DefElem(de);
        assert(crate::rules::is_option_on(ns[i], name));
    }
}

/// Whether a command of a kind stands among the commands of an `ALTER TABLE`.
pub open spec fn has_command(node: Node, t: AlterTableType) -> bool {
    node matches Node::AlterTableStmt(a) && exists|i: int|
        0 <= i < a.cmds@.len() && ((#[trigger] a.cmds@[i]) matches Node::AlterTableCmd(c)
            && c.subtype == t)
}

/// The commands that the rules read are the command nodes of the statement.
pub proof fn a_statement_has_its_commands(node: Node, t: AlterTableType)
    ensures
        has_command(node, t) <==> exists|i: int|
            0 <= i < alter_table_cmds_spec(node).len() && (#[trigger] alter_table_cmds_spec(
                node,
            )[i]).subtype == t,
{
    if let Node::AlterTableStmt(a) = node {
        let cmds = cmds_of(a.cmds@);
        if has_command(node, t) {
            let i = choose|i: int|
                0 <= i < a.cmds@.len() && ((#[trigger] a.cmds@[i]) matches Node::AlterTableCmd(c)
                    && c.subtype == t);
            let cmd = a.cmds@[i]->AlterTableCmd_0;
            assert(a.cmds@.contains(Node::AlterTableCmd(cmd)));
            lemma_cmds_of(a.cmds@, cmd);
            let k = choose|k: int| 0 <= k < cmds.len() && cmds[k] == cmd;
            assert(cmds[k].subtype == t);
        }
        if exists|i: int| 0 <= i < cmds.len() && (#[trigger] cmds[i]).subtype == t {
            let i = choose|i: int| 0 <= i < cmds.len() && (#[trigger] cmds[i]).subtype == t;
            assert(cmds.contains(cmds[i]));
            lemma_cmds_of(a.cmds@, cmds[i]);
            let k = choose|k: int|
                0 <= k < a.cmds@.len() && a.cmds@[k] == Node::AlterTableCmd(cmds[i]);
            assert(a.cmds@[k] matches Node::AlterTableCmd(c) && c.subtype == t);
        }
    }
}

} // verus!
