//! Rule engine: the [`Rule`] trait, what rules read of a statement, and the registry.
use vstd::prelude::*;

use self::add_check_without_not_valid::AddCheckWithoutNotValid;
use self::add_column_generated_stored::AddColumnGeneratedStored;
use self::add_column_identity::AddColumnIdentity;
use self::add_column_not_null_no_default::AddColumnNotNullNoDefault;
use self::add_column_serial::AddColumnSerial;
use self::add_column_volatile_default::AddColumnVolatileDefault;
use self::add_exclusion_constraint::AddExclusionConstraint;
use self::add_fk_without_not_valid::AddFkWithoutNotValid;
use self::add_index_non_concurrent::AddIndexNonConcurrent;
use self::add_primary_key_without_index::AddPrimaryKeyWithoutIndex;
use self::add_trigger::AddTrigger;
use self::add_unique_constraint::AddUniqueConstraint;
use self::alter_column_type::AlterColumnType;
use self::attach_partition::AttachPartition;
use self::detach_partition_non_concurrent::DetachPartitionNonConcurrent;
use self::drop_column::DropColumn;
use self::drop_constraint::DropConstraint;
use self::drop_database::DropDatabase;
use self::drop_index_non_concurrent::DropIndexNonConcurrent;
use self::drop_table::DropTable;
use self::prefer_bigint_primary_key::PreferBigintPrimaryKey;
use self::prefer_jsonb::PreferJsonb;
use self::refresh_matview_non_concurrent::RefreshMatviewNonConcurrent;
use self::reindex_non_concurrent::ReindexNonConcurrent;
use self::rename::Rename;
use self::set_access_method::SetAccessMethod;
use self::set_logged_unlogged::SetLoggedUnlogged;
use self::set_not_null::SetNotNull;
use self::truncate::Truncate;
use self::vacuum_full_cluster::VacuumFullOrCluster;
use crate::ast::{
    values, AlterTableCmd, AlterTableType, ColumnDef, ConstrType, Constraint, DefElem, Node,
    ReindexStmt,
};
use crate::finding::{RuleHit, RuleHitView, Severity};
use crate::fix::{single_edit, FixAnchor, FixAnchorView, FixDraft};
use crate::text::{lower_text, str_eq, to_ascii_lower};

pub mod add_check_without_not_valid;
pub mod add_column_generated_stored;
pub mod add_column_identity;
pub mod add_column_not_null_no_default;
pub mod add_column_serial;
pub mod add_column_volatile_default;
pub mod add_domain_constraint_without_not_valid;
pub mod add_domain_not_null;
pub mod add_exclusion_constraint;
pub mod add_fk_without_not_valid;
pub mod add_index_non_concurrent;
pub mod add_primary_key_without_index;
pub mod add_trigger;
pub mod add_unique_constraint;
pub mod alter_column_type;
pub mod attach_partition;
pub mod detach_partition_non_concurrent;
pub mod drop_column;
pub mod drop_constraint;
pub mod drop_database;
pub mod drop_index_non_concurrent;
pub mod drop_not_null;
pub mod drop_table;
pub mod non_concurrent_index;
pub mod prefer_bigint_primary_key;
pub mod prefer_jsonb;
pub mod refresh_matview_non_concurrent;
pub mod reindex_non_concurrent;
pub mod rename;
pub mod set_access_method;
pub mod set_logged_unlogged;
pub mod set_not_null;
pub mod truncate;
pub mod vacuum_full_cluster;

verus! {

/// A single safety rule.
pub trait Rule {
    /// The rule's id.
    spec fn id_spec(&self) -> Seq<char>;

    /// The rule's severity.
    spec fn severity_spec(&self) -> Severity;

    /// What the rule reports for a statement, in order.
    spec fn hits(&self, node: Node) -> Seq<RuleHitView>;

    /// Stable kebab-case id — the public contract key, unique across the registry.
    fn id(&self) -> (r: &'static str)
        ensures
            r@ == self.id_spec(),
    ;

    /// Severity for every hit this rule emits.
    fn severity(&self) -> (r: Severity)
        ensures
            r == self.severity_spec(),
    ;

    /// Appends what the rule reports for a statement.
    fn check(&self, node: &Node, out: &mut Vec<RuleHit>)
        ensures
            hits_view(final(out)@) == hits_view(old(out)@) + self.hits(*node),
    ;
}

/// What a list of hits holds.
pub open spec fn hits_view(hs: Seq<RuleHit>) -> Seq<RuleHitView> {
    hs.map_values(|h: RuleHit| h@)
}

/// A hit without a fix.
pub open spec fn plain_hit(message: Seq<char>, guidance: Seq<char>) -> RuleHitView {
    RuleHitView { message, guidance, fix: None }
}

/// `n` times the same hit.
pub open spec fn repeated(h: RuleHitView, n: int) -> Seq<RuleHitView> {
    Seq::new(n as nat, |i: int| h)
}

/// Appends a hit.
pub fn push_hit(out: &mut Vec<RuleHit>, message: &str, guidance: &str, fix: Option<FixDraft>)
    ensures
        hits_view(final(out)@) == hits_view(old(out)@).push(
            RuleHitView {
                message: message@,
                guidance: guidance@,
                fix: match fix {
                    Some(d) => Some(d@),
                    None => None,
                },
            },
        ),
{
    let h = RuleHit { message: message.to_owned(), guidance: guidance.to_owned(), fix };
    proof {
        assert(hits_view(out@.push(h)) == hits_view(out@).push(h@));
    }
    out.push(h);
}

/// Appends the same fixless hit `n` times.
pub fn push_hits(out: &mut Vec<RuleHit>, n: usize, message: &str, guidance: &str)
    ensures
        hits_view(final(out)@) == hits_view(old(out)@) + repeated(
            plain_hit(message@, guidance@),
            n as int,
        ),
{
    let ghost before = hits_view(out@);
    let ghost h = plain_hit(message@, guidance@);
    let mut i: usize = 0;
    assert(before + repeated(h, 0) == before);
    while i < n
        invariant
            i <= n,
            h == plain_hit(message@, guidance@),
            hits_view(out@) == before + repeated(h, i as int),
        decreases n - i,
    {
        push_hit(out, message, guidance, None);
        assert(repeated(h, i + 1) == repeated(h, i as int).push(h));
        assert((before + repeated(h, i as int)).push(h) == before + repeated(h, i + 1));
        i += 1;
    }
}

/// The commands among some nodes.
pub open spec fn cmds_of(ns: Seq<Node>) -> Seq<AlterTableCmd>
    decreases ns.len(),
{
    if ns.len() == 0 {
        Seq::empty()
    } else {
        match ns.last() {
            Node::AlterTableCmd(c) => cmds_of(ns.drop_last()).push(c),
            _ => cmds_of(ns.drop_last()),
        }
    }
}

/// The commands of an `ALTER TABLE` statement (none for any other node).
pub open spec fn alter_table_cmds_spec(node: Node) -> Seq<AlterTableCmd> {
    match node {
        Node::AlterTableStmt(a) => cmds_of(a.cmds@),
        _ => Seq::empty(),
    }
}

/// All commands in an `ALTER TABLE` statement (empty for any other node).
pub fn alter_table_cmds(node: &Node) -> (r: Vec<&AlterTableCmd>)
    ensures
        values(r@) == alter_table_cmds_spec(*node),
{
    let mut out: Vec<&AlterTableCmd> = Vec::new();
    assert(values(out@) == Seq::<AlterTableCmd>::empty());
    if let Node::AlterTableStmt(a) = node {
        let mut i: usize = 0;
        while i < a.cmds.len()
            invariant
                i <= a.cmds@.len(),
                values(out@) == cmds_of(a.cmds@.take(i as int)),
            decreases a.cmds@.len() - i,
        {
            proof {
                assert(a.cmds@.take(i + 1).drop_last() == a.cmds@.take(i as int));
                assert(a.cmds@.take(i + 1).last() == a.cmds@[i as int]);
            }
            if let Node::AlterTableCmd(c) = &a.cmds[i] {
                assert(values(out@.push(c)) == values(out@).push(*c));
                out.push(c);
            }
            i += 1;
        }
        assert(a.cmds@.take(a.cmds@.len() as int) == a.cmds@);
    }
    out
}

/// Number of commands of subtype `a` or `b`.
pub open spec fn count_subtypes(
    cmds: Seq<AlterTableCmd>,
    a: AlterTableType,
    b: AlterTableType,
) -> int
    decreases cmds.len(),
{
    if cmds.len() == 0 {
        0
    } else {
        count_subtypes(cmds.drop_last(), a, b) + if cmds.last().subtype == a
            || cmds.last().subtype == b {
            1int
        } else {
            0int
        }
    }
}

/// Number of commands of subtype `a` or `b` in an `ALTER TABLE` statement.
pub fn count_cmds(node: &Node, a: AlterTableType, b: AlterTableType) -> (r: usize)
    ensures
        r == count_subtypes(alter_table_cmds_spec(*node), a, b),
{
    let cmds = alter_table_cmds(node);
    let ghost all = values(cmds@);
    let mut n: usize = 0;
    let mut i: usize = 0;
    while i < cmds.len()
        invariant
            i <= cmds@.len(),
            n <= i,
            all == values(cmds@),
            n == count_subtypes(all.take(i as int), a, b),
        decreases cmds@.len() - i,
    {
        proof {
            assert(all.take(i + 1).drop_last() == all.take(i as int));
            assert(all.take(i + 1).last() == *cmds@[i as int]);
        }
        if cmds[i].subtype == a || cmds[i].subtype == b {
            n += 1;
        }
        i += 1;
    }
    assert(all.take(all.len() as int) == all);
    n
}

/// The columns that `ADD COLUMN` commands add.
pub open spec fn added_columns_of(cmds: Seq<AlterTableCmd>) -> Seq<ColumnDef>
    decreases cmds.len(),
{
    if cmds.len() == 0 {
        Seq::empty()
    } else {
        let before = added_columns_of(cmds.drop_last());
        if cmds.last().subtype == AlterTableType::AddColumn {
            match cmds.last().def {
                Some(d) => match *d {
                    Node::ColumnDef(c) => before.push(c),
                    _ => before,
                },
                None => before,
            }
        } else {
            before
        }
    }
}

/// The columns an `ALTER TABLE` adds.
pub open spec fn columns_being_added_spec(node: Node) -> Seq<ColumnDef> {
    added_columns_of(alter_table_cmds_spec(node))
}

/// All columns being added by `ADD COLUMN` commands in an `ALTER TABLE`.
pub fn columns_being_added(node: &Node) -> (r: Vec<&ColumnDef>)
    ensures
        values(r@) == columns_being_added_spec(*node),
{
    let cmds = alter_table_cmds(node);
    let ghost all = values(cmds@);
    let mut out: Vec<&ColumnDef> = Vec::new();
    let mut i: usize = 0;
    assert(values(out@) == Seq::<ColumnDef>::empty());
    while i < cmds.len()
        invariant
            i <= cmds@.len(),
            all == values(cmds@),
            values(out@) == added_columns_of(all.take(i as int)),
        decreases cmds@.len() - i,
    {
        proof {
            assert(all.take(i + 1).drop_last() == all.take(i as int));
            assert(all.take(i + 1).last() == *cmds@[i as int]);
        }
        let cmd = cmds[i];
        if cmd.subtype == AlterTableType::AddColumn {
            if let Some(d) = &cmd.def {
                if let Node::ColumnDef(c) = &**d {
                    assert(values(out@.push(c)) == values(out@).push(*c));
                    out.push(c);
                }
            }
        }
        i += 1;
    }
    assert(all.take(all.len() as int) == all);
    out
}

/// Whether a constraint of kind `t` stands among some nodes.
pub open spec fn has_constraint(ns: Seq<Node>, t: ConstrType) -> bool {
    exists|i: int| 0 <= i < ns.len() && is_constraint(#[trigger] ns[i], t)
}

/// Whether a node is a constraint of kind `t`.
pub open spec fn is_constraint(n: Node, t: ConstrType) -> bool {
    n matches Node::Constraint(c) && c.contype == t
}

/// Whether a column definition carries an inline constraint of the given type.
pub fn column_has_constraint(col: &ColumnDef, contype: ConstrType) -> (r: bool)
    ensures
        r == has_constraint(col.constraints@, contype),
{
    let mut i: usize = 0;
    while i < col.constraints.len()
        invariant
            i <= col.constraints@.len(),
            forall|j: int| 0 <= j < i ==> !is_constraint(#[trigger] col.constraints@[j], contype),
        decreases col.constraints@.len() - i,
    {
        if let Node::Constraint(c) = &col.constraints[i] {
            if c.contype == contype {
                assert(is_constraint(col.constraints@[i as int], contype));
                return true;
            }
        }
        i += 1;
    }
    false
}

/// Number of columns that carry an inline constraint of kind `t`.
pub open spec fn count_with_constraint_spec(cols: Seq<ColumnDef>, t: ConstrType) -> int
    decreases cols.len(),
{
    if cols.len() == 0 {
        0
    } else {
        count_with_constraint_spec(cols.drop_last(), t) + if has_constraint(
            cols.last().constraints@,
            t,
        ) {
            1int
        } else {
            0int
        }
    }
}

/// Number of columns that carry an inline constraint of the given type.
pub fn count_with_constraint(cols: &Vec<&ColumnDef>, contype: ConstrType) -> (r: usize)
    ensures
        r == count_with_constraint_spec(values(cols@), contype),
{
    let ghost all = values(cols@);
    let mut n: usize = 0;
    let mut i: usize = 0;
    while i < cols.len()
        invariant
            i <= cols@.len(),
            n <= i,
            all == values(cols@),
            n == count_with_constraint_spec(all.take(i as int), contype),
        decreases cols@.len() - i,
    {
        proof {
            assert(all.take(i + 1).drop_last() == all.take(i as int));
            assert(all.take(i + 1).last() == *cols@[i as int]);
        }
        if column_has_constraint(cols[i], contype) {
            n += 1;
        }
        i += 1;
    }
    assert(all.take(all.len() as int) == all);
    n
}

/// The column definitions among some nodes.
pub open spec fn columns_of(ns: Seq<Node>) -> Seq<ColumnDef>
    decreases ns.len(),
{
    if ns.len() == 0 {
        Seq::empty()
    } else {
        match ns.last() {
            Node::ColumnDef(c) => columns_of(ns.drop_last()).push(c),
            _ => columns_of(ns.drop_last()),
        }
    }
}

/// The columns a statement defines: those of a `CREATE TABLE` and those an `ALTER TABLE` adds.
pub open spec fn defined_columns_spec(node: Node) -> Seq<ColumnDef> {
    match node {
        Node::CreateStmt(c) => columns_of(c.table_elts@),
        Node::AlterTableStmt(_) => columns_being_added_spec(node),
        _ => Seq::empty(),
    }
}

/// Column definitions whose declared type is statically visible: those in a `CREATE TABLE`
/// and those added by `ALTER TABLE ... ADD COLUMN`. Used by the schema-design lints.
pub fn defined_columns(node: &Node) -> (r: Vec<&ColumnDef>)
    ensures
        values(r@) == defined_columns_spec(*node),
{
    match node {
        Node::CreateStmt(c) => {
            let mut out: Vec<&ColumnDef> = Vec::new();
            let mut i: usize = 0;
            assert(values(out@) == Seq::<ColumnDef>::empty());
            while i < c.table_elts.len()
                invariant
                    i <= c.table_elts@.len(),
                    values(out@) == columns_of(c.table_elts@.take(i as int)),
                decreases c.table_elts@.len() - i,
            {
                proof {
                    assert(c.table_elts@.take(i + 1).drop_last() == c.table_elts@.take(i as int));
                    assert(c.table_elts@.take(i + 1).last() == c.table_elts@[i as int]);
                }
                if let Node::ColumnDef(col) = &c.table_elts[i] {
                    assert(values(out@.push(col)) == values(out@).push(*col));
                    out.push(col);
                }
                i += 1;
            }
            assert(c.table_elts@.take(c.table_elts@.len() as int) == c.table_elts@);
            out
        },
        Node::AlterTableStmt(_) => columns_being_added(node),
        _ => {
            let out: Vec<&ColumnDef> = Vec::new();
            assert(values(out@) == Seq::<ColumnDef>::empty());
            out
        },
    }
}

/// The last part of a column's type name in lower case, where it has one.
pub open spec fn column_base_type_spec(col: ColumnDef) -> Option<Seq<char>> {
    match col.coltype {
        Some(t) => if t.names@.len() > 0 {
            match t.names@.last() {
                Node::Str(s) => Some(lower_text(s@)),
                _ => None,
            }
        } else {
            None
        },
        None => None,
    }
}

/// The base type name of a column — the last element of its type's names, lowercased
/// (e.g. `json`, `jsonb`, `int4`, `serial`, `varchar`), or `None` if absent.
pub fn column_base_type(col: &ColumnDef) -> (r: Option<String>)
    ensures
        match r {
            Some(t) => column_base_type_spec(*col) == Some(t@),
            None => column_base_type_spec(*col) is None,
        },
{
    match &col.coltype {
        Some(t) => {
            let n: usize = t.names.len();
            if n > 0 {
                match &t.names[n - 1] {
                    Node::Str(s) => Some(to_ascii_lower(s.as_str())),
                    _ => None,
                }
            } else {
                None
            }
        },
        None => None,
    }
}

/// The constraints that `ADD CONSTRAINT` commands add.
pub open spec fn added_constraints_of(cmds: Seq<AlterTableCmd>) -> Seq<Constraint>
    decreases cmds.len(),
{
    if cmds.len() == 0 {
        Seq::empty()
    } else {
        let before = added_constraints_of(cmds.drop_last());
        if cmds.last().subtype == AlterTableType::AddConstraint {
            match cmds.last().def {
                Some(d) => match *d {
                    Node::Constraint(c) => before.push(c),
                    _ => before,
                },
                None => before,
            }
        } else {
            before
        }
    }
}

/// The constraints an `ALTER TABLE` adds.
pub open spec fn constraints_being_added_spec(node: Node) -> Seq<Constraint> {
    added_constraints_of(alter_table_cmds_spec(node))
}

/// All constraints added by `ADD CONSTRAINT` commands in an `ALTER TABLE`.
pub fn constraints_being_added(node: &Node) -> (r: Vec<&Constraint>)
    ensures
        values(r@) == constraints_being_added_spec(*node),
{
    let cmds = alter_table_cmds(node);
    let ghost all = values(cmds@);
    let mut out: Vec<&Constraint> = Vec::new();
    let mut i: usize = 0;
    assert(values(out@) == Seq::<Constraint>::empty());
    while i < cmds.len()
        invariant
            i <= cmds@.len(),
            all == values(cmds@),
            values(out@) == added_constraints_of(all.take(i as int)),
        decreases cmds@.len() - i,
    {
        proof {
            assert(all.take(i + 1).drop_last() == all.take(i as int));
            assert(all.take(i + 1).last() == *cmds@[i as int]);
        }
        let cmd = cmds[i];
        if cmd.subtype == AlterTableType::AddConstraint {
            if let Some(d) = &cmd.def {
                if let Node::Constraint(c) = &**d {
                    assert(values(out@.push(c)) == values(out@).push(*c));
                    out.push(c);
                }
            }
        }
        i += 1;
    }
    assert(all.take(all.len() as int) == all);
    out
}

/// The constraints among some nodes.
pub open spec fn constraints_of(ns: Seq<Node>) -> Seq<Constraint>
    decreases ns.len(),
{
    if ns.len() == 0 {
        Seq::empty()
    } else {
        match ns.last() {
            Node::Constraint(c) => constraints_of(ns.drop_last()).push(c),
            _ => constraints_of(ns.drop_last()),
        }
    }
}

/// The constraints among some nodes.
pub fn collect_constraints(ns: &Vec<Node>) -> (r: Vec<&Constraint>)
    ensures
        values(r@) == constraints_of(ns@),
{
    let mut out: Vec<&Constraint> = Vec::new();
    let mut i: usize = 0;
    assert(values(out@) == Seq::<Constraint>::empty());
    while i < ns.len()
        invariant
            i <= ns@.len(),
            values(out@) == constraints_of(ns@.take(i as int)),
        decreases ns@.len() - i,
    {
        proof {
            assert(ns@.take(i + 1).drop_last() == ns@.take(i as int));
            assert(ns@.take(i + 1).last() == ns@[i as int]);
        }
        if let Node::Constraint(c) = &ns[i] {
            assert(values(out@.push(c)) == values(out@).push(*c));
            out.push(c);
        }
        i += 1;
    }
    assert(ns@.take(ns@.len() as int) == ns@);
    out
}

/// The table-level constraints a statement introduces.
pub open spec fn defined_table_constraints_spec(node: Node) -> Seq<Constraint> {
    match node {
        Node::CreateStmt(c) => constraints_of(c.table_elts@),
        Node::AlterTableStmt(_) => constraints_being_added_spec(node),
        _ => Seq::empty(),
    }
}

/// Table-level constraints a statement introduces: the constraint elements of a
/// `CREATE TABLE`, or those added by `ALTER TABLE ... ADD CONSTRAINT`. Column-level
/// inline constraints are not among them (read them from each column).
pub fn defined_table_constraints(node: &Node) -> (r: Vec<&Constraint>)
    ensures
        values(r@) == defined_table_constraints_spec(*node),
{
    match node {
        Node::CreateStmt(c) => collect_constraints(&c.table_elts),
        Node::AlterTableStmt(_) => constraints_being_added(node),
        _ => {
            let out: Vec<&Constraint> = Vec::new();
            assert(values(out@) == Seq::<Constraint>::empty());
            out
        },
    }
}

/// Whether a text reads as a false option value.
pub open spec fn reads_false(t: Seq<char>) -> bool {
    t == "false"@ || t == "off"@ || t == "0"@ || t == "f"@ || t == "no"@ || t == "n"@
}

/// Whether an option is on: no value, or one that is not false.
pub open spec fn defelem_is_true_spec(de: DefElem) -> bool {
    match de.arg {
        None => true,
        Some(n) => match *n {
            Node::Boolean(b) => b,
            Node::Integer(i) => i != 0,
            Node::Str(s) => !reads_false(lower_text(s@)),
            _ => true,
        },
    }
}

/// Mirrors PostgreSQL's `defGetBoolean`: an option with no value (flag present but no
/// explicit value) defaults to `true`. For explicit values, integer 0 is false, non-zero is
/// true; strings "false"/"off"/"0"/"f"/"no"/"n" (case-insensitive) are false; all other
/// strings and boolean-true literals are true.
pub fn defelem_is_true(de: &DefElem) -> (r: bool)
    ensures
        r == defelem_is_true_spec(*de),
{
    match &de.arg {
        None => true,
        Some(n) => match &**n {
            Node::Boolean(b) => *b,
            Node::Integer(i) => *i != 0,
            Node::Str(s) => {
                let t = to_ascii_lower(s.as_str());
                let w = t.as_str();
                !(str_eq(w, "false") || str_eq(w, "off") || str_eq(w, "0") || str_eq(w, "f")
                    || str_eq(w, "no") || str_eq(w, "n"))
            },
            _ => true,
        },
    }
}

/// Whether an option named `name` is on among some nodes.
pub open spec fn option_is_on(ns: Seq<Node>, name: Seq<char>) -> bool {
    exists|i: int| 0 <= i < ns.len() && is_option_on(#[trigger] ns[i], name)
}

/// Whether a node is an option named `name` that is on.
pub open spec fn is_option_on(n: Node, name: Seq<char>) -> bool {
    n matches Node::DefElem(de) && de.defname@ == name && defelem_is_true_spec(de)
}

/// Whether an option named `name` is on among some nodes.
pub fn has_option(ns: &Vec<Node>, name: &str) -> (r: bool)
    ensures
        r == option_is_on(ns@, name@),
{
    let mut i: usize = 0;
    while i < ns.len()
        invariant
            i <= ns@.len(),
            forall|j: int| 0 <= j < i ==> !is_option_on(#[trigger] ns@[j], name@),
        decreases ns@.len() - i,
    {
        if let Node::DefElem(de) = &ns[i] {
            if str_eq(de.defname.as_str(), name) && defelem_is_true(de) {
                assert(is_option_on(ns@[i as int], name@));
                return true;
            }
        }
        i += 1;
    }
    false
}

/// A `REINDEX ... CONCURRENTLY` (a `concurrently` option that is on).
pub fn reindex_is_concurrent(r: &ReindexStmt) -> (b: bool)
    ensures
        b == option_is_on(r.params@, "concurrently"@),
{
    has_option(&r.params, "concurrently")
}

/// Number of constraints of kind `t`, those marked `NOT VALID` aside where `validated` is set.
pub open spec fn count_constraints_spec(cons: Seq<Constraint>, t: ConstrType, validated: bool) -> int
    decreases cons.len(),
{
    if cons.len() == 0 {
        0
    } else {
        count_constraints_spec(cons.drop_last(), t, validated) + if cons.last().contype == t && !(
        validated && cons.last().skip_validation) {
            1int
        } else {
            0int
        }
    }
}

/// Number of constraints of the given type, those marked `NOT VALID` aside where `validated`
/// is set.
pub fn count_constraints(cons: &Vec<&Constraint>, contype: ConstrType, validated: bool) -> (r: usize)
    ensures
        r == count_constraints_spec(values(cons@), contype, validated),
{
    let ghost all = values(cons@);
    let mut n: usize = 0;
    let mut i: usize = 0;
    while i < cons.len()
        invariant
            i <= cons@.len(),
            n <= i,
            all == values(cons@),
            n == count_constraints_spec(all.take(i as int), contype, validated),
        decreases cons@.len() - i,
    {
        proof {
            assert(all.take(i + 1).drop_last() == all.take(i as int));
            assert(all.take(i + 1).last() == *cons@[i as int]);
        }
        if cons[i].contype == contype && !(validated && cons[i].skip_validation) {
            n += 1;
        }
        i += 1;
    }
    assert(all.take(all.len() as int) == all);
    n
}

/// A hit whose fix, where offered, appends `suffix` to the statement.
pub open spec fn suffix_hit(
    message: Seq<char>,
    guidance: Seq<char>,
    title: Seq<char>,
    suffix: Seq<char>,
    offered: bool,
) -> RuleHitView {
    RuleHitView {
        message,
        guidance,
        fix: if offered {
            Some(single_edit(title, FixAnchorView::StatementBodyEnd, suffix))
        } else {
            None
        },
    }
}

/// Appends `n` times a hit whose fix, where offered, appends `suffix` to the statement.
pub fn push_suffix_hits(
    out: &mut Vec<RuleHit>,
    n: usize,
    message: &str,
    guidance: &str,
    title: &'static str,
    suffix: &str,
    offered: bool,
)
    ensures
        hits_view(final(out)@) == hits_view(old(out)@) + repeated(
            suffix_hit(message@, guidance@, title@, suffix@, offered),
            n as int,
        ),
{
    let ghost before = hits_view(out@);
    let ghost h = suffix_hit(message@, guidance@, title@, suffix@, offered);
    let mut i: usize = 0;
    assert(before + repeated(h, 0) == before);
    while i < n
        invariant
            i <= n,
            h == suffix_hit(message@, guidance@, title@, suffix@, offered),
            hits_view(out@) == before + repeated(h, i as int),
        decreases n - i,
    {
        let fix = if offered {
            Some(FixDraft::single(title, FixAnchor::StatementBodyEnd, suffix))
        } else {
            None
        };
        push_hit(out, message, guidance, fix);
        assert(repeated(h, i + 1) == repeated(h, i as int).push(h));
        assert((before + repeated(h, i as int)).push(h) == before + repeated(h, i + 1));
        i += 1;
    }
}

/// A rule of the registry.
pub enum RegisteredRule {
    AddIndexNonConcurrent(AddIndexNonConcurrent),
    AddFkWithoutNotValid(AddFkWithoutNotValid),
    AddCheckWithoutNotValid(AddCheckWithoutNotValid),
    SetNotNull(SetNotNull),
    AlterColumnType(AlterColumnType),
    Rename(Rename),
    DropIndexNonConcurrent(DropIndexNonConcurrent),
    DropTable(DropTable),
    DropDatabase(DropDatabase),
    DropColumn(DropColumn),
    Truncate(Truncate),
    VacuumFullOrCluster(VacuumFullOrCluster),
    ReindexNonConcurrent(ReindexNonConcurrent),
    AddUniqueConstraint(AddUniqueConstraint),
    AddPrimaryKeyWithoutIndex(AddPrimaryKeyWithoutIndex),
    AddColumnNotNullNoDefault(AddColumnNotNullNoDefault),
    AddColumnVolatileDefault(AddColumnVolatileDefault),
    AddColumnSerial(AddColumnSerial),
    AddColumnIdentity(AddColumnIdentity),
    AddColumnGeneratedStored(AddColumnGeneratedStored),
    SetLoggedUnlogged(SetLoggedUnlogged),
    RefreshMatviewNonConcurrent(RefreshMatviewNonConcurrent),
    AddExclusionConstraint(AddExclusionConstraint),
    PreferJsonb(PreferJsonb),
    PreferBigintPrimaryKey(PreferBigintPrimaryKey),
    DropConstraint(DropConstraint),
    AddTrigger(AddTrigger),
    DetachPartitionNonConcurrent(DetachPartitionNonConcurrent),
    AttachPartition(AttachPartition),
    SetAccessMethod(SetAccessMethod),
}

impl Rule for RegisteredRule {
    open spec fn id_spec(&self) -> Seq<char> {
        match *self {
            RegisteredRule::AddIndexNonConcurrent(r) => r.id_spec(),
            RegisteredRule::AddFkWithoutNotValid(r) => r.id_spec(),
            RegisteredRule::AddCheckWithoutNotValid(r) => r.id_spec(),
            RegisteredRule::SetNotNull(r) => r.id_spec(),
            RegisteredRule::AlterColumnType(r) => r.id_spec(),
            RegisteredRule::Rename(r) => r.id_spec(),
            RegisteredRule::DropIndexNonConcurrent(r) => r.id_spec(),
            RegisteredRule::DropTable(r) => r.id_spec(),
            RegisteredRule::DropDatabase(r) => r.id_spec(),
            RegisteredRule::DropColumn(r) => r.id_spec(),
            RegisteredRule::Truncate(r) => r.id_spec(),
            RegisteredRule::VacuumFullOrCluster(r) => r.id_spec(),
            RegisteredRule::ReindexNonConcurrent(r) => r.id_spec(),
            RegisteredRule::AddUniqueConstraint(r) => r.id_spec(),
            RegisteredRule::AddPrimaryKeyWithoutIndex(r) => r.id_spec(),
            RegisteredRule::AddColumnNotNullNoDefault(r) => r.id_spec(),
            RegisteredRule::AddColumnVolatileDefault(r) => r.id_spec(),
            RegisteredRule::AddColumnSerial(r) => r.id_spec(),
            RegisteredRule::AddColumnIdentity(r) => r.id_spec(),
            RegisteredRule::AddColumnGeneratedStored(r) => r.id_spec(),
            RegisteredRule::SetLoggedUnlogged(r) => r.id_spec(),
            RegisteredRule::RefreshMatviewNonConcurrent(r) => r.id_spec(),
            RegisteredRule::AddExclusionConstraint(r) => r.id_spec(),
            RegisteredRule::PreferJsonb(r) => r.id_spec(),
            RegisteredRule::PreferBigintPrimaryKey(r) => r.id_spec(),
            RegisteredRule::DropConstraint(r) => r.id_spec(),
            RegisteredRule::AddTrigger(r) => r.id_spec(),
            RegisteredRule::DetachPartitionNonConcurrent(r) => r.id_spec(),
            RegisteredRule::AttachPartition(r) => r.id_spec(),
            RegisteredRule::SetAccessMethod(r) => r.id_spec(),
        }
    }

    open spec fn severity_spec(&self) -> Severity {
        match *self {
            RegisteredRule::AddIndexNonConcurrent(r) => r.severity_spec(),
            RegisteredRule::AddFkWithoutNotValid(r) => r.severity_spec(),
            RegisteredRule::AddCheckWithoutNotValid(r) => r.severity_spec(),
            RegisteredRule::SetNotNull(r) => r.severity_spec(),
            RegisteredRule::AlterColumnType(r) => r.severity_spec(),
            RegisteredRule::Rename(r) => r.severity_spec(),
            RegisteredRule::DropIndexNonConcurrent(r) => r.severity_spec(),
            RegisteredRule::DropTable(r) => r.severity_spec(),
            RegisteredRule::DropDatabase(r) => r.severity_spec(),
            RegisteredRule::DropColumn(r) => r.severity_spec(),
            RegisteredRule::Truncate(r) => r.severity_spec(),
            RegisteredRule::VacuumFullOrCluster(r) => r.severity_spec(),
            RegisteredRule::ReindexNonConcurrent(r) => r.severity_spec(),
            RegisteredRule::AddUniqueConstraint(r) => r.severity_spec(),
            RegisteredRule::AddPrimaryKeyWithoutIndex(r) => r.severity_spec(),
            RegisteredRule::AddColumnNotNullNoDefault(r) => r.severity_spec(),
            RegisteredRule::AddColumnVolatileDefault(r) => r.severity_spec(),
            RegisteredRule::AddColumnSerial(r) => r.severity_spec(),
            RegisteredRule::AddColumnIdentity(r) => r.severity_spec(),
            RegisteredRule::AddColumnGeneratedStored(r) => r.severity_spec(),
            RegisteredRule::SetLoggedUnlogged(r) => r.severity_spec(),
            RegisteredRule::RefreshMatviewNonConcurrent(r) => r.severity_spec(),
            RegisteredRule::AddExclusionConstraint(r) => r.severity_spec(),
            RegisteredRule::PreferJsonb(r) => r.severity_spec(),
            RegisteredRule::PreferBigintPrimaryKey(r) => r.severity_spec(),
            RegisteredRule::DropConstraint(r) => r.severity_spec(),
            RegisteredRule::AddTrigger(r) => r.severity_spec(),
            RegisteredRule::DetachPartitionNonConcurrent(r) => r.severity_spec(),
            RegisteredRule::AttachPartition(r) => r.severity_spec(),
            RegisteredRule::SetAccessMethod(r) => r.severity_spec(),
        }
    }

    open spec fn hits(&self, node: Node) -> Seq<RuleHitView> {
        match *self {
            RegisteredRule::AddIndexNonConcurrent(r) => r.hits(node),
            RegisteredRule::AddFkWithoutNotValid(r) => r.hits(node),
            RegisteredRule::AddCheckWithoutNotValid(r) => r.hits(node),
            RegisteredRule::SetNotNull(r) => r.hits(node),
            RegisteredRule::AlterColumnType(r) => r.hits(node),
            RegisteredRule::Rename(r) => r.hits(node),
            RegisteredRule::DropIndexNonConcurrent(r) => r.hits(node),
            RegisteredRule::DropTable(r) => r.hits(node),
            RegisteredRule::DropDatabase(r) => r.hits(node),
            RegisteredRule::DropColumn(r) => r.hits(node),
            RegisteredRule::Truncate(r) => r.hits(node),
            RegisteredRule::VacuumFullOrCluster(r) => r.hits(node),
            RegisteredRule::ReindexNonConcurrent(r) => r.hits(node),
            RegisteredRule::AddUniqueConstraint(r) => r.hits(node),
            RegisteredRule::AddPrimaryKeyWithoutIndex(r) => r.hits(node),
            RegisteredRule::AddColumnNotNullNoDefault(r) => r.hits(node),
            RegisteredRule::AddColumnVolatileDefault(r) => r.hits(node),
            RegisteredRule::AddColumnSerial(r) => r.hits(node),
            RegisteredRule::AddColumnIdentity(r) => r.hits(node),
            RegisteredRule::AddColumnGeneratedStored(r) => r.hits(node),
            RegisteredRule::SetLoggedUnlogged(r) => r.hits(node),
            RegisteredRule::RefreshMatviewNonConcurrent(r) => r.hits(node),
            RegisteredRule::AddExclusionConstraint(r) => r.hits(node),
            RegisteredRule::PreferJsonb(r) => r.hits(node),
            RegisteredRule::PreferBigintPrimaryKey(r) => r.hits(node),
            RegisteredRule::DropConstraint(r) => r.hits(node),
            RegisteredRule::AddTrigger(r) => r.hits(node),
            RegisteredRule::DetachPartitionNonConcurrent(r) => r.hits(node),
            RegisteredRule::AttachPartition(r) => r.hits(node),
            RegisteredRule::SetAccessMethod(r) => r.hits(node),
        }
    }

    fn id(&self) -> (r: &'static str) {
        match self {
            RegisteredRule::AddIndexNonConcurrent(r) => r.id(),
            RegisteredRule::AddFkWithoutNotValid(r) => r.id(),
            RegisteredRule::AddCheckWithoutNotValid(r) => r.id(),
            RegisteredRule::SetNotNull(r) => r.id(),
            RegisteredRule::AlterColumnType(r) => r.id(),
            RegisteredRule::Rename(r) => r.id(),
            RegisteredRule::DropIndexNonConcurrent(r) => r.id(),
            RegisteredRule::DropTable(r) => r.id(),
            RegisteredRule::DropDatabase(r) => r.id(),
            RegisteredRule::DropColumn(r) => r.id(),
            RegisteredRule::Truncate(r) => r.id(),
            RegisteredRule::VacuumFullOrCluster(r) => r.id(),
            RegisteredRule::ReindexNonConcurrent(r) => r.id(),
            RegisteredRule::AddUniqueConstraint(r) => r.id(),
            RegisteredRule::AddPrimaryKeyWithoutIndex(r) => r.id(),
            RegisteredRule::AddColumnNotNullNoDefault(r) => r.id(),
            RegisteredRule::AddColumnVolatileDefault(r) => r.id(),
            RegisteredRule::AddColumnSerial(r) => r.id(),
            RegisteredRule::AddColumnIdentity(r) => r.id(),
            RegisteredRule::AddColumnGeneratedStored(r) => r.id(),
            RegisteredRule::SetLoggedUnlogged(r) => r.id(),
            RegisteredRule::RefreshMatviewNonConcurrent(r) => r.id(),
            RegisteredRule::AddExclusionConstraint(r) => r.id(),
            RegisteredRule::PreferJsonb(r) => r.id(),
            RegisteredRule::PreferBigintPrimaryKey(r) => r.id(),
            RegisteredRule::DropConstraint(r) => r.id(),
            RegisteredRule::AddTrigger(r) => r.id(),
            RegisteredRule::DetachPartitionNonConcurrent(r) => r.id(),
            RegisteredRule::AttachPartition(r) => r.id(),
            RegisteredRule::SetAccessMethod(r) => r.id(),
        }
    }

    fn severity(&self) -> (r: Severity) {
        match self {
            RegisteredRule::AddIndexNonConcurrent(r) => r.severity(),
            RegisteredRule::AddFkWithoutNotValid(r) => r.severity(),
            RegisteredRule::AddCheckWithoutNotValid(r) => r.severity(),
            RegisteredRule::SetNotNull(r) => r.severity(),
            RegisteredRule::AlterColumnType(r) => r.severity(),
            RegisteredRule::Rename(r) => r.severity(),
            RegisteredRule::DropIndexNonConcurrent(r) => r.severity(),
            RegisteredRule::DropTable(r) => r.severity(),
            RegisteredRule::DropDatabase(r) => r.severity(),
            RegisteredRule::DropColumn(r) => r.severity(),
            RegisteredRule::Truncate(r) => r.severity(),
            RegisteredRule::VacuumFullOrCluster(r) => r.severity(),
            RegisteredRule::ReindexNonConcurrent(r) => r.severity(),
            RegisteredRule::AddUniqueConstraint(r) => r.severity(),
            RegisteredRule::AddPrimaryKeyWithoutIndex(r) => r.severity(),
            RegisteredRule::AddColumnNotNullNoDefault(r) => r.severity(),
            RegisteredRule::AddColumnVolatileDefault(r) => r.severity(),
            RegisteredRule::AddColumnSerial(r) => r.severity(),
            RegisteredRule::AddColumnIdentity(r) => r.severity(),
            RegisteredRule::AddColumnGeneratedStored(r) => r.severity(),
            RegisteredRule::SetLoggedUnlogged(r) => r.severity(),
            RegisteredRule::RefreshMatviewNonConcurrent(r) => r.severity(),
            RegisteredRule::AddExclusionConstraint(r) => r.severity(),
            RegisteredRule::PreferJsonb(r) => r.severity(),
            RegisteredRule::PreferBigintPrimaryKey(r) => r.severity(),
            RegisteredRule::DropConstraint(r) => r.severity(),
            RegisteredRule::AddTrigger(r) => r.severity(),
            RegisteredRule::DetachPartitionNonConcurrent(r) => r.severity(),
            RegisteredRule::AttachPartition(r) => r.severity(),
            RegisteredRule::SetAccessMethod(r) => r.severity(),
        }
    }

    fn check(&self, node: &Node, out: &mut Vec<RuleHit>) {
        match self {
            RegisteredRule::AddIndexNonConcurrent(r) => r.check(node, out),
            RegisteredRule::AddFkWithoutNotValid(r) => r.check(node, out),
            RegisteredRule::AddCheckWithoutNotValid(r) => r.check(node, out),
            RegisteredRule::SetNotNull(r) => r.check(node, out),
            RegisteredRule::AlterColumnType(r) => r.check(node, out),
            RegisteredRule::Rename(r) => r.check(node, out),
            RegisteredRule::DropIndexNonConcurrent(r) => r.check(node, out),
            RegisteredRule::DropTable(r) => r.check(node, out),
            RegisteredRule::DropDatabase(r) => r.check(node, out),
            RegisteredRule::DropColumn(r) => r.check(node, out),
            RegisteredRule::Truncate(r) => r.check(node, out),
            RegisteredRule::VacuumFullOrCluster(r) => r.check(node, out),
            RegisteredRule::ReindexNonConcurrent(r) => r.check(node, out),
            RegisteredRule::AddUniqueConstraint(r) => r.check(node, out),
            RegisteredRule::AddPrimaryKeyWithoutIndex(r) => r.check(node, out),
            RegisteredRule::AddColumnNotNullNoDefault(r) => r.check(node, out),
            RegisteredRule::AddColumnVolatileDefault(r) => r.check(node, out),
            RegisteredRule::AddColumnSerial(r) => r.check(node, out),
            RegisteredRule::AddColumnIdentity(r) => r.check(node, out),
            RegisteredRule::AddColumnGeneratedStored(r) => r.check(node, out),
            RegisteredRule::SetLoggedUnlogged(r) => r.check(node, out),
            RegisteredRule::RefreshMatviewNonConcurrent(r) => r.check(node, out),
            RegisteredRule::AddExclusionConstraint(r) => r.check(node, out),
            RegisteredRule::PreferJsonb(r) => r.check(node, out),
            RegisteredRule::PreferBigintPrimaryKey(r) => r.check(node, out),
            RegisteredRule::DropConstraint(r) => r.check(node, out),
            RegisteredRule::AddTrigger(r) => r.check(node, out),
            RegisteredRule::DetachPartitionNonConcurrent(r) => r.check(node, out),
            RegisteredRule::AttachPartition(r) => r.check(node, out),
            RegisteredRule::SetAccessMethod(r) => r.check(node, out),
        }
    }
}

/// The registry, in registration order.
pub open spec fn registry() -> Seq<RegisteredRule> {
    seq![
        RegisteredRule::AddIndexNonConcurrent(AddIndexNonConcurrent),
        RegisteredRule::AddFkWithoutNotValid(AddFkWithoutNotValid),
        RegisteredRule::AddCheckWithoutNotValid(AddCheckWithoutNotValid),
        RegisteredRule::SetNotNull(SetNotNull),
        RegisteredRule::AlterColumnType(AlterColumnType),
        RegisteredRule::Rename(Rename),
        RegisteredRule::DropIndexNonConcurrent(DropIndexNonConcurrent),
        RegisteredRule::DropTable(DropTable),
        RegisteredRule::DropDatabase(DropDatabase),
        RegisteredRule::DropColumn(DropColumn),
        RegisteredRule::Truncate(Truncate),
        RegisteredRule::VacuumFullOrCluster(VacuumFullOrCluster),
        RegisteredRule::ReindexNonConcurrent(ReindexNonConcurrent),
        RegisteredRule::AddUniqueConstraint(AddUniqueConstraint),
        RegisteredRule::AddPrimaryKeyWithoutIndex(AddPrimaryKeyWithoutIndex),
        RegisteredRule::AddColumnNotNullNoDefault(AddColumnNotNullNoDefault),
        RegisteredRule::AddColumnVolatileDefault(AddColumnVolatileDefault),
        RegisteredRule::AddColumnSerial(AddColumnSerial),
        RegisteredRule::AddColumnIdentity(AddColumnIdentity),
        RegisteredRule::AddColumnGeneratedStored(AddColumnGeneratedStored),
        RegisteredRule::SetLoggedUnlogged(SetLoggedUnlogged),
        RegisteredRule::RefreshMatviewNonConcurrent(RefreshMatviewNonConcurrent),
        RegisteredRule::AddExclusionConstraint(AddExclusionConstraint),
        RegisteredRule::PreferJsonb(PreferJsonb),
        RegisteredRule::PreferBigintPrimaryKey(PreferBigintPrimaryKey),
        RegisteredRule::DropConstraint(DropConstraint),
        RegisteredRule::AddTrigger(AddTrigger),
        RegisteredRule::DetachPartitionNonConcurrent(DetachPartitionNonConcurrent),
        RegisteredRule::AttachPartition(AttachPartition),
        RegisteredRule::SetAccessMethod(SetAccessMethod),
    ]
}

/// All rules enabled in this build, in stable registration order.
pub fn all_rules() -> (r: Vec<RegisteredRule>)
    ensures
        r@ == registry(),
{
    let r = vec![
        RegisteredRule::AddIndexNonConcurrent(AddIndexNonConcurrent),
        RegisteredRule::AddFkWithoutNotValid(AddFkWithoutNotValid),
        RegisteredRule::AddCheckWithoutNotValid(AddCheckWithoutNotValid),
        RegisteredRule::SetNotNull(SetNotNull),
        RegisteredRule::AlterColumnType(AlterColumnType),
        RegisteredRule::Rename(Rename),
        RegisteredRule::DropIndexNonConcurrent(DropIndexNonConcurrent),
        RegisteredRule::DropTable(DropTable),
        RegisteredRule::DropDatabase(DropDatabase),
        RegisteredRule::DropColumn(DropColumn),
        RegisteredRule::Truncate(Truncate),
        RegisteredRule::VacuumFullOrCluster(VacuumFullOrCluster),
        RegisteredRule::ReindexNonConcurrent(ReindexNonConcurrent),
        RegisteredRule::AddUniqueConstraint(AddUniqueConstraint),
        RegisteredRule::AddPrimaryKeyWithoutIndex(AddPrimaryKeyWithoutIndex),
        RegisteredRule::AddColumnNotNullNoDefault(AddColumnNotNullNoDefault),
        RegisteredRule::AddColumnVolatileDefault(AddColumnVolatileDefault),
        RegisteredRule::AddColumnSerial(AddColumnSerial),
        RegisteredRule::AddColumnIdentity(AddColumnIdentity),
        RegisteredRule::AddColumnGeneratedStored(AddColumnGeneratedStored),
        RegisteredRule::SetLoggedUnlogged(SetLoggedUnlogged),
        RegisteredRule::RefreshMatviewNonConcurrent(RefreshMatviewNonConcurrent),
        RegisteredRule::AddExclusionConstraint(AddExclusionConstraint),
        RegisteredRule::PreferJsonb(PreferJsonb),
        RegisteredRule::PreferBigintPrimaryKey(PreferBigintPrimaryKey),
        RegisteredRule::DropConstraint(DropConstraint),
        RegisteredRule::AddTrigger(AddTrigger),
        RegisteredRule::DetachPartitionNonConcurrent(DetachPartitionNonConcurrent),
        RegisteredRule::AttachPartition(AttachPartition),
        RegisteredRule::SetAccessMethod(SetAccessMethod),
    ];
    assert(r@ =~= registry());
    r
}

/// The ids of some rules.
pub open spec fn ids_of(rules: Seq<RegisteredRule>) -> Seq<Seq<char>> {
    rules.map_values(|r: RegisteredRule| r.id_spec())
}

/// The ids of every enabled rule, in registration order.
pub fn rule_ids() -> (r: Vec<&'static str>)
    ensures
        words_view(r@) == ids_of(registry()),
{
    let rules = all_rules();
    let ghost all = ids_of(rules@);
    let mut out: Vec<&'static str> = Vec::new();
    let mut i: usize = 0;
    assert(words_view(out@) == all.take(0));
    while i < rules.len()
        invariant
            i <= rules@.len(),
            all == ids_of(rules@),
            words_view(out@) == all.take(i as int),
        decreases rules@.len() - i,
    {
        let id = rules[i].id();
        assert(words_view(out@.push(id)) == words_view(out@).push(id@));
        assert(all.take(i + 1) == all.take(i as int).push(all[i as int]));
        out.push(id);
        i += 1;
    }
    assert(all.take(all.len() as int) == all);
    out
}

/// The texts of a list of words.
pub open spec fn words_view(ws: Seq<&'static str>) -> Seq<Seq<char>> {
    ws.map_values(|w: &'static str| w@)
}

} // verus!
