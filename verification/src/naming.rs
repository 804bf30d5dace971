//! Parameterized policy lint: flag an introduced identifier whose name does not match the configured
//! regex for its kind (the `[naming]` config). Runs only when naming patterns are configured.
use vstd::prelude::*;

use crate::ast::{values, ColumnDef, Constraint, Node, ObjectType, RawStmt};
use crate::collections::texts;
use crate::finding::NameKind;
use crate::options::NamingPatterns;
use crate::outside::{regex_error, regex_is_match, regex_matches, regex_new_error};
use crate::policy::{push_remark, remarks_view};
use crate::rules::{
    collect_constraints, constraints_of, defined_columns, defined_columns_spec,
    defined_table_constraints, defined_table_constraints_spec,
};

verus! {

/// Id of this lint.
pub const ID: &'static str = "naming-convention";

/// How to satisfy it.
pub const GUIDANCE: &'static str =
    "Rename the object to match the convention, or adjust the [naming] pattern in your config.";

/// The kind of name a `RENAME` targets.
pub open spec fn rename_kind_spec(rename_type: ObjectType) -> Option<NameKind> {
    match rename_type {
        ObjectType::Table => Some(NameKind::Table),
        ObjectType::Column => Some(NameKind::Column),
        ObjectType::Index => Some(NameKind::Index),
        ObjectType::TabConstraint => Some(NameKind::Constraint),
        ObjectType::Sequence => Some(NameKind::Sequence),
        ObjectType::Trigger => Some(NameKind::Trigger),
        ObjectType::Schema => Some(NameKind::Schema),
        _ => None,
    }
}

/// The kind of name a `RENAME` targets. `None` for kinds that are not checked.
pub fn rename_kind(rename_type: ObjectType) -> (r: Option<NameKind>)
    ensures
        r == rename_kind_spec(rename_type),
{
    match rename_type {
        ObjectType::Table => Some(NameKind::Table),
        ObjectType::Column => Some(NameKind::Column),
        ObjectType::Index => Some(NameKind::Index),
        ObjectType::TabConstraint => Some(NameKind::Constraint),
        ObjectType::Sequence => Some(NameKind::Sequence),
        ObjectType::Trigger => Some(NameKind::Trigger),
        ObjectType::Schema => Some(NameKind::Schema),
        _ => None,
    }
}

/// `names` with one more name, unless that is empty.
pub open spec fn with_name(
    names: Seq<(NameKind, Seq<char>)>,
    kind: NameKind,
    name: Seq<char>,
) -> Seq<(NameKind, Seq<char>)> {
    if name.len() == 0 {
        names
    } else {
        names.push((kind, name))
    }
}

/// `names` with the names of some constraints.
pub open spec fn with_constraints(
    names: Seq<(NameKind, Seq<char>)>,
    cons: Seq<Constraint>,
) -> Seq<(NameKind, Seq<char>)>
    decreases cons.len(),
{
    if cons.len() == 0 {
        names
    } else {
        with_name(
            with_constraints(names, cons.drop_last()),
            NameKind::Constraint,
            cons.last().conname@,
        )
    }
}

/// `names` with the names of some columns, each followed by those of its inline constraints.
pub open spec fn with_columns(
    names: Seq<(NameKind, Seq<char>)>,
    cols: Seq<ColumnDef>,
) -> Seq<(NameKind, Seq<char>)>
    decreases cols.len(),
{
    if cols.len() == 0 {
        names
    } else {
        let own = with_name(
            with_columns(names, cols.drop_last()),
            NameKind::Column,
            cols.last().colname@,
        );
        with_constraints(own, constraints_of(cols.last().constraints@))
    }
}

/// `names` with some column names.
pub open spec fn with_column_names(
    names: Seq<(NameKind, Seq<char>)>,
    cols: Seq<Seq<char>>,
) -> Seq<(NameKind, Seq<char>)>
    decreases cols.len(),
{
    if cols.len() == 0 {
        names
    } else {
        with_name(with_column_names(names, cols.drop_last()), NameKind::Column, cols.last())
    }
}

/// The names a statement introduces, tagged by kind. Empty names are skipped.
pub open spec fn introduced_names_spec(node: Node) -> Seq<(NameKind, Seq<char>)> {
    let none = Seq::<(NameKind, Seq<char>)>::empty();
    match node {
        Node::CreateStmt(c) => {
            let table = match c.relation {
                Some(rv) => with_name(none, NameKind::Table, rv.relname@),
                None => none,
            };
            with_constraints(
                with_columns(table, defined_columns_spec(node)),
                defined_table_constraints_spec(node),
            )
        },
        Node::AlterTableStmt(_) => with_constraints(
            with_columns(none, defined_columns_spec(node)),
            defined_table_constraints_spec(node),
        ),
        Node::CreateTableAsStmt(c) => if c.objtype == ObjectType::Table {
            let table = match c.relation {
                Some(rv) => with_name(none, NameKind::Table, rv.relname@),
                None => none,
            };
            with_column_names(table, texts(c.col_names@))
        } else {
            none
        },
        Node::IndexStmt(i) => with_name(none, NameKind::Index, i.idxname@),
        Node::CreateTrigStmt(t) => with_name(none, NameKind::Trigger, t.trigname@),
        Node::CreateSeqStmt(s) => match s.sequence {
            Some(rv) => with_name(none, NameKind::Sequence, rv.relname@),
            None => none,
        },
        Node::CreateSchemaStmt(s) => with_name(none, NameKind::Schema, s.schemaname@),
        Node::RenameStmt(r) => match rename_kind_spec(r.rename_type) {
            Some(kind) => with_name(none, kind, r.newname@),
            None => none,
        },
        _ => none,
    }
}

/// What a list of tagged names holds.
pub open spec fn names_view(ns: Seq<(NameKind, String)>) -> Seq<(NameKind, Seq<char>)> {
    ns.map_values(|n: (NameKind, String)| (n.0, n.1@))
}

fn push_name(out: &mut Vec<(NameKind, String)>, kind: NameKind, name: &String)
    ensures
        names_view(final(out)@) == with_name(names_view(old(out)@), kind, name@),
{
    if !name.as_str().is_empty() {
        let n = name.clone();
        assert(names_view(out@.push((kind, n))) == names_view(out@).push((kind, n@)));
        out.push((kind, n));
    }
}

fn push_constraints(out: &mut Vec<(NameKind, String)>, cons: &Vec<&Constraint>)
    ensures
        names_view(final(out)@) == with_constraints(names_view(old(out)@), values(cons@)),
{
    let ghost before = names_view(out@);
    let ghost all = values(cons@);
    let mut i: usize = 0;
    while i < cons.len()
        invariant
            i <= cons@.len(),
            all == values(cons@),
            names_view(out@) == with_constraints(before, all.take(i as int)),
        decreases cons@.len() - i,
    {
        proof {
            assert(all.take(i + 1).drop_last() == all.take(i as int));
            assert(all.take(i + 1).last() == *cons@[i as int]);
        }
        push_name(out, NameKind::Constraint, &cons[i].conname);
        i += 1;
    }
    assert(all.take(all.len() as int) == all);
}

fn push_columns(out: &mut Vec<(NameKind, String)>, cols: &Vec<&ColumnDef>)
    ensures
        names_view(final(out)@) == with_columns(names_view(old(out)@), values(cols@)),
{
    let ghost before = names_view(out@);
    let ghost all = values(cols@);
    let mut i: usize = 0;
    while i < cols.len()
        invariant
            i <= cols@.len(),
            all == values(cols@),
            names_view(out@) == with_columns(before, all.take(i as int)),
        decreases cols@.len() - i,
    {
        proof {
            assert(all.take(i + 1).drop_last() == all.take(i as int));
            assert(all.take(i + 1).last() == *cols@[i as int]);
        }
        push_name(out, NameKind::Column, &cols[i].colname);
        let cons = collect_constraints(&cols[i].constraints);
        push_constraints(out, &cons);
        i += 1;
    }
    assert(all.take(all.len() as int) == all);
}

fn push_column_names(out: &mut Vec<(NameKind, String)>, cols: &Vec<String>)
    ensures
        names_view(final(out)@) == with_column_names(names_view(old(out)@), texts(cols@)),
{
    let ghost before = names_view(out@);
    let ghost all = texts(cols@);
    let mut i: usize = 0;
    while i < cols.len()
        invariant
            i <= cols@.len(),
            all == texts(cols@),
            names_view(out@) == with_column_names(before, all.take(i as int)),
        decreases cols@.len() - i,
    {
        proof {
            assert(all.take(i + 1).drop_last() == all.take(i as int));
            assert(all.take(i + 1).last() == cols@[i as int]@);
        }
        push_name(out, NameKind::Column, &cols[i]);
        i += 1;
    }
    assert(all.take(all.len() as int) == all);
}

/// The names a statement introduces, tagged by kind. Empty names are skipped.
pub fn introduced_names(node: &Node) -> (r: Vec<(NameKind, String)>)
    ensures
        names_view(r@) == introduced_names_spec(*node),
{
    let mut out: Vec<(NameKind, String)> = Vec::new();
    assert(names_view(out@) == Seq::<(NameKind, Seq<char>)>::empty());
    match node {
        Node::CreateStmt(c) => {
            if let Some(rv) = &c.relation {
                push_name(&mut out, NameKind::Table, &rv.relname);
            }
            let cols = defined_columns(node);
            push_columns(&mut out, &cols);
            let cons = defined_table_constraints(node);
            push_constraints(&mut out, &cons);
        },
        Node::AlterTableStmt(_) => {
            let cols = defined_columns(node);
            push_columns(&mut out, &cols);
            let cons = defined_table_constraints(node);
            push_constraints(&mut out, &cons);
        },
        Node::CreateTableAsStmt(c) => {
            if c.objtype == ObjectType::Table {
                if let Some(rv) = &c.relation {
                    push_name(&mut out, NameKind::Table, &rv.relname);
                }
                push_column_names(&mut out, &c.col_names);
            }
        },
        Node::IndexStmt(i) => push_name(&mut out, NameKind::Index, &i.idxname),
        Node::CreateTrigStmt(t) => push_name(&mut out, NameKind::Trigger, &t.trigname),
        Node::CreateSeqStmt(s) => {
            if let Some(rv) = &s.sequence {
                push_name(&mut out, NameKind::Sequence, &rv.relname);
            }
        },
        Node::CreateSchemaStmt(s) => push_name(&mut out, NameKind::Schema, &s.schemaname),
        Node::RenameStmt(r) => {
            if let Some(kind) = rename_kind(r.rename_type) {
                push_name(&mut out, kind, &r.newname);
            }
        },
        _ => {},
    }
    out
}

/// The remark on a name that does not match its kind's pattern.
pub open spec fn naming_message(kind: NameKind, name: Seq<char>, pattern: Seq<char>) -> Seq<char> {
    "The "@ + kind.label() + " name `"@ + name
        + "` does not match the configured naming pattern `"@ + pattern + "`."@
}

/// The remarks on the names of one statement. A kind without a pattern is not checked, nor
/// one whose pattern does not compile.
pub open spec fn name_remarks(
    i: int,
    names: Seq<(NameKind, Seq<char>)>,
    patterns: NamingPatterns,
) -> Seq<(int, Seq<char>)>
    decreases names.len(),
{
    if names.len() == 0 {
        Seq::empty()
    } else {
        let before = name_remarks(i, names.drop_last(), patterns);
        let (kind, name) = names.last();
        match patterns.pattern(kind) {
            Some(p) => if regex_new_error(p) is None && !regex_is_match(p, name) {
                before.push((i, naming_message(kind, name, p)))
            } else {
                before
            },
            None => before,
        }
    }
}

/// The remarks on the first `n` statements.
pub open spec fn naming_violations_spec(
    stmts: Seq<RawStmt>,
    n: int,
    patterns: NamingPatterns,
) -> Seq<(int, Seq<char>)>
    decreases n,
{
    if n <= 0 {
        Seq::empty()
    } else {
        naming_violations_spec(stmts, n - 1, patterns) + match stmts[n - 1].stmt {
            Some(node) => name_remarks(n - 1, introduced_names_spec(node), patterns),
            None => Seq::empty(),
        }
    }
}

/// Introduced names that violate their kind's configured pattern, as `(statement_index, message)`.
pub fn naming_violations(stmts: &[RawStmt], patterns: &NamingPatterns) -> (r: Vec<(usize, String)>)
    ensures
        remarks_view(r@) == naming_violations_spec(stmts@, stmts@.len() as int, *patterns),
{
    let ghost all = stmts@;
    let mut out: Vec<(usize, String)> = Vec::new();
    let mut i: usize = 0;
    assert(remarks_view(out@) == Seq::<(int, Seq<char>)>::empty());
    while i < stmts.len()
        invariant
            i <= stmts@.len(),
            all == stmts@,
            remarks_view(out@) == naming_violations_spec(all, i as int, *patterns),
        decreases stmts@.len() - i,
    {
        let ghost before = remarks_view(out@);
        assert(before + Seq::<(int, Seq<char>)>::empty() == before);
        if let Some(node) = &stmts[i].stmt {
            let names = introduced_names(node);
            let ghost nv = names_view(names@);
            let mut j: usize = 0;
            assert(before + name_remarks(i as int, nv.take(0), *patterns) == before);
            while j < names.len()
                invariant
                    j <= names@.len(),
                    nv == names_view(names@),
                    remarks_view(out@) == before + name_remarks(
                        i as int,
                        nv.take(j as int),
                        *patterns,
                    ),
                decreases names@.len() - j,
            {
                proof {
                    assert(nv.take(j + 1).drop_last() == nv.take(j as int));
                    assert(nv.take(j + 1).last() == nv[j as int]);
                }
                let kind = names[j].0;
                let name = names[j].1.as_str();
                if let Some(p) = patterns.get(kind) {
                    if regex_error(p.as_str()).is_none() && !regex_matches(p.as_str(), name) {
                        let mut m = "The ".to_owned();
                        m.append(kind.as_str());
                        m.append(" name `");
                        m.append(name);
                        m.append("` does not match the configured naming pattern `");
                        m.append(p.as_str());
                        m.append("`.");
                        push_remark(&mut out, i, m);
                    }
                }
                assert(remarks_view(out@) == before + name_remarks(
                    i as int,
                    nv.take(j + 1),
                    *patterns,
                ));
                j += 1;
            }
            assert(nv.take(nv.len() as int) == nv);
        }
        i += 1;
    }
    out
}

} // verus!
