//! Policy lint (opt-in, off by default): flag a new table or column that the migration leaves without
//! a COMMENT. Cross-statement — a `COMMENT ON TABLE`/`COMMENT ON COLUMN` anywhere in the migration
//! satisfies it.
use vstd::prelude::*;

use crate::ast::{values, ColumnDef, Node, ObjectType, RawStmt};
use crate::collections::TextSet;
use crate::newtable::{
    lintable_create_relation, lintable_create_relation_spec, name_parts, name_parts_spec,
    parts_view, qualified_key, qualified_key_spec, rangevar_key, rangevar_key_spec,
};
use crate::policy::{push_remark, remarks_view};
use crate::rules::{defined_columns, defined_columns_spec};

verus! {

/// Id of this lint.
pub const ID: &'static str = "require-comment";

/// How to satisfy it.
pub const GUIDANCE: &'static str =
    "Add a COMMENT ON TABLE / COMMENT ON COLUMN in the migration documenting the new object.";

/// The name parts of a commented object (`["t"]`, `["s", "t"]`, or `["t", "c"]`).
pub open spec fn object_path_spec(object: Option<Box<Node>>) -> Seq<Seq<char>> {
    match object {
        Some(n) => match *n {
            Node::List(items) => name_parts_spec(items@),
            Node::Str(s) => seq![s@],
            _ => Seq::empty(),
        },
        None => Seq::empty(),
    }
}

/// The name parts of a commented object (`["t"]`, `["s", "t"]`, or `["t", "c"]`).
pub fn object_path(object: &Option<Box<Node>>) -> (r: Vec<&String>)
    ensures
        parts_view(r@) == object_path_spec(*object),
{
    let mut out: Vec<&String> = Vec::new();
    assert(parts_view(out@) == Seq::<Seq<char>>::empty());
    if let Some(n) = object {
        match &**n {
            Node::List(items) => {
                return name_parts(items);
            },
            Node::Str(s) => {
                out.push(s);
                assert(parts_view(out@) == seq![s@]);
            },
            _ => {},
        }
    }
    out
}

/// The key of the table that name parts denote (see [`qualified_key`]): a schema counts where
/// one is written, a database before it does not.
pub open spec fn table_path_key(parts: Seq<Seq<char>>) -> Seq<char> {
    if parts.len() == 0 {
        Seq::empty()
    } else if parts.len() == 1 {
        parts[0]
    } else {
        qualified_key_spec(parts[parts.len() - 2], parts.last())
    }
}

/// The key of the column that name parts denote: its table's key, a dot and its name.
pub open spec fn column_path_key(parts: Seq<Seq<char>>) -> Seq<char> {
    if parts.len() <= 1 {
        table_path_key(parts)
    } else {
        table_path_key(parts.drop_last()) + "."@ + parts.last()
    }
}

/// The key of a commented object, so that one written `public.t` is the one created as `t`.
pub open spec fn path_key_spec(kind: ObjectType, parts: Seq<Seq<char>>) -> Seq<char> {
    if kind == ObjectType::Column {
        column_path_key(parts)
    } else {
        table_path_key(parts)
    }
}

/// The key of the table that the first `n` parts denote.
fn table_key_of(parts: &Vec<&String>, n: usize) -> (r: String)
    requires
        0 < n <= parts@.len(),
    ensures
        r@ == table_path_key(parts_view(parts@).take(n as int)),
{
    if n == 1 {
        parts[0].clone()
    } else {
        qualified_key(parts[n - 2].as_str(), parts[n - 1].as_str())
    }
}

/// The key of a commented object, so that one written `public.t` is the one created as `t`.
fn path_key(kind: ObjectType, parts: &Vec<&String>) -> (r: String)
    requires
        parts@.len() > 0,
    ensures
        r@ == path_key_spec(kind, parts_view(parts@)),
{
    let n: usize = parts.len();
    let ghost all = parts_view(parts@);
    if kind == ObjectType::Column && n > 1 {
        assert(all.take(n - 1) == all.drop_last());
        let mut key = table_key_of(parts, n - 1);
        key.append(".");
        key.append(parts[n - 1].as_str());
        key
    } else {
        assert(all.take(n as int) == all);
        table_key_of(parts, n)
    }
}

/// Whether a statement comments on the object of that kind and key.
pub open spec fn comments_on(raw: RawStmt, kind: ObjectType, key: Seq<char>) -> bool {
    match raw.stmt {
        Some(Node::CommentStmt(c)) => c.objtype == kind && object_path_spec(c.object).len() > 0
            && path_key_spec(kind, object_path_spec(c.object)) == key,
        _ => false,
    }
}

/// A comment counts for its object whether the default schema is written or not: with `public.`
/// before a table, the keys of the table and of its columns stay what they are without.
pub proof fn a_comment_may_spell_the_default_schema(table: Seq<char>, column: Seq<char>)
    ensures
        path_key_spec(ObjectType::Table, seq!["public"@, table]) == path_key_spec(
            ObjectType::Table,
            seq![table],
        ),
        path_key_spec(ObjectType::Column, seq!["public"@, table, column]) == path_key_spec(
            ObjectType::Column,
            seq![table, column],
        ),
{
    assert(seq!["public"@, table, column].drop_last() == seq!["public"@, table]);
    assert(seq![table, column].drop_last() == seq![table]);
}

/// Whether some statement comments on the object of that kind and key.
pub open spec fn is_commented(stmts: Seq<RawStmt>, kind: ObjectType, key: Seq<char>) -> bool {
    exists|i: int| 0 <= i < stmts.len() && comments_on(#[trigger] stmts[i], kind, key)
}

/// The keys of the commented objects of one kind.
fn commented_objects(stmts: &[RawStmt], kind: ObjectType) -> (r: TextSet)
    ensures
        forall|k: Seq<char>| #[trigger] r@.contains(k) <==> is_commented(stmts@, kind, k),
{
    let mut set = TextSet::new();
    let mut i: usize = 0;
    while i < stmts.len()
        invariant
            i <= stmts@.len(),
            forall|k: Seq<char>| #[trigger]
                set@.contains(k) <==> exists|j: int|
                    0 <= j < i && comments_on(#[trigger] stmts@[j], kind, k),
        decreases stmts@.len() - i,
    {
        let ghost before = set@;
        if let Some(Node::CommentStmt(c)) = &stmts[i].stmt {
            if c.objtype == kind {
                let path = object_path(&c.object);
                if path.len() > 0 {
                    let key = path_key(kind, &path);
                    assert(comments_on(stmts@[i as int], kind, key@));
                    set.insert(key);
                }
            }
        }
        proof {
            assert forall|k: Seq<char>| #[trigger] set@.contains(k) <==> exists|j: int|
                0 <= j < i + 1 && comments_on(#[trigger] stmts@[j], kind, k) by {
                if before.contains(k) {
                    let j = choose|j: int| 0 <= j < i && comments_on(#[trigger] stmts@[j], kind, k);
                    assert(comments_on(stmts@[j], kind, k));
                }
                if comments_on(stmts@[i as int], kind, k) {
                    assert(set@.contains(k));
                }
            }
        }
        i += 1;
    }
    set
}

/// What a statement introduces: its table's key, and whether the table itself is new. A
/// `CREATE TABLE` requires the table itself to be commented; an `ALTER TABLE … ADD COLUMN`
/// only adds columns. A `PARTITION OF` child inherits its columns and a temporary table needs no
/// comment; neither introduces anything here.
pub open spec fn introduced_table_spec(node: Node) -> Option<(Seq<char>, bool)> {
    match node {
        Node::CreateStmt(_) => match lintable_create_relation_spec(node) {
            Some(rv) => Some((rangevar_key_spec(rv), true)),
            None => None,
        },
        Node::AlterTableStmt(a) => match a.relation {
            Some(rv) => Some((rangevar_key_spec(rv), false)),
            None => None,
        },
        _ => None,
    }
}

pub(crate) fn introduced_table(node: &Node) -> (r: Option<(String, bool)>)
    ensures
        match r {
            Some((k, b)) => introduced_table_spec(*node) == Some((k@, b)),
            None => introduced_table_spec(*node) is None,
        },
{
    match node {
        Node::CreateStmt(_) => match lintable_create_relation(node) {
            Some(rv) => Some((rangevar_key(rv), true)),
            None => None,
        },
        Node::AlterTableStmt(a) => match &a.relation {
            Some(rv) => Some((rangevar_key(rv), false)),
            None => None,
        },
        _ => None,
    }
}

/// The key of a column.
pub open spec fn column_key(table: Seq<char>, col: ColumnDef) -> Seq<char> {
    table + "."@ + col.colname@
}

/// The remarks on columns that no statement comments on.
pub open spec fn column_remarks(
    stmts: Seq<RawStmt>,
    i: int,
    table: Seq<char>,
    cols: Seq<ColumnDef>,
) -> Seq<(int, Seq<char>)>
    decreases cols.len(),
{
    if cols.len() == 0 {
        Seq::empty()
    } else {
        let before = column_remarks(stmts, i, table, cols.drop_last());
        let key = column_key(table, cols.last());
        if is_commented(stmts, ObjectType::Column, key) {
            before
        } else {
            before.push((i, "The column `"@ + key + "` has no COMMENT."@))
        }
    }
}

/// The remarks on one statement.
pub open spec fn comment_remarks(stmts: Seq<RawStmt>, i: int) -> Seq<(int, Seq<char>)> {
    match stmts[i].stmt {
        Some(node) => match introduced_table_spec(node) {
            Some((table, new_table)) => (if new_table && !is_commented(
                stmts,
                ObjectType::Table,
                table,
            ) {
                seq![(i, "The table `"@ + table + "` has no COMMENT."@)]
            } else {
                Seq::empty()
            }) + column_remarks(stmts, i, table, defined_columns_spec(node)),
            None => Seq::empty(),
        },
        None => Seq::empty(),
    }
}

/// The remarks on the first `n` statements.
pub open spec fn missing_comments_spec(stmts: Seq<RawStmt>, n: int) -> Seq<(int, Seq<char>)>
    decreases n,
{
    if n <= 0 {
        Seq::empty()
    } else {
        missing_comments_spec(stmts, n - 1) + comment_remarks(stmts, n - 1)
    }
}

/// `(statement_index, message)` for each new table/column the migration leaves without a COMMENT.
pub fn missing_comments(stmts: &[RawStmt]) -> (r: Vec<(usize, String)>)
    ensures
        remarks_view(r@) == missing_comments_spec(stmts@, stmts@.len() as int),
{
    let commented_tables = commented_objects(stmts, ObjectType::Table);
    let commented_columns = commented_objects(stmts, ObjectType::Column);
    let ghost all = stmts@;
    let mut out: Vec<(usize, String)> = Vec::new();
    let mut i: usize = 0;
    assert(remarks_view(out@) == Seq::<(int, Seq<char>)>::empty());
    while i < stmts.len()
        invariant
            i <= stmts@.len(),
            all == stmts@,
            forall|k: Seq<char>| #[trigger]
                commented_tables@.contains(k) <==> is_commented(all, ObjectType::Table, k),
            forall|k: Seq<char>| #[trigger]
                commented_columns@.contains(k) <==> is_commented(all, ObjectType::Column, k),
            remarks_view(out@) == missing_comments_spec(all, i as int),
        decreases stmts@.len() - i,
    {
        let ghost before = remarks_view(out@);
        assert(before + Seq::<(int, Seq<char>)>::empty() == before);
        if let Some(node) = &stmts[i].stmt {
            if let Some((table, new_table)) = introduced_table(node) {
                if new_table && !commented_tables.contains(table.as_str()) {
                    let mut m = "The table `".to_owned();
                    m.append(table.as_str());
                    m.append("` has no COMMENT.");
                    push_remark(&mut out, i, m);
                }
                let ghost lead = remarks_view(out@);
                let cols = defined_columns(node);
                let ghost cv = values(cols@);
                let mut j: usize = 0;
                assert(lead + column_remarks(all, i as int, table@, cv.take(0)) == lead);
                while j < cols.len()
                    invariant
                        j <= cols@.len(),
                        cv == values(cols@),
                        forall|k: Seq<char>| #[trigger]
                            commented_columns@.contains(k) <==> is_commented(
                                all,
                                ObjectType::Column,
                                k,
                            ),
                        remarks_view(out@) == lead + column_remarks(
                            all,
                            i as int,
                            table@,
                            cv.take(j as int),
                        ),
                    decreases cols@.len() - j,
                {
                    proof {
                        assert(cv.take(j + 1).drop_last() == cv.take(j as int));
                        assert(cv.take(j + 1).last() == *cols@[j as int]);
                    }
                    let mut key = table.clone();
                    key.append(".");
                    key.append(cols[j].colname.as_str());
                    if !commented_columns.contains(key.as_str()) {
                        let mut m = "The column `".to_owned();
                        m.append(key.as_str());
                        m.append("` has no COMMENT.");
                        push_remark(&mut out, i, m);
                    }
                    assert(remarks_view(out@) == lead + column_remarks(
                        all,
                        i as int,
                        table@,
                        cv.take(j + 1),
                    ));
                    j += 1;
                }
                assert(cv.take(cv.len() as int) == cv);
                assert(remarks_view(out@) == before + comment_remarks(all, i as int));
            }
        }
        i += 1;
    }
    out
}

} // verus!
