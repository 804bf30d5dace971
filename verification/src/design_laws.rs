//! Which tables, columns and identifiers the policies on schema design speak of.
use vstd::prelude::*;
use vstd::utf8::encode_utf8;

use crate::ast::{AlterTableType, ColumnDef, ConstrType, Constraint, Node, ObjectType, RawStmt};
use crate::fk_index::{has_fk, new_fks};
use crate::fk_laws::{is_about, recorded_foreign_keys_are_declared, references};
use crate::forbid_nullable_fk::on_nullable;
use crate::geometry::{ScanToken, TokenKind};
use crate::identifier::{doubled_quotes, identifier_len_spec, long_identifier, long_identifiers_spec};
use crate::newtable::{name_parts_spec, qualified_key_spec};
use crate::newtable_laws::key_of;
use crate::policy_laws::lemma_concat_contains;
use crate::require_columns::{
    folds_to, has_column, introduces_column, is_present, lacking, missing_required_columns_spec,
    table_of_spec,
};
use crate::require_comment::{
    column_remarks, comment_remarks, comments_on, is_commented, missing_comments_spec,
};
use crate::require_not_null::{
    declared_not_null, defines_not_null, is_nullable, keys_column, nullable_columns_spec,
    nullable_message, nullable_remarks, secures_column, sets_not_null,
};
use crate::require_pk::{declares_key, is_keyed, keys_table, missing_primary_keys_spec};
use crate::rule_laws::{serial_types, typed_one_of};
use crate::rules::add_column_serial::is_serial_name;
use crate::rules::{
    alter_table_cmds_spec, defined_columns_spec, defined_table_constraints_spec, has_constraint,
};
use crate::text::{is_byte_range, lower_text, slice_bytes};
use crate::tree_laws::{
    a_column_carries_its_constraints, a_statement_defines_its_columns,
    a_statement_has_its_constraints, carries, defines_column, defines_constraint, lemma_cmds_of,
    lemma_push_contains,
};

verus! {

/// Whether a statement is a `CREATE TABLE` of a lasting table of its own, neither temporary nor the
/// child of a partitioned one.
pub open spec fn creates_lasting_table(raw: RawStmt, table: Seq<char>) -> bool {
    raw.stmt matches Some(Node::CreateStmt(c)) && !c.partbound && (c.relation matches Some(rv)
        && rv.relpersistence@ != "t"@ && key_of(rv) == table)
}

/// Whether a statement defines a column of that name for the table.
pub open spec fn gives_column(raw: RawStmt, table: Seq<char>, name: Seq<char>) -> bool {
    raw.stmt matches Some(n) && is_about(n, table) && exists|c: ColumnDef| #[trigger]
        defines_column(n, c) && c.colname@ == name
}

proof fn lemma_about(node: Node, table: Seq<char>)
    ensures
        table_of_spec(node) == Some(table) <==> is_about(node, table),
{
}

proof fn lemma_gives_column(raw: RawStmt, table: Seq<char>, name: Seq<char>)
    ensures
        introduces_column(raw, table, name) <==> gives_column(raw, table, name),
{
    if let Some(n) = raw.stmt {
        lemma_about(n, table);
        let cols = defined_columns_spec(n);
        if has_column(cols, name) {
            let i = choose|i: int| 0 <= i < cols.len() && (#[trigger] cols[i]).colname@ == name;
            a_statement_defines_its_columns(n, cols[i]);
            assert(cols.contains(cols[i]));
            assert(defines_column(n, cols[i]));
        }
        if exists|c: ColumnDef| #[trigger] defines_column(n, c) && c.colname@ == name {
            let c = choose|c: ColumnDef| #[trigger] defines_column(n, c) && c.colname@ == name;
            a_statement_defines_its_columns(n, c);
            let i = choose|i: int| 0 <= i < cols.len() && cols[i] == c;
            assert(cols[i].colname@ == name);
        }
    }
}

/// Whether the `k`-th required name is one that the table lacks: it is not empty, no earlier one
/// reads alike in lower case, and no statement defines a column of that name in lower case.
pub open spec fn is_lacking(
    stmts: Seq<RawStmt>,
    table: Seq<char>,
    required: Seq<Seq<char>>,
    k: int,
) -> bool {
    &&& required[k].len() > 0
    &&& forall|j: int| 0 <= j < k ==> lower_text(#[trigger] required[j]) != lower_text(required[k])
    &&& forall|j: int|
        0 <= j < stmts.len() ==> !gives_column(
            #[trigger] stmts[j],
            table,
            lower_text(required[k]),
        )
}

/// What is said of a column that a table lacks.
pub open spec fn lacking_message(table: Seq<char>, name: Seq<char>) -> Seq<char> {
    "The table `"@ + table + "` is missing the required column `"@ + name + "`."@
}

proof fn lemma_lacking(
    stmts: Seq<RawStmt>,
    i: int,
    table: Seq<char>,
    required: Seq<Seq<char>>,
    r: (int, Seq<char>),
)
    ensures
        lacking(stmts, i, table, required).contains(r) <==> exists|k: int|
            0 <= k < required.len() && r == (i, lacking_message(table, #[trigger] required[k]))
                && is_lacking(stmts, table, required, k),
    decreases required.len(),
{
    if required.len() > 0 {
        let init = required.drop_last();
        let last = required.last();
        let m = required.len() - 1;
        lemma_lacking(stmts, i, table, init, r);
        let before = lacking(stmts, i, table, init);
        lemma_push_contains(before, (i, lacking_message(table, last)), r);
        assert(forall|k: int| 0 <= k < init.len() ==> #[trigger] init[k] == required[k]);
        assert(required[m] == last);
        let name = lower_text(last);
        assert(forall|k: int| 0 <= k < m ==> (is_lacking(stmts, table, init, k) <==> is_lacking(
            stmts,
            table,
            required,
            k,
        ))) by {
            assert forall|k: int| 0 <= k < m implies (is_lacking(stmts, table, init, k)
                <==> is_lacking(stmts, table, required, k)) by {
                assert(init[k] == required[k]);
                assert(forall|j: int| 0 <= j < k ==> #[trigger] init[j] == required[j]);
                assert(forall|j: int| 0 <= j < k ==> #[trigger] required[j] == init[j]);
            }
        }
        assert(is_lacking(stmts, table, required, m) <==> !(name.len() == 0 || folds_to(init, name)
            || is_present(stmts, table, name))) by {
            assert(name.len() == last.len());
            if folds_to(init, name) {
                let j = choose|j: int| 0 <= j < init.len() && lower_text(#[trigger] init[j]) == name;
                assert(lower_text(required[j]) == lower_text(required[m]));
            }
            assert forall|j: int| 0 <= j < stmts.len() implies introduces_column(
                #[trigger] stmts[j],
                table,
                name,
            ) == gives_column(stmts[j], table, name) by {
                lemma_gives_column(stmts[j], table, name);
            }
            if is_present(stmts, table, name) {
                let j = choose|j: int|
                    0 <= j < stmts.len() && introduces_column(#[trigger] stmts[j], table, name);
                assert(gives_column(stmts[j], table, name));
            }
            if !folds_to(init, name) {
                assert forall|j: int| 0 <= j < m implies lower_text(#[trigger] required[j])
                    != lower_text(required[m]) by {
                    assert(lower_text(init[j]) != name);
                }
            }
        }
        if before.contains(r) {
            let k = choose|k: int|
                0 <= k < init.len() && r == (i, lacking_message(table, #[trigger] init[k]))
                    && is_lacking(stmts, table, init, k);
            assert(r == (i, lacking_message(table, required[k])));
        }
        if exists|k: int|
            0 <= k < required.len() && r == (i, lacking_message(table, #[trigger] required[k]))
                && is_lacking(stmts, table, required, k) {
            let k = choose|k: int|
                0 <= k < required.len() && r == (i, lacking_message(table, #[trigger] required[k]))
                    && is_lacking(stmts, table, required, k);
            if k < m {
                assert(r == (i, lacking_message(table, init[k])));
            }
        }
    } else {
        assert(!lacking(stmts, i, table, required).contains(r));
    }
}

/// A missing column is remarked on exactly if a statement creates a lasting table, the column is
/// required, and no statement of the migration gives it to that table.
pub proof fn missing_columns_are_flagged(
    stmts: Seq<RawStmt>,
    n: int,
    required: Seq<Seq<char>>,
    r: (int, Seq<char>),
)
    requires
        0 <= n <= stmts.len(),
    ensures
        missing_required_columns_spec(stmts, n, required).contains(r) <==> exists|
            table: Seq<char>,
            k: int,
        |
            0 <= r.0 < n && creates_lasting_table(stmts[r.0], table) && 0 <= k < required.len()
                && r.1 == #[trigger] lacking_message(table, required[k]) && is_lacking(
                stmts,
                table,
                required,
                k,
            ),
    decreases n,
{
    if n > 0 {
        missing_columns_are_flagged(stmts, n - 1, required, r);
        let before = missing_required_columns_spec(stmts, n - 1, required);
        let node = stmts[n - 1].stmt;
        let found = match node {
            Some(x) => crate::newtable::lintable_create_relation_spec(x),
            None => None,
        };
        if let Some(rv) = found {
            let table = key_of(rv);
            assert(creates_lasting_table(stmts[n - 1], table));
            let more = lacking(stmts, n - 1, table, required);
            lemma_concat_contains(before, more, r);
            lemma_lacking(stmts, n - 1, table, required, r);
            if more.contains(r) {
                let k = choose|k: int|
                    0 <= k < required.len() && r == (
                        n - 1,
                        lacking_message(table, #[trigger] required[k]),
                    ) && is_lacking(stmts, table, required, k);
                assert(r.1 == lacking_message(table, required[k]));
            }
            assert forall|t: Seq<char>, k: int|
                r.0 == n - 1 && creates_lasting_table(stmts[r.0], t) && 0 <= k < required.len()
                    && r.1 == #[trigger] lacking_message(t, required[k]) && is_lacking(
                    stmts,
                    t,
                    required,
                    k,
                ) implies more.contains(r) by {
                assert(t == table);
            }
        } else {
            lemma_concat_contains(before, Seq::<(int, Seq<char>)>::empty(), r);
            assert(forall|t: Seq<char>| !#[trigger] creates_lasting_table(stmts[n - 1], t));
        }
    } else {
        assert(!missing_required_columns_spec(stmts, n, required).contains(r));
    }
}

/// Whether a statement gives the table a primary key, inline or as a table constraint.
pub open spec fn gives_key(raw: RawStmt, table: Seq<char>) -> bool {
    raw.stmt matches Some(n) && is_about(n, table) && {
        ||| exists|c: ColumnDef| #[trigger]
            defines_column(n, c) && carries(c, ConstrType::Primary)
        ||| exists|k: Constraint| #[trigger]
            defines_constraint(n, k) && k.contype == ConstrType::Primary
    }
}

proof fn lemma_gives_key(raw: RawStmt, table: Seq<char>)
    ensures
        keys_table(raw, table) <==> gives_key(raw, table),
{
    if let Some(n) = raw.stmt {
        lemma_about(n, table);
        let cols = defined_columns_spec(n);
        let cons = defined_table_constraints_spec(n);
        if declares_key(n) {
            if exists|i: int|
                0 <= i < cols.len() && has_constraint(
                    (#[trigger] cols[i]).constraints@,
                    ConstrType::Primary,
                ) {
                let i = choose|i: int|
                    0 <= i < cols.len() && has_constraint(
                        (#[trigger] cols[i]).constraints@,
                        ConstrType::Primary,
                    );
                a_statement_defines_its_columns(n, cols[i]);
                a_column_carries_its_constraints(cols[i], ConstrType::Primary);
                assert(cols.contains(cols[i]));
                assert(defines_column(n, cols[i]));
            } else {
                let i = choose|i: int|
                    0 <= i < cons.len() && (#[trigger] cons[i]).contype == ConstrType::Primary;
                a_statement_has_its_constraints(n, cons[i]);
                assert(cons.contains(cons[i]));
                assert(defines_constraint(n, cons[i]));
            }
        }
        if exists|c: ColumnDef| #[trigger]
            defines_column(n, c) && carries(c, ConstrType::Primary) {
            let c = choose|c: ColumnDef| #[trigger]
                defines_column(n, c) && carries(c, ConstrType::Primary);
            a_statement_defines_its_columns(n, c);
            a_column_carries_its_constraints(c, ConstrType::Primary);
            let i = choose|i: int| 0 <= i < cols.len() && cols[i] == c;
            assert(has_constraint(cols[i].constraints@, ConstrType::Primary));
        }
        if exists|k: Constraint| #[trigger]
            defines_constraint(n, k) && k.contype == ConstrType::Primary {
            let k = choose|k: Constraint| #[trigger]
                defines_constraint(n, k) && k.contype == ConstrType::Primary;
            a_statement_has_its_constraints(n, k);
            let i = choose|i: int| 0 <= i < cons.len() && cons[i] == k;
            assert(cons[i].contype == ConstrType::Primary);
        }
    }
}

/// A table is remarked on exactly if a statement creates it as a lasting one and no statement of the
/// migration gives it a primary key.
pub proof fn tables_without_a_key_are_flagged(stmts: Seq<RawStmt>, n: int, r: (int, Seq<char>))
    requires
        0 <= n <= stmts.len(),
    ensures
        missing_primary_keys_spec(stmts, n).contains(r) <==> exists|table: Seq<char>|
            0 <= r.0 < n && #[trigger] creates_lasting_table(stmts[r.0], table) && r.1
                == "The table `"@ + table + "` has no primary key."@ && forall|j: int|
                0 <= j < stmts.len() ==> !gives_key(#[trigger] stmts[j], table),
    decreases n,
{
    if n > 0 {
        tables_without_a_key_are_flagged(stmts, n - 1, r);
        let before = missing_primary_keys_spec(stmts, n - 1);
        let found = match stmts[n - 1].stmt {
            Some(x) => crate::newtable::lintable_create_relation_spec(x),
            None => None,
        };
        if let Some(rv) = found {
            let table = key_of(rv);
            let x = (n - 1, "The table `"@ + table + "` has no primary key."@);
            assert(creates_lasting_table(stmts[n - 1], table));
            lemma_push_contains(before, x, r);
            assert forall|j: int| 0 <= j < stmts.len() implies keys_table(
                #[trigger] stmts[j],
                table,
            ) == gives_key(stmts[j], table) by {
                lemma_gives_key(stmts[j], table);
            }
            if is_keyed(stmts, table) {
                let j = choose|j: int|
                    0 <= j < stmts.len() && keys_table(#[trigger] stmts[j], table);
                assert(gives_key(stmts[j], table));
            } else {
                assert(forall|j: int|
                    0 <= j < stmts.len() ==> !gives_key(#[trigger] stmts[j], table));
            }
            assert(forall|t: Seq<char>| #[trigger]
                creates_lasting_table(stmts[n - 1], t) ==> t == table);
        } else {
            assert(forall|t: Seq<char>| !#[trigger] creates_lasting_table(stmts[n - 1], t));
        }
    } else {
        assert(!missing_primary_keys_spec(stmts, n).contains(r));
    }
}

/// Whether a column definition rules out nulls: `NOT NULL`, a primary key, an identity or a serial.
pub open spec fn excludes_null(c: ColumnDef) -> bool {
    ||| carries(c, ConstrType::NotNull)
    ||| carries(c, ConstrType::Primary)
    ||| carries(c, ConstrType::Identity)
    ||| typed_one_of(serial_types())(c)
}

/// Whether a node is `ALTER COLUMN ... SET NOT NULL` of the column.
pub open spec fn sets_column_not_null(n: Node, name: Seq<char>) -> bool {
    n matches Node::AlterTableCmd(c) && c.subtype == AlterTableType::SetNotNull && c.name@ == name
}

/// Whether a statement keeps nulls out of a column of the table: by its definition, as one of the
/// columns of a primary key, or by `SET NOT NULL`.
pub open spec fn keeps_nulls_out(raw: RawStmt, table: Seq<char>, name: Seq<char>) -> bool {
    raw.stmt matches Some(n) && is_about(n, table) && {
        ||| exists|c: ColumnDef| #[trigger]
            defines_column(n, c) && c.colname@ == name && excludes_null(c)
        ||| exists|k: Constraint| #[trigger]
            defines_constraint(n, k) && k.contype == ConstrType::Primary && exists|i: int|
                0 <= i < k.keys@.len() && ((#[trigger] k.keys@[i]) matches Node::Str(s) && s@
                    == name)
        ||| n matches Node::AlterTableStmt(a) && exists|i: int|
            0 <= i < a.cmds@.len() && sets_column_not_null(#[trigger] a.cmds@[i], name)
    }
}

proof fn lemma_excludes_null(c: ColumnDef)
    ensures
        declared_not_null(c) <==> excludes_null(c),
{
    a_column_carries_its_constraints(c, ConstrType::NotNull);
    a_column_carries_its_constraints(c, ConstrType::Primary);
    a_column_carries_its_constraints(c, ConstrType::Identity);
    let names = serial_types();
    if let Some(t) = c.coltype {
        if t.names@.len() == 1 {
            if let Node::Str(s) = t.names@[0] {
                let w = lower_text(s@);
                assert(names[0] == "serial"@ && names[1] == "serial2"@ && names[2] == "serial4"@
                    && names[3] == "serial8"@ && names[4] == "smallserial"@ && names[5]
                    == "bigserial"@);
                assert(names.contains(w) <==> is_serial_name(w));
            }
        }
    }
}

proof fn lemma_keeps_nulls_out(raw: RawStmt, table: Seq<char>, name: Seq<char>)
    ensures
        secures_column(raw, table, name) <==> keeps_nulls_out(raw, table, name),
{
    if let Some(n) = raw.stmt {
        lemma_about(n, table);
        let cols = defined_columns_spec(n);
        let cons = defined_table_constraints_spec(n);
        let cmds = alter_table_cmds_spec(n);
        if exists|i: int| 0 <= i < cols.len() && defines_not_null(#[trigger] cols[i], name) {
            let i = choose|i: int| 0 <= i < cols.len() && defines_not_null(#[trigger] cols[i], name);
            a_statement_defines_its_columns(n, cols[i]);
            lemma_excludes_null(cols[i]);
            assert(cols.contains(cols[i]));
            assert(defines_column(n, cols[i]));
        }
        if exists|i: int| 0 <= i < cons.len() && keys_column(#[trigger] cons[i], name) {
            let i = choose|i: int| 0 <= i < cons.len() && keys_column(#[trigger] cons[i], name);
            a_statement_has_its_constraints(n, cons[i]);
            assert(cons.contains(cons[i]));
            let ks = cons[i].keys@;
            let j = choose|j: int|
                0 <= j < ks.len() && crate::ast::node_string_spec(#[trigger] ks[j]) == Some(name);
            assert(ks[j] matches Node::Str(s) && s@ == name);
            assert(defines_constraint(n, cons[i]));
        }
        if exists|i: int| 0 <= i < cmds.len() && sets_not_null(#[trigger] cmds[i], name) {
            let i = choose|i: int| 0 <= i < cmds.len() && sets_not_null(#[trigger] cmds[i], name);
            let a = n->AlterTableStmt_0;
            lemma_cmds_of(a.cmds@, cmds[i]);
            assert(cmds.contains(cmds[i]));
            let k = choose|k: int|
                0 <= k < a.cmds@.len() && a.cmds@[k] == Node::AlterTableCmd(cmds[i]);
            assert(sets_column_not_null(a.cmds@[k], name));
        }
        if exists|c: ColumnDef| #[trigger]
            defines_column(n, c) && c.colname@ == name && excludes_null(c) {
            let c = choose|c: ColumnDef| #[trigger]
                defines_column(n, c) && c.colname@ == name && excludes_null(c);
            a_statement_defines_its_columns(n, c);
            lemma_excludes_null(c);
            let i = choose|i: int| 0 <= i < cols.len() && cols[i] == c;
            assert(defines_not_null(cols[i], name));
        }
        if exists|k: Constraint| #[trigger]
            defines_constraint(n, k) && k.contype == ConstrType::Primary && exists|i: int|
                0 <= i < k.keys@.len() && ((#[trigger] k.keys@[i]) matches Node::Str(s) && s@
                    == name) {
            let k = choose|k: Constraint| #[trigger]
                defines_constraint(n, k) && k.contype == ConstrType::Primary && exists|i: int|
                    0 <= i < k.keys@.len() && ((#[trigger] k.keys@[i]) matches Node::Str(s) && s@
                        == name);
            a_statement_has_its_constraints(n, k);
            let i = choose|i: int| 0 <= i < cons.len() && cons[i] == k;
            let j = choose|j: int|
                0 <= j < k.keys@.len() && ((#[trigger] k.keys@[j]) matches Node::Str(s) && s@
                    == name);
            assert(crate::ast::node_string_spec(k.keys@[j]) == Some(name));
            assert(keys_column(cons[i], name));
        }
        if let Node::AlterTableStmt(a) = n {
            if exists|i: int|
                0 <= i < a.cmds@.len() && sets_column_not_null(#[trigger] a.cmds@[i], name) {
                let i = choose|i: int|
                    0 <= i < a.cmds@.len() && sets_column_not_null(#[trigger] a.cmds@[i], name);
                let cmd = a.cmds@[i]->AlterTableCmd_0;
                assert(a.cmds@.contains(Node::AlterTableCmd(cmd)));
                lemma_cmds_of(a.cmds@, cmd);
                let k = choose|k: int| 0 <= k < cmds.len() && cmds[k] == cmd;
                assert(sets_not_null(cmds[k], name));
            }
        }
    }
}

/// Whether no statement of a migration keeps nulls out of the column.
pub open spec fn allows_null(stmts: Seq<RawStmt>, table: Seq<char>, name: Seq<char>) -> bool {
    forall|j: int| 0 <= j < stmts.len() ==> !keeps_nulls_out(#[trigger] stmts[j], table, name)
}

/// A column counts as nullable exactly if no statement of the migration keeps nulls out of it.
pub proof fn a_column_is_nullable_unless_nulls_are_kept_out(
    stmts: Seq<RawStmt>,
    table: Seq<char>,
    name: Seq<char>,
)
    ensures
        is_nullable(stmts, table, name) <==> allows_null(stmts, table, name),
{
    assert forall|j: int| 0 <= j < stmts.len() implies secures_column(
        #[trigger] stmts[j],
        table,
        name,
    ) == keeps_nulls_out(stmts[j], table, name) by {
        lemma_keeps_nulls_out(stmts[j], table, name);
    }
}

/// Whether a statement introduces a column to a lasting table: as part of a new one, or by `ADD
/// COLUMN`.
pub open spec fn brings_column(raw: RawStmt, table: Seq<char>, c: ColumnDef) -> bool {
    &&& creates_lasting_table(raw, table) || (raw.stmt matches Some(Node::AlterTableStmt(a)) && (
    a.relation matches Some(rv) && key_of(rv) == table))
    &&& raw.stmt matches Some(n) && defines_column(n, c)
}

proof fn lemma_nullable_remarks(
    stmts: Seq<RawStmt>,
    i: int,
    table: Seq<char>,
    cols: Seq<ColumnDef>,
    r: (int, Seq<char>),
)
    ensures
        nullable_remarks(stmts, i, table, cols).contains(r) <==> exists|k: int|
            0 <= k < cols.len() && r == (i, nullable_message(table, (#[trigger] cols[k]).colname@))
                && allows_null(stmts, table, cols[k].colname@),
    decreases cols.len(),
{
    if cols.len() > 0 {
        let init = cols.drop_last();
        let last = cols.last();
        lemma_nullable_remarks(stmts, i, table, init, r);
        a_column_is_nullable_unless_nulls_are_kept_out(stmts, table, last.colname@);
        let before = nullable_remarks(stmts, i, table, init);
        lemma_push_contains(before, (i, nullable_message(table, last.colname@)), r);
        assert(forall|k: int| 0 <= k < init.len() ==> #[trigger] init[k] == cols[k]);
        assert(cols[cols.len() - 1] == last);
        if before.contains(r) {
            let k = choose|k: int|
                0 <= k < init.len() && r == (
                    i,
                    nullable_message(table, (#[trigger] init[k]).colname@),
                ) && allows_null(stmts, table, init[k].colname@);
            assert(allows_null(stmts, table, cols[k].colname@));
        }
        if exists|k: int|
            0 <= k < cols.len() && r == (i, nullable_message(table, (#[trigger] cols[k]).colname@))
                && allows_null(stmts, table, cols[k].colname@) {
            let k = choose|k: int|
                0 <= k < cols.len() && r == (
                    i,
                    nullable_message(table, (#[trigger] cols[k]).colname@),
                ) && allows_null(stmts, table, cols[k].colname@);
            if k < init.len() {
                assert(allows_null(stmts, table, init[k].colname@));
            }
        }
    } else {
        assert(!nullable_remarks(stmts, i, table, cols).contains(r));
    }
}

/// A column is remarked on exactly if a statement introduces it to a lasting table and no statement
/// of the migration keeps nulls out of it.
pub proof fn nullable_columns_are_flagged(stmts: Seq<RawStmt>, n: int, r: (int, Seq<char>))
    requires
        0 <= n <= stmts.len(),
    ensures
        nullable_columns_spec(stmts, n).contains(r) <==> exists|table: Seq<char>, c: ColumnDef|
            0 <= r.0 < n && #[trigger] brings_column(stmts[r.0], table, c) && r.1 == "The column `"@
                + table + "."@ + c.colname@ + "` is nullable."@ && allows_null(
                stmts,
                table,
                c.colname@,
            ),
    decreases n,
{
    if n > 0 {
        nullable_columns_are_flagged(stmts, n - 1, r);
        let before = nullable_columns_spec(stmts, n - 1);
        let found = match stmts[n - 1].stmt {
            Some(x) => crate::require_comment::introduced_table_spec(x),
            None => None,
        };
        if let Some((table, _)) = found {
            let node = stmts[n - 1].stmt->0;
            let cols = defined_columns_spec(node);
            let more = nullable_remarks(stmts, n - 1, table, cols);
            lemma_concat_contains(before, more, r);
            lemma_nullable_remarks(stmts, n - 1, table, cols, r);
            if more.contains(r) {
                let k = choose|k: int|
                    0 <= k < cols.len() && r == (
                        n - 1,
                        nullable_message(table, (#[trigger] cols[k]).colname@),
                    ) && allows_null(stmts, table, cols[k].colname@);
                a_statement_defines_its_columns(node, cols[k]);
                assert(cols.contains(cols[k]));
                assert(brings_column(stmts[n - 1], table, cols[k]));
            }
            assert forall|t: Seq<char>, c: ColumnDef|
                r.0 == n - 1 && #[trigger] brings_column(stmts[r.0], t, c) && r.1 == "The column `"@
                    + t + "."@ + c.colname@ + "` is nullable."@ && allows_null(
                    stmts,
                    t,
                    c.colname@,
                ) implies more.contains(r) by {
                assert(t == table);
                a_statement_defines_its_columns(node, c);
                let k = choose|k: int| 0 <= k < cols.len() && cols[k] == c;
                assert(r == (n - 1, nullable_message(table, cols[k].colname@)));
            }
        } else {
            lemma_concat_contains(before, Seq::<(int, Seq<char>)>::empty(), r);
            assert(forall|t: Seq<char>, c: ColumnDef|
                !#[trigger] brings_column(stmts[n - 1], t, c));
        }
    } else {
        assert(!nullable_columns_spec(stmts, n).contains(r));
    }
}

proof fn lemma_on_nullable(
    stmts: Seq<RawStmt>,
    fks: Seq<(int, Seq<char>, Seq<char>)>,
    table: Seq<char>,
    col: Seq<char>,
)
    ensures
        has_fk(on_nullable(stmts, fks), table, col) <==> has_fk(fks, table, col) && allows_null(
            stmts,
            table,
            col,
        ),
    decreases fks.len(),
{
    if fks.len() > 0 {
        let init = fks.drop_last();
        let x = fks.last();
        lemma_on_nullable(stmts, init, table, col);
        a_column_is_nullable_unless_nulls_are_kept_out(stmts, x.1, x.2);
        let before = on_nullable(stmts, init);
        let after = on_nullable(stmts, fks);
        assert(forall|k: int| 0 <= k < init.len() ==> #[trigger] init[k] == fks[k]);
        assert(fks[fks.len() - 1] == x);
        assert(forall|k: int| 0 <= k < before.len() ==> #[trigger] before[k] == after[k]);
        if has_fk(before, table, col) {
            let k = choose|k: int|
                0 <= k < before.len() && (#[trigger] before[k]).1 == table && before[k].2 == col;
            assert(after[k].1 == table && after[k].2 == col);
        }
        if has_fk(init, table, col) {
            let k = choose|k: int|
                0 <= k < init.len() && (#[trigger] init[k]).1 == table && init[k].2 == col;
            assert(fks[k].1 == table && fks[k].2 == col);
        }
        if has_fk(after, table, col) {
            let k = choose|k: int|
                0 <= k < after.len() && (#[trigger] after[k]).1 == table && after[k].2 == col;
            if k < before.len() {
                assert(before[k].1 == table && before[k].2 == col);
            }
        }
        if has_fk(fks, table, col) {
            let k = choose|k: int|
                0 <= k < fks.len() && (#[trigger] fks[k]).1 == table && fks[k].2 == col;
            if k < init.len() {
                assert(init[k].1 == table && init[k].2 == col);
            } else if allows_null(stmts, table, col) && !has_fk(before, table, col) {
                assert(after[before.len() as int] == x);
            }
        }
    }
}

/// A foreign key on a new column is reported as nullable exactly if no statement of the migration
/// keeps nulls out of that column.
pub proof fn nullable_foreign_keys_are_flagged(
    stmts: Seq<RawStmt>,
    table: Seq<char>,
    col: Seq<char>,
)
    ensures
        has_fk(on_nullable(stmts, new_fks(stmts, stmts.len() as int)), table, col) <==> (exists|
            i: int,
        |
            0 <= i < stmts.len() && references(#[trigger] stmts[i], table, col)) && allows_null(
            stmts,
            table,
            col,
        ),
{
    recorded_foreign_keys_are_declared(stmts, stmts.len() as int, table, col);
    lemma_on_nullable(stmts, new_fks(stmts, stmts.len() as int), table, col);
}

/// Bytes with every quote doubled, as they stand between the quotes of a quoted identifier.
pub open spec fn quoted_inner(b: Seq<u8>) -> Seq<u8>
    decreases b.len(),
{
    if b.len() == 0 {
        Seq::empty()
    } else if b[0] == 34 {
        seq![34u8, 34u8] + quoted_inner(b.skip(1))
    } else {
        seq![b[0]] + quoted_inner(b.skip(1))
    }
}

proof fn lemma_quoted_inner(b: Seq<u8>)
    ensures
        quoted_inner(b).len() == b.len() + doubled_quotes(quoted_inner(b)),
    decreases b.len(),
{
    if b.len() > 0 {
        let rest = quoted_inner(b.skip(1));
        lemma_quoted_inner(b.skip(1));
        let q = quoted_inner(b);
        if b[0] == 34 {
            assert(q.skip(2) =~= rest);
        } else {
            assert(q.skip(1) =~= rest);
            assert(q[0] != 34);
            if q.len() < 2 {
                assert(rest.len() == 0);
            }
        }
    }
}

/// The length of an identifier is that of the name it stands for: of a bare word its own, and of a
/// name in quotes that of the name, where each quote within is written twice.
pub proof fn an_identifier_is_as_long_as_its_name(name: Seq<u8>)
    ensures
        identifier_len_spec(seq![34u8] + quoted_inner(name) + seq![34u8]) == name.len(),
        name.len() > 0 && name[0] != 34 ==> identifier_len_spec(name) == name.len(),
{
    let written = seq![34u8] + quoted_inner(name) + seq![34u8];
    assert(written.last() == 34);
    assert(written.subrange(1, written.len() - 1) =~= quoted_inner(name));
    lemma_quoted_inner(name);
}

proof fn lemma_long_identifiers(sql: Seq<char>, tokens: Seq<ScanToken>, x: (int, Seq<char>, int))
    ensures
        long_identifiers_spec(sql, tokens).contains(x) <==> exists|i: int|
            0 <= i < tokens.len() && long_identifier(sql, #[trigger] tokens[i]) == Some(x),
    decreases tokens.len(),
{
    if tokens.len() > 0 {
        let init = tokens.drop_last();
        let last = tokens.last();
        lemma_long_identifiers(sql, init, x);
        let before = long_identifiers_spec(sql, init);
        if let Some(y) = long_identifier(sql, last) {
            lemma_push_contains(before, y, x);
        }
        assert(forall|i: int| 0 <= i < init.len() ==> #[trigger] init[i] == tokens[i]);
        assert(tokens[tokens.len() - 1] == last);
        if before.contains(x) {
            let i = choose|i: int|
                0 <= i < init.len() && long_identifier(sql, #[trigger] init[i]) == Some(x);
            assert(long_identifier(sql, tokens[i]) == Some(x));
        }
        if exists|i: int|
            0 <= i < tokens.len() && long_identifier(sql, #[trigger] tokens[i]) == Some(x) {
            let i = choose|i: int|
                0 <= i < tokens.len() && long_identifier(sql, #[trigger] tokens[i]) == Some(x);
            if i < init.len() {
                assert(long_identifier(sql, init[i]) == Some(x));
            }
        }
    } else {
        assert(!long_identifiers_spec(sql, tokens).contains(x));
    }
}

/// An identifier is reported exactly if the name it stands for takes more than 63 bytes, with its
/// place, its text and that length.
pub proof fn long_identifiers_are_flagged(
    sql: Seq<char>,
    tokens: Seq<ScanToken>,
    at: int,
    text: Seq<char>,
    len: int,
)
    requires
        forall|i: int|
            0 <= i < tokens.len() ==> is_byte_range(
                sql,
                (#[trigger] tokens[i]).start as int,
                tokens[i].end as int,
            ),
    ensures
        long_identifiers_spec(sql, tokens).contains((at, text, len)) <==> len > 63 && exists|i: int|
            0 <= i < tokens.len() && (#[trigger] tokens[i]).kind == TokenKind::Ident
                && tokens[i].start == at && text == slice_bytes(
                sql,
                tokens[i].start as int,
                tokens[i].end as int,
            ) && len == identifier_len_spec(encode_utf8(text)),
{
    lemma_long_identifiers(sql, tokens, (at, text, len));
    if exists|i: int|
        0 <= i < tokens.len() && long_identifier(sql, #[trigger] tokens[i]) == Some(
            (at, text, len),
        ) {
        let i = choose|i: int|
            0 <= i < tokens.len() && long_identifier(sql, #[trigger] tokens[i]) == Some(
                (at, text, len),
            );
        assert(is_byte_range(sql, tokens[i].start as int, tokens[i].end as int));
        assert(tokens[i].kind == TokenKind::Ident);
    }
    if len > 63 && exists|i: int|
        0 <= i < tokens.len() && (#[trigger] tokens[i]).kind == TokenKind::Ident && tokens[i].start
            == at && text == slice_bytes(sql, tokens[i].start as int, tokens[i].end as int) && len
            == identifier_len_spec(encode_utf8(text)) {
        let i = choose|i: int|
            0 <= i < tokens.len() && (#[trigger] tokens[i]).kind == TokenKind::Ident
                && tokens[i].start == at && text == slice_bytes(
                sql,
                tokens[i].start as int,
                tokens[i].end as int,
            ) && len == identifier_len_spec(encode_utf8(text));
        assert(is_byte_range(sql, tokens[i].start as int, tokens[i].end as int));
        assert(long_identifier(sql, tokens[i]) == Some((at, text, len)));
    }
}

/// Whether a `COMMENT ON` names its object by these parts.
pub open spec fn comment_names(raw: RawStmt, kind: ObjectType, parts: Seq<Seq<char>>) -> bool {
    raw.stmt matches Some(Node::CommentStmt(c)) && c.objtype == kind && (c.object matches Some(o)
        && (*o matches Node::List(items) && items@.len() == parts.len() && forall|i: int|
        0 <= i < parts.len() ==> ((#[trigger] items@[i]) matches Node::Str(s) && s@ == parts[i])))
}

proof fn lemma_name_parts(ns: Seq<Node>, parts: Seq<Seq<char>>)
    requires
        ns.len() == parts.len(),
        forall|i: int| 0 <= i < parts.len() ==> ((#[trigger] ns[i]) matches Node::Str(s) && s@
            == parts[i]),
    ensures
        name_parts_spec(ns) == parts,
    decreases ns.len(),
{
    if ns.len() > 0 {
        assert(forall|i: int|
            0 <= i < parts.drop_last().len() ==> #[trigger] ns.drop_last()[i] == ns[i]);
        lemma_name_parts(ns.drop_last(), parts.drop_last());
        assert(ns[ns.len() - 1] == ns.last());
        assert(parts.drop_last().push(parts.last()) =~= parts);
    } else {
        assert(name_parts_spec(ns) =~= parts);
    }
}

/// A comment on a table is for the table that its name spells, with or without the schema; one on a
/// column for the column of that table, which is the last part of its name.
pub proof fn a_comment_is_for_what_it_names(
    raw: RawStmt,
    schema: Seq<char>,
    table: Seq<char>,
    column: Seq<char>,
    key: Seq<char>,
)
    ensures
        comment_names(raw, ObjectType::Table, seq![table]) ==> (comments_on(
            raw,
            ObjectType::Table,
            key,
        ) <==> key == table),
        comment_names(raw, ObjectType::Table, seq![schema, table]) ==> (comments_on(
            raw,
            ObjectType::Table,
            key,
        ) <==> key == qualified_key_spec(schema, table)),
        comment_names(raw, ObjectType::Column, seq![table, column]) ==> (comments_on(
            raw,
            ObjectType::Column,
            key,
        ) <==> key == table + "."@ + column),
        comment_names(raw, ObjectType::Column, seq![schema, table, column]) ==> (comments_on(
            raw,
            ObjectType::Column,
            key,
        ) <==> key == qualified_key_spec(schema, table) + "."@ + column),
        raw.stmt matches Some(Node::CommentStmt(c)) && c.objtype != ObjectType::Column
            ==> !comments_on(raw, ObjectType::Column, key),
        raw.stmt matches Some(Node::CommentStmt(c)) && c.objtype != ObjectType::Table
            ==> !comments_on(raw, ObjectType::Table, key),
        !(raw.stmt matches Some(Node::CommentStmt(_))) ==> !comments_on(
            raw,
            ObjectType::Table,
            key,
        ) && !comments_on(raw, ObjectType::Column, key),
{
    if let Some(Node::CommentStmt(c)) = raw.stmt {
        if let Some(o) = c.object {
            if let Node::List(items) = *o {
                let a = seq![table];
                let b = seq![schema, table];
                let d = seq![table, column];
                let e = seq![schema, table, column];
                assert(d.drop_last() =~= a);
                assert(e.drop_last() =~= b);
                if comment_names(raw, ObjectType::Table, a) {
                    lemma_name_parts(items@, a);
                }
                if comment_names(raw, ObjectType::Table, b) {
                    lemma_name_parts(items@, b);
                }
                if comment_names(raw, ObjectType::Column, d) {
                    lemma_name_parts(items@, d);
                }
                if comment_names(raw, ObjectType::Column, e) {
                    lemma_name_parts(items@, e);
                }
            }
        }
    }
}

proof fn lemma_column_remarks(
    stmts: Seq<RawStmt>,
    i: int,
    table: Seq<char>,
    cols: Seq<ColumnDef>,
    r: (int, Seq<char>),
)
    ensures
        column_remarks(stmts, i, table, cols).contains(r) <==> exists|k: int|
            0 <= k < cols.len() && r == (i, "The column `"@ + (table + "."@ + (
            #[trigger] cols[k]).colname@) + "` has no COMMENT."@) && !is_commented(
                stmts,
                ObjectType::Column,
                table + "."@ + cols[k].colname@,
            ),
    decreases cols.len(),
{
    if cols.len() > 0 {
        let init = cols.drop_last();
        let last = cols.last();
        lemma_column_remarks(stmts, i, table, init, r);
        let before = column_remarks(stmts, i, table, init);
        let key = table + "."@ + last.colname@;
        lemma_push_contains(before, (i, "The column `"@ + key + "` has no COMMENT."@), r);
        assert(forall|k: int| 0 <= k < init.len() ==> #[trigger] init[k] == cols[k]);
        assert(cols[cols.len() - 1] == last);
        if before.contains(r) {
            let k = choose|k: int|
                0 <= k < init.len() && r == (i, "The column `"@ + (table + "."@ + (
                #[trigger] init[k]).colname@) + "` has no COMMENT."@) && !is_commented(
                    stmts,
                    ObjectType::Column,
                    table + "."@ + init[k].colname@,
                );
            assert(cols[k] == init[k]);
        }
        if exists|k: int|
            0 <= k < cols.len() && r == (i, "The column `"@ + (table + "."@ + (
            #[trigger] cols[k]).colname@) + "` has no COMMENT."@) && !is_commented(
                stmts,
                ObjectType::Column,
                table + "."@ + cols[k].colname@,
            ) {
            let k = choose|k: int|
                0 <= k < cols.len() && r == (i, "The column `"@ + (table + "."@ + (
                #[trigger] cols[k]).colname@) + "` has no COMMENT."@) && !is_commented(
                    stmts,
                    ObjectType::Column,
                    table + "."@ + cols[k].colname@,
                );
            if k < init.len() {
                assert(init[k] == cols[k]);
            }
        }
    } else {
        assert(!column_remarks(stmts, i, table, cols).contains(r));
    }
}

/// A table or column is remarked on exactly if a statement introduces it and no statement of the
/// migration comments on it; one added to an existing table asks nothing of the table itself.
pub proof fn uncommented_objects_are_flagged(stmts: Seq<RawStmt>, n: int, r: (int, Seq<char>))
    requires
        0 <= n <= stmts.len(),
    ensures
        missing_comments_spec(stmts, n).contains(r) <==> 0 <= r.0 < n && {
            ||| exists|table: Seq<char>| #[trigger]
                creates_lasting_table(stmts[r.0], table) && r.1 == "The table `"@ + table
                    + "` has no COMMENT."@ && forall|j: int|
                    0 <= j < stmts.len() ==> !comments_on(
                        #[trigger] stmts[j],
                        ObjectType::Table,
                        table,
                    )
            ||| exists|table: Seq<char>, c: ColumnDef| #[trigger]
                brings_column(stmts[r.0], table, c) && r.1 == "The column `"@ + (table + "."@
                    + c.colname@) + "` has no COMMENT."@ && forall|j: int|
                    0 <= j < stmts.len() ==> !comments_on(
                        #[trigger] stmts[j],
                        ObjectType::Column,
                        table + "."@ + c.colname@,
                    )
        },
    decreases n,
{
    if n > 0 {
        uncommented_objects_are_flagged(stmts, n - 1, r);
        let before = missing_comments_spec(stmts, n - 1);
        let more = comment_remarks(stmts, n - 1);
        lemma_concat_contains(before, more, r);
        let found = match stmts[n - 1].stmt {
            Some(x) => crate::require_comment::introduced_table_spec(x),
            None => None,
        };
        if let Some((table, fresh)) = found {
            let node = stmts[n - 1].stmt->0;
            let cols = defined_columns_spec(node);
            let x = (n - 1, "The table `"@ + table + "` has no COMMENT."@);
            let own = if fresh && !is_commented(stmts, ObjectType::Table, table) {
                seq![x]
            } else {
                Seq::empty()
            };
            let rest = column_remarks(stmts, n - 1, table, cols);
            lemma_concat_contains(own, rest, r);
            lemma_column_remarks(stmts, n - 1, table, cols, r);
            assert(fresh <==> creates_lasting_table(stmts[n - 1], table));
            assert(forall|t: Seq<char>| #[trigger]
                creates_lasting_table(stmts[n - 1], t) ==> t == table);
            assert(is_commented(stmts, ObjectType::Table, table) <==> exists|j: int|
                0 <= j < stmts.len() && comments_on(#[trigger] stmts[j], ObjectType::Table, table));
            if own.contains(r) {
                assert(own[0] == x);
                assert(creates_lasting_table(stmts[r.0], table));
            }
            if r == x && fresh && !is_commented(stmts, ObjectType::Table, table) {
                assert(own[0] == r);
            }
            if rest.contains(r) {
                let k = choose|k: int|
                    0 <= k < cols.len() && r == (n - 1, "The column `"@ + (table + "."@ + (
                    #[trigger] cols[k]).colname@) + "` has no COMMENT."@) && !is_commented(
                        stmts,
                        ObjectType::Column,
                        table + "."@ + cols[k].colname@,
                    );
                a_statement_defines_its_columns(node, cols[k]);
                assert(cols.contains(cols[k]));
                assert(brings_column(stmts[n - 1], table, cols[k]));
            }
            assert forall|t: Seq<char>, c: ColumnDef|
                r.0 == n - 1 && #[trigger] brings_column(stmts[r.0], t, c) && r.1 == "The column `"@
                    + (t + "."@ + c.colname@) + "` has no COMMENT."@ && (forall|j: int|
                    0 <= j < stmts.len() ==> !comments_on(
                        #[trigger] stmts[j],
                        ObjectType::Column,
                        t + "."@ + c.colname@,
                    )) implies rest.contains(r) by {
                assert(t == table);
                a_statement_defines_its_columns(node, c);
                let k = choose|k: int| 0 <= k < cols.len() && cols[k] == c;
                assert(!is_commented(stmts, ObjectType::Column, table + "."@ + cols[k].colname@));
            }
        } else {
            assert(!more.contains(r));
            assert(forall|t: Seq<char>| !#[trigger] creates_lasting_table(stmts[n - 1], t));
            assert(forall|t: Seq<char>, c: ColumnDef|
                !#[trigger] brings_column(stmts[n - 1], t, c));
        }
    } else {
        assert(!missing_comments_spec(stmts, n).contains(r));
    }
}

} // verus!
