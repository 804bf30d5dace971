//! Where the fixes of the rules land in a statement, and what they make of it.
use vstd::prelude::*;
use vstd::utf8::{
    encode_utf8, encode_utf8_decode_utf8, encode_utf8_valid_utf8, is_ascii_chars,
    is_ascii_chars_encode_utf8, is_char_boundary_start_end_of_seq,
};

use crate::ast::{
    AlterTableCmd, AlterTableType, ColumnDef, ConstrType, Constraint, Node, ObjectType, RawStmt,
    ReindexObjectType,
};
use crate::finding::{FindingView, FixEditView, RuleHitView};
use crate::fix::{
    anchor_span, apply_spec, dot_follows, first_keyword_at, is_word_byte_spec, keyword_at,
    keyword_end_spec,
    lower_byte_spec, resolve_spec, resolved_edit, resolved_edits, single_edit, sort_ascending,
    splice_all, splice_spec, word_prefix, FixAnchorView, FixDraftView,
};
use crate::fix_laws::lemma_seam_is_boundary;
use crate::rules::add_check_without_not_valid::AddCheckWithoutNotValid;
use crate::rules::add_domain_constraint_without_not_valid::AddDomainConstraintWithoutNotValid;
use crate::rules::add_fk_without_not_valid::AddFkWithoutNotValid;
use crate::rules::add_index_non_concurrent::AddIndexNonConcurrent;
use crate::rules::detach_partition_non_concurrent::{count_detaches, DetachPartitionNonConcurrent};
use crate::rules::drop_index_non_concurrent::DropIndexNonConcurrent;
use crate::rules::prefer_bigint_primary_key::{
    inline_key, is_small_int, is_small_serial, small_key_hits, PreferBigintPrimaryKey,
};
use crate::rules::prefer_jsonb::{json_hits, PreferJsonb};
use crate::rules::reindex_non_concurrent::ReindexNonConcurrent;
use crate::rules::{
    added_columns_of, added_constraints_of, alter_table_cmds_spec, cmds_of, column_base_type_spec,
    columns_being_added_spec, columns_of, constraints_being_added_spec, count_constraints_spec,
    defined_columns_spec, Rule,
};
use crate::text::{is_byte_range, lemma_encode_concat, lower_text, slice_bytes, trim_start_spec};
use crate::tree_laws::{
    a_column_carries_its_constraints, carries, is_set, options_are_read_by_name,
};
use crate::txn::{in_transaction, withdrawn};

verus! {

/// What a drafted fix makes of `before + stmt + after`, where it is about `stmt`.
pub open spec fn fixed(
    draft: Option<FixDraftView>,
    before: Seq<char>,
    stmt: Seq<char>,
    after: Seq<char>,
) -> Option<Seq<char>> {
    let sql = before + stmt + after;
    let start = encode_utf8(before).len() as int;
    let end = start + encode_utf8(stmt).len();
    match draft {
        Some(d) => match resolve_spec(d, sql, start, end) {
            Some(fix) => Some(apply_spec(sql, fix.edits)),
            None => None,
        },
        None => None,
    }
}

/// Whether the offsets of a text fit in 32 bits.
pub open spec fn is_small(before: Seq<char>, stmt: Seq<char>, after: Seq<char>) -> bool {
    encode_utf8(before + stmt + after).len() <= u32::MAX
}

/// Where the parts of a text stand in its encoding.
pub proof fn lemma_parts(a: Seq<char>, b: Seq<char>, c: Seq<char>)
    ensures
        encode_utf8(a + b + c) == encode_utf8(a) + encode_utf8(b) + encode_utf8(c),
        is_byte_range(
            a + b + c,
            encode_utf8(a).len() as int,
            encode_utf8(a).len() as int + encode_utf8(b).len(),
        ),
        is_byte_range(a + b + c, 0, encode_utf8(a).len() as int),
        is_byte_range(
            a + b + c,
            encode_utf8(a).len() as int + encode_utf8(b).len(),
            encode_utf8(a + b + c).len() as int,
        ),
        slice_bytes(a + b + c, 0, encode_utf8(a).len() as int) == a,
        slice_bytes(
            a + b + c,
            encode_utf8(a).len() as int + encode_utf8(b).len(),
            encode_utf8(a + b + c).len() as int,
        ) == c,
{
    lemma_encode_concat(a + b, c);
    lemma_encode_concat(a, b);
    let x = encode_utf8(a);
    let y = encode_utf8(b);
    let z = encode_utf8(c);
    let all = encode_utf8(a + b + c);
    encode_utf8_valid_utf8(a);
    encode_utf8_valid_utf8(b);
    encode_utf8_valid_utf8(c);
    encode_utf8_valid_utf8(a + b);
    encode_utf8_valid_utf8(a + b + c);
    assert(all =~= x + (y + z));
    lemma_encode_concat(b, c);
    encode_utf8_valid_utf8(b + c);
    lemma_seam_is_boundary(x, y + z);
    lemma_seam_is_boundary(x + y, z);
    is_char_boundary_start_end_of_seq(all);
    assert(all.subrange(0, x.len() as int) =~= x);
    assert(all.subrange(x.len() as int + y.len(), all.len() as int) =~= z);
    encode_utf8_decode_utf8(a);
    encode_utf8_decode_utf8(c);
}

proof fn lemma_one_edit(
    title: Seq<char>,
    anchor: FixAnchorView,
    text: Seq<char>,
    sql: Seq<char>,
    start: int,
    end: int,
    s: int,
    t: int,
)
    requires
        anchor_span(anchor, sql, start, end) == Some((s, t)),
        s <= u32::MAX,
        t <= u32::MAX,
    ensures
        resolve_spec(single_edit(title, anchor, text), sql, start, end) matches Some(fix)
            && fix.title == title && apply_spec(sql, fix.edits) == splice_spec(sql, s, t, text),
{
    let d = single_edit(title, anchor, text);
    let e = FixEditView { start: s, end: t, replacement: text };
    assert(resolved_edit(d.edits[0], sql, start, end) == Some(e));
    let es = resolved_edits(d, sql, start, end);
    assert(es =~= seq![e]);
    lemma_one_sorted(e);
    lemma_one_sorted(e);
    assert(seq![e].reverse() =~= seq![e]);
    assert(seq![e].drop_first() =~= Seq::<FixEditView>::empty());
    reveal_with_fuel(splice_all, 2);
}

proof fn lemma_one_sorted(e: FixEditView)
    ensures
        sort_ascending(seq![e]) == seq![e],
{
    assert(seq![e].drop_last() =~= Seq::<FixEditView>::empty());
    assert(sort_ascending(Seq::<FixEditView>::empty()) == Seq::<FixEditView>::empty());
    assert(Seq::<FixEditView>::empty().push(e) =~= seq![e]);
}

/// A fix at the end of a statement appends its text to the statement, and leaves what stands around
/// it alone.
pub proof fn a_suffix_lands_behind_the_statement(
    title: Seq<char>,
    text: Seq<char>,
    before: Seq<char>,
    stmt: Seq<char>,
    after: Seq<char>,
)
    requires
        is_small(before, stmt, after),
    ensures
        fixed(
            Some(single_edit(title, FixAnchorView::StatementBodyEnd, text)),
            before,
            stmt,
            after,
        ) == Some(before + stmt + text + after),
{
    reveal(anchor_span);
    let empty = Seq::<char>::empty();
    let sql = before + stmt + after;
    lemma_parts(before, stmt, after);
    lemma_parts(before + stmt, empty, after);
    assert(before + stmt + empty + after =~= sql);
    lemma_encode_concat(before, stmt);
    let start = encode_utf8(before).len() as int;
    let end = start + encode_utf8(stmt).len();
    lemma_one_edit(
        title,
        FixAnchorView::StatementBodyEnd,
        text,
        sql,
        start,
        end,
        end,
        end,
    );
}

/// A fix at the start of a statement puts its text before the statement.
pub proof fn a_prologue_lands_before_the_statement(
    title: Seq<char>,
    text: Seq<char>,
    before: Seq<char>,
    stmt: Seq<char>,
    after: Seq<char>,
)
    requires
        is_small(before, stmt, after),
    ensures
        fixed(
            Some(single_edit(title, FixAnchorView::StatementStart, text)),
            before,
            stmt,
            after,
        ) == Some(before + text + stmt + after),
{
    reveal(anchor_span);
    let empty = Seq::<char>::empty();
    let sql = before + stmt + after;
    lemma_parts(before, stmt, after);
    lemma_parts(before, empty, stmt + after);
    assert(before + empty + (stmt + after) =~= sql);
    let start = encode_utf8(before).len() as int;
    let end = start + encode_utf8(stmt).len();
    lemma_one_edit(
        title,
        FixAnchorView::StatementStart,
        text,
        sql,
        start,
        end,
        start,
        start,
    );
    assert(before + text + (stmt + after) =~= before + text + stmt + after);
}

/// A fix behind a keyword puts its text right behind the first place where the keyword stands.
proof fn lemma_behind_keyword(
    title: Seq<char>,
    kw: Seq<char>,
    text: Seq<char>,
    before: Seq<char>,
    head: Seq<char>,
    word: Seq<char>,
    rest: Seq<char>,
    after: Seq<char>,
)
    requires
        is_small(before, head + word + rest, after),
        encode_utf8(word).len() == encode_utf8(kw).len(),
        first_keyword_at(
            encode_utf8(head + word + rest),
            encode_utf8(kw),
            encode_utf8(head).len() as int,
        ),
    ensures
        fixed(
            Some(single_edit(title, FixAnchorView::AfterKeyword(kw), text)),
            before,
            head + word + rest,
            after,
        ) == Some(before + head + word + text + rest + after),
{
    reveal(anchor_span);
    let empty = Seq::<char>::empty();
    let stmt = head + word + rest;
    let sql = before + stmt + after;
    lemma_parts(before, stmt, after);
    let start = encode_utf8(before).len() as int;
    let end = start + encode_utf8(stmt).len();
    let hay = encode_utf8(stmt);
    assert(encode_utf8(sql).subrange(start, end) =~= hay);
    let h = encode_utf8(head).len() as int;
    let k = encode_utf8(kw).len() as int;
    let c = choose|i: int| first_keyword_at(hay, encode_utf8(kw), i);
    assert(c == h) by {
        if c < h {
            assert(!keyword_at(hay, encode_utf8(kw), c));
        } else if h < c {
            assert(!keyword_at(hay, encode_utf8(kw), h));
        }
    }
    assert(keyword_end_spec(hay, encode_utf8(kw)) == Some(h + k));
    let front = before + head + word;
    lemma_parts(front, empty, rest + after);
    assert(front + empty + (rest + after) =~= sql);
    lemma_encode_concat(before + head, word);
    lemma_encode_concat(before, head);
    let at = start + h + k;
    assert(encode_utf8(front).len() == at);
    lemma_one_edit(
        title,
        FixAnchorView::AfterKeyword(kw),
        text,
        sql,
        start,
        end,
        at,
        at,
    );
    assert(front + text + (rest + after) =~= before + head + word + text + rest + after);
}

proof fn lemma_folded_bytes(s: Seq<char>)
    requires
        is_ascii_chars(s),
    ensures
        encode_utf8(s).len() == s.len(),
        forall|i: int|
            0 <= i < s.len() ==> lower_byte_spec(#[trigger] encode_utf8(s)[i]) == lower_text(
                s,
            )[i] as u8,
        forall|i: int| 0 <= i < s.len() ==> (#[trigger] encode_utf8(s)[i]) == s[i] as u8,
        is_ascii_chars(lower_text(s)),
        lower_text(s).len() == s.len(),
{
    is_ascii_chars_encode_utf8(s);
    assert forall|i: int| 0 <= i < s.len() implies lower_byte_spec(#[trigger] encode_utf8(s)[i])
        == lower_text(s)[i] as u8 by {
        assert('\0' <= s[i] <= '\u{7f}');
    }
    assert forall|i: int| 0 <= i < lower_text(s).len() implies '\0' <= #[trigger] lower_text(s)[i]
        <= '\u{7f}' by {
        assert('\0' <= s[i] <= '\u{7f}');
    }
}

/// Whether a text is the words, ASCII case aside.
pub open spec fn reads(s: Seq<char>, words: Seq<char>) -> bool {
    is_ascii_chars(s) && lower_text(s) == words
}

/// Where `head` and `word` read as two words with a space between and the keyword is the second,
/// it stands there as a whole word.
proof fn lemma_stands(head: Seq<char>, word: Seq<char>, rest: Seq<char>, kw: Seq<char>)
    requires
        is_ascii_chars(head),
        head.len() > 0,
        head.last() == ' ',
        is_ascii_chars(word),
        is_ascii_chars(kw),
        lower_text(word) == lower_text(kw),
        rest.len() == 0 || rest[0] == ' ',
    ensures
        encode_utf8(word).len() == encode_utf8(kw).len(),
        encode_utf8(head).len() == head.len(),
        keyword_at(encode_utf8(head + word + rest), encode_utf8(kw), head.len() as int),
        forall|i: int|
            0 <= i < head.len() ==> (#[trigger] encode_utf8(head + word + rest)[i]) == head[i] as u8
                && lower_byte_spec(encode_utf8(head + word + rest)[i]) == lower_text(
                head,
            )[i] as u8,
{
    lemma_folded_bytes(head);
    lemma_folded_bytes(word);
    lemma_folded_bytes(kw);
    lemma_encode_concat(head + word, rest);
    lemma_encode_concat(head, word);
    let hay = encode_utf8(head + word + rest);
    let x = encode_utf8(head);
    let y = encode_utf8(word);
    let z = encode_utf8(rest);
    let k = encode_utf8(kw);
    let n = head.len() as int;
    assert(hay == x + y + z);
    assert forall|i: int| 0 <= i < k.len() implies lower_byte_spec(#[trigger] hay[n + i])
        == lower_byte_spec(k[i]) by {
        assert(hay[n + i] == y[i]);
        assert(lower_text(word)[i] == lower_text(kw)[i]);
    }
    assert(hay[n - 1] == x[n - 1]);
    assert(x[n - 1] == ' ' as u8);
    if rest.len() > 0 {
        assert(rest =~= seq![rest[0]] + rest.drop_first());
        lemma_encode_concat(seq![rest[0]], rest.drop_first());
        assert(is_ascii_chars(seq![rest[0]]));
        is_ascii_chars_encode_utf8(seq![rest[0]]);
        assert(z[0] == encode_utf8(seq![rest[0]])[0]);
        assert(seq![rest[0]][0] == ' ');
        assert(hay[n + k.len()] == z[0]);
    } else {
        assert(rest =~= Seq::<char>::empty());
        assert(z.len() == 0);
    }
    assert forall|i: int| 0 <= i < head.len() implies (#[trigger] hay[i]) == head[i] as u8
        && lower_byte_spec(hay[i]) == lower_text(head)[i] as u8 by {
        assert(hay[i] == x[i]);
    }
}

/// The word for what a `REINDEX` rebuilds, where it can be rebuilt concurrently.
pub open spec fn is_kind_word(kind: ReindexObjectType, word: Seq<char>) -> bool {
    ||| kind == ReindexObjectType::Index && word == "index"@
    ||| kind == ReindexObjectType::Table && word == "table"@
    ||| kind == ReindexObjectType::Schema && word == "schema"@
    ||| kind == ReindexObjectType::Database && word == "database"@
}

proof fn lemma_reindex_first(head: Seq<char>, word: Seq<char>, rest: Seq<char>, kw: Seq<char>)
    requires
        reads(head, "reindex "@),
        is_ascii_chars(word),
        is_ascii_chars(kw),
        lower_text(word) == lower_text(kw),
        lower_text(kw) == "index"@ || lower_text(kw) == "table"@ || lower_text(kw) == "schema"@
            || lower_text(kw) == "database"@,
        rest.len() == 0 || rest[0] == ' ',
    ensures
        encode_utf8(word).len() == encode_utf8(kw).len(),
        first_keyword_at(
            encode_utf8(head + word + rest),
            encode_utf8(kw),
            encode_utf8(head).len() as int,
        ),
{
    reveal_strlit("reindex ");
    reveal_strlit("index");
    reveal_strlit("table");
    reveal_strlit("schema");
    reveal_strlit("database");
    assert(lower_text(head).len() == head.len());
    assert(lower_text(head)[7] == ' ');
    assert(head[7] == ' ');
    lemma_stands(head, word, rest, kw);
    lemma_folded_bytes(kw);
    let hay = encode_utf8(head + word + rest);
    let k = encode_utf8(kw);
    assert forall|j: int| 0 <= j < 8 implies !#[trigger] keyword_at(hay, k, j) by {
        assert(hay[j] == head[j] as u8);
        if keyword_at(hay, k, j) {
            assert(lower_byte_spec(hay[j + 0]) == lower_byte_spec(k[0]));
            assert(lower_text(head)[j] as u8 == lower_text(kw)[0] as u8);
            if lower_text(kw) == "index"@ {
                assert(j == 2);
                assert(hay[1] == head[1] as u8);
                assert(lower_text(head)[1] == 'e');
                assert(is_word_byte_spec(hay[1]));
            } else if lower_text(kw) == "database"@ {
                assert(j == 4);
                assert(lower_byte_spec(hay[j + 1]) == lower_byte_spec(k[1]));
                assert(hay[5] == head[5] as u8);
                assert(lower_text(head)[5] == 'e');
            }
        }
    }
}

/// A `REINDEX` of an index, a table, a schema or a database is fixed by `CONCURRENTLY` right behind
/// the word that names what it rebuilds: `REINDEX TABLE x` becomes `REINDEX TABLE CONCURRENTLY x`.
pub proof fn reindex_is_made_concurrent_behind_its_kind(
    node: Node,
    before: Seq<char>,
    head: Seq<char>,
    word: Seq<char>,
    rest: Seq<char>,
    after: Seq<char>,
)
    requires
        node matches Node::ReindexStmt(r) && !is_set(r.params@, "concurrently"@) && is_kind_word(
            r.kind,
            lower_text(word),
        ),
        reads(head, "reindex "@),
        is_ascii_chars(word),
        rest.len() == 0 || rest[0] == ' ',
        is_small(before, head + word + rest, after),
    ensures
        ReindexNonConcurrent.hits(node).len() == 1,
        fixed(ReindexNonConcurrent.hits(node)[0].fix, before, head + word + rest, after) == Some(
            before + head + word + " CONCURRENTLY"@ + rest + after,
        ),
{
    let r = node->ReindexStmt_0;
    options_are_read_by_name(r.params@, "concurrently"@);
    reveal_strlit("index");
    reveal_strlit("table");
    reveal_strlit("schema");
    reveal_strlit("database");
    reveal_strlit("INDEX");
    reveal_strlit("TABLE");
    reveal_strlit("SCHEMA");
    reveal_strlit("DATABASE");
    let kw = match r.kind {
        ReindexObjectType::Index => "INDEX"@,
        ReindexObjectType::Table => "TABLE"@,
        ReindexObjectType::Schema => "SCHEMA"@,
        _ => "DATABASE"@,
    };
    assert(lower_text("INDEX"@) =~= "index"@);
    assert(lower_text("TABLE"@) =~= "table"@);
    assert(lower_text("SCHEMA"@) =~= "schema"@);
    assert(lower_text("DATABASE"@) =~= "database"@);
    lemma_reindex_first(head, word, rest, kw);
    lemma_behind_keyword(
        "Add CONCURRENTLY"@,
        kw,
        " CONCURRENTLY"@,
        before,
        head,
        word,
        rest,
        after,
    );
}

/// A `REINDEX SYSTEM`, which has no concurrent form, is reported without a fix.
pub proof fn reindex_of_the_system_has_no_fix(node: Node)
    requires
        node matches Node::ReindexStmt(r) && (r.kind == ReindexObjectType::System || r.kind
            == ReindexObjectType::Undefined) && !is_set(r.params@, "concurrently"@),
    ensures
        ReindexNonConcurrent.hits(node).len() == 1,
        ReindexNonConcurrent.hits(node)[0].fix is None,
{
    options_are_read_by_name(node->ReindexStmt_0.params@, "concurrently"@);
}

proof fn lemma_index_first(head: Seq<char>, word: Seq<char>, rest: Seq<char>)
    requires
        reads(head, "create "@) || reads(head, "create unique "@) || reads(head, "drop "@),
        reads(word, "index"@),
        rest.len() == 0 || rest[0] == ' ',
    ensures
        encode_utf8(word).len() == encode_utf8("INDEX"@).len(),
        first_keyword_at(
            encode_utf8(head + word + rest),
            encode_utf8("INDEX"@),
            encode_utf8(head).len() as int,
        ),
{
    reveal_strlit("create ");
    reveal_strlit("create unique ");
    reveal_strlit("drop ");
    reveal_strlit("index");
    reveal_strlit("INDEX");
    let kw = "INDEX"@;
    let folded = lower_text(head);
    let n = head.len() as int;
    assert(folded.len() == n);
    assert(folded[n - 1] == ' ');
    assert(head[n - 1] == ' ');
    assert(lower_text(kw) =~= "index"@);
    lemma_stands(head, word, rest, kw);
    lemma_folded_bytes(kw);
    let hay = encode_utf8(head + word + rest);
    let k = encode_utf8(kw);
    assert forall|j: int| 0 <= j < n implies !#[trigger] keyword_at(hay, k, j) by {
        assert(hay[j] == head[j] as u8);
        if keyword_at(hay, k, j) {
            assert(lower_byte_spec(hay[j + 0]) == lower_byte_spec(k[0]));
            assert(lower_text(kw)[0] == 'i');
            assert(folded[j] as u8 == 'i' as u8);
            assert(j == 9);
            assert(lower_byte_spec(hay[j + 1]) == lower_byte_spec(k[1]));
            assert(hay[10] == head[10] as u8);
            assert(folded[10] == 'q');
        }
    }
}

/// A `CREATE INDEX` or `CREATE UNIQUE INDEX` is fixed by `CONCURRENTLY` right behind `INDEX`.
pub proof fn create_index_is_made_concurrent(
    node: Node,
    before: Seq<char>,
    head: Seq<char>,
    word: Seq<char>,
    rest: Seq<char>,
    after: Seq<char>,
)
    requires
        node matches Node::IndexStmt(x) && !x.concurrent,
        reads(head, "create "@) || reads(head, "create unique "@),
        reads(word, "index"@),
        rest.len() == 0 || rest[0] == ' ',
        is_small(before, head + word + rest, after),
    ensures
        AddIndexNonConcurrent.hits(node).len() == 1,
        fixed(AddIndexNonConcurrent.hits(node)[0].fix, before, head + word + rest, after) == Some(
            before + head + word + " CONCURRENTLY"@ + rest + after,
        ),
{
    lemma_index_first(head, word, rest);
    lemma_behind_keyword(
        "Add CONCURRENTLY"@,
        "INDEX"@,
        " CONCURRENTLY"@,
        before,
        head,
        word,
        rest,
        after,
    );
}

/// A `DROP INDEX` of one index is fixed by `CONCURRENTLY` right behind `INDEX`; one of several, which
/// PostgreSQL cannot drop concurrently, has no fix.
pub proof fn drop_index_is_made_concurrent(
    node: Node,
    before: Seq<char>,
    head: Seq<char>,
    word: Seq<char>,
    rest: Seq<char>,
    after: Seq<char>,
)
    requires
        node matches Node::DropStmt(d) && d.remove_type == ObjectType::Index && !d.concurrent,
        reads(head, "drop "@),
        reads(word, "index"@),
        rest.len() == 0 || rest[0] == ' ',
        is_small(before, head + word + rest, after),
    ensures
        DropIndexNonConcurrent.hits(node).len() == 1,
        fixed(DropIndexNonConcurrent.hits(node)[0].fix, before, head + word + rest, after) == (if (
        node->DropStmt_0).objects@.len() == 1 {
            Some(before + head + word + " CONCURRENTLY"@ + rest + after)
        } else {
            None
        }),
{
    lemma_index_first(head, word, rest);
    lemma_behind_keyword(
        "Add CONCURRENTLY"@,
        "INDEX"@,
        " CONCURRENTLY"@,
        before,
        head,
        word,
        rest,
        after,
    );
}

/// Whether an `ALTER TABLE` has one command, and that adds a constraint of a kind that is validated at
/// once.
pub open spec fn adds_one_constraint(node: Node, kind: ConstrType) -> bool {
    node matches Node::AlterTableStmt(a) && a.cmds@.len() == 1 && (
    a.cmds@[0] matches Node::AlterTableCmd(c) && c.subtype == AlterTableType::AddConstraint && (
    c.def matches Some(d) && (*d matches Node::Constraint(k) && k.contype == kind
        && !k.skip_validation)))
}

proof fn lemma_one_command(node: Node)
    requires
        node matches Node::AlterTableStmt(a) && a.cmds@.len() == 1 && a.cmds@[0] is AlterTableCmd,
    ensures
        alter_table_cmds_spec(node) == seq![(node->AlterTableStmt_0).cmds@[0]->AlterTableCmd_0],
{
    let a = node->AlterTableStmt_0;
    assert(a.cmds@.drop_last() =~= Seq::<Node>::empty());
    assert(a.cmds@.last() == a.cmds@[0]);
    assert(cmds_of(Seq::<Node>::empty()) =~= Seq::<AlterTableCmd>::empty());
    assert(Seq::<AlterTableCmd>::empty().push(a.cmds@[0]->AlterTableCmd_0) =~= seq![
        a.cmds@[0]->AlterTableCmd_0,
    ]);
}

proof fn lemma_one_constraint(node: Node, kind: ConstrType)
    requires
        adds_one_constraint(node, kind),
    ensures
        alter_table_cmds_spec(node).len() == 1,
        count_constraints_spec(constraints_being_added_spec(node), kind, true) == 1,
        columns_being_added_spec(node).len() == 0,
{
    lemma_one_command(node);
    let a = node->AlterTableStmt_0;
    let c = a.cmds@[0]->AlterTableCmd_0;
    let k = (*(c.def->0))->Constraint_0;
    let cmds = seq![c];
    assert(cmds.drop_last() =~= Seq::<AlterTableCmd>::empty());
    assert(cmds.last() == c);
    assert(added_constraints_of(Seq::<AlterTableCmd>::empty()) =~= Seq::<Constraint>::empty());
    assert(added_constraints_of(cmds) =~= seq![k]);
    assert(seq![k].drop_last() =~= Seq::<Constraint>::empty());
    assert(seq![k].last() == k);
    assert(count_constraints_spec(Seq::<Constraint>::empty(), kind, true) == 0);
    assert(added_columns_of(Seq::<AlterTableCmd>::empty()) =~= Seq::<ColumnDef>::empty());
    assert(added_columns_of(cmds) == added_columns_of(cmds.drop_last()));
}

/// An `ALTER TABLE` that only adds a `CHECK` or a foreign key is fixed by `NOT VALID` behind it, and so
/// is an `ALTER DOMAIN` that adds a `CHECK`.
pub proof fn a_constraint_is_made_not_valid(
    node: Node,
    before: Seq<char>,
    stmt: Seq<char>,
    after: Seq<char>,
)
    requires
        is_small(before, stmt, after),
    ensures
        adds_one_constraint(node, ConstrType::Check) ==> AddCheckWithoutNotValid.hits(node).len()
            == 1 && fixed(AddCheckWithoutNotValid.hits(node)[0].fix, before, stmt, after) == Some(
            before + stmt + " NOT VALID"@ + after,
        ),
        adds_one_constraint(node, ConstrType::Foreign) ==> AddFkWithoutNotValid.hits(node).len()
            == 1 && fixed(AddFkWithoutNotValid.hits(node)[0].fix, before, stmt, after) == Some(
            before + stmt + " NOT VALID"@ + after,
        ),
        AddDomainConstraintWithoutNotValid.hits(node).len() > 0 ==> fixed(
            AddDomainConstraintWithoutNotValid.hits(node)[0].fix,
            before,
            stmt,
            after,
        ) == Some(before + stmt + " NOT VALID"@ + after),
{
    a_suffix_lands_behind_the_statement("Add NOT VALID"@, " NOT VALID"@, before, stmt, after);
    if adds_one_constraint(node, ConstrType::Check) {
        lemma_one_constraint(node, ConstrType::Check);
    }
    if adds_one_constraint(node, ConstrType::Foreign) {
        lemma_one_constraint(node, ConstrType::Foreign);
    }
}

/// An `ALTER TABLE` that only detaches a partition is fixed by `CONCURRENTLY` behind it.
pub proof fn a_detach_is_made_concurrent(
    node: Node,
    before: Seq<char>,
    stmt: Seq<char>,
    after: Seq<char>,
)
    requires
        is_small(before, stmt, after),
        node matches Node::AlterTableStmt(a) && a.cmds@.len() == 1 && (
        a.cmds@[0] matches Node::AlterTableCmd(c) && c.subtype == AlterTableType::DetachPartition
            && (c.def matches Some(d) && (*d matches Node::PartitionCmd(p) && !p.concurrent))),
    ensures
        DetachPartitionNonConcurrent.hits(node).len() == 1,
        fixed(DetachPartitionNonConcurrent.hits(node)[0].fix, before, stmt, after) == Some(
            before + stmt + " CONCURRENTLY"@ + after,
        ),
{
    a_suffix_lands_behind_the_statement("Add CONCURRENTLY"@, " CONCURRENTLY"@, before, stmt, after);
    lemma_one_command(node);
    let a = node->AlterTableStmt_0;
    let c = a.cmds@[0]->AlterTableCmd_0;
    let cmds = seq![c];
    assert(cmds.drop_last() =~= Seq::<AlterTableCmd>::empty());
    assert(cmds.last() == c);
    assert(count_detaches(Seq::<AlterTableCmd>::empty()) == 0);
}

/// Where a statement has several commands, a suffix would land behind the last of them, so no fix is
/// offered.
pub proof fn several_commands_have_no_suffix(node: Node, i: int)
    requires
        node matches Node::AlterTableStmt(a) && a.cmds@.len() > 1 && forall|k: int|
            0 <= k < a.cmds@.len() ==> (#[trigger] a.cmds@[k]) is AlterTableCmd,
    ensures
        0 <= i < AddCheckWithoutNotValid.hits(node).len() ==> AddCheckWithoutNotValid.hits(
            node,
        )[i].fix is None,
        0 <= i < AddFkWithoutNotValid.hits(node).len() ==> AddFkWithoutNotValid.hits(node)[i].fix
            is None,
        0 <= i < DetachPartitionNonConcurrent.hits(node).len()
            ==> DetachPartitionNonConcurrent.hits(node)[i].fix is None,
{
    lemma_all_commands((node->AlterTableStmt_0).cmds@);
}

proof fn lemma_all_commands(ns: Seq<Node>)
    requires
        forall|k: int| 0 <= k < ns.len() ==> (#[trigger] ns[k]) is AlterTableCmd,
    ensures
        cmds_of(ns).len() == ns.len(),
    decreases ns.len(),
{
    if ns.len() > 0 {
        assert(forall|k: int|
            0 <= k < ns.drop_last().len() ==> #[trigger] ns.drop_last()[k] == ns[k]);
        lemma_all_commands(ns.drop_last());
        assert(ns[ns.len() - 1] == ns.last());
    }
}

/// Whether a text is one bare word: ASCII letters, digits and underscores.
pub open spec fn is_word(s: Seq<char>) -> bool {
    s.len() > 0 && forall|i: int|
        0 <= i < s.len() ==> {
            ||| '0' <= (#[trigger] s[i]) <= '9'
            ||| 'A' <= s[i] <= 'Z'
            ||| 'a' <= s[i] <= 'z'
            ||| s[i] == '_'
        }
}

/// Whether a text ends the word before it without qualifying it: it is empty, or begins with a comma,
/// a closing parenthesis, or a space and a letter.
pub open spec fn ends_word(s: Seq<char>) -> bool {
    ||| s.len() == 0
    ||| s[0] == ',' || s[0] == ')'
    ||| s.len() > 1 && s[0] == ' ' && ('A' <= s[1] <= 'Z' || 'a' <= s[1] <= 'z')
}

proof fn lemma_word_prefix_of(x: Seq<u8>, y: Seq<u8>)
    requires
        forall|i: int| 0 <= i < x.len() ==> is_word_byte_spec(#[trigger] x[i]),
        y.len() == 0 || !is_word_byte_spec(y[0]),
    ensures
        word_prefix(x + y) == x.len(),
    decreases x.len(),
{
    if x.len() == 0 {
        assert(x + y =~= y);
    } else {
        assert((x + y).drop_first() =~= x.drop_first() + y);
        assert((x + y)[0] == x[0]);
        assert(forall|i: int|
            0 <= i < x.drop_first().len() ==> #[trigger] x.drop_first()[i] == x[i + 1]);
        lemma_word_prefix_of(x.drop_first(), y);
    }
}

/// A fix of a word replaces the word.
pub proof fn lemma_token(
    title: Seq<char>,
    text: Seq<char>,
    a: Seq<char>,
    word: Seq<char>,
    b: Seq<char>,
    start: int,
    end: int,
)
    requires
        is_word(word),
        ends_word(b),
        encode_utf8(a + word + b).len() <= u32::MAX,
    ensures
        ({
            let d = single_edit(
                title,
                FixAnchorView::ReplaceTokenAt(encode_utf8(a).len() as int),
                text,
            );
            resolve_spec(d, a + word + b, start, end) matches Some(fix) && apply_spec(
                a + word + b,
                fix.edits,
            ) == a + text + b
        }),
{
    reveal(anchor_span);
    let sql = a + word + b;
    lemma_parts(a, word, b);
    let at = encode_utf8(a).len() as int;
    let n = encode_utf8(sql).len() as int;
    let w = encode_utf8(word);
    let z = encode_utf8(b);
    assert(is_ascii_chars(word)) by {
        assert forall|i: int| 0 <= i < word.len() implies '\0' <= #[trigger] word[i] <= '\u{7f}' by {}
    }
    is_ascii_chars_encode_utf8(word);
    assert(encode_utf8(sql).subrange(at, n) =~= w + z);
    assert forall|i: int| 0 <= i < w.len() implies is_word_byte_spec(#[trigger] w[i]) by {
        assert(word[i] as u8 == w[i]);
    }
    if b.len() > 0 {
        let first = seq![b[0]];
        assert(b =~= first + b.drop_first());
        lemma_encode_concat(first, b.drop_first());
        assert(is_ascii_chars(first));
        is_ascii_chars_encode_utf8(first);
        assert(first[0] as u8 == encode_utf8(first)[0]);
        assert(z[0] == encode_utf8(first)[0]);
        assert(!is_word_byte_spec(z[0]));
    } else {
        assert(b =~= Seq::<char>::empty());
    }
    lemma_word_prefix_of(w, z);
    assert(slice_bytes(sql, at + w.len(), n) == b);
    reveal_with_fuel(trim_start_spec, 3);
    if b.len() > 1 {
        assert(b.drop_first()[0] == b[1]);
    }
    assert(!dot_follows(sql, at + w.len()));
    assert(is_byte_range(sql, at, n)) by {
        encode_utf8_valid_utf8(sql);
        is_char_boundary_start_end_of_seq(encode_utf8(sql));
    }
    lemma_one_edit(
        title,
        FixAnchorView::ReplaceTokenAt(at),
        text,
        sql,
        start,
        end,
        at,
        at + w.len(),
    );
}

/// Whether a statement is a `CREATE TABLE` of one column, whose type stands in the source as `word`
/// behind `a`.
pub open spec fn has_one_column(
    node: Node,
    a: Seq<char>,
    word: Seq<char>,
    c: ColumnDef,
) -> bool {
    &&& node matches Node::CreateStmt(s) && s.table_elts@ == seq![Node::ColumnDef(c)]
    &&& c.coltype matches Some(t) && t.location == encode_utf8(a).len() && t.names@.len() > 0 && (
    t.names@[t.names@.len() - 1] matches Node::Str(name) && lower_text(name@) == lower_text(word))
}

/// A `json` column becomes one of type `jsonb`, in place.
pub proof fn a_json_column_becomes_jsonb(
    node: Node,
    c: ColumnDef,
    a: Seq<char>,
    word: Seq<char>,
    b: Seq<char>,
    before: Seq<char>,
    stmt: Seq<char>,
    after: Seq<char>,
)
    requires
        has_one_column(node, a, word, c),
        lower_text(word) == "json"@,
        is_word(word),
        ends_word(b),
        before + stmt + after == a + word + b,
        encode_utf8(a + word + b).len() <= u32::MAX,
    ensures
        PreferJsonb.hits(node).len() == 1,
        fixed(PreferJsonb.hits(node)[0].fix, before, stmt, after) == Some(a + "jsonb"@ + b),
{
    lemma_one_column(node, c);
    let start = encode_utf8(before).len() as int;
    lemma_token("Use jsonb"@, "jsonb"@, a, word, b, start, start + encode_utf8(stmt).len());
    assert(seq![c].drop_last() =~= Seq::<ColumnDef>::empty());
    assert(seq![c].last() == c);
    assert(json_hits(Seq::<ColumnDef>::empty()).len() == 0);
}

proof fn lemma_one_column(node: Node, c: ColumnDef)
    requires
        node matches Node::CreateStmt(s) && s.table_elts@ == seq![Node::ColumnDef(c)],
    ensures
        defined_columns_spec(node) == seq![c],
{
    let ns = seq![Node::ColumnDef(c)];
    assert(ns.drop_last() =~= Seq::<Node>::empty());
    assert(columns_of(Seq::<Node>::empty()) =~= Seq::<ColumnDef>::empty());
    assert(ns.last() == Node::ColumnDef(c));
    assert(Seq::<ColumnDef>::empty().push(c) =~= seq![c]);
}

/// A primary key of a small integer type becomes one of type `bigint`, or `bigserial` where it has a
/// sequence, in place.
pub proof fn a_small_key_becomes_big(
    node: Node,
    c: ColumnDef,
    a: Seq<char>,
    word: Seq<char>,
    b: Seq<char>,
    before: Seq<char>,
    stmt: Seq<char>,
    after: Seq<char>,
)
    requires
        has_one_column(node, a, word, c),
        carries(c, ConstrType::Primary),
        is_word(word),
        ends_word(b),
        before + stmt + after == a + word + b,
        encode_utf8(a + word + b).len() <= u32::MAX,
    ensures
        seq!["int"@, "integer"@, "int4"@, "int2"@, "smallint"@].contains(lower_text(word))
            ==> PreferBigintPrimaryKey.hits(node).len() == 1 && fixed(
            PreferBigintPrimaryKey.hits(node)[0].fix,
            before,
            stmt,
            after,
        ) == Some(a + "bigint"@ + b),
        seq!["serial"@, "serial4"@, "serial2"@, "smallserial"@].contains(lower_text(word))
            ==> PreferBigintPrimaryKey.hits(node).len() == 1 && fixed(
            PreferBigintPrimaryKey.hits(node)[0].fix,
            before,
            stmt,
            after,
        ) == Some(a + "bigserial"@ + b),
{
    let plain = seq!["int"@, "integer"@, "int4"@, "int2"@, "smallint"@];
    let serial = seq!["serial"@, "serial4"@, "serial2"@, "smallserial"@];
    let t = lower_text(word);
    lemma_one_column(node, c);
    a_column_carries_its_constraints(c, ConstrType::Primary);
    assert(inline_key(seq![c], c.colname@)) by {
        assert(seq![c][0].colname@ == c.colname@);
    }
    let start = encode_utf8(before).len() as int;
    let end = start + encode_utf8(stmt).len();
    lemma_token("Use bigint"@, "bigint"@, a, word, b, start, end);
    lemma_token("Use bigint"@, "bigserial"@, a, word, b, start, end);
    assert(seq![c].drop_last() =~= Seq::<ColumnDef>::empty());
    assert(seq![c].last() == c);
    assert(small_key_hits(node, Seq::<ColumnDef>::empty()).len() == 0);
    assert(column_base_type_spec(c) == Some(t));
    if plain.contains(t) {
        lemma_plain_integers(t);
    }
    if serial.contains(t) {
        assert(is_small_serial(t));
    }
}

proof fn lemma_plain_integers(t: Seq<char>)
    requires
        seq!["int"@, "integer"@, "int4"@, "int2"@, "smallint"@].contains(t),
    ensures
        is_small_int(t),
        !is_small_serial(t),
{
    reveal_strlit("int");
    reveal_strlit("integer");
    reveal_strlit("int4");
    reveal_strlit("int2");
    reveal_strlit("smallint");
    reveal_strlit("serial");
    reveal_strlit("serial2");
    reveal_strlit("serial4");
    reveal_strlit("smallserial");
    assert("smallint"@[5] == 'i' && "smallserial"@[5] == 's');
    assert("int"@[0] == 'i' && "integer"@[0] == 'i' && "int4"@[0] == 'i' && "int2"@[0] == 'i'
        && "smallint"@.len() == 8 && "smallserial"@.len() == 11);
    assert("serial"@[0] == 's' && "serial2"@.len() == 7 && "serial4"@.len() == 7 && "serial"@.len()
        == 6 && "serial2"@[0] == 's' && "serial4"@[0] == 's' && "smallserial"@[0] == 's');
}

/// Whether a draft adds `CONCURRENTLY` somewhere.
pub open spec fn adds_concurrently(draft: Option<FixDraftView>) -> bool {
    draft matches Some(d) && exists|i: int|
        0 <= i < d.edits.len() && (#[trigger] d.edits[i]).replacement == " CONCURRENTLY"@
}

/// Every fix that makes a statement concurrent says so in its title, and so is taken back from a
/// finding on a statement that runs inside a transaction.
pub proof fn fixes_that_add_concurrently_say_so(
    node: Node,
    i: int,
    stmts: Seq<RawStmt>,
    at_start: bool,
    f: FindingView,
)
    ensures
        forall|h: RuleHitView| #[trigger]
            adds_concurrently(h.fix) && (AddIndexNonConcurrent.hits(node).contains(h)
                || DropIndexNonConcurrent.hits(node).contains(h) || ReindexNonConcurrent.hits(
                node,
            ).contains(h) || DetachPartitionNonConcurrent.hits(node).contains(h)) ==> h.fix->0.title
                == "Add CONCURRENTLY"@,
        AddIndexNonConcurrent.hits(node).len() > 0 ==> adds_concurrently(
            AddIndexNonConcurrent.hits(node)[0].fix,
        ),
        0 <= f.statement_index < stmts.len() && in_transaction(
            stmts,
            f.statement_index,
            at_start,
        ) && (f.fix matches Some(x) && x.title == "Add CONCURRENTLY"@) ==> withdrawn(
            stmts,
            at_start,
            f,
        ).fix is None,
{
    if AddIndexNonConcurrent.hits(node).len() > 0 {
        let d = AddIndexNonConcurrent.hits(node)[0].fix->0;
        assert(d.edits[0].replacement == " CONCURRENTLY"@);
    }
}

} // verus!
