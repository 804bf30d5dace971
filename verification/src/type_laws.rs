//! Which columns the policy on types speaks of, and what is recovered from `DO` blocks.
use vstd::prelude::*;
use vstd::utf8::encode_utf8;

use crate::anchor_laws::{fixed, is_word, lemma_parts, lemma_token};
use crate::ast::{ColumnDef, Node, RawStmt};
use crate::finding::FindingView;
use crate::fix::FixDraftView;
use crate::forbidden_types::{
    forbidden_fix_spec, forbidden_message, forbidden_remarks, forbidden_violations_spec,
    is_word_char_spec, leading_word, lookup_spec, one_word_type, skip_blank_spec, Blank,
    ForbiddenType,
};
use crate::lint::{embedded, owner_spec};
use crate::geometry::Geometry;
use crate::plpgsql::{
    has_execute, item_has_execute, item_queries, member_has_execute, member_queries, member_spec,
    own_query, queries, Json, Member,
};
use crate::policy_laws::lemma_concat_contains;
use crate::rules::{column_base_type_spec, defined_columns_spec};
use crate::text::{lower_text, slice_bytes, text_of};
use crate::tree_laws::{a_statement_defines_its_columns, defines_column, lemma_push_contains};

verus! {

/// Whether a column is of the type whose canonical name is `base`: that is the last part of its
/// type's name, in lower case.
pub open spec fn is_of_type(c: ColumnDef, base: Seq<char>) -> bool {
    c.coltype matches Some(t) && t.names@.len() > 0 && (t.names@[t.names@.len() - 1]
        matches Node::Str(s) && lower_text(s@) == base)
}

/// Whether the `k`-th configured type is the one that forbids `base`: it stands for it, and no later
/// one does.
pub open spec fn forbids(types: Seq<ForbiddenType>, k: int, base: Seq<char>) -> bool {
    &&& 0 <= k < types.len()
    &&& types[k].canonical matches Some(s) && s@ == base
    &&& forall|j: int| k < j < types.len() ==> !((#[trigger] types[j]).canonical matches Some(s)
        && s@ == base)
}

proof fn lemma_lookup(types: Seq<ForbiddenType>, base: Seq<char>)
    ensures
        lookup_spec(types, base) matches Some(t) ==> exists|k: int|
            #[trigger] forbids(types, k, base) && types[k] == t,
        forall|k: int| #[trigger] forbids(types, k, base) ==> lookup_spec(types, base) == Some(
            types[k],
        ),
    decreases types.len(),
{
    if types.len() > 0 {
        let init = types.drop_last();
        let n = types.len() - 1;
        lemma_lookup(init, base);
        assert(types.last() == types[n]);
        assert(forall|j: int| 0 <= j < n ==> #[trigger] init[j] == types[j]);
        if text_of(types.last().canonical) == Some(base) {
            assert(forbids(types, n, base));
            assert forall|k: int| #[trigger] forbids(types, k, base) implies k == n by {
                if k < n {
                    assert(types[n].canonical matches Some(s) && s@ == base);
                }
            }
        } else {
            if let Some(t) = lookup_spec(types, base) {
                let k = choose|k: int| #[trigger] forbids(init, k, base) && init[k] == t;
                assert(forbids(types, k, base)) by {
                    assert forall|j: int| k < j < types.len() implies !((
                    #[trigger] types[j]).canonical matches Some(s) && s@ == base) by {
                        if j < n {
                            assert(init[j] == types[j]);
                        }
                    }
                }
            }
            assert forall|k: int| #[trigger] forbids(types, k, base) implies lookup_spec(types, base)
                == Some(types[k]) by {
                assert(k != n);
                assert(forbids(init, k, base)) by {
                    assert forall|j: int| k < j < init.len() implies !((
                    #[trigger] init[j]).canonical matches Some(s) && s@ == base) by {
                        assert(init[j] == types[j]);
                    }
                }
            }
        }
    }
}

/// What is said of a column of a forbidden type: the column, the type as it is configured, and the
/// suggestion where there is one.
pub open spec fn said_of(c: ColumnDef, t: ForbiddenType) -> Seq<char> {
    "The column `"@ + c.colname@ + "` uses `"@ + t.spelling@ + (if t.replacement@ == Seq::<
        char,
    >::empty() {
        "`, which your policy disallows."@
    } else {
        "`, which your policy disallows; use `"@ + t.replacement@ + "` instead."@
    })
}

proof fn lemma_said(c: ColumnDef, t: ForbiddenType)
    ensures
        forbidden_message(c.colname@, t.spelling@, t.replacement@) == said_of(c, t),
{
    let head = "The column `"@ + c.colname@ + "` uses `"@ + t.spelling@;
    assert(t.replacement@.len() == 0 ==> t.replacement@ =~= Seq::<char>::empty());
    let a = "`, which your policy disallows; use `"@;
    let z = "` instead."@;
    assert(head + a + t.replacement@ + z =~= head + (a + t.replacement@ + z));
}

proof fn lemma_type_remarks(
    i: int,
    cols: Seq<ColumnDef>,
    types: Seq<ForbiddenType>,
    sql: Seq<char>,
    r: (int, Seq<char>, Option<FixDraftView>),
)
    ensures
        forbidden_remarks(i, cols, types, sql).contains(r) <==> exists|m: int, k: int|
            0 <= m < cols.len() && #[trigger] uses_forbidden(cols[m], types, k) && r == (
                i,
                said_of(cols[m], types[k]),
                forbidden_fix_spec(sql, types[k].replacement@, cols[m]),
            ),
    decreases cols.len(),
{
    if cols.len() > 0 {
        let init = cols.drop_last();
        let c = cols.last();
        let n = cols.len() - 1;
        lemma_type_remarks(i, init, types, sql, r);
        let before = forbidden_remarks(i, init, types, sql);
        let after = forbidden_remarks(i, cols, types, sql);
        assert(cols[n] == c);
        assert(forall|m: int| 0 <= m < n ==> #[trigger] init[m] == cols[m]);
        if let Some(base) = column_base_type_spec(c) {
            lemma_lookup(types, base);
            assert(is_of_type(c, base));
            if let Some(t) = lookup_spec(types, base) {
                let k = choose|k: int| #[trigger] forbids(types, k, base) && types[k] == t;
                lemma_said(c, t);
                let x = (i, said_of(c, t), forbidden_fix_spec(sql, t.replacement@, c));
                lemma_push_contains(before, x, r);
                assert(uses_forbidden(cols[n], types, k));
            }
            assert forall|k: int| #[trigger] uses_forbidden(cols[n], types, k) implies forbids(
                types,
                k,
                base,
            ) by {
                let b = choose|b: Seq<char>| #[trigger] is_of_type(c, b) && forbids(types, k, b);
                assert(b == base);
            }
        } else {
            assert(forall|b: Seq<char>| !#[trigger] is_of_type(c, b));
        }
        if before.contains(r) {
            let (m, k) = choose|m: int, k: int|
                0 <= m < init.len() && #[trigger] uses_forbidden(init[m], types, k) && r == (
                    i,
                    said_of(init[m], types[k]),
                    forbidden_fix_spec(sql, types[k].replacement@, init[m]),
                );
            assert(uses_forbidden(cols[m], types, k));
        }
        if exists|m: int, k: int|
            0 <= m < cols.len() && #[trigger] uses_forbidden(cols[m], types, k) && r == (
                i,
                said_of(cols[m], types[k]),
                forbidden_fix_spec(sql, types[k].replacement@, cols[m]),
            ) {
            let (m, k) = choose|m: int, k: int|
                0 <= m < cols.len() && #[trigger] uses_forbidden(cols[m], types, k) && r == (
                    i,
                    said_of(cols[m], types[k]),
                    forbidden_fix_spec(sql, types[k].replacement@, cols[m]),
                );
            if m < n {
                assert(uses_forbidden(init[m], types, k));
            } else {
                assert(after.contains(r));
            }
        }
    } else {
        assert(!forbidden_remarks(i, cols, types, sql).contains(r));
    }
}

/// Whether a column is of the type that the `k`-th configured one forbids.
pub open spec fn uses_forbidden(c: ColumnDef, types: Seq<ForbiddenType>, k: int) -> bool {
    exists|base: Seq<char>| #[trigger] is_of_type(c, base) && forbids(types, k, base)
}

/// A column is remarked on exactly if a statement defines it with a forbidden type; the remark names
/// the column and the type as it is configured.
pub proof fn forbidden_types_are_flagged(
    stmts: Seq<RawStmt>,
    n: int,
    types: Seq<ForbiddenType>,
    sql: Seq<char>,
    r: (int, Seq<char>, Option<FixDraftView>),
)
    requires
        0 <= n <= stmts.len(),
    ensures
        forbidden_violations_spec(stmts, n, types, sql).contains(r) <==> exists|
            c: ColumnDef,
            k: int,
        |
            0 <= r.0 < n && (stmts[r.0].stmt matches Some(node) && defines_column(node, c))
                && #[trigger] uses_forbidden(c, types, k) && r.1 == said_of(c, types[k]) && r.2
                == forbidden_fix_spec(sql, types[k].replacement@, c),
    decreases n,
{
    if n > 0 {
        forbidden_types_are_flagged(stmts, n - 1, types, sql, r);
        let before = forbidden_violations_spec(stmts, n - 1, types, sql);
        let more = match stmts[n - 1].stmt {
            Some(node) => forbidden_remarks(n - 1, defined_columns_spec(node), types, sql),
            None => Seq::empty(),
        };
        lemma_concat_contains(before, more, r);
        if let Some(node) = stmts[n - 1].stmt {
            let cols = defined_columns_spec(node);
            lemma_type_remarks(n - 1, cols, types, sql, r);
            if more.contains(r) {
                let (m, k) = choose|m: int, k: int|
                    0 <= m < cols.len() && #[trigger] uses_forbidden(cols[m], types, k) && r == (
                        n - 1,
                        said_of(cols[m], types[k]),
                        forbidden_fix_spec(sql, types[k].replacement@, cols[m]),
                    );
                a_statement_defines_its_columns(node, cols[m]);
                assert(cols.contains(cols[m]));
                assert(uses_forbidden(cols[m], types, k));
            }
            assert forall|c: ColumnDef, k: int|
                r.0 == n - 1 && defines_column(node, c) && #[trigger] uses_forbidden(c, types, k)
                    && r.1 == said_of(c, types[k]) && r.2 == forbidden_fix_spec(
                    sql,
                    types[k].replacement@,
                    c,
                ) implies more.contains(r) by {
                a_statement_defines_its_columns(node, c);
                let m = choose|m: int| 0 <= m < cols.len() && cols[m] == c;
                assert(uses_forbidden(cols[m], types, k));
            }
        } else {
            assert(!more.contains(r));
        }
    } else {
        assert(!forbidden_violations_spec(stmts, n, types, sql).contains(r));
    }
}

proof fn lemma_leading_word(w: Seq<char>, s: Seq<char>)
    requires
        w.len() == 0 || is_word(w),
        s.len() == 0 || !is_word_char_spec(s[0]),
    ensures
        leading_word(w + s) == w.len(),
    decreases w.len(),
{
    if w.len() == 0 {
        assert(w + s =~= s);
    } else {
        let rest = w.drop_first();
        assert((w + s).drop_first() =~= rest + s);
        assert((w + s)[0] == w[0]);
        assert(forall|i: int| 0 <= i < rest.len() ==> #[trigger] rest[i] == w[i + 1]);
        lemma_leading_word(rest, s);
    }
}

/// A column of a forbidden type of one word, which a comma, a closing parenthesis or the end of the
/// text follows, is changed to the suggested type in place; where nothing is suggested, or the place
/// of the type is unknown, there is no fix.
pub proof fn a_forbidden_type_is_replaced_in_place(
    a: Seq<char>,
    word: Seq<char>,
    b: Seq<char>,
    c: ColumnDef,
    replacement: Seq<char>,
    before: Seq<char>,
    stmt: Seq<char>,
    after: Seq<char>,
)
    requires
        is_word(word),
        b.len() == 0 || b[0] == ',' || b[0] == ')',
        c.coltype is Some,
        before + stmt + after == a + word + b,
        encode_utf8(a + word + b).len() <= u32::MAX,
    ensures
        c.coltype->0.location == encode_utf8(a).len() && replacement.len() > 0 ==> fixed(
            forbidden_fix_spec(a + word + b, replacement, c),
            before,
            stmt,
            after,
        ) == Some(a + replacement + b),
        c.coltype->0.location < 0 || replacement.len() == 0 ==> forbidden_fix_spec(
            a + word + b,
            replacement,
            c,
        ) is None,
{
    let sql = a + word + b;
    let start = encode_utf8(before).len() as int;
    lemma_token(
        "Change to configured type"@,
        replacement,
        a,
        word,
        b,
        start,
        start + encode_utf8(stmt).len(),
    );
    lemma_parts(a, word, b);
    lemma_parts(a, Seq::empty(), word + b);
    assert(a + Seq::<char>::empty() + (word + b) =~= sql);
    let at = encode_utf8(a).len() as int;
    let rest = word + b;
    assert(slice_bytes(sql, at, encode_utf8(sql).len() as int) == rest);
    lemma_leading_word(word, b);
    assert(rest.skip(word.len() as int) =~= b);
    assert(skip_blank_spec(b, Blank::Space) == b);
    lemma_no_modifier(b);
    assert(leading_word(b) == 0);
    assert(b.take(0) =~= Seq::<char>::empty());
    assert(lower_text(Seq::<char>::empty()) =~= Seq::<char>::empty());
    lemma_nothing_continues();
    assert(one_word_type(rest));
}

proof fn lemma_no_modifier(b: Seq<char>)
    requires
        b.len() == 0 || b[0] == ',' || b[0] == ')',
    ensures
        crate::forbidden_types::behind_modifier(b) == b,
{
}

proof fn lemma_nothing_continues()
    ensures
        !crate::forbidden_types::continues_type(Seq::<char>::empty()),
{
    reveal_strlit("with");
    reveal_strlit("without");
    reveal_strlit("varying");
    reveal_strlit("precision");
    reveal_strlit("time");
    reveal_strlit("zone");
    reveal_strlit("year");
    reveal_strlit("month");
    reveal_strlit("day");
    reveal_strlit("hour");
    reveal_strlit("minute");
    reveal_strlit("second");
    reveal_strlit("character");
    reveal_strlit("char");
    assert(Seq::<char>::empty().len() == 0);
    assert("with"@.len() > 0 && "without"@.len() > 0 && "varying"@.len() > 0 && "precision"@.len()
        > 0 && "time"@.len() > 0 && "zone"@.len() > 0 && "year"@.len() > 0 && "month"@.len() > 0
        && "day"@.len() > 0 && "hour"@.len() > 0 && "minute"@.len() > 0 && "second"@.len() > 0
        && "character"@.len() > 0 && "char"@.len() > 0);
}

/// The words that make a type of what stands before them.
pub open spec fn continuing_words() -> Seq<Seq<char>> {
    seq![
        "with"@,
        "without"@,
        "varying"@,
        "precision"@,
        "time"@,
        "zone"@,
        "year"@,
        "month"@,
        "day"@,
        "hour"@,
        "minute"@,
        "second"@,
        "character"@,
        "char"@,
    ]
}

/// A type of several words, such as `timestamp with time zone`, is no single token, and so has no fix
/// that would leave its other words standing; nor has a qualified one.
pub proof fn a_type_of_several_words_is_no_token(
    word: Seq<char>,
    next: Seq<char>,
    rest: Seq<char>,
)
    requires
        is_word(word),
        is_word(next),
        rest.len() == 0 || !is_word_char_spec(rest[0]),
    ensures
        continuing_words().contains(lower_text(next)) ==> !one_word_type(
            word + (" "@ + (next + rest)),
        ),
        !one_word_type(word + ("."@ + (next + rest))),
{
    reveal_strlit(" ");
    reveal_strlit(".");
    let tail = next + rest;
    let after = " "@ + tail;
    lemma_leading_word(word, after);
    assert((word + after).skip(word.len() as int) =~= after);
    assert(tail[0] == next[0]);
    reveal_with_fuel(skip_blank_spec, 3);
    assert(after.drop_first() =~= tail);
    assert(skip_blank_spec(after, Blank::Space) == tail);
    assert(crate::forbidden_types::behind_modifier(tail) == tail);
    assert(skip_blank_spec(tail, Blank::Space) == tail);
    lemma_leading_word(next, rest);
    assert(tail.take(next.len() as int) =~= next);
    if continuing_words().contains(lower_text(next)) {
        let w = lower_text(next);
        let k = choose|k: int| 0 <= k < continuing_words().len() && continuing_words()[k] == w;
        assert(crate::forbidden_types::continues_type(w));
    }
    let dotted = "."@ + tail;
    lemma_leading_word(word, dotted);
    assert((word + dotted).skip(word.len() as int) =~= dotted);
    assert(skip_blank_spec(dotted, Blank::Space) == dotted);
}

/// The values right inside a JSON value.
pub open spec fn parts(v: Json) -> Seq<Json> {
    match v {
        Json::Object(ms) => ms@.map_values(|m: Member| m.value),
        Json::Array(items) => items@,
        _ => Seq::empty(),
    }
}

/// Whether a value is an object with a member of that key.
pub open spec fn has_member(v: Json, key: Seq<char>) -> bool {
    v matches Json::Object(ms) && exists|i: int|
        0 <= i < ms@.len() && (#[trigger] ms@[i]).key@ == key
}

proof fn lemma_member(ms: Seq<Member>, key: Seq<char>)
    ensures
        member_spec(ms, key) is Some <==> exists|i: int|
            0 <= i < ms.len() && (#[trigger] ms[i]).key@ == key,
    decreases ms.len(),
{
    if ms.len() > 0 {
        let rest = ms.drop_first();
        lemma_member(rest, key);
        assert(forall|i: int| 0 <= i < rest.len() ==> #[trigger] rest[i] == ms[i + 1]);
        if exists|i: int| 0 <= i < rest.len() && (#[trigger] rest[i]).key@ == key {
            let i = choose|i: int| 0 <= i < rest.len() && (#[trigger] rest[i]).key@ == key;
            assert(ms[i + 1].key@ == key);
        }
        if exists|i: int| 0 <= i < ms.len() && (#[trigger] ms[i]).key@ == key {
            let i = choose|i: int| 0 <= i < ms.len() && (#[trigger] ms[i]).key@ == key;
            if i > 0 {
                assert(rest[i - 1].key@ == key);
            }
        }
    }
}

proof fn lemma_items(items: Seq<Json>)
    ensures
        item_has_execute(items) <==> exists|i: int|
            0 <= i < items.len() && has_execute(#[trigger] items[i]),
    decreases items.len(),
{
    if items.len() > 0 {
        let init = items.drop_last();
        lemma_items(init);
        assert(forall|i: int| 0 <= i < init.len() ==> #[trigger] init[i] == items[i]);
        assert(items[items.len() - 1] == items.last());
        if exists|i: int| 0 <= i < init.len() && has_execute(#[trigger] init[i]) {
            let i = choose|i: int| 0 <= i < init.len() && has_execute(#[trigger] init[i]);
            assert(has_execute(items[i]));
        }
        if exists|i: int| 0 <= i < items.len() && has_execute(#[trigger] items[i]) {
            let i = choose|i: int| 0 <= i < items.len() && has_execute(#[trigger] items[i]);
            if i < init.len() {
                assert(has_execute(init[i]));
            }
        }
    }
}

proof fn lemma_members(ms: Seq<Member>)
    ensures
        member_has_execute(ms) <==> exists|i: int|
            0 <= i < ms.len() && has_execute((#[trigger] ms[i]).value),
    decreases ms.len(),
{
    if ms.len() > 0 {
        let init = ms.drop_last();
        lemma_members(init);
        assert(forall|i: int| 0 <= i < init.len() ==> #[trigger] init[i] == ms[i]);
        assert(ms[ms.len() - 1] == ms.last());
        if exists|i: int| 0 <= i < init.len() && has_execute((#[trigger] init[i]).value) {
            let i = choose|i: int| 0 <= i < init.len() && has_execute((#[trigger] init[i]).value);
            assert(has_execute(ms[i].value));
        }
        if exists|i: int| 0 <= i < ms.len() && has_execute((#[trigger] ms[i]).value) {
            let i = choose|i: int| 0 <= i < ms.len() && has_execute((#[trigger] ms[i]).value);
            if i < init.len() {
                assert(has_execute(init[i].value));
            }
        }
    }
}

/// A block leaves something unanalyzed exactly if a dynamic `EXECUTE` stands in its tree, however
/// deep.
pub proof fn a_dynamic_execute_is_found_at_any_depth(v: Json)
    ensures
        has_execute(v) <==> has_member(v, "PLpgSQL_stmt_dynexecute"@) || exists|i: int|
            0 <= i < parts(v).len() && has_execute(#[trigger] parts(v)[i]),
{
    let ps = parts(v);
    match v {
        Json::Object(ms) => {
            lemma_member(ms@, "PLpgSQL_stmt_dynexecute"@);
            lemma_members(ms@);
            if exists|i: int| 0 <= i < ms@.len() && has_execute((#[trigger] ms@[i]).value) {
                let i = choose|i: int| 0 <= i < ms@.len() && has_execute((#[trigger] ms@[i]).value);
                assert(has_execute(ps[i]));
            }
            if exists|i: int| 0 <= i < ps.len() && has_execute(#[trigger] ps[i]) {
                let i = choose|i: int| 0 <= i < ps.len() && has_execute(#[trigger] ps[i]);
                assert(has_execute(ms@[i].value));
            }
        },
        Json::Array(items) => {
            lemma_items(items@);
        },
        _ => {},
    }
}

proof fn lemma_item_queries(items: Seq<Json>, q: Seq<char>)
    ensures
        item_queries(items).contains(q) <==> exists|i: int|
            0 <= i < items.len() && queries(#[trigger] items[i]).contains(q),
    decreases items.len(),
{
    if items.len() > 0 {
        let init = items.drop_last();
        lemma_item_queries(init, q);
        lemma_concat_contains(item_queries(init), queries(items.last()), q);
        assert(forall|i: int| 0 <= i < init.len() ==> #[trigger] init[i] == items[i]);
        assert(items[items.len() - 1] == items.last());
        if exists|i: int| 0 <= i < init.len() && queries(#[trigger] init[i]).contains(q) {
            let i = choose|i: int| 0 <= i < init.len() && queries(#[trigger] init[i]).contains(q);
            assert(queries(items[i]).contains(q));
        }
        if exists|i: int| 0 <= i < items.len() && queries(#[trigger] items[i]).contains(q) {
            let i = choose|i: int| 0 <= i < items.len() && queries(#[trigger] items[i]).contains(q);
            if i < init.len() {
                assert(queries(init[i]).contains(q));
            }
        }
    } else {
        assert(!item_queries(items).contains(q));
    }
}

proof fn lemma_member_queries(ms: Seq<Member>, q: Seq<char>)
    ensures
        member_queries(ms).contains(q) <==> exists|i: int|
            0 <= i < ms.len() && queries((#[trigger] ms[i]).value).contains(q),
    decreases ms.len(),
{
    if ms.len() > 0 {
        let init = ms.drop_last();
        lemma_member_queries(init, q);
        lemma_concat_contains(member_queries(init), queries(ms.last().value), q);
        assert(forall|i: int| 0 <= i < init.len() ==> #[trigger] init[i] == ms[i]);
        assert(ms[ms.len() - 1] == ms.last());
        if exists|i: int| 0 <= i < init.len() && queries((#[trigger] init[i]).value).contains(q) {
            let i = choose|i: int|
                0 <= i < init.len() && queries((#[trigger] init[i]).value).contains(q);
            assert(queries(ms[i].value).contains(q));
        }
        if exists|i: int| 0 <= i < ms.len() && queries((#[trigger] ms[i]).value).contains(q) {
            let i = choose|i: int|
                0 <= i < ms.len() && queries((#[trigger] ms[i]).value).contains(q);
            if i < init.len() {
                assert(queries(init[i].value).contains(q));
            }
        }
    } else {
        assert(!member_queries(ms).contains(q));
    }
}

/// Every SQL statement in the tree of a block is recovered, however deep it stands, and nothing else
/// is.
pub proof fn embedded_statements_are_found_at_any_depth(v: Json, q: Seq<char>)
    ensures
        queries(v).contains(q) <==> (v matches Json::Object(ms) && own_query(ms@) == Some(q))
            || exists|i: int| 0 <= i < parts(v).len() && queries(#[trigger] parts(v)[i]).contains(q),
{
    let ps = parts(v);
    match v {
        Json::Object(ms) => {
            let own = match own_query(ms@) {
                Some(x) => seq![x],
                None => Seq::empty(),
            };
            lemma_concat_contains(own, member_queries(ms@), q);
            if own_query(ms@) == Some(q) {
                assert(own[0] == q);
            }
            lemma_member_queries(ms@, q);
            if exists|i: int| 0 <= i < ms@.len() && queries((#[trigger] ms@[i]).value).contains(q) {
                let i = choose|i: int|
                    0 <= i < ms@.len() && queries((#[trigger] ms@[i]).value).contains(q);
                assert(queries(ps[i]).contains(q));
            }
            if exists|i: int| 0 <= i < ps.len() && queries(#[trigger] ps[i]).contains(q) {
                let i = choose|i: int| 0 <= i < ps.len() && queries(#[trigger] ps[i]).contains(q);
                assert(queries(ms@[i].value).contains(q));
            }
        },
        Json::Array(items) => {
            lemma_item_queries(items@, q);
        },
        _ => {
            assert(!queries(v).contains(q));
        },
    }
}

/// A finding inside a `DO` block says so, has no fix, and is otherwise that of its statement.
pub proof fn a_finding_in_a_block_says_so(f: FindingView)
    ensures
        embedded(f).message == "Inside a DO block: "@ + f.message,
        embedded(f).fix is None,
        embedded(f).rule_id == f.rule_id,
        embedded(f).severity == f.severity,
        embedded(f).statement_index == f.statement_index,
        embedded(f).location == f.location,
        embedded(f).guidance == f.guidance,
{
}

/// An identifier belongs to the last statement that starts at or before it.
pub proof fn an_identifier_belongs_to_its_statement(geoms: Seq<Geometry>, at: int, k: int)
    requires
        0 <= k < geoms.len(),
        geoms[k].start <= at,
        forall|j: int| k < j < geoms.len() ==> at < (#[trigger] geoms[j]).start,
    ensures
        owner_spec(geoms, at) == k,
    decreases geoms.len(),
{
    let n = geoms.len() - 1;
    assert(geoms.last() == geoms[n]);
    if k < n {
        let init = geoms.drop_last();
        assert(forall|j: int| 0 <= j < n ==> #[trigger] init[j] == geoms[j]);
        an_identifier_belongs_to_its_statement(init, at, k);
    }
}

/// Whether a value is an object whose first member of that key is `inner`.
pub open spec fn leads_to(v: Json, key: Seq<char>, inner: Json) -> bool {
    v matches Json::Object(ms) && exists|i: int|
        0 <= i < ms@.len() && (#[trigger] ms@[i]).key@ == key && ms@[i].value == inner && forall|
            j: int,
        |
            0 <= j < i ==> (#[trigger] ms@[j]).key@ != key
}

proof fn lemma_leads(ms: Seq<Member>, key: Seq<char>, i: int)
    requires
        0 <= i < ms.len(),
        ms[i].key@ == key,
        forall|j: int| 0 <= j < i ==> (#[trigger] ms[j]).key@ != key,
    ensures
        member_spec(ms, key) == Some(ms[i].value),
    decreases ms.len(),
{
    if i > 0 {
        assert(ms[0].key@ != key);
        let rest = ms.drop_first();
        assert(forall|j: int| 0 <= j < rest.len() ==> #[trigger] rest[j] == ms[j + 1]);
        lemma_leads(rest, key, i - 1);
    }
}

/// The statement of a block node stands in it as the query of its expression.
pub proof fn a_statement_node_holds_its_query(
    node: Json,
    a: Json,
    b: Json,
    c: Json,
    q: Seq<char>,
)
    requires
        leads_to(node, "PLpgSQL_stmt_execsql"@, a),
        leads_to(a, "sqlstmt"@, b),
        leads_to(b, "PLpgSQL_expr"@, c),
        leads_to(c, "query"@, c->Object_0@[0].value),
        c->Object_0@[0].value matches Json::Text(t) && t@ == q,
    ensures
        own_query(node->Object_0@) == Some(q),
        queries(node).contains(q),
{
    lemma_leads_to(node, "PLpgSQL_stmt_execsql"@, a);
    lemma_leads_to(a, "sqlstmt"@, b);
    lemma_leads_to(b, "PLpgSQL_expr"@, c);
    lemma_leads_to(c, "query"@, c->Object_0@[0].value);
    embedded_statements_are_found_at_any_depth(node, q);
}

proof fn lemma_leads_to(v: Json, key: Seq<char>, inner: Json)
    requires
        leads_to(v, key, inner),
    ensures
        member_spec(v->Object_0@, key) == Some(inner),
{
    let ms = v->Object_0@;
    let i = choose|i: int|
        0 <= i < ms.len() && (#[trigger] ms[i]).key@ == key && ms[i].value == inner && forall|
            j: int,
        |
            0 <= j < i ==> (#[trigger] ms[j]).key@ != key;
    lemma_leads(ms, key, i);
}

} // verus!
