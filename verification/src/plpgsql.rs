//! Recovery of statically-analyzable SQL from a `DO` block's PL/pgSQL body, given the JSON tree
//! its parser yields: the embedded SQL statement texts plus a flag for un-analyzable residue (a
//! dynamic `EXECUTE`, or a body that would not parse).
use vstd::prelude::*;

use crate::collections::texts;
use crate::text::str_eq;

verus! {

/// A JSON value.
#[derive(Debug)]
pub enum Json {
    /// `null`, a boolean or a number.
    Scalar,
    /// A string.
    Text(String),
    /// An array.
    Array(Vec<Json>),
    /// An object: its members in order.
    Object(Vec<Member>),
}

/// A member of a JSON object.
#[derive(Debug)]
pub struct Member {
    pub key: String,
    pub value: Json,
}

/// The result of statically analyzing a `DO` block body.
#[derive(Debug)]
pub struct DoBodyAnalysis {
    /// SQL statement texts recovered from `PLpgSQL_stmt_execsql` nodes, in body order.
    pub statements: Vec<String>,
    /// `true` if the block holds anything pgsafe cannot statically analyze: a `PLpgSQL_stmt_dynexecute`
    /// (`EXECUTE`), or a body that the PL/pgSQL parser rejected.
    pub has_residue: bool,
}

/// The first member of that key.
pub open spec fn member_spec(members: Seq<Member>, key: Seq<char>) -> Option<Json>
    decreases members.len(),
{
    if members.len() == 0 {
        None
    } else if members[0].key@ == key {
        Some(members[0].value)
    } else {
        member_spec(members.drop_first(), key)
    }
}

fn member<'a>(members: &'a Vec<Member>, key: &str) -> (r: Option<&'a Json>)
    ensures
        match r {
            Some(v) => member_spec(members@, key@) == Some(*v),
            None => member_spec(members@, key@) is None,
        },
{
    let ghost all = members@;
    let mut i: usize = 0;
    assert(all.skip(0) == all);
    while i < members.len()
        invariant
            i <= members@.len(),
            all == members@,
            member_spec(all, key@) == member_spec(all.skip(i as int), key@),
        decreases members@.len() - i,
    {
        proof {
            assert(all.skip(i as int)[0] == all[i as int]);
            assert(all.skip(i as int).drop_first() == all.skip(i + 1));
        }
        if str_eq(members[i].key.as_str(), key) {
            return Some(&members[i].value);
        }
        i += 1;
    }
    None
}

/// The member of that key of an object.
pub open spec fn get_spec(v: Option<Json>, key: Seq<char>) -> Option<Json> {
    match v {
        Some(Json::Object(members)) => member_spec(members@, key),
        _ => None,
    }
}

fn get<'a>(v: Option<&'a Json>, key: &str) -> (r: Option<&'a Json>)
    ensures
        match r {
            Some(x) => get_spec(
                match v {
                    Some(y) => Some(*y),
                    None => None,
                },
                key@,
            ) == Some(*x),
            None => get_spec(
                match v {
                    Some(y) => Some(*y),
                    None => None,
                },
                key@,
            ) is None,
        },
{
    match v {
        Some(Json::Object(members)) => member(members, key),
        _ => None,
    }
}

/// The query of a direct SQL statement, where an object is one.
pub open spec fn own_query(members: Seq<Member>) -> Option<Seq<char>> {
    match get_spec(
        get_spec(
            get_spec(member_spec(members, "PLpgSQL_stmt_execsql"@), "sqlstmt"@),
            "PLpgSQL_expr"@,
        ),
        "query"@,
    ) {
        Some(Json::Text(q)) => Some(q@),
        _ => None,
    }
}

/// The SQL statements in a tree: an object's own query first, then those of its members, in
/// order.
pub open spec fn queries(v: Json) -> Seq<Seq<char>>
    decreases v,
{
    match v {
        Json::Object(members) => (match own_query(members@) {
            Some(q) => seq![q],
            None => Seq::empty(),
        }) + member_queries(members@),
        Json::Array(items) => item_queries(items@),
        _ => Seq::empty(),
    }
}

/// The SQL statements in the values of some members, in order.
pub open spec fn member_queries(members: Seq<Member>) -> Seq<Seq<char>>
    decreases members,
{
    if members.len() == 0 {
        Seq::empty()
    } else {
        member_queries(members.drop_last()) + queries(members.last().value)
    }
}

/// The SQL statements in some values, in order.
pub open spec fn item_queries(items: Seq<Json>) -> Seq<Seq<char>>
    decreases items,
{
    if items.len() == 0 {
        Seq::empty()
    } else {
        item_queries(items.drop_last()) + queries(items.last())
    }
}

/// Whether a dynamic `EXECUTE` stands somewhere in a tree.
pub open spec fn has_execute(v: Json) -> bool
    decreases v,
{
    match v {
        Json::Object(members) => member_spec(members@, "PLpgSQL_stmt_dynexecute"@) is Some
            || member_has_execute(members@),
        Json::Array(items) => item_has_execute(items@),
        _ => false,
    }
}

/// Whether one stands in the value of some member.
pub open spec fn member_has_execute(members: Seq<Member>) -> bool
    decreases members,
{
    members.len() > 0 && (member_has_execute(members.drop_last()) || has_execute(
        members.last().value,
    ))
}

/// Whether one stands in some value.
pub open spec fn item_has_execute(items: Seq<Json>) -> bool
    decreases items,
{
    items.len() > 0 && (item_has_execute(items.drop_last()) || has_execute(items.last()))
}

/// Recursively collect every `PLpgSQL_stmt_execsql` query text and flag any `PLpgSQL_stmt_dynexecute`
/// as residue. The tree nests statement objects under control-flow keys (`then_body`, etc.),
/// so a full descent reaches statements inside `IF`/`LOOP`/`CASE`/nested blocks.
pub fn walk(value: &Json, out: &mut DoBodyAnalysis)
    ensures
        texts(final(out).statements@) == texts(old(out).statements@) + queries(*value),
        final(out).has_residue == (old(out).has_residue || has_execute(*value)),
    decreases value,
{
    let ghost before = texts(out.statements@);
    assert(before + Seq::<Seq<char>>::empty() == before);
    match value {
        Json::Object(members) => {
            let q = get(
                get(get(member(members, "PLpgSQL_stmt_execsql"), "sqlstmt"), "PLpgSQL_expr"),
                "query",
            );
            let ghost own = match own_query(members@) {
                Some(t) => seq![t],
                None => Seq::<Seq<char>>::empty(),
            };
            if let Some(Json::Text(t)) = q {
                let s = t.clone();
                assert(texts(out.statements@.push(s)) == texts(out.statements@).push(s@));
                out.statements.push(s);
            }
            assert(texts(out.statements@) == before + own);
            if member(members, "PLpgSQL_stmt_dynexecute").is_some() {
                out.has_residue = true;
            }
            walk_members(members, out);
            assert(texts(out.statements@) == before + queries(*value));
        },
        Json::Array(items) => walk_items(items, out),
        _ => {},
    }
}

fn walk_members(members: &Vec<Member>, out: &mut DoBodyAnalysis)
    ensures
        texts(final(out).statements@) == texts(old(out).statements@) + member_queries(members@),
        final(out).has_residue == (old(out).has_residue || member_has_execute(members@)),
    decreases members,
{
    let ghost before = texts(out.statements@);
    let ghost residue = out.has_residue;
    let mut i: usize = 0;
    assert(before + member_queries(members@.take(0)) == before);
    while i < members.len()
        invariant
            i <= members@.len(),
            texts(out.statements@) == before + member_queries(members@.take(i as int)),
            out.has_residue == (residue || member_has_execute(members@.take(i as int))),
        decreases members@.len() - i,
    {
        proof {
            assert(members@.take(i + 1).drop_last() == members@.take(i as int));
            assert(members@.take(i + 1).last() == members@[i as int]);
        }
        walk(&members[i].value, out);
        assert(texts(out.statements@) == before + member_queries(members@.take(i + 1)));
        i += 1;
    }
    assert(members@.take(members@.len() as int) == members@);
}

fn walk_items(items: &Vec<Json>, out: &mut DoBodyAnalysis)
    ensures
        texts(final(out).statements@) == texts(old(out).statements@) + item_queries(items@),
        final(out).has_residue == (old(out).has_residue || item_has_execute(items@)),
    decreases items,
{
    let ghost before = texts(out.statements@);
    let ghost residue = out.has_residue;
    let mut i: usize = 0;
    assert(before + item_queries(items@.take(0)) == before);
    while i < items.len()
        invariant
            i <= items@.len(),
            texts(out.statements@) == before + item_queries(items@.take(i as int)),
            out.has_residue == (residue || item_has_execute(items@.take(i as int))),
        decreases items@.len() - i,
    {
        proof {
            assert(items@.take(i + 1).drop_last() == items@.take(i as int));
            assert(items@.take(i + 1).last() == items@[i as int]);
        }
        walk(&items[i], out);
        assert(texts(out.statements@) == before + item_queries(items@.take(i + 1)));
        i += 1;
    }
    assert(items@.take(items@.len() as int) == items@);
}

/// Recover the statically-analyzable statements from a `DO` block's body, given its parse. A body
/// that does not parse (e.g. a non-PL/pgSQL `DO … LANGUAGE`, or a malformed body) yields no
/// statements and `has_residue = true`.
pub fn analyze_do_block(parsed: Option<&Json>) -> (r: DoBodyAnalysis)
    ensures
        match parsed {
            Some(v) => texts(r.statements@) == queries(*v) && r.has_residue == has_execute(*v),
            None => r.statements@.len() == 0 && r.has_residue,
        },
{
    match parsed {
        Some(v) => {
            let mut analysis = DoBodyAnalysis { statements: Vec::new(), has_residue: false };
            assert(texts(analysis.statements@) == Seq::<Seq<char>>::empty());
            walk(v, &mut analysis);
            analysis
        },
        None => DoBodyAnalysis { statements: Vec::new(), has_residue: true },
    }
}

} // verus!
