//! Cross-statement enum check: flag a statement that uses an enum value which `ALTER TYPE … ADD
//! VALUE` added earlier in the same transaction. PostgreSQL rejects such a use until the
//! transaction has committed.
use vstd::prelude::*;

use crate::ast::{Node, RawStmt, TransactionKind};
use crate::geometry::{Geometry, ScanToken, TokenKind};
use crate::policy::{push_remark, remarks_view};
use crate::policy_laws::lemma_concat_contains;
use crate::text::{chars_of, get_bytes, is_byte_range, slice_bytes, str_eq};
use crate::tree_laws::lemma_push_contains;
use crate::txn::{in_transaction, step};

verus! {

/// Id of this lint.
pub const ID: &'static str = "enum-value-used-in-transaction";

/// How to satisfy it.
pub const GUIDANCE: &'static str =
    "Add the enum value in a transaction (or migration) of its own, which commits before anything \
     uses the value.";

/// The value that a statement adds to an enum.
pub open spec fn added_value_spec(node: Node) -> Option<Seq<char>> {
    match node {
        Node::AlterEnumStmt(s) => if s.old_val@.len() == 0 {
            Some(s.new_val@)
        } else {
            None
        },
        _ => None,
    }
}

fn added_value(node: &Node) -> (r: Option<&str>)
    ensures
        match r {
            Some(v) => added_value_spec(*node) == Some(v@),
            None => added_value_spec(*node) is None,
        },
{
    match node {
        Node::AlterEnumStmt(s) => if s.old_val.as_str().is_empty() {
            Some(s.new_val.as_str())
        } else {
            None
        },
        _ => None,
    }
}

/// Whether a statement ends the transaction.
pub open spec fn ends_transaction(raw: RawStmt) -> bool {
    raw.stmt == Some(Node::TransactionStmt(TransactionKind::End))
}

/// The values that were added, before statement `n`, in the transaction that is open there.
pub open spec fn pending(stmts: Seq<RawStmt>, n: int, at_start: bool) -> Seq<Seq<char>>
    decreases n,
{
    if n <= 0 || ends_transaction(stmts[n - 1]) {
        Seq::empty()
    } else {
        let before = pending(stmts, n - 1, at_start);
        match stmts[n - 1].stmt {
            Some(node) => match added_value_spec(node) {
                Some(v) => if in_transaction(stmts, n - 1, at_start) {
                    before.push(v)
                } else {
                    before
                },
                None => before,
            },
            None => before,
        }
    }
}

/// A text with every single quote doubled.
pub open spec fn doubled(v: Seq<char>) -> Seq<char>
    decreases v.len(),
{
    if v.len() == 0 {
        Seq::empty()
    } else if v.last() == '\'' {
        doubled(v.drop_last()).push('\'').push('\'')
    } else {
        doubled(v.drop_last()).push(v.last())
    }
}

/// How a value is written in SQL.
pub open spec fn literal_spec(v: Seq<char>) -> Seq<char> {
    ("'"@ + doubled(v)).push('\'')
}

fn literal(v: &str) -> (r: String)
    ensures
        r@ == literal_spec(v@),
{
    let cs = chars_of(v);
    let n: usize = cs.len();
    let mut out = "'".to_owned();
    let mut i: usize = 0;
    assert(out@ == "'"@ + doubled(v@.take(0)));
    while i < n
        invariant
            i <= n == cs@.len(),
            cs@ == v@,
            out@ == "'"@ + doubled(v@.take(i as int)),
        decreases n - i,
    {
        let ghost before = out@;
        proof {
            assert(v@.take(i + 1).drop_last() == v@.take(i as int));
            assert(v@.take(i + 1).last() == v@[i as int]);
        }
        if cs[i] == '\'' {
            out.push('\'');
        }
        out.push(cs[i]);
        assert(out@ == "'"@ + doubled(v@.take(i + 1)));
        i += 1;
    }
    assert(v@.take(v@.len() as int) == v@);
    out.push('\'');
    out
}

/// Whether a token of the statement is written like that.
pub open spec fn is_written(sql: Seq<char>, g: Geometry, t: ScanToken, text: Seq<char>) -> bool {
    &&& t.kind == TokenKind::Other
    &&& g.start <= t.start && t.end <= g.end
    &&& is_byte_range(sql, t.start as int, t.end as int)
    &&& slice_bytes(sql, t.start as int, t.end as int) == text
}

/// Whether a statement holds a value as a string literal.
pub open spec fn uses(
    sql: Seq<char>,
    g: Geometry,
    tokens: Seq<ScanToken>,
    v: Seq<char>,
) -> bool {
    exists|i: int|
        0 <= i < tokens.len() && is_written(sql, g, #[trigger] tokens[i], literal_spec(v))
}

fn is_used(sql: &str, g: Geometry, tokens: &[ScanToken], v: &str) -> (r: bool)
    ensures
        r == uses(sql@, g, tokens@, v@),
{
    let text = literal(v);
    let mut i: usize = 0;
    while i < tokens.len()
        invariant
            i <= tokens@.len(),
            text@ == literal_spec(v@),
            forall|j: int| 0 <= j < i ==> !is_written(sql@, g, #[trigger] tokens@[j], text@),
        decreases tokens@.len() - i,
    {
        let t = &tokens[i];
        if t.kind == TokenKind::Other && t.start >= 0 && t.end >= 0 && g.start <= t.start as usize
            && t.end as usize <= g.end {
            if let Some(slice) = get_bytes(sql, t.start as usize, t.end as usize) {
                if str_eq(slice, text.as_str()) {
                    assert(is_written(sql@, g, tokens@[i as int], literal_spec(v@)));
                    return true;
                }
            }
        }
        i += 1;
    }
    false
}

/// The remark on a value that is used too early.
pub open spec fn use_message(v: Seq<char>) -> Seq<char> {
    "The enum value `"@ + v
        + "` was added earlier in the same transaction; PostgreSQL rejects its use until that transaction has committed."@
}

/// The remarks on a statement that uses some of the values, each value once.
pub open spec fn use_remarks(
    sql: Seq<char>,
    g: Geometry,
    tokens: Seq<ScanToken>,
    i: int,
    vs: Seq<Seq<char>>,
) -> Seq<(int, Seq<char>)>
    decreases vs.len(),
{
    if vs.len() == 0 {
        Seq::empty()
    } else {
        let before = use_remarks(sql, g, tokens, i, vs.drop_last());
        if uses(sql, g, tokens, vs.last()) && !vs.drop_last().contains(vs.last()) {
            before.push((i, use_message(vs.last())))
        } else {
            before
        }
    }
}

/// Whether a statement alters an enum. To name a new value there, as a neighbour, is no use of it.
pub open spec fn alters_enum(raw: RawStmt) -> bool {
    raw.stmt matches Some(n) && n is AlterEnumStmt
}

/// The remarks on the first `n` statements.
pub open spec fn early_uses_spec(
    sql: Seq<char>,
    stmts: Seq<RawStmt>,
    geoms: Seq<Geometry>,
    tokens: Seq<ScanToken>,
    n: int,
    at_start: bool,
) -> Seq<(int, Seq<char>)>
    decreases n,
{
    if n <= 0 {
        Seq::empty()
    } else {
        early_uses_spec(sql, stmts, geoms, tokens, n - 1, at_start) + if n - 1 < geoms.len()
            && !alters_enum(stmts[n - 1]) {
            use_remarks(sql, geoms[n - 1], tokens, n - 1, pending(stmts, n - 1, at_start))
        } else {
            Seq::empty()
        }
    }
}

/// What the values hold.
pub open spec fn values_view(vs: Seq<&str>) -> Seq<Seq<char>> {
    vs.map_values(|v: &str| v@)
}

fn contains_before(vs: &Vec<&str>, k: usize) -> (r: bool)
    requires
        k < vs@.len(),
    ensures
        r == values_view(vs@).take(k as int).contains(values_view(vs@)[k as int]),
{
    let ghost vv = values_view(vs@);
    let ghost front = vv.take(k as int);
    let mut i: usize = 0;
    while i < k
        invariant
            i <= k < vs@.len(),
            vv == values_view(vs@),
            front == vv.take(k as int),
            forall|j: int| 0 <= j < i ==> #[trigger] front[j] != vv[k as int],
        decreases k - i,
    {
        assert(front[i as int] == vs@[i as int]@);
        if str_eq(vs[i], vs[k]) {
            assert(front[i as int] == vv[k as int]);
            return true;
        }
        i += 1;
    }
    false
}

/// Appends the remarks on a statement that uses some of the values.
fn push_uses(
    out: &mut Vec<(usize, String)>,
    sql: &str,
    g: Geometry,
    tokens: &[ScanToken],
    i: usize,
    vs: &Vec<&str>,
)
    ensures
        remarks_view(final(out)@) == remarks_view(old(out)@) + use_remarks(
            sql@,
            g,
            tokens@,
            i as int,
            values_view(vs@),
        ),
{
    let ghost before = remarks_view(out@);
    let ghost vv = values_view(vs@);
    let mut k: usize = 0;
    assert(before + use_remarks(sql@, g, tokens@, i as int, vv.take(0)) == before);
    while k < vs.len()
        invariant
            k <= vs@.len(),
            vv == values_view(vs@),
            remarks_view(out@) == before + use_remarks(
                sql@,
                g,
                tokens@,
                i as int,
                vv.take(k as int),
            ),
        decreases vs@.len() - k,
    {
        proof {
            assert(vv.take(k + 1).drop_last() == vv.take(k as int));
            assert(vv.take(k + 1).last() == vs@[k as int]@);
        }
        if is_used(sql, g, tokens, vs[k]) && !contains_before(vs, k) {
            let mut m = "The enum value `".to_owned();
            m.append(vs[k]);
            m.append(
                "` was added earlier in the same transaction; PostgreSQL rejects its use until that transaction has committed.",
            );
            push_remark(out, i, m);
        }
        assert(remarks_view(out@) == before + use_remarks(
            sql@,
            g,
            tokens@,
            i as int,
            vv.take(k + 1),
        ));
        k += 1;
    }
    assert(vv.take(vv.len() as int) == vv);
}

/// `(statement_index, message)` for each use of an enum value in the transaction that added it:
/// an explicit one, or the one that the input is assumed to run in.
pub fn early_uses(
    sql: &str,
    stmts: &[RawStmt],
    geoms: &[Geometry],
    tokens: &[ScanToken],
    at_start: bool,
) -> (r: Vec<(usize, String)>)
    ensures
        remarks_view(r@) == early_uses_spec(
            sql@,
            stmts@,
            geoms@,
            tokens@,
            stmts@.len() as int,
            at_start,
        ),
{
    let mut out: Vec<(usize, String)> = Vec::new();
    let mut values: Vec<&str> = Vec::new();
    let mut inside = at_start;
    let mut i: usize = 0;
    assert(remarks_view(out@) == Seq::<(int, Seq<char>)>::empty());
    assert(values_view(values@) == Seq::<Seq<char>>::empty());
    while i < stmts.len()
        invariant
            i <= stmts@.len(),
            inside == in_transaction(stmts@, i as int, at_start),
            values_view(values@) == pending(stmts@, i as int, at_start),
            remarks_view(out@) == early_uses_spec(
                sql@,
                stmts@,
                geoms@,
                tokens@,
                i as int,
                at_start,
            ),
        decreases stmts@.len() - i,
    {
        let ghost before = remarks_view(out@);
        assert(before + Seq::<(int, Seq<char>)>::empty() == before);
        let alters = match &stmts[i].stmt {
            Some(Node::AlterEnumStmt(_)) => true,
            _ => false,
        };
        if i < geoms.len() && !alters {
            push_uses(&mut out, sql, geoms[i], tokens, i, &values);
        }
        if let Some(node) = &stmts[i].stmt {
            if let Some(v) = added_value(node) {
                if inside {
                    assert(values_view(values@.push(v)) == values_view(values@).push(v@));
                    values.push(v);
                }
            }
            if let Node::TransactionStmt(TransactionKind::End) = node {
                values = Vec::new();
                assert(values_view(values@) == Seq::<Seq<char>>::empty());
            }
            inside = step(node, inside);
        }
        i += 1;
    }
    out
}

/// Whether statement `i` adds the value inside a transaction.
pub open spec fn adds(
    stmts: Seq<RawStmt>,
    raw: RawStmt,
    i: int,
    at_start: bool,
    v: Seq<char>,
) -> bool {
    &&& raw.stmt matches Some(node) && added_value_spec(node) == Some(v)
    &&& in_transaction(stmts, i, at_start)
}

/// What is pending before a statement is what the open transaction has added: a value is exactly
/// if a statement added it inside a transaction that nothing has ended since.
pub proof fn values_are_pending_until_the_transaction_ends(
    stmts: Seq<RawStmt>,
    n: int,
    at_start: bool,
    v: Seq<char>,
)
    requires
        0 <= n <= stmts.len(),
    ensures
        pending(stmts, n, at_start).contains(v) <==> exists|i: int|
            0 <= i < n && adds(stmts, #[trigger] stmts[i], i, at_start, v) && (forall|k: int|
                i < k < n ==> !ends_transaction(#[trigger] stmts[k])),
    decreases n,
{
    if n > 0 {
        values_are_pending_until_the_transaction_ends(stmts, n - 1, at_start, v);
        let before = pending(stmts, n - 1, at_start);
        let after = pending(stmts, n, at_start);
        let last = stmts[n - 1];
        if ends_transaction(last) {
            assert(added_value_spec(last.stmt->0) is None);
            assert(!after.contains(v));
        } else if adds(stmts, last, n - 1, at_start, v) {
            assert(after[after.len() - 1] == v);
        } else if before.contains(v) {
            let k = choose|k: int| 0 <= k < before.len() && before[k] == v;
            assert(after[k] == v);
            let i = choose|i: int|
                0 <= i < n - 1 && adds(stmts, #[trigger] stmts[i], i, at_start, v) && (forall|
                    k: int,
                |
                    i < k < n - 1 ==> !ends_transaction(#[trigger] stmts[k]));
            assert(adds(stmts, stmts[i], i, at_start, v));
            assert forall|k: int| i < k < n implies !ends_transaction(#[trigger] stmts[k]) by {}
        } else {
            if after.contains(v) {
                let k = choose|k: int| 0 <= k < after.len() && after[k] == v;
                assert(before[k] == v);
            }
        }
    }
}

proof fn lemma_use_remarks(
    sql: Seq<char>,
    g: Geometry,
    tokens: Seq<ScanToken>,
    i: int,
    vs: Seq<Seq<char>>,
    r: (int, Seq<char>),
)
    ensures
        use_remarks(sql, g, tokens, i, vs).contains(r) <==> exists|v: Seq<char>| #[trigger]
            vs.contains(v) && uses(sql, g, tokens, v) && r == (i, use_message(v)),
    decreases vs.len(),
{
    if vs.len() > 0 {
        let init = vs.drop_last();
        let last = vs.last();
        lemma_use_remarks(sql, g, tokens, i, init, r);
        let before = use_remarks(sql, g, tokens, i, init);
        lemma_push_contains(before, (i, use_message(last)), r);
        assert(vs == init.push(last));
        assert forall|v: Seq<char>| #[trigger] vs.contains(v) <==> v == last || init.contains(v) by {
            lemma_push_contains(init, last, v);
        }
        if before.contains(r) {
            let v = choose|v: Seq<char>| #[trigger]
                init.contains(v) && uses(sql, g, tokens, v) && r == (i, use_message(v));
            assert(vs.contains(v));
        }
        if exists|v: Seq<char>| #[trigger]
            vs.contains(v) && uses(sql, g, tokens, v) && r == (i, use_message(v)) {
            let v = choose|v: Seq<char>| #[trigger]
                vs.contains(v) && uses(sql, g, tokens, v) && r == (i, use_message(v));
            if v != last {
                assert(init.contains(v));
            }
        }
        assert(vs.contains(last));
    } else {
        assert(!use_remarks(sql, g, tokens, i, vs).contains(r));
    }
}

/// A statement is remarked on exactly if it holds, as a string literal, a value that an earlier
/// statement added in the transaction that is still open there; altering an enum is no use.
pub proof fn early_uses_are_flagged(
    sql: Seq<char>,
    stmts: Seq<RawStmt>,
    geoms: Seq<Geometry>,
    tokens: Seq<ScanToken>,
    n: int,
    at_start: bool,
    r: (int, Seq<char>),
)
    requires
        0 <= n <= stmts.len(),
        geoms.len() == stmts.len(),
    ensures
        early_uses_spec(sql, stmts, geoms, tokens, n, at_start).contains(r) <==> 0 <= r.0 < n && !(
        stmts[r.0].stmt matches Some(x) && x is AlterEnumStmt) && exists|v: Seq<char>| #[trigger]
            pending(stmts, r.0, at_start).contains(v) && uses(sql, geoms[r.0], tokens, v) && r.1
                == use_message(v),
    decreases n,
{
    if n > 0 {
        early_uses_are_flagged(sql, stmts, geoms, tokens, n - 1, at_start, r);
        let before = early_uses_spec(sql, stmts, geoms, tokens, n - 1, at_start);
        let vs = pending(stmts, n - 1, at_start);
        let more = if !alters_enum(stmts[n - 1]) {
            use_remarks(sql, geoms[n - 1], tokens, n - 1, vs)
        } else {
            Seq::empty()
        };
        lemma_concat_contains(before, more, r);
        lemma_use_remarks(sql, geoms[n - 1], tokens, n - 1, vs, r);
    } else {
        assert(!early_uses_spec(sql, stmts, geoms, tokens, n, at_start).contains(r));
    }
}

/// The literal of a value is the value in single quotes, with each quote in it written twice.
pub proof fn a_literal_doubles_the_quotes(a: Seq<char>, b: Seq<char>, c: char)
    ensures
        literal_spec(a) == "'"@ + doubled(a) + "'"@,
        doubled(a + b) == doubled(a) + doubled(b),
        doubled(seq![c]) == (if c == '\'' {
            seq!['\'', '\'']
        } else {
            seq![c]
        }),
    decreases b.len(),
{
    reveal_strlit("'");
    assert(("'"@ + doubled(a)).push('\'') =~= "'"@ + doubled(a) + "'"@);
    let one = seq![c];
    assert(one.drop_last() =~= Seq::<char>::empty());
    assert(doubled(Seq::<char>::empty()) =~= Seq::<char>::empty());
    assert(doubled(one) =~= if c == '\'' {
        seq!['\'', '\'']
    } else {
        seq![c]
    });
    if b.len() == 0 {
        assert(a + b =~= a);
        assert(doubled(a) + doubled(b) =~= doubled(a));
    } else {
        a_literal_doubles_the_quotes(a, b.drop_last(), c);
        assert((a + b).drop_last() =~= a + b.drop_last());
        assert((a + b).last() == b.last());
        assert(doubled(a + b) =~= doubled(a) + doubled(b));
    }
}

} // verus!
