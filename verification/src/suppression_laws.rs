//! What an inline directive says, and which statement it is for.
use vstd::prelude::*;
use vstd::utf8::encode_utf8;

use crate::finding::FindingView;
use crate::geometry::{Geometry, ScanToken, TokenKind};
use crate::place_laws::trimming_takes_white_space_off;
use crate::suppression::{
    after_prefix, directive_spec, directives_spec, first_ending, last_ended, lemma_same_line,
    reason_for, statement_of, suppressed, token_directive, word_len, DirectiveView,
};
use crate::text::{
    is_byte_range, is_white_space_spec, slice_bytes, trim_end_spec, trim_spec, trim_start_spec,
};

verus! {

/// Whether a text is nothing but white space.
pub open spec fn is_blank(s: Seq<char>) -> bool {
    forall|i: int| 0 <= i < s.len() ==> is_white_space_spec(#[trigger] s[i])
}

/// Whether a text is one word: not empty, and without white space.
pub open spec fn is_one_word(s: Seq<char>) -> bool {
    s.len() > 0 && forall|i: int| 0 <= i < s.len() ==> !is_white_space_spec(#[trigger] s[i])
}

/// Whether a text is not empty and has no white space at its ends.
pub open spec fn is_trimmed(s: Seq<char>) -> bool {
    s.len() > 0 && !is_white_space_spec(s[0]) && !is_white_space_spec(s.last())
}

proof fn lemma_word(w: Seq<char>, s: Seq<char>)
    requires
        is_one_word(w) || w.len() == 0,
        s.len() == 0 || is_white_space_spec(s[0]),
    ensures
        word_len(w + s) == w.len(),
    decreases w.len(),
{
    if w.len() == 0 {
        assert(w + s =~= s);
    } else {
        let rest = w.drop_first();
        assert((w + s).drop_first() =~= rest + s);
        assert((w + s)[0] == w[0]);
        assert(forall|i: int| 0 <= i < rest.len() ==> #[trigger] rest[i] == w[i + 1]);
        lemma_word(rest, s);
    }
}

proof fn lemma_prefix(p: Seq<char>, s: Seq<char>)
    ensures
        after_prefix(p + s, p) == Some(s),
{
    assert((p + s).subrange(0, p.len() as int) =~= p);
    assert((p + s).skip(p.len() as int) =~= s);
}

/// A comment `-- pgsafe:ignore <rule> <reason>` names that rule and gives that reason, however much
/// white space stands between and around them.
pub proof fn a_directive_names_its_rule_and_reason(
    lead: Seq<char>,
    gap: Seq<char>,
    rule: Seq<char>,
    space: Seq<char>,
    reason: Seq<char>,
    trail: Seq<char>,
)
    requires
        is_blank(lead),
        is_blank(gap) && gap.len() > 0,
        is_one_word(rule),
        is_blank(space) && space.len() > 0,
        is_trimmed(reason),
        is_blank(trail),
    ensures
        directive_spec(
            "--"@ + (lead + ("pgsafe:ignore"@ + (gap + (rule + (space + reason)))) + trail),
        ) == Some((rule, reason)),
{
    reveal_strlit("pgsafe:ignore");
    let none = Seq::<char>::empty();
    let tail = space + reason;
    let words = rule + tail;
    let rest = gap + words;
    let inner = "pgsafe:ignore"@ + rest;
    lemma_prefix("--"@, lead + inner + trail);
    assert(inner[0] == 'p');
    assert(inner.last() == reason.last());
    trimming_takes_white_space_off(lead, inner, trail);
    lemma_prefix("pgsafe:ignore"@, rest);
    assert(words[0] == rule[0]);
    assert(words.last() == reason.last());
    trimming_takes_white_space_off(gap, words, none);
    assert(gap + words + none =~= rest);
    assert(words + none =~= words);
    lemma_word(rule, tail);
    assert(words.skip(rule.len() as int) =~= tail);
    assert(words.take(rule.len() as int) =~= rule);
    trimming_takes_white_space_off(space, reason, none);
    assert(space + reason + none =~= tail);
}

/// A comment `-- pgsafe:ignore <rule>` names that rule and gives no reason.
pub proof fn a_bare_directive_gives_no_reason(
    lead: Seq<char>,
    gap: Seq<char>,
    rule: Seq<char>,
    trail: Seq<char>,
)
    requires
        is_blank(lead),
        is_blank(gap) && gap.len() > 0,
        is_one_word(rule),
        is_blank(trail),
    ensures
        directive_spec("--"@ + (lead + ("pgsafe:ignore"@ + (gap + rule)) + trail)) == Some(
            (rule, Seq::<char>::empty()),
        ),
{
    reveal_strlit("pgsafe:ignore");
    let none = Seq::<char>::empty();
    let rest = gap + rule;
    let inner = "pgsafe:ignore"@ + rest;
    lemma_prefix("--"@, lead + inner + trail);
    assert(inner[0] == 'p');
    assert(inner.last() == rule[rule.len() - 1]);
    trimming_takes_white_space_off(lead, inner, trail);
    lemma_prefix("pgsafe:ignore"@, rest);
    assert(rule.last() == rule[rule.len() - 1]);
    trimming_takes_white_space_off(gap, rule, none);
    assert(gap + rule + none =~= rest);
    assert(rule + none =~= rule);
    lemma_word(rule, none);
    assert(rule.skip(rule.len() as int) =~= none);
    assert(rule.take(rule.len() as int) =~= rule);
    assert(trim_start_spec(none) =~= none);
    assert(trim_end_spec(none) =~= none);
}

/// A comment that says something else is no directive: one that is no `--` comment, or whose text
/// does not begin with `pgsafe:ignore`.
pub proof fn other_comments_are_no_directives(comment: Seq<char>)
    requires
        !"--"@.is_prefix_of(comment) || !"pgsafe:ignore"@.is_prefix_of(
            trim_spec(comment.skip("--"@.len() as int)),
        ),
    ensures
        directive_spec(comment) is None,
{
}

/// Whether statements stand one behind the other.
pub open spec fn stand_in_order(geoms: Seq<Geometry>) -> bool {
    &&& forall|i: int| 0 <= i < geoms.len() ==> (#[trigger] geoms[i]).start <= geoms[i].end
    &&& forall|i: int, j: int|
        0 <= i < j < geoms.len() ==> (#[trigger] geoms[i]).end <= (#[trigger] geoms[j]).start
}

proof fn lemma_last_ended(geoms: Seq<Geometry>, at: int, k: int)
    requires
        0 <= k <= geoms.len(),
        k > 0 ==> geoms[k - 1].end <= at,
        forall|j: int| k <= j < geoms.len() ==> (#[trigger] geoms[j]).end > at,
    ensures
        last_ended(geoms, at) == (if k > 0 {
            Some(k - 1)
        } else {
            None
        }),
    decreases geoms.len(),
{
    if geoms.len() > k {
        assert(geoms.last() == geoms[geoms.len() - 1]);
        assert(forall|j: int|
            0 <= j < geoms.drop_last().len() ==> #[trigger] geoms.drop_last()[j] == geoms[j]);
        lemma_last_ended(geoms.drop_last(), at, k);
    } else if k > 0 {
        assert(geoms.last() == geoms[k - 1]);
    }
}

proof fn lemma_first_ending(geoms: Seq<Geometry>, at: int, i: int, k: int)
    requires
        0 <= i <= k < geoms.len(),
        geoms[k].end > at,
        forall|j: int| i <= j < k ==> (#[trigger] geoms[j]).end <= at,
    ensures
        first_ending(geoms, at, i) == Some(k),
    decreases k - i,
{
    if i < k {
        assert(geoms[i].end <= at);
        lemma_first_ending(geoms, at, i + 1, k);
    }
}

proof fn lemma_earlier_have_ended(geoms: Seq<Geometry>, at: int, k: int)
    requires
        stand_in_order(geoms),
        0 < k <= geoms.len(),
        geoms[k - 1].end <= at,
    ensures
        forall|j: int| 0 <= j < k ==> (#[trigger] geoms[j]).end <= at,
{
    assert forall|j: int| 0 <= j < k implies (#[trigger] geoms[j]).end <= at by {
        if j < k - 1 {
            assert(geoms[j].end <= geoms[k - 1].start);
        }
    }
}

/// A directive inside a statement is for that statement.
pub proof fn a_directive_inside_a_statement_is_for_it(
    bytes: Seq<u8>,
    geoms: Seq<Geometry>,
    at: int,
    k: int,
)
    requires
        stand_in_order(geoms),
        0 <= k < geoms.len(),
        geoms[k].start <= at < geoms[k].end,
    ensures
        statement_of(bytes, geoms, at) == Some(k),
{
    if k > 0 {
        assert(geoms[k - 1].end <= geoms[k].start);
        lemma_earlier_have_ended(geoms, at, k);
    }
    assert forall|j: int| k <= j < geoms.len() implies (#[trigger] geoms[j]).end > at by {
        if j > k {
            assert(geoms[k].end <= geoms[j].start);
        }
    }
    lemma_last_ended(geoms, at, k);
    lemma_first_ending(geoms, at, 0, k);
}

/// A directive above a statement, on a line on which no other statement ends, is for that statement.
pub proof fn a_directive_above_a_statement_is_for_it(
    bytes: Seq<u8>,
    geoms: Seq<Geometry>,
    at: int,
    k: int,
)
    requires
        stand_in_order(geoms),
        0 <= k < geoms.len(),
        at < geoms[k].start,
        at <= bytes.len(),
        k > 0 ==> geoms[k - 1].end <= at && exists|i: int|
            geoms[k - 1].end <= i < at && #[trigger] bytes[i] == 10,
    ensures
        statement_of(bytes, geoms, at) == Some(k),
{
    if k > 0 {
        lemma_earlier_have_ended(geoms, at, k);
        lemma_same_line(bytes, geoms[k - 1].end as int, at);
        let i = choose|i: int| geoms[k - 1].end <= i < at && #[trigger] bytes[i] == 10;
        assert(bytes[i] == 10);
    }
    assert forall|j: int| k <= j < geoms.len() implies (#[trigger] geoms[j]).end > at by {
        if j > k {
            assert(geoms[k].end <= geoms[j].start);
        }
    }
    lemma_last_ended(geoms, at, k);
    lemma_first_ending(geoms, at, 0, k);
}

/// A directive behind a statement, on the line where that ends and before another begins, is for
/// that statement.
pub proof fn a_directive_behind_a_statement_is_for_it(
    bytes: Seq<u8>,
    geoms: Seq<Geometry>,
    at: int,
    k: int,
)
    requires
        stand_in_order(geoms),
        0 <= k < geoms.len(),
        geoms[k].end <= at <= bytes.len(),
        forall|i: int| geoms[k].end <= i < at ==> #[trigger] bytes[i] != 10,
        k + 1 < geoms.len() ==> at < geoms[k + 1].start,
    ensures
        statement_of(bytes, geoms, at) == Some(k),
{
    assert forall|j: int| k + 1 <= j < geoms.len() implies (#[trigger] geoms[j]).end > at by {
        if j > k + 1 {
            assert(geoms[k + 1].end <= geoms[j].start);
        }
    }
    lemma_last_ended(geoms, at, k + 1);
    lemma_same_line(bytes, geoms[k].end as int, at);
}

/// Whether a directive is for the finding and gives a reason.
pub open spec fn speaks_for(d: DirectiveView, f: FindingView) -> bool {
    d.rule_id == f.rule_id && d.statement_index == f.statement_index && d.reason.len() > 0
}

/// A finding is marked exactly if a directive with a reason is for its rule and its statement, and
/// with the reason of the first such directive.
pub proof fn a_finding_is_marked_by_the_first_directive_for_it(
    ds: Seq<DirectiveView>,
    f: FindingView,
    k: int,
)
    requires
        f.suppression is None,
    ensures
        suppressed(ds, f).suppression is Some <==> exists|i: int|
            0 <= i < ds.len() && speaks_for(#[trigger] ds[i], f),
        0 <= k < ds.len() && speaks_for(ds[k], f) && (forall|i: int|
            0 <= i < k ==> !speaks_for(#[trigger] ds[i], f)) ==> suppressed(ds, f).suppression
            == Some(ds[k].reason),
    decreases ds.len(),
{
    if ds.len() > 0 {
        let init = ds.drop_last();
        let last = ds.last();
        a_finding_is_marked_by_the_first_directive_for_it(init, f, k);
        assert(forall|i: int| 0 <= i < init.len() ==> #[trigger] init[i] == ds[i]);
        assert(ds[ds.len() - 1] == last);
        assert(suppressed(init, f).suppression == reason_for(init, f));
        assert(suppressed(ds, f).suppression == reason_for(ds, f));
        if exists|i: int| 0 <= i < init.len() && speaks_for(#[trigger] init[i], f) {
            let i = choose|i: int| 0 <= i < init.len() && speaks_for(#[trigger] init[i], f);
            assert(speaks_for(ds[i], f));
        }
        if exists|i: int| 0 <= i < ds.len() && speaks_for(#[trigger] ds[i], f) {
            let i = choose|i: int| 0 <= i < ds.len() && speaks_for(#[trigger] ds[i], f);
            if i < init.len() {
                assert(speaks_for(init[i], f));
            }
        }
        if 0 <= k < ds.len() && speaks_for(ds[k], f) && (forall|i: int|
            0 <= i < k ==> !speaks_for(#[trigger] ds[i], f)) {
            if k < init.len() {
                assert(forall|i: int| 0 <= i < k ==> !speaks_for(#[trigger] init[i], f)) by {
                    assert forall|i: int| 0 <= i < k implies !speaks_for(#[trigger] init[i], f) by {
                        assert(!speaks_for(ds[i], f));
                    }
                }
            } else {
                assert(forall|i: int| 0 <= i < init.len() ==> !speaks_for(#[trigger] init[i], f)) by {
                    assert forall|i: int| 0 <= i < init.len() implies !speaks_for(
                        #[trigger] init[i],
                        f,
                    ) by {
                        assert(!speaks_for(ds[i], f));
                    }
                }
            }
        }
    } else {
        assert(suppressed(ds, f) == f);
    }
}

/// A directive stands in a comment: no other token is one, and a comment is where its text reads as a
/// directive and it stands for a statement, whose directive it then is.
pub proof fn directives_stand_in_comments(sql: Seq<char>, geoms: Seq<Geometry>, t: ScanToken)
    ensures
        t.kind != TokenKind::Comment ==> token_directive(sql, geoms, t) is None,
        token_directive(sql, geoms, t) matches Some(d) ==> {
            &&& t.kind == TokenKind::Comment
            &&& directive_spec(slice_bytes(sql, t.start as int, t.end as int)) == Some(
                (d.rule_id, d.reason),
            )
            &&& statement_of(encode_utf8(sql), geoms, t.start as int) == Some(d.statement_index)
        },
        t.kind == TokenKind::Comment && is_byte_range(sql, t.start as int, t.end as int) && (
        directive_spec(slice_bytes(sql, t.start as int, t.end as int)) is Some) && statement_of(
            encode_utf8(sql),
            geoms,
            t.start as int,
        ) is Some ==> token_directive(sql, geoms, t) is Some,
{
}

/// Every comment that is a directive counts, in the order in which they stand.
pub proof fn every_directive_counts(
    sql: Seq<char>,
    geoms: Seq<Geometry>,
    a: Seq<ScanToken>,
    b: Seq<ScanToken>,
    t: ScanToken,
)
    ensures
        directives_spec(sql, geoms, a + b) == directives_spec(sql, geoms, a) + directives_spec(
            sql,
            geoms,
            b,
        ),
        token_directive(sql, geoms, t) matches Some(d) ==> directives_spec(sql, geoms, seq![t])
            == seq![d],
    decreases b.len(),
{
    let one = seq![t];
    assert(one.drop_last() =~= Seq::<ScanToken>::empty());
    assert(one.last() == t);
    assert(directives_spec(sql, geoms, Seq::<ScanToken>::empty()) =~= Seq::<DirectiveView>::empty());
    if let Some(d) = token_directive(sql, geoms, t) {
        assert(Seq::<DirectiveView>::empty().push(d) =~= seq![d]);
    }
    let left = directives_spec(sql, geoms, a);
    if b.len() == 0 {
        assert(a + b =~= a);
        assert(left + directives_spec(sql, geoms, b) =~= left);
    } else {
        every_directive_counts(sql, geoms, a, b.drop_last(), t);
        assert((a + b).drop_last() =~= a + b.drop_last());
        assert((a + b).last() == b.last());
        assert(directives_spec(sql, geoms, a + b) =~= left + directives_spec(sql, geoms, b));
    }
}

} // verus!
