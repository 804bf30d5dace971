//! What holds of every resolved fix and of every composition of fixes.
use vstd::prelude::*;
use vstd::utf8::{
    encode_utf8, encode_utf8_valid_utf8, is_char_boundary,
    is_char_boundary_iff_not_is_continuation_byte, is_char_boundary_start_end_of_seq,
    length_of_first_scalar, pop_first_scalar, valid_utf8, valid_utf8_split,
};

use crate::finding::{edits_in_range, edits_ordered, FixEditView, FixView};
use crate::fix::{
    accepted_edits, anchor_span, applicable, apply_spec, belongs_behind, clashes,
    first_keyword_at, insert_ascending, is_word_byte_spec, lower_byte_spec, overlap, resolve_spec,
    resolved_edit, resolved_edits, sort_ascending, splice_all, splice_spec, splices_fit,
    word_prefix, FixAnchorView, FixDraftView,
};
use crate::text::{is_byte_range, lemma_encode_concat, lemma_slice_encodes, slice_bytes};

verus! {

/// Behind a boundary the next one follows after one character.
proof fn lemma_next_boundary(bytes: Seq<u8>, q: int)
    requires
        valid_utf8(bytes),
        0 <= q < bytes.len(),
        is_char_boundary(bytes, q),
    ensures
        is_char_boundary(
            bytes,
            q + length_of_first_scalar(bytes.subrange(q, bytes.len() as int)),
        ),
        q + length_of_first_scalar(bytes.subrange(q, bytes.len() as int)) <= bytes.len(),
    decreases bytes.len(),
{
    let tail = bytes.subrange(q, bytes.len() as int);
    if q == 0 {
        assert(tail == bytes);
        let l = length_of_first_scalar(bytes);
        assert(is_char_boundary(pop_first_scalar(bytes), 0));
    } else {
        let l = length_of_first_scalar(bytes);
        let rest = pop_first_scalar(bytes);
        assert(is_char_boundary(rest, q - l));
        assert(q - l >= 0) by {
            reveal_with_fuel(is_char_boundary, 2);
        }
        lemma_next_boundary(rest, q - l);
        assert(rest.subrange(q - l, rest.len() as int) == tail);
    }
}

/// Non-empty valid UTF-8 ends with one whole character.
proof fn lemma_last_character(bytes: Seq<u8>) -> (p: int)
    requires
        valid_utf8(bytes),
        bytes.len() > 0,
    ensures
        0 <= p < bytes.len(),
        is_char_boundary(bytes, p),
        p + length_of_first_scalar(bytes.subrange(p, bytes.len() as int)) == bytes.len(),
    decreases bytes.len(),
{
    let rest = pop_first_scalar(bytes);
    let l = length_of_first_scalar(bytes);
    if rest.len() == 0 {
        assert(bytes.subrange(0, bytes.len() as int) == bytes);
        0
    } else {
        let p = lemma_last_character(rest);
        assert(rest.subrange(p, rest.len() as int) == bytes.subrange(p + l, bytes.len() as int));
        p + l
    }
}

/// Where a non-empty keyword matches, the end of the match is a boundary.
proof fn lemma_keyword_end_is_boundary(hay: Seq<u8>, kw: Seq<u8>, i: int)
    requires
        valid_utf8(hay),
        valid_utf8(kw),
        kw.len() > 0,
        first_keyword_at(hay, kw, i),
    ensures
        is_char_boundary(hay, i + kw.len()),
{
    let p = lemma_last_character(kw);
    assert(lower_byte_spec(hay[i + p]) == lower_byte_spec(kw[p]));
    is_char_boundary_iff_not_is_continuation_byte(kw, p);
    is_char_boundary_iff_not_is_continuation_byte(hay, i + p);
    lemma_next_boundary(hay, i + p);
    let kt = kw.subrange(p, kw.len() as int);
    let ht = hay.subrange(i + p, hay.len() as int);
    assert(kt[0] == kw[p]);
    assert(ht[0] == hay[i + p]);
    valid_utf8_split(kw, p);
    valid_utf8_split(hay, i + p);
}

/// The byte behind an ASCII byte starts a character.
pub proof fn lemma_boundary_after_ascii(bytes: Seq<u8>, i: int)
    requires
        valid_utf8(bytes),
        0 <= i < bytes.len(),
        bytes[i] < 128,
    ensures
        is_char_boundary(bytes, i + 1),
{
    is_char_boundary_iff_not_is_continuation_byte(bytes, i);
    lemma_next_boundary(bytes, i);
    assert(bytes.subrange(i, bytes.len() as int)[0] == bytes[i]);
}

proof fn lemma_word_prefix(bytes: Seq<u8>)
    ensures
        0 <= word_prefix(bytes) <= bytes.len(),
        forall|i: int| 0 <= i < word_prefix(bytes) ==> is_word_byte_spec(#[trigger] bytes[i]),
    decreases bytes.len(),
{
    if bytes.len() > 0 && is_word_byte_spec(bytes[0]) {
        lemma_word_prefix(bytes.drop_first());
        assert forall|i: int| 0 <= i < word_prefix(bytes) implies is_word_byte_spec(
            #[trigger] bytes[i],
        ) by {
            if i > 0 {
                assert(bytes[i] == bytes.drop_first()[i - 1]);
            }
        }
    }
}

/// A boundary of a part of a text is a boundary of the text.
proof fn lemma_boundary_in_part(sql: Seq<char>, a: int, b: int, e: int)
    requires
        is_byte_range(sql, a, b),
        0 <= e <= b - a,
        is_char_boundary(encode_utf8(sql).subrange(a, b), e),
    ensures
        is_char_boundary(encode_utf8(sql), a + e),
{
    let bytes = encode_utf8(sql);
    let part = bytes.subrange(a, b);
    encode_utf8_valid_utf8(sql);
    lemma_slice_encodes(sql, a, b);
    if e < part.len() {
        is_char_boundary_iff_not_is_continuation_byte(part, e);
        is_char_boundary_iff_not_is_continuation_byte(bytes, a + e);
        assert(part[e] == bytes[a + e]);
    }
}

/// Whether no keyword anchor of a draft is empty.
pub open spec fn keywords_nonempty(draft: FixDraftView) -> bool {
    forall|i: int|
        0 <= i < draft.edits.len() ==> ((#[trigger] draft.edits[i]).anchor matches
            FixAnchorView::AfterKeyword(kw) ==> kw.len() > 0)
}

proof fn lemma_anchor_in_range(anchor: FixAnchorView, sql: Seq<char>, start: int, body_end: int)
    requires
        is_byte_range(sql, start, body_end),
        anchor_span(anchor, sql, start, body_end) is Some,
        anchor matches FixAnchorView::AfterKeyword(kw) ==> kw.len() > 0,
    ensures
        anchor_span(anchor, sql, start, body_end) matches Some(span) ==> is_byte_range(
            sql,
            span.0,
            span.1,
        ),
{
    reveal(anchor_span);
    let bytes = encode_utf8(sql);
    let n = bytes.len() as int;
    encode_utf8_valid_utf8(sql);
    match anchor {
        FixAnchorView::AfterKeyword(kw) => {
            let hay = bytes.subrange(start, body_end);
            let ks = encode_utf8(kw);
            encode_utf8_valid_utf8(kw);
            lemma_slice_encodes(sql, start, body_end);
            let i = choose|i: int| first_keyword_at(hay, ks, i);
            assert(ks.len() > 0);
            lemma_keyword_end_is_boundary(hay, ks, i);
            lemma_boundary_in_part(sql, start, body_end, i + ks.len());
        },
        FixAnchorView::ReplaceTokenAt(at) => {
            let rest = bytes.subrange(at, n);
            lemma_word_prefix(rest);
            let l = word_prefix(rest);
            assert(rest[l - 1] == bytes[at + l - 1]);
            lemma_boundary_after_ascii(bytes, at + l - 1);
        },
        _ => {},
    }
}

/// Whether no two edits overlap.
pub open spec fn edits_disjoint(es: Seq<FixEditView>) -> bool {
    forall|i: int, j: int|
        0 <= i < es.len() && 0 <= j < es.len() && i != j ==> !overlap(
            #[trigger] es[i],
            #[trigger] es[j],
        )
}

/// Where [`insert_ascending`] puts its edit: behind the last one that does not belong behind it.
proof fn lemma_place(es: Seq<FixEditView>, e: FixEditView) -> (p: int)
    ensures
        0 <= p <= es.len(),
        insert_ascending(es, e) == es.insert(p, e),
        forall|i: int| p <= i < es.len() ==> belongs_behind(#[trigger] es[i], e),
        p > 0 ==> !belongs_behind(es[p - 1], e),
    decreases es.len(),
{
    if es.len() > 0 && belongs_behind(es.last(), e) {
        let front = es.drop_last();
        let p = lemma_place(front, e);
        assert(front.insert(p, e).push(es.last()) == es.insert(p, e));
        assert forall|i: int| p <= i < es.len() implies belongs_behind(#[trigger] es[i], e) by {
            if i < front.len() {
                assert(front[i] == es[i]);
            }
        }
        if p > 0 {
            assert(front[p - 1] == es[p - 1]);
        }
        p
    } else {
        assert(es.push(e) == es.insert(es.len() as int, e));
        es.len() as int
    }
}

/// An edit that overlaps none of some ordered edits takes its place among them.
proof fn lemma_insert_keeps_order(es: Seq<FixEditView>, e: FixEditView)
    requires
        edits_ordered(es),
        e.start <= e.end,
        forall|i: int| 0 <= i < es.len() ==> (#[trigger] es[i]).start <= es[i].end,
        forall|i: int| 0 <= i < es.len() ==> !overlap(#[trigger] es[i], e),
    ensures
        edits_ordered(insert_ascending(es, e)),
        insert_ascending(es, e).len() == es.len() + 1,
        forall|i: int|
            0 <= i < insert_ascending(es, e).len() ==> (#[trigger] insert_ascending(es, e)[i]) == e
                || es.contains(insert_ascending(es, e)[i]),
{
    let p = lemma_place(es, e);
    let r = es.insert(p, e);
    assert forall|i: int| 0 <= i < r.len() implies (#[trigger] r[i]) == e || es.contains(r[i]) by {
        if i != p {
            assert(r[i] == es[if i < p { i } else { i - 1 }]);
        }
    }
    assert forall|i: int, j: int| 0 <= i < j < r.len() implies #[trigger] r[i].start
        <= #[trigger] r[j].start && r[i].end <= r[j].start by {
        if j == p {
            assert(r[i] == es[i]);
            if i < p - 1 {
                assert(es[i].end <= es[p - 1].start);
            }
        } else if i == p {
            assert(r[j] == es[j - 1]);
        } else {
            let k: int = if i < p { i } else { i - 1 };
            let m: int = if j < p { j } else { j - 1 };
            assert(r[i] == es[k] && r[j] == es[m]);
        }
    }
}

/// Sorting edits that do not overlap yields an ordered list of the same edits, in whichever
/// order they were given.
pub proof fn sorting_orders_disjoint_edits(es: Seq<FixEditView>)
    requires
        edits_disjoint(es),
        forall|i: int| 0 <= i < es.len() ==> (#[trigger] es[i]).start <= es[i].end,
    ensures
        edits_ordered(sort_ascending(es)),
        sort_ascending(es).len() == es.len(),
        forall|i: int|
            0 <= i < es.len() ==> es.contains(#[trigger] sort_ascending(es)[i]),
    decreases es.len(),
{
    if es.len() > 0 {
        let front = es.drop_last();
        assert(edits_disjoint(front)) by {
            assert forall|i: int, j: int|
                0 <= i < front.len() && 0 <= j < front.len() && i != j implies !overlap(
                #[trigger] front[i],
                #[trigger] front[j],
            ) by {
                assert(front[i] == es[i] && front[j] == es[j]);
            }
        }
        assert forall|i: int| 0 <= i < front.len() implies (#[trigger] front[i]).start
            <= front[i].end by {
            assert(front[i] == es[i]);
        }
        sorting_orders_disjoint_edits(front);
        let s = sort_ascending(front);
        assert forall|i: int| 0 <= i < s.len() implies !overlap(#[trigger] s[i], es.last())
            && s[i].start <= s[i].end by {
            let k = choose|k: int| 0 <= k < front.len() && front[k] == s[i];
            assert(es[k] == s[i]);
            assert(!overlap(es[k], es[es.len() - 1]));
        }
        assert(es[es.len() - 1].start <= es[es.len() - 1].end);
        lemma_insert_keeps_order(s, es.last());
        let r = sort_ascending(es);
        assert forall|i: int| 0 <= i < es.len() implies es.contains(#[trigger] r[i]) by {
            if r[i] == es.last() {
                assert(es[es.len() - 1] == r[i]);
            } else {
                assert(s.contains(r[i]));
                let m = choose|m: int| 0 <= m < s.len() && s[m] == r[i];
                let k = choose|k: int| 0 <= k < front.len() && front[k] == s[m];
                assert(es[k] == r[i]);
            }
        }
    }
}

/// Sorting leaves ordered edits as they are.
pub proof fn sorting_keeps_ordered_edits(es: Seq<FixEditView>)
    requires
        edits_ordered(es),
        forall|i: int| 0 <= i < es.len() ==> (#[trigger] es[i]).start <= es[i].end,
    ensures
        sort_ascending(es) == es,
    decreases es.len(),
{
    if es.len() > 0 {
        let front = es.drop_last();
        assert forall|i: int, j: int| 0 <= i < j < front.len() implies #[trigger] front[i].start
            <= #[trigger] front[j].start && front[i].end <= front[j].start by {
            assert(front[i] == es[i] && front[j] == es[j]);
        }
        assert forall|i: int| 0 <= i < front.len() implies (#[trigger] front[i]).start
            <= front[i].end by {
            assert(front[i] == es[i]);
        }
        sorting_keeps_ordered_edits(front);
        if front.len() > 0 {
            assert(es[es.len() - 2].end <= es[es.len() - 1].start);
            assert(es[es.len() - 1].start <= es[es.len() - 1].end);
        }
        assert(front.push(es.last()) == es);
    }
}

/// A resolved fix has at least one edit, its edits ascend and do not overlap, and every
/// offset lies within the text on a character boundary — for a statement span that is
/// itself such a range, keywords that are not empty, and edits that do not collide.
pub proof fn resolved_fix_is_well_formed(
    draft: FixDraftView,
    sql: Seq<char>,
    start: int,
    body_end: int,
)
    requires
        is_byte_range(sql, start, body_end),
        resolve_spec(draft, sql, start, body_end) is Some,
        keywords_nonempty(draft),
        edits_disjoint(resolved_edits(draft, sql, start, body_end)),
    ensures
        resolve_spec(draft, sql, start, body_end)->0.well_formed(sql),
{
    let es = resolved_edits(draft, sql, start, body_end);
    assert forall|k: int| 0 <= k < es.len() implies is_byte_range(
        sql,
        (#[trigger] es[k]).start,
        es[k].end,
    ) by {
        assert(resolved_edit(draft.edits[k], sql, start, body_end) is Some);
        lemma_anchor_in_range(draft.edits[k].anchor, sql, start, body_end);
    }
    assert forall|k: int| 0 <= k < es.len() implies (#[trigger] es[k]).start <= es[k].end by {
        assert(is_byte_range(sql, es[k].start, es[k].end));
    }
    sorting_orders_disjoint_edits(es);
    let r = sort_ascending(es);
    assert forall|i: int| 0 <= i < r.len() implies is_byte_range(
        sql,
        (#[trigger] r[i]).start,
        r[i].end,
    ) by {
        let k = choose|k: int| 0 <= k < es.len() && es[k] == r[i];
        assert(is_byte_range(sql, es[k].start, es[k].end));
    }
}

/// Applying no edits changes nothing.
pub proof fn no_edits_change_nothing(sql: Seq<char>)
    ensures
        applicable(sql, Seq::empty()),
        apply_spec(sql, Seq::empty()) == sql,
{
}

/// The edits of the accepted fixes do not overlap, where those of each fix do not.
pub proof fn accepted_edits_do_not_overlap(fixes: Seq<FixView>)
    requires
        forall|f: int, i: int, j: int|
            0 <= f < fixes.len() && 0 <= i < fixes[f].edits.len() && 0 <= j
                < fixes[f].edits.len() && i != j ==> !overlap(
                #[trigger] fixes[f].edits[i],
                #[trigger] fixes[f].edits[j],
            ),
    ensures
        forall|i: int, j: int|
            0 <= i < accepted_edits(fixes).len() && 0 <= j < accepted_edits(fixes).len() && i != j
                ==> !overlap(#[trigger] accepted_edits(fixes)[i], #[trigger] accepted_edits(fixes)[j]),
    decreases fixes.len(),
{
    if fixes.len() > 0 {
        let front = fixes.drop_last();
        assert forall|f: int, i: int, j: int|
            0 <= f < front.len() && 0 <= i < front[f].edits.len() && 0 <= j < front[f].edits.len()
                && i != j implies !overlap(
            #[trigger] front[f].edits[i],
            #[trigger] front[f].edits[j],
        ) by {
            assert(front[f] == fixes[f]);
            assert(!overlap(fixes[f].edits[i], fixes[f].edits[j]));
        }
        accepted_edits_do_not_overlap(front);
        let before = accepted_edits(front);
        let last = fixes.last().edits;
        let all = accepted_edits(fixes);
        if !clashes(before, last) {
            assert forall|i: int, j: int|
                0 <= i < all.len() && 0 <= j < all.len() && i != j implies !overlap(
                #[trigger] all[i],
                #[trigger] all[j],
            ) by {
                let n = before.len() as int;
                if i < n && j < n {
                    assert(!overlap(before[i], before[j]));
                } else if i >= n && j >= n {
                    assert(fixes[fixes.len() - 1].edits[i - n] == all[i]);
                    assert(fixes[fixes.len() - 1].edits[j - n] == all[j]);
                } else if i < n {
                    assert(!overlap(last[j - n], before[i]));
                } else {
                    assert(!overlap(last[i - n], before[j]));
                }
            }
        }
    }
}

/// A fix is taken whole or not at all: offering one more fix adds either all of its
/// edits or none, and none exactly where one of them overlaps an accepted edit.
pub proof fn a_fix_is_atomic(fixes: Seq<FixView>, fix: FixView)
    ensures
        accepted_edits(fixes.push(fix)) == if clashes(accepted_edits(fixes), fix.edits) {
            accepted_edits(fixes)
        } else {
            accepted_edits(fixes) + fix.edits
        },
{
    assert(fixes.push(fix).drop_last() == fixes);
}

/// `bytes` with each edit's range replaced and every byte outside the ranges kept: what
/// stands before the last edit rewritten, then its replacement, then what follows it.
pub open spec fn rewrite(bytes: Seq<u8>, es: Seq<FixEditView>) -> Seq<u8>
    decreases es.len(),
{
    if es.len() == 0 {
        bytes
    } else {
        rewrite(bytes.take(es.last().start), es.drop_last()) + encode_utf8(es.last().replacement)
            + bytes.skip(es.last().end)
    }
}

pub proof fn lemma_rewrite_suffix(x: Seq<u8>, y: Seq<u8>, es: Seq<FixEditView>)
    requires
        forall|i: int|
            0 <= i < es.len() ==> 0 <= (#[trigger] es[i]).start <= es[i].end <= x.len(),
    ensures
        rewrite(x + y, es) == rewrite(x, es) + y,
{
    if es.len() > 0 {
        let e = es[es.len() - 1];
        assert((x + y).take(e.start) == x.take(e.start));
        assert((x + y).skip(e.end) == x.skip(e.end) + y);
        let front = rewrite(x.take(e.start), es.drop_last()) + encode_utf8(e.replacement);
        assert(front + (x.skip(e.end) + y) == (front + x.skip(e.end)) + y);
    }
}

/// Where two valid encodings meet is a boundary.
pub proof fn lemma_seam_is_boundary(a: Seq<u8>, b: Seq<u8>)
    requires
        valid_utf8(a),
        valid_utf8(b),
    ensures
        valid_utf8(a + b),
        is_char_boundary(a + b, a.len() as int),
    decreases a.len(),
{
    if a.len() == 0 {
        assert(a + b == b);
    } else {
        let rest = pop_first_scalar(a);
        lemma_seam_is_boundary(rest, b);
        assert(pop_first_scalar(a + b) == rest + b);
    }
}

/// Replacing a range keeps the boundaries up to its start.
proof fn lemma_splice_keeps_prefix(
    sql: Seq<char>,
    start: int,
    end: int,
    replacement: Seq<char>,
    q: int,
)
    requires
        is_byte_range(sql, start, end),
        0 <= q <= start,
        is_char_boundary(encode_utf8(sql), q),
    ensures
        encode_utf8(splice_spec(sql, start, end, replacement)) == encode_utf8(sql).take(start)
            + encode_utf8(replacement) + encode_utf8(sql).skip(end),
        is_char_boundary(encode_utf8(splice_spec(sql, start, end, replacement)), q),
{
    let b = encode_utf8(sql);
    let n = b.len() as int;
    encode_utf8_valid_utf8(sql);
    is_char_boundary_start_end_of_seq(b);
    let head = slice_bytes(sql, 0, start);
    let tail = slice_bytes(sql, end, n);
    lemma_slice_encodes(sql, 0, start);
    lemma_slice_encodes(sql, end, n);
    lemma_encode_concat(head, replacement);
    lemma_encode_concat(head + replacement, tail);
    assert(b.subrange(0, start) == b.take(start));
    assert(b.subrange(end, n) == b.skip(end));
    let after = encode_utf8(splice_spec(sql, start, end, replacement));
    let rest = encode_utf8(replacement) + b.skip(end);
    assert(after == b.take(start) + rest);
    encode_utf8_valid_utf8(head);
    encode_utf8_valid_utf8(replacement + tail);
    lemma_encode_concat(replacement, tail);
    lemma_seam_is_boundary(b.take(start), rest);
    if q < start {
        is_char_boundary_iff_not_is_continuation_byte(b, q);
        is_char_boundary_iff_not_is_continuation_byte(after, q);
        assert(after[q] == b[q]);
    }
}

/// Splicing in ordered edits from the last to the first replaces exactly their ranges.
pub proof fn splicing_backwards_rewrites(sql: Seq<char>, es: Seq<FixEditView>)
    requires
        edits_in_range(sql, es),
        edits_ordered(es),
    ensures
        splices_fit(sql, es.reverse()),
        encode_utf8(splice_all(sql, es.reverse())) == rewrite(encode_utf8(sql), es),
    decreases es.len(),
{
    if es.len() > 0 {
        let front = es.drop_last();
        let e = es.last();
        let b = encode_utf8(sql);
        let sql2 = splice_spec(sql, e.start, e.end, e.replacement);
        assert(is_byte_range(sql, es[es.len() - 1].start, es[es.len() - 1].end));
        assert(es.reverse()[0] == e);
        assert(es.reverse().drop_first() == front.reverse());
        lemma_splice_keeps_prefix(sql, e.start, e.end, e.replacement, e.start);
        assert forall|i: int| 0 <= i < front.len() implies is_byte_range(
            sql2,
            (#[trigger] front[i]).start,
            front[i].end,
        ) by {
            assert(front[i] == es[i]);
            assert(es[i].end <= es[es.len() - 1].start);
            lemma_splice_keeps_prefix(sql, e.start, e.end, e.replacement, es[i].start);
            lemma_splice_keeps_prefix(sql, e.start, e.end, e.replacement, es[i].end);
        }
        assert(edits_ordered(front)) by {
            assert forall|i: int, j: int| 0 <= i < j < front.len() implies #[trigger] front[i].start
                <= #[trigger] front[j].start && front[i].end <= front[j].start by {
                assert(front[i] == es[i] && front[j] == es[j]);
            }
        }
        splicing_backwards_rewrites(sql2, front);
        assert forall|i: int| 0 <= i < front.len() implies 0 <= (#[trigger] front[i]).start
            <= front[i].end <= b.take(e.start).len() by {
            assert(front[i] == es[i]);
            assert(es[i].end <= es[es.len() - 1].start);
            assert(is_byte_range(sql, es[i].start, es[i].end));
        }
        let suffix = encode_utf8(e.replacement) + b.skip(e.end);
        assert(encode_utf8(sql2) == b.take(e.start) + suffix);
        lemma_rewrite_suffix(b.take(e.start), suffix, front);
        assert(rewrite(b, es) == rewrite(b.take(e.start), front) + suffix);
    }
}

/// Applying ordered edits replaces exactly their ranges, as the text has them, and keeps every
/// byte outside them: no splice shifts another.
pub proof fn apply_rewrites_in_place(sql: Seq<char>, es: Seq<FixEditView>)
    requires
        edits_in_range(sql, es),
        edits_ordered(es),
    ensures
        applicable(sql, es),
        encode_utf8(apply_spec(sql, es)) == rewrite(encode_utf8(sql), es),
{
    assert forall|i: int| 0 <= i < es.len() implies (#[trigger] es[i]).start <= es[i].end by {
        assert(is_byte_range(sql, es[i].start, es[i].end));
    }
    sorting_keeps_ordered_edits(es);
    splicing_backwards_rewrites(sql, es);
}

proof fn lemma_accepted_come_from_fixes(fixes: Seq<FixView>, k: int) -> (at: (int, int))
    requires
        0 <= k < accepted_edits(fixes).len(),
    ensures
        0 <= at.0 < fixes.len(),
        0 <= at.1 < fixes[at.0].edits.len(),
        fixes[at.0].edits[at.1] == accepted_edits(fixes)[k],
    decreases fixes.len(),
{
    let front = fixes.drop_last();
    let before = accepted_edits(front);
    if k < before.len() {
        let at = lemma_accepted_come_from_fixes(front, k);
        assert(front[at.0] == fixes[at.0]);
        at
    } else {
        (fixes.len() - 1, k - before.len())
    }
}

/// Fixes that fit a text can be applied to it together: what is accepted of them, once sorted,
/// is ordered and in range, and applying it replaces exactly its ranges.
pub proof fn fitting_fixes_compose(sql: Seq<char>, fixes: Seq<FixView>)
    requires
        forall|f: int| 0 <= f < fixes.len() ==> (#[trigger] fixes[f]).well_formed(sql),
    ensures
        ({
            let es = sort_ascending(accepted_edits(fixes));
            &&& edits_in_range(sql, es)
            &&& edits_ordered(es)
            &&& applicable(sql, es)
            &&& encode_utf8(apply_spec(sql, es)) == rewrite(encode_utf8(sql), es)
        }),
{
    let es = accepted_edits(fixes);
    assert forall|f: int, i: int, j: int|
        0 <= f < fixes.len() && 0 <= i < fixes[f].edits.len() && 0 <= j < fixes[f].edits.len() && i
            != j implies !overlap(
        #[trigger] fixes[f].edits[i],
        #[trigger] fixes[f].edits[j],
    ) by {
        assert(fixes[f].well_formed(sql));
        let (a, b): (int, int) = if i < j { (i, j) } else { (j, i) };
        assert(fixes[f].edits[a].end <= fixes[f].edits[b].start);
    }
    accepted_edits_do_not_overlap(fixes);
    assert forall|k: int| 0 <= k < es.len() implies is_byte_range(
        sql,
        (#[trigger] es[k]).start,
        es[k].end,
    ) by {
        let at = lemma_accepted_come_from_fixes(fixes, k);
        assert(fixes[at.0].well_formed(sql));
    }
    assert forall|k: int| 0 <= k < es.len() implies (#[trigger] es[k]).start <= es[k].end by {
        assert(is_byte_range(sql, es[k].start, es[k].end));
    }
    sorting_orders_disjoint_edits(es);
    let asc = sort_ascending(es);
    assert forall|i: int| 0 <= i < asc.len() implies is_byte_range(
        sql,
        (#[trigger] asc[i]).start,
        asc[i].end,
    ) by {
        let k = choose|k: int| 0 <= k < es.len() && es[k] == asc[i];
        assert(is_byte_range(sql, es[k].start, es[k].end));
    }
    apply_rewrites_in_place(sql, asc);
}

} // verus!
