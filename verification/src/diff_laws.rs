//! What holds of every diff: it fits the original, and patching with it gives the result.
use vstd::prelude::*;
use vstd::utf8::encode_utf8;

use crate::diff::{
    common_prefix, common_suffix, diff_strings_spec, least, lemma_common_prefix,
    lemma_common_suffix, new_lines, old_lines, prefixed, whole_hunk, CONTEXT,
};
use crate::edit_diff::{
    block_ok, block_range, block_text, blocks_lines, blocks_spec, diff_spec, edits_on_lines, hunk_end,
    hunk_first, hunk_lines, lemma_block_range, lemma_blocks, shifted, BlockView,
};
use crate::finding::{edits_in_range, edits_ordered, FixEditView};
use crate::fix_laws::{lemma_rewrite_suffix, rewrite, splicing_backwards_rewrites};
use crate::lines::{lemma_line_starts, line_starts_spec, split_lines};
use crate::text::{lemma_slice_encodes, slice_bytes};

verus! {

/// The lines a diff body shows of the old file.
pub open spec fn old_side(ls: Seq<(char, Seq<char>)>) -> Seq<Seq<char>>
    decreases ls.len(),
{
    if ls.len() == 0 {
        Seq::empty()
    } else if ls.last().0 == '+' {
        old_side(ls.drop_last())
    } else {
        old_side(ls.drop_last()).push(ls.last().1)
    }
}

/// The lines a diff body shows of the new file.
pub open spec fn new_side(ls: Seq<(char, Seq<char>)>) -> Seq<Seq<char>>
    decreases ls.len(),
{
    if ls.len() == 0 {
        Seq::empty()
    } else if ls.last().0 == '-' {
        new_side(ls.drop_last())
    } else {
        new_side(ls.drop_last()).push(ls.last().1)
    }
}

/// Whether a hunk body that begins at line `start` matches `lines`.
pub open spec fn hunk_fits(
    lines: Seq<Seq<char>>,
    start: int,
    body: Seq<(char, Seq<char>)>,
) -> bool {
    &&& 0 <= start
    &&& start + old_side(body).len() <= lines.len()
    &&& lines.subrange(start, start + old_side(body).len()) == old_side(body)
}

/// `lines` with the old side of a hunk replaced by its new side.
pub open spec fn patched(
    lines: Seq<Seq<char>>,
    start: int,
    body: Seq<(char, Seq<char>)>,
) -> Seq<Seq<char>> {
    lines.take(start) + new_side(body) + lines.skip(start + old_side(body).len())
}

pub proof fn lemma_sides_concat(x: Seq<(char, Seq<char>)>, y: Seq<(char, Seq<char>)>)
    ensures
        old_side(x + y) == old_side(x) + old_side(y),
        new_side(x + y) == new_side(x) + new_side(y),
    decreases y.len(),
{
    if y.len() == 0 {
        assert(x + y == x);
    } else {
        lemma_sides_concat(x, y.drop_last());
        assert((x + y).drop_last() == x + y.drop_last());
        assert((x + y).last() == y.last());
    }
}

pub proof fn lemma_sides_prefixed(c: char, lines: Seq<Seq<char>>)
    ensures
        old_side(prefixed(c, lines)) == (if c == '+' {
            Seq::<Seq<char>>::empty()
        } else {
            lines
        }),
        new_side(prefixed(c, lines)) == (if c == '-' {
            Seq::<Seq<char>>::empty()
        } else {
            lines
        }),
    decreases lines.len(),
{
    let p = prefixed(c, lines);
    if lines.len() == 0 {
        assert(p.len() == 0);
    } else {
        lemma_sides_prefixed(c, lines.drop_last());
        assert(p.drop_last() == prefixed(c, lines.drop_last()));
        assert(p.last() == (c, lines.last()));
        assert(lines == lines.drop_last().push(lines.last()));
    }
}

/// The counts in a hunk header are the lengths of the two sides of its body.
pub proof fn counts_are_side_lengths(body: Seq<(char, Seq<char>)>)
    ensures
        old_lines(body) == old_side(body).len(),
        new_lines(body) == new_side(body).len(),
    decreases body.len(),
{
    if body.len() > 0 {
        counts_are_side_lengths(body.drop_last());
    }
}

/// A diff of equal texts is empty.
pub proof fn equal_texts_have_no_diff(name: Seq<char>, text: Seq<char>)
    ensures
        diff_strings_spec(name, text, text) == Seq::<char>::empty(),
{
}

/// Without edits there is no diff.
pub proof fn no_edits_have_no_diff(name: Seq<char>, original: Seq<char>)
    ensures
        diff_spec(name, original, Seq::empty()) == Seq::<char>::empty(),
{
}

/// The one hunk of a whole-text diff matches the lines of the original, and replacing its
/// old side by its new side turns them into the lines of the updated text.
pub proof fn whole_diff_patches_the_original(original: Seq<char>, updated: Seq<char>)
    ensures
        ({
            let a = split_lines(original);
            let b = split_lines(updated);
            let pre = common_prefix(a, b);
            let start = pre - least(pre, CONTEXT as int);
            &&& hunk_fits(a, start, whole_hunk(a, b))
            &&& patched(a, start, whole_hunk(a, b)) == b
        }),
{
    let a = split_lines(original);
    let b = split_lines(updated);
    let pre = common_prefix(a, b);
    lemma_common_prefix(a, b);
    let x = a.skip(pre);
    let y = b.skip(pre);
    let suf = common_suffix(x, y);
    lemma_common_suffix(x, y);
    let start = pre - least(pre, CONTEXT as int);
    let stop = a.len() - suf + least(suf, CONTEXT as int);
    let l1 = a.subrange(start, pre);
    let l2 = a.subrange(pre, a.len() - suf);
    let l3 = b.subrange(pre, b.len() - suf);
    let l4 = a.subrange(a.len() - suf, stop);
    let p1 = prefixed(' ', l1);
    let p2 = prefixed('-', l2);
    let p3 = prefixed('+', l3);
    let p4 = prefixed(' ', l4);
    lemma_sides_prefixed(' ', l1);
    lemma_sides_prefixed('-', l2);
    lemma_sides_prefixed('+', l3);
    lemma_sides_prefixed(' ', l4);
    lemma_sides_concat(p1, p2);
    lemma_sides_concat(p1 + p2, p3);
    lemma_sides_concat(p1 + p2 + p3, p4);
    let body = whole_hunk(a, b);
    assert(old_side(body) == l1 + l2 + l4);
    assert(new_side(body) == l1 + l3 + l4);
    assert(a.subrange(start, stop) == l1 + l2 + l4);
    let r = patched(a, start, body);
    assert(r == a.take(start) + (l1 + l3 + l4) + a.skip(stop));
    assert forall|i: int| 0 <= i < b.len() implies #[trigger] r[i] == b[i] by {
        if i < pre {
            assert(a[i] == b[i]);
            assert(r[i] == a[i]);
        } else if i >= b.len() - suf {
            let j = b.len() - 1 - i;
            assert(x[x.len() - 1 - j] == y[y.len() - 1 - j]);
            assert(r[i] == a[a.len() - 1 - j]);
        }
    }
    assert(r == b);
}

/// The old side of consecutive blocks is the original's lines from the first to the last.
proof fn lemma_blocks_old_side(original: Seq<char>, bs: Seq<BlockView>)
    requires
        bs.len() > 0,
        forall|k: int|
            0 <= k < bs.len() ==> 0 <= (#[trigger] bs[k]).first <= bs[k].last < split_lines(
                original,
            ).len(),
        forall|k: int| 1 <= k < bs.len() ==> (#[trigger] bs[k - 1]).last + 1 < bs[k].first,
    ensures
        old_side(blocks_lines(original, bs)) == split_lines(original).subrange(
            bs[0].first,
            bs.last().last + 1,
        ),
        bs[0].first <= bs.last().first,
    decreases bs.len(),
{
    let lines = split_lines(original);
    let b = bs.last();
    let gone = lines.subrange(b.first, b.last + 1);
    let come = split_lines(block_text(original, b));
    lemma_sides_prefixed('-', gone);
    lemma_sides_prefixed('+', come);
    lemma_sides_concat(prefixed('-', gone), prefixed('+', come));
    if bs.len() > 1 {
        let front = bs.drop_last();
        assert forall|k: int| 0 <= k < front.len() implies 0 <= (#[trigger] front[k]).first
            <= front[k].last < lines.len() by {
            assert(front[k] == bs[k]);
        }
        assert forall|k: int| 1 <= k < front.len() implies (#[trigger] front[k - 1]).last + 1
            < front[k].first by {
            assert(front[k - 1] == bs[k - 1] && front[k] == bs[k]);
        }
        lemma_blocks_old_side(original, front);
        let gap = lines.subrange(bs[bs.len() - 2].last + 1, b.first);
        assert(bs[bs.len() - 1 - 1].last + 1 < bs[bs.len() - 1].first);
        assert(front.last() == bs[bs.len() - 2]);
        assert(0 <= bs[bs.len() - 2].first <= bs[bs.len() - 2].last < lines.len());
        lemma_sides_prefixed(' ', gap);
        let x = blocks_lines(original, front);
        let y = prefixed('-', gone) + prefixed('+', come);
        lemma_sides_concat(x, prefixed(' ', gap));
        lemma_sides_concat(x + prefixed(' ', gap), y);
        assert(lines.subrange(bs[0].first, b.last + 1) == lines.subrange(
            bs[0].first,
            front.last().last + 1,
        ) + gap + gone);
    }
}

/// The old side of a hunk is a run of the original's lines: the hunk matches the text it
/// was made for.
pub proof fn hunk_matches_the_original(original: Seq<char>, h: Seq<BlockView>)
    requires
        h.len() > 0,
        forall|k: int|
            0 <= k < h.len() ==> 0 <= (#[trigger] h[k]).first <= h[k].last < split_lines(
                original,
            ).len(),
        forall|k: int| 1 <= k < h.len() ==> (#[trigger] h[k - 1]).last + 1 < h[k].first,
    ensures
        hunk_fits(split_lines(original), hunk_first(h), hunk_lines(original, h)),
        hunk_first(h) + old_side(hunk_lines(original, h)).len() == hunk_end(original, h),
{
    let lines = split_lines(original);
    lemma_blocks_old_side(original, h);
    assert(0 <= h[0].first <= h[0].last < lines.len());
    assert(0 <= h[h.len() - 1].first <= h[h.len() - 1].last < lines.len());
    let lead = lines.subrange(hunk_first(h), h[0].first);
    let trail = lines.subrange(h.last().last + 1, hunk_end(original, h));
    lemma_sides_prefixed(' ', lead);
    lemma_sides_prefixed(' ', trail);
    let x = blocks_lines(original, h);
    lemma_sides_concat(prefixed(' ', lead), x);
    lemma_sides_concat(prefixed(' ', lead) + x, prefixed(' ', trail));
    assert(lines.subrange(hunk_first(h), hunk_end(original, h)) == lead + lines.subrange(
        h[0].first,
        h.last().last + 1,
    ) + trail);
}

/// The edits of all blocks in order.
pub open spec fn edits_of(bs: Seq<BlockView>) -> Seq<FixEditView>
    decreases bs.len(),
{
    if bs.len() == 0 {
        Seq::empty()
    } else {
        edits_of(bs.drop_last()) + bs.last().edits
    }
}

/// Each block as one edit: its range replaced by its new text.
pub open spec fn block_edits(original: Seq<char>, bs: Seq<BlockView>) -> Seq<FixEditView> {
    bs.map_values(
        |b: BlockView|
            {
                let range = block_range(encode_utf8(original), b);
                FixEditView {
                    start: range.0,
                    end: range.1,
                    replacement: block_text(original, b),
                }
            },
    )
}

/// Grouping keeps every edit, in order.
proof fn lemma_grouping_keeps_edits(bytes: Seq<u8>, es: Seq<FixEditView>)
    ensures
        edits_of(blocks_spec(bytes, es)) == es,
    decreases es.len(),
{
    if es.len() > 0 {
        let front = es.drop_last();
        lemma_grouping_keeps_edits(bytes, front);
        let before = blocks_spec(bytes, front);
        let after = blocks_spec(bytes, es);
        let e = es.last();
        if after.len() == before.len() {
            assert(after.drop_last() == before.drop_last());
            assert(edits_of(before) == edits_of(before.drop_last()) + before.last().edits);
            assert(edits_of(after) == edits_of(before.drop_last()) + before.last().edits.push(e));
        } else {
            assert(after.drop_last() == before);
        }
        assert(edits_of(after) == front.push(e));
        assert(es == front.push(e));
    }
}

/// Rewriting at ordered edits splits at any cut that none of them spans.
proof fn lemma_rewrite_split(
    bytes: Seq<u8>,
    x: Seq<FixEditView>,
    y: Seq<FixEditView>,
    cut: int,
)
    requires
        0 <= cut <= bytes.len(),
        forall|i: int| 0 <= i < x.len() ==> 0 <= (#[trigger] x[i]).start <= x[i].end <= cut,
        forall|i: int|
            0 <= i < y.len() ==> cut <= (#[trigger] y[i]).start <= y[i].end <= bytes.len(),
        edits_ordered(y),
    ensures
        rewrite(bytes, x + y) == rewrite(bytes.take(cut), x) + rewrite(
            bytes.skip(cut),
            shifted(y, cut),
        ),
    decreases y.len(),
{
    if y.len() == 0 {
        assert(x + y == x);
        assert(shifted(y, cut).len() == 0);
        assert(bytes == bytes.take(cut) + bytes.skip(cut));
        lemma_rewrite_suffix(bytes.take(cut), bytes.skip(cut), x);
    } else {
        let e = y[y.len() - 1];
        let front = y.drop_last();
        let head = bytes.take(e.start);
        let sy = shifted(y, cut);
        assert((x + y).drop_last() == x + front);
        assert((x + y).last() == e);
        assert(sy.drop_last() == shifted(front, cut));
        assert(sy.last().start == e.start - cut);
        assert forall|i: int| 0 <= i < front.len() implies cut <= (#[trigger] front[i]).start
            <= front[i].end <= head.len() by {
            assert(front[i] == y[i]);
            assert(y[i].end <= y[y.len() - 1].start);
        }
        assert(edits_ordered(front)) by {
            assert forall|i: int, j: int| 0 <= i < j < front.len() implies #[trigger] front[i].start
                <= #[trigger] front[j].start && front[i].end <= front[j].start by {
                assert(front[i] == y[i] && front[j] == y[j]);
            }
        }
        lemma_rewrite_split(head, x, front, cut);
        assert(head.take(cut) == bytes.take(cut));
        assert(head.skip(cut) == bytes.skip(cut).take(e.start - cut));
        assert(bytes.skip(cut).skip(e.end - cut) == bytes.skip(e.end));
        let l = rewrite(bytes.take(cut), x);
        let m = rewrite(head.skip(cut), shifted(front, cut));
        let rep = encode_utf8(e.replacement);
        assert(l + m + rep + bytes.skip(e.end) == l + (m + rep + bytes.skip(e.end)));
    }
}

/// Up to any cut behind them, block by block and edit by edit rewriting agree.
proof fn lemma_blocks_rewrite(original: Seq<char>, bs: Seq<BlockView>, cut: int)
    requires
        forall|k: int|
            0 <= k < bs.len() ==> block_ok(
                encode_utf8(original),
                #[trigger] bs[k],
                split_lines(original).len() as int,
            ) && edits_in_range(original, bs[k].edits),
        forall|k: int| 1 <= k < bs.len() ==> (#[trigger] bs[k - 1]).last + 1 < bs[k].first,
        cut <= encode_utf8(original).len(),
        bs.len() > 0 ==> block_range(encode_utf8(original), bs.last()).1 <= cut,
        0 <= cut,
    ensures
        rewrite(encode_utf8(original).take(cut), edits_of(bs)) == rewrite(
            encode_utf8(original).take(cut),
            block_edits(original, bs),
        ),
        forall|i: int|
            0 <= i < edits_of(bs).len() ==> 0 <= (#[trigger] edits_of(bs)[i]).start
                <= edits_of(bs)[i].end <= cut,
    decreases bs.len(),
{
    let bytes = encode_utf8(original);
    if bs.len() > 0 {
        let front = bs.drop_last();
        let b = bs[bs.len() - 1];
        let range = block_range(bytes, b);
        lemma_block_range(original, b);
        assert forall|k: int| 0 <= k < front.len() implies block_ok(
            bytes,
            #[trigger] front[k],
            split_lines(original).len() as int,
        ) && edits_in_range(original, front[k].edits) by {
            assert(front[k] == bs[k]);
        }
        assert forall|k: int| 1 <= k < front.len() implies (#[trigger] front[k - 1]).last + 1
            < front[k].first by {
            assert(front[k - 1] == bs[k - 1] && front[k] == bs[k]);
        }
        if front.len() > 0 {
            lemma_line_starts(bytes);
            let p = bs[bs.len() - 2];
            assert(front.last() == p);
            assert(bs[bs.len() - 1 - 1].last + 1 < bs[bs.len() - 1].first);
            assert(block_ok(bytes, p, split_lines(original).len() as int));
            let starts = line_starts_spec(bytes);
            assert(starts[p.last + 1] < starts[b.first]);
        }
        lemma_blocks_rewrite(original, front, range.0);
        let text = bytes.take(cut);
        let x = edits_of(front);
        assert forall|i: int| 0 <= i < b.edits.len() implies range.0 <= (#[trigger] b.edits[i]).start
            <= b.edits[i].end <= text.len() by {
            assert(range.0 <= b.edits[i].start && b.edits[i].end <= range.1);
        }
        lemma_rewrite_split(text, x, b.edits, range.0);
        let local = shifted(b.edits, range.0);
        let part = slice_bytes(original, range.0, range.1);
        lemma_slice_encodes(original, range.0, range.1);
        splicing_backwards_rewrites(part, local);
        let mid = bytes.subrange(range.0, range.1);
        let tail = text.skip(range.1);
        assert(text.skip(range.0) == mid + tail);
        assert forall|i: int| 0 <= i < local.len() implies 0 <= (#[trigger] local[i]).start
            <= local[i].end <= mid.len() by {
            assert(range.0 <= b.edits[i].start && b.edits[i].end <= range.1);
        }
        lemma_rewrite_suffix(mid, tail, local);
        assert(text.take(range.0) == bytes.take(range.0));
        let be = block_edits(original, bs);
        assert(be.drop_last() == block_edits(original, front));
        assert(rewrite(text, be) == rewrite(text.take(range.0), be.drop_last()) + encode_utf8(
            block_text(original, b),
        ) + tail);
        assert(rewrite(text, edits_of(bs)) == rewrite(text.take(range.0), x) + (encode_utf8(
            block_text(original, b),
        ) + tail));
        assert(rewrite(text, edits_of(bs)) == rewrite(text, be));
        assert forall|i: int| 0 <= i < edits_of(bs).len() implies 0 <= (#[trigger] edits_of(
            bs,
        )[i]).start <= edits_of(bs)[i].end <= cut by {
            if i < x.len() {
                assert(edits_of(bs)[i] == x[i]);
            } else {
                assert(edits_of(bs)[i] == b.edits[i - x.len()]);
                assert(b.edits[i - x.len()].end <= range.1);
            }
        }
    } else {
        assert(block_edits(original, bs).len() == 0);
    }
}

/// The blocks of a diff carry exactly the edits: replacing each block's lines by its new
/// lines gives the same text as replacing each edit's range by its replacement.
pub proof fn blocks_carry_the_edits(original: Seq<char>, es: Seq<FixEditView>)
    requires
        edits_in_range(original, es),
        edits_ordered(es),
        edits_on_lines(original, es),
    ensures
        rewrite(
            encode_utf8(original),
            block_edits(original, blocks_spec(encode_utf8(original), es)),
        ) == rewrite(encode_utf8(original), es),
{
    let bytes = encode_utf8(original);
    let bs = blocks_spec(bytes, es);
    lemma_blocks(original, es);
    lemma_grouping_keeps_edits(bytes, es);
    assert(bytes.take(bytes.len() as int) == bytes);
    if bs.len() > 0 {
        lemma_line_starts(bytes);
        assert(block_ok(bytes, bs[bs.len() - 1], split_lines(original).len() as int));
    }
    lemma_blocks_rewrite(original, bs, bytes.len() as int);
}

} // verus!
