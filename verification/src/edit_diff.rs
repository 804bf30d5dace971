//! Unified diff of a set of edits against the text they were resolved for.
use vstd::prelude::*;
use vstd::utf8::{
    encode_utf8, encode_utf8_valid_utf8, is_char_boundary,
    is_char_boundary_iff_not_is_continuation_byte, is_char_boundary_start_end_of_seq,
};

use crate::collections::texts;
use crate::diff::{
    count_lines, diff_header, diff_lines_view, diff_text, hunk_header, least, new_lines, old_lines,
    prefixed, push_diff_header, push_diff_lines, push_hunk_header, push_prefixed, DiffLine, CONTEXT,
};
use crate::finding::{edits_in_range, edits_ordered, edits_view, FixEdit, FixEditView};
use crate::fix::{splice, splice_all, splices_fit};
use crate::fix_laws::{lemma_boundary_after_ascii, splicing_backwards_rewrites};
use crate::lines::{
    lemma_line_holds, lemma_line_starts, lemma_newlines_monotone, line_of, line_starts,
    line_starts_spec, newlines, offsets, split_inclusive, split_lines,
};
use crate::text::{get_bytes, is_byte_range, lemma_slice_encodes, slice_bytes};

verus! {

/// The last byte an edit touches: the one before its end, or its start where it only inserts.
pub open spec fn last_byte(e: FixEditView) -> int {
    if e.end > e.start {
        e.end - 1
    } else {
        e.start
    }
}

/// The first line an edit touches.
pub open spec fn first_line(bytes: Seq<u8>, e: FixEditView) -> int {
    newlines(bytes, e.start)
}

/// The last line an edit touches.
pub open spec fn last_line(bytes: Seq<u8>, e: FixEditView) -> int {
    newlines(bytes, last_byte(e))
}

/// A run of lines that edits touch, with those edits.
pub struct BlockView {
    pub first: int,
    pub last: int,
    pub edits: Seq<FixEditView>,
}

/// The runs of touched lines: an edit joins the last run where it begins in that run or
/// in the line behind it, else it begins a new one.
pub open spec fn blocks_spec(bytes: Seq<u8>, es: Seq<FixEditView>) -> Seq<BlockView>
    decreases es.len(),
{
    if es.len() == 0 {
        Seq::empty()
    } else {
        let before = blocks_spec(bytes, es.drop_last());
        let e = es.last();
        let first = first_line(bytes, e);
        let last = last_line(bytes, e);
        if before.len() > 0 && first <= before.last().last + 1 {
            let b = before.last();
            before.drop_last().push(
                BlockView {
                    first: b.first,
                    last: if b.last <= last {
                        last
                    } else {
                        b.last
                    },
                    edits: b.edits.push(e),
                },
            )
        } else {
            before.push(BlockView { first, last, edits: seq![e] })
        }
    }
}

/// The bytes a block spans: from the start of its first line to the end of its last.
pub open spec fn block_range(bytes: Seq<u8>, b: BlockView) -> (int, int) {
    let starts = line_starts_spec(bytes);
    (
        starts[b.first],
        if b.last + 1 < starts.len() {
            starts[b.last + 1]
        } else {
            bytes.len() as int
        },
    )
}

/// Edits with their offsets counted from `base`.
pub open spec fn shifted(es: Seq<FixEditView>, base: int) -> Seq<FixEditView> {
    es.map_values(
        |e: FixEditView|
            FixEditView { start: e.start - base, end: e.end - base, replacement: e.replacement },
    )
}

/// The text of a block with its edits spliced in, last edit first.
pub open spec fn block_text(original: Seq<char>, b: BlockView) -> Seq<char> {
    let range = block_range(encode_utf8(original), b);
    splice_all(
        slice_bytes(original, range.0, range.1),
        shifted(b.edits, range.0).reverse(),
    )
}

/// Blocks by hunk: a block shares the hunk of the one before it where at most
/// `2 * CONTEXT` unchanged lines lie between them.
pub open spec fn hunks_spec(blocks: Seq<BlockView>) -> Seq<Seq<BlockView>>
    decreases blocks.len(),
{
    if blocks.len() == 0 {
        Seq::empty()
    } else {
        let before = hunks_spec(blocks.drop_last());
        let b = blocks.last();
        if before.len() > 0 && b.first - before.last().last().last - 1 <= 2 * CONTEXT {
            before.drop_last().push(before.last().push(b))
        } else {
            before.push(seq![b])
        }
    }
}

/// The body lines of one block: its lines as removed, its new lines as added.
pub open spec fn block_lines(original: Seq<char>, b: BlockView) -> Seq<(char, Seq<char>)> {
    prefixed('-', split_lines(original).subrange(b.first, b.last + 1)) + prefixed(
        '+',
        split_lines(block_text(original, b)),
    )
}

/// The body lines of consecutive blocks, the lines between them as context.
pub open spec fn blocks_lines(original: Seq<char>, bs: Seq<BlockView>) -> Seq<(char, Seq<char>)>
    decreases bs.len(),
{
    if bs.len() == 0 {
        Seq::empty()
    } else if bs.len() == 1 {
        block_lines(original, bs[0])
    } else {
        blocks_lines(original, bs.drop_last()) + prefixed(
            ' ',
            split_lines(original).subrange(bs[bs.len() - 2].last + 1, bs.last().first),
        ) + block_lines(original, bs.last())
    }
}

/// The first line of a hunk: up to [`CONTEXT`] lines before its first block.
pub open spec fn hunk_first(h: Seq<BlockView>) -> int {
    h[0].first - least(h[0].first, CONTEXT as int)
}

/// One past the last line of a hunk: up to [`CONTEXT`] lines behind its last block.
pub open spec fn hunk_end(original: Seq<char>, h: Seq<BlockView>) -> int {
    h.last().last + 1 + least(split_lines(original).len() - 1 - h.last().last, CONTEXT as int)
}

/// The body lines of a hunk: context, its blocks, context.
pub open spec fn hunk_lines(original: Seq<char>, h: Seq<BlockView>) -> Seq<(char, Seq<char>)> {
    prefixed(' ', split_lines(original).subrange(hunk_first(h), h[0].first)) + blocks_lines(
        original,
        h,
    ) + prefixed(
        ' ',
        split_lines(original).subrange(h.last().last + 1, hunk_end(original, h)),
    )
}

/// Lines of the old file that some hunks show.
pub open spec fn old_total(original: Seq<char>, hs: Seq<Seq<BlockView>>) -> nat
    decreases hs.len(),
{
    if hs.len() == 0 {
        0
    } else {
        old_total(original, hs.drop_last()) + old_lines(hunk_lines(original, hs.last()))
    }
}

/// Lines of the new file that some hunks show.
pub open spec fn new_total(original: Seq<char>, hs: Seq<Seq<BlockView>>) -> nat
    decreases hs.len(),
{
    if hs.len() == 0 {
        0
    } else {
        new_total(original, hs.drop_last()) + new_lines(hunk_lines(original, hs.last()))
    }
}

/// Where a hunk begins in the new file: its place in the old file, moved by what the
/// hunks before it added and removed; line 1 where that would fall before the file.
pub open spec fn new_start(old_start: nat, removed: nat, added: nat) -> nat {
    if old_start + added >= removed {
        (old_start + added - removed) as nat
    } else {
        1
    }
}

/// The hunks as text.
pub open spec fn hunks_text(original: Seq<char>, hs: Seq<Seq<BlockView>>) -> Seq<char>
    decreases hs.len(),
{
    if hs.len() == 0 {
        Seq::empty()
    } else {
        let before = hs.drop_last();
        let body = hunk_lines(original, hs.last());
        let start = (hunk_first(hs.last()) + 1) as nat;
        hunks_text(original, before) + hunk_header(
            start,
            old_lines(body),
            new_start(start, old_total(original, before), new_total(original, before)),
            new_lines(body),
        ) + diff_text(body)
    }
}

/// The diff of `edits` against `original`.
pub open spec fn diff_spec(
    name: Seq<char>,
    original: Seq<char>,
    es: Seq<FixEditView>,
) -> Seq<char> {
    if es.len() == 0 {
        Seq::empty()
    } else {
        diff_header(name) + hunks_text(
            original,
            hunks_spec(blocks_spec(encode_utf8(original), es)),
        )
    }
}

/// Whether every edit touches only lines that `original` has.
pub open spec fn edits_on_lines(original: Seq<char>, es: Seq<FixEditView>) -> bool {
    forall|i: int|
        0 <= i < es.len() ==> last_line(encode_utf8(original), #[trigger] es[i])
            < split_lines(original).len()
}

/// What holds of a block of edits that are ordered.
pub open spec fn block_ok(bytes: Seq<u8>, b: BlockView, total: int) -> bool {
    &&& 0 <= b.first <= b.last < total
    &&& b.edits.len() > 0
    &&& edits_ordered(b.edits)
    &&& forall|i: int|
        0 <= i < b.edits.len() ==> {
            let e = #[trigger] b.edits[i];
            &&& 0 <= e.start <= e.end <= bytes.len()
            &&& b.first <= first_line(bytes, e)
            &&& last_line(bytes, e) <= b.last
        }
}

pub proof fn lemma_blocks(original: Seq<char>, es: Seq<FixEditView>)
    requires
        edits_in_range(original, es),
        edits_ordered(es),
        edits_on_lines(original, es),
    ensures
        blocks_spec(encode_utf8(original), es).len() <= es.len(),
        es.len() > 0 ==> blocks_spec(encode_utf8(original), es).len() > 0
            && blocks_spec(encode_utf8(original), es).last().edits.last() == es.last(),
        forall|k: int|
            0 <= k < blocks_spec(encode_utf8(original), es).len() ==> block_ok(
                encode_utf8(original),
                #[trigger] blocks_spec(encode_utf8(original), es)[k],
                split_lines(original).len() as int,
            ) && edits_in_range(original, blocks_spec(encode_utf8(original), es)[k].edits),
        forall|k: int|
            1 <= k < blocks_spec(encode_utf8(original), es).len() ==> (#[trigger] blocks_spec(
                encode_utf8(original),
                es,
            )[k - 1]).last + 1 < blocks_spec(encode_utf8(original), es)[k].first,
    decreases es.len(),
{
    let bytes = encode_utf8(original);
    let total = split_lines(original).len() as int;
    if es.len() > 0 {
        let front = es.drop_last();
        let e = es.last();
        assert(e == es[es.len() - 1]);
        assert(edits_ordered(front)) by {
            assert forall|i: int, j: int| 0 <= i < j < front.len() implies #[trigger] front[i].start
                <= #[trigger] front[j].start && front[i].end <= front[j].start by {
                assert(front[i] == es[i] && front[j] == es[j]);
            }
        }
        assert(edits_in_range(original, front)) by {
            assert forall|i: int| 0 <= i < front.len() implies is_byte_range(
                original,
                (#[trigger] front[i]).start,
                front[i].end,
            ) by {
                assert(front[i] == es[i]);
            }
        }
        assert(edits_on_lines(original, front)) by {
            assert forall|i: int| 0 <= i < front.len() implies last_line(bytes, #[trigger] front[i])
                < total by {
                assert(front[i] == es[i]);
            }
        }
        lemma_blocks(original, front);
        assert(is_byte_range(original, es[es.len() - 1].start, es[es.len() - 1].end));
        let before = blocks_spec(bytes, front);
        let after = blocks_spec(bytes, es);
        let first = first_line(bytes, e);
        let last = last_line(bytes, e);
        lemma_newlines_monotone(bytes, 0, e.start);
        lemma_newlines_monotone(bytes, e.start, last_byte(e));
        assert(last_line(bytes, es[es.len() - 1]) < total);
        if before.len() > 0 && first <= before.last().last + 1 {
            let b = before.last();
            let nb = after.last();
            let p = before.len() - 1;
            assert(block_ok(bytes, before[p], total));
            assert(b.edits.last() == es[es.len() - 2]);
            assert(es[es.len() - 2].start <= es[es.len() - 1].start);
            assert(b.edits[b.edits.len() - 1] == es[es.len() - 2]);
            assert(b.first <= first_line(bytes, es[es.len() - 2]));
            lemma_newlines_monotone(bytes, es[es.len() - 2].start, e.start);
            assert(nb.edits == b.edits.push(e));
            assert forall|i: int, j: int| 0 <= i < j < nb.edits.len() implies #[trigger]
                nb.edits[i].start <= #[trigger] nb.edits[j].start && nb.edits[i].end
                <= nb.edits[j].start by {
                assert(nb.edits[i] == b.edits[i]);
                if j == b.edits.len() {
                    let q = b.edits.len() - 1;
                    assert(b.edits[i].start <= b.edits[q].start);
                    if i < q {
                        assert(b.edits[i].end <= b.edits[q].start);
                    } else {
                        assert(es[es.len() - 2].end <= es[es.len() - 1].start);
                    }
                } else {
                    assert(nb.edits[j] == b.edits[j]);
                }
            }
            assert forall|i: int| 0 <= i < nb.edits.len() implies {
                let x = #[trigger] nb.edits[i];
                &&& 0 <= x.start <= x.end <= bytes.len()
                &&& nb.first <= first_line(bytes, x)
                &&& last_line(bytes, x) <= nb.last
            } by {
                if i < b.edits.len() {
                    assert(nb.edits[i] == b.edits[i]);
                }
            }
            assert(block_ok(bytes, nb, total));
            assert(edits_in_range(original, nb.edits)) by {
                assert(edits_in_range(original, before[p].edits));
                assert forall|i: int| 0 <= i < nb.edits.len() implies is_byte_range(
                    original,
                    (#[trigger] nb.edits[i]).start,
                    nb.edits[i].end,
                ) by {
                    if i < b.edits.len() {
                        assert(nb.edits[i] == b.edits[i]);
                    }
                }
            }
            assert forall|k: int| 0 <= k < after.len() implies block_ok(
                bytes,
                #[trigger] after[k],
                total,
            ) && edits_in_range(original, after[k].edits) by {
                if k < p {
                    assert(after[k] == before[k]);
                }
            }
            assert forall|k: int| 1 <= k < after.len() implies (#[trigger] after[k - 1]).last + 1
                < after[k].first by {
                assert(after[k - 1] == before[k - 1]);
                assert(before[k - 1].last + 1 < before[k].first);
            }
        } else {
            let nb = after.last();
            assert(nb.edits == seq![e]);
            assert(block_ok(bytes, nb, total));
            assert(edits_in_range(original, nb.edits));
            assert forall|k: int| 0 <= k < after.len() implies block_ok(
                bytes,
                #[trigger] after[k],
                total,
            ) && edits_in_range(original, after[k].edits) by {
                if k < before.len() {
                    assert(after[k] == before[k]);
                }
            }
            assert forall|k: int| 1 <= k < after.len() implies (#[trigger] after[k - 1]).last + 1
                < after[k].first by {
                assert(after[k - 1] == before[k - 1]);
                if k < before.len() {
                    assert(after[k] == before[k]);
                    assert(before[k - 1].last + 1 < before[k].first);
                }
            }
        }
    }
}

/// A run of lines that edits touch, with those edits.
struct Block {
    first: usize,
    last: usize,
    edits: Vec<FixEdit>,
}

impl View for Block {
    type V = BlockView;

    closed spec fn view(&self) -> BlockView {
        BlockView {
            first: self.first as int,
            last: self.last as int,
            edits: edits_view(self.edits@),
        }
    }
}

spec fn blocks_view(bs: Seq<Block>) -> Seq<BlockView> {
    bs.map_values(|b: Block| b@)
}

/// The line that begins at or before an offset, while the next begins behind it, is the
/// line that holds the offset.
proof fn lemma_line_unique(bytes: Seq<u8>, r: int, off: int)
    requires
        0 <= off <= bytes.len(),
        0 <= r < line_starts_spec(bytes).len(),
        line_starts_spec(bytes)[r] <= off,
        r + 1 < line_starts_spec(bytes).len() ==> off < line_starts_spec(bytes)[r + 1],
    ensures
        r == newlines(bytes, off),
{
    lemma_line_starts(bytes);
    let starts = line_starts_spec(bytes);
    assert(newlines(bytes, starts[r]) == r);
    lemma_newlines_monotone(bytes, starts[r], off);
    if r + 1 < starts.len() {
        let next = starts[r + 1];
        assert(bytes[next - 1] == 10);
        assert(newlines(bytes, next) == newlines(bytes, next - 1) + 1);
        assert(newlines(bytes, starts[r + 1]) == r + 1);
        lemma_newlines_monotone(bytes, off, next - 1);
    } else {
        lemma_newlines_monotone(bytes, off, bytes.len() as int);
    }
}

/// The line that holds a byte offset.
fn line_at(Ghost(bytes): Ghost<Seq<u8>>, starts: &Vec<usize>, off: usize) -> (r: usize)
    requires
        offsets(starts@) == line_starts_spec(bytes),
        off <= bytes.len(),
    ensures
        r == newlines(bytes, off as int),
{
    proof {
        lemma_line_starts(bytes);
        lemma_newlines_monotone(bytes, 0, bytes.len() as int);
        assert(offsets(starts@)[0] == starts@[0]);
        assert forall|i: int, j: int| 0 <= i < j < starts@.len() implies #[trigger] starts@[i]
            < #[trigger] starts@[j] by {
            assert(offsets(starts@)[i] < offsets(starts@)[j]);
        }
    }
    let r: usize = line_of(starts.as_slice(), off);
    proof {
        assert(offsets(starts@)[r as int] == starts@[r as int]);
        if r + 1 < starts@.len() {
            assert(offsets(starts@)[r + 1] == starts@[r + 1]);
        }
        lemma_line_unique(bytes, r as int, off as int);
    }
    r
}

/// Groups edits into the runs of lines they touch.
fn group_edits(original: &str, starts: &Vec<usize>, edits: &[FixEdit]) -> (r: Vec<Block>)
    requires
        offsets(starts@) == line_starts_spec(encode_utf8(original@)),
        edits_in_range(original@, edits_view(edits@)),
    ensures
        blocks_view(r@) == blocks_spec(encode_utf8(original@), edits_view(edits@)),
{
    let ghost bytes = encode_utf8(original@);
    let ghost es = edits_view(edits@);
    let mut blocks: Vec<Block> = Vec::new();
    let mut i: usize = 0;
    assert(blocks_view(blocks@) == blocks_spec(bytes, es.take(0)));
    while i < edits.len()
        invariant
            i <= edits@.len(),
            bytes == encode_utf8(original@),
            es == edits_view(edits@),
            edits_in_range(original@, es),
            offsets(starts@) == line_starts_spec(bytes),
            blocks_view(blocks@) == blocks_spec(bytes, es.take(i as int)),
        decreases edits@.len() - i,
    {
        let e = edits[i].duplicate();
        proof {
            assert(es[i as int] == e@);
            assert(is_byte_range(original@, es[i as int].start, es[i as int].end));
            assert(es.take(i + 1).drop_last() == es.take(i as int));
            assert(es.take(i + 1).last() == e@);
        }
        let start: usize = e.start as usize;
        // `end` is exclusive; the last touched line holds the byte before it (or the
        // start, for a zero-width insertion).
        let end_byte: usize = if e.end > e.start {
            e.end as usize - 1
        } else {
            start
        };
        let first: usize = line_at(Ghost(bytes), starts, start);
        let last: usize = line_at(Ghost(bytes), starts, end_byte);
        let ghost before = blocks_view(blocks@);
        let joins = match blocks.last() {
            Some(b) => first == 0 || first - 1 <= b.last,
            None => false,
        };
        proof {
            if blocks@.len() > 0 {
                assert(before.last() == blocks@.last()@);
            }
        }
        let prior = if joins {
            blocks.pop()
        } else {
            None
        };
        let block = match prior {
            Some(b) => {
                let Block { first: b_first, last: b_last, edits: mut b_edits } = b;
                proof {
                    assert(edits_view(b_edits@.push(e)) == edits_view(b_edits@).push(e@));
                }
                b_edits.push(e);
                Block {
                    first: b_first,
                    last: if b_last <= last {
                        last
                    } else {
                        b_last
                    },
                    edits: b_edits,
                }
            },
            None => {
                let mut one: Vec<FixEdit> = Vec::new();
                one.push(e);
                assert(edits_view(one@) == seq![e@]);
                Block { first, last, edits: one }
            },
        };
        proof {
            let kept = if joins {
                before.drop_last()
            } else {
                before
            };
            assert(blocks_view(blocks@) == kept);
            assert(blocks_view(blocks@.push(block)) == kept.push(block@));
        }
        blocks.push(block);
        i += 1;
    }
    assert(es.take(es.len() as int) == es);
    blocks
}

/// A boundary of a text, seen from a part of it.
proof fn lemma_boundary_of_part(original: Seq<char>, a: int, b: int, x: int)
    requires
        is_byte_range(original, a, b),
        a <= x <= b,
        is_char_boundary(encode_utf8(original), x),
    ensures
        is_char_boundary(encode_utf8(original).subrange(a, b), x - a),
{
    let bytes = encode_utf8(original);
    let part = bytes.subrange(a, b);
    encode_utf8_valid_utf8(original);
    lemma_slice_encodes(original, a, b);
    is_char_boundary_start_end_of_seq(part);
    if x < b {
        is_char_boundary_iff_not_is_continuation_byte(bytes, x);
        is_char_boundary_iff_not_is_continuation_byte(part, x - a);
        assert(part[x - a] == bytes[x]);
    }
}

/// The range of a block is a range of the text, and its edits are ranges of the block.
pub proof fn lemma_block_range(original: Seq<char>, b: BlockView)
    requires
        block_ok(encode_utf8(original), b, split_lines(original).len() as int),
        edits_in_range(original, b.edits),
    ensures
        ({
            let bytes = encode_utf8(original);
            let range = block_range(bytes, b);
            let part = slice_bytes(original, range.0, range.1);
            &&& b.first < line_starts_spec(bytes).len()
            &&& is_byte_range(original, range.0, range.1)
            &&& edits_in_range(part, shifted(b.edits, range.0))
            &&& edits_ordered(shifted(b.edits, range.0))
            &&& forall|i: int|
                0 <= i < b.edits.len() ==> range.0 <= (#[trigger] b.edits[i]).start && b.edits[i].end
                    <= range.1
        }),
{
    let bytes = encode_utf8(original);
    let starts = line_starts_spec(bytes);
    let range = block_range(bytes, b);
    encode_utf8_valid_utf8(original);
    is_char_boundary_start_end_of_seq(bytes);
    lemma_line_starts(bytes);
    assert forall|i: int| 0 <= i < b.edits.len() implies range.0 <= (#[trigger] b.edits[i]).start
        && b.edits[i].end <= range.1 && b.first < starts.len() by {
        let e = b.edits[i];
        let f = first_line(bytes, e);
        let l = last_line(bytes, e);
        lemma_line_holds(bytes, e.start);
        lemma_line_holds(bytes, last_byte(e));
        if b.first < f {
            assert(starts[b.first] < starts[f]);
        }
        if b.last + 1 < starts.len() {
            if l < b.last {
                assert(starts[l + 1] < starts[b.last + 1]);
            }
        }
    }
    assert(range.0 <= b.edits[0].start && b.edits[0].end <= range.1 && b.first < starts.len());
    if b.first > 0 {
        assert(bytes[starts[b.first] - 1] == 10);
        lemma_boundary_after_ascii(bytes, starts[b.first] - 1);
    }
    if b.last + 1 < starts.len() {
        assert(bytes[starts[b.last + 1] - 1] == 10);
        lemma_boundary_after_ascii(bytes, starts[b.last + 1] - 1);
    }
    let part = slice_bytes(original, range.0, range.1);
    lemma_slice_encodes(original, range.0, range.1);
    let local = shifted(b.edits, range.0);
    assert forall|i: int| 0 <= i < local.len() implies is_byte_range(
        part,
        (#[trigger] local[i]).start,
        local[i].end,
    ) by {
        let e = b.edits[i];
        assert(is_byte_range(original, b.edits[i].start, b.edits[i].end));
        assert(range.0 <= b.edits[i].start && b.edits[i].end <= range.1);
        lemma_boundary_of_part(original, range.0, range.1, e.start);
        lemma_boundary_of_part(original, range.0, range.1, e.end);
    }
    assert forall|i: int, j: int| 0 <= i < j < local.len() implies #[trigger] local[i].start
        <= #[trigger] local[j].start && local[i].end <= local[j].start by {
        assert(b.edits[i].start <= b.edits[j].start && b.edits[i].end <= b.edits[j].start);
    }
}

/// The text of a block with its edits spliced in.
fn splice_block(original: &str, starts: &Vec<usize>, b: &Block) -> (r: String)
    requires
        offsets(starts@) == line_starts_spec(encode_utf8(original@)),
        block_ok(encode_utf8(original@), b@, split_lines(original@).len() as int),
        edits_in_range(original@, b@.edits),
    ensures
        r@ == block_text(original@, b@),
{
    proof {
        lemma_block_range(original@, b@);
        assert(offsets(starts@)[b.first as int] == starts@[b.first as int]);
        if b.last + 1 < starts@.len() {
            assert(offsets(starts@)[b.last + 1] == starts@[b.last + 1]);
        }
    }
    let from: usize = starts[b.first];
    let to: usize = if b.last < starts.len() - 1 {
        starts[b.last + 1]
    } else {
        original.as_bytes().len()
    };
    let mut text = match get_bytes(original, from, to) {
        Some(t) => t.to_owned(),
        None => String::new(),
    };
    let ghost part = text@;
    let ghost local = shifted(b@.edits, from as int);
    let ghost back = local.reverse();
    proof {
        splicing_backwards_rewrites(part, local);
        assert(back.skip(0) == back);
    }
    let mut k: usize = b.edits.len();
    while k > 0
        invariant
            k <= b.edits@.len(),
            local == shifted(b@.edits, from as int),
            back == local.reverse(),
            forall|i: int|
                0 <= i < b@.edits.len() ==> from <= (#[trigger] b@.edits[i]).start
                    <= b@.edits[i].end,
            splice_all(text@, back.skip(b.edits@.len() - k)) == splice_all(part, back),
            splices_fit(text@, back.skip(b.edits@.len() - k)),
        decreases k,
    {
        let e = &b.edits[k - 1];
        proof {
            let rest = back.skip(b.edits@.len() - k);
            assert(b@.edits[k - 1] == e@);
            assert(rest[0] == local[k - 1]);
            assert(rest.drop_first() == back.skip(b.edits@.len() - (k - 1)));
        }
        text = splice(
            text.as_str(),
            e.start as usize - from,
            e.end as usize - from,
            e.replacement.as_str(),
        );
        k -= 1;
    }
    assert(back.skip(b.edits@.len() as int).len() == 0);
    text
}

/// The hunks that ranges of blocks stand for.
spec fn ranges_view(blocks: Seq<BlockView>, ranges: Seq<(usize, usize)>) -> Seq<Seq<BlockView>> {
    ranges.map_values(|r: (usize, usize)| blocks.subrange(r.0 as int, r.1 as int))
}

/// Coalesces blocks into hunks, each a range of block indices.
fn group_blocks(blocks: &Vec<Block>) -> (r: Vec<(usize, usize)>)
    requires
        forall|k: int|
            1 <= k < blocks@.len() ==> (#[trigger] blocks_view(blocks@)[k - 1]).last + 1
                < blocks_view(blocks@)[k].first,
    ensures
        ranges_view(blocks_view(blocks@), r@) == hunks_spec(blocks_view(blocks@)),
        r@.len() <= blocks@.len(),
        forall|i: int|
            0 <= i < r@.len() ==> (#[trigger] r@[i]).0 < r@[i].1 && r@[i].1 <= blocks@.len(),
{
    let ghost all = blocks_view(blocks@);
    let mut ranges: Vec<(usize, usize)> = Vec::new();
    let mut i: usize = 0;
    assert(ranges_view(all, ranges@) == hunks_spec(all.take(0)));
    while i < blocks.len()
        invariant
            i <= blocks@.len(),
            all == blocks_view(blocks@),
            forall|k: int|
                1 <= k < all.len() ==> (#[trigger] all[k - 1]).last + 1 < all[k].first,
            ranges_view(all, ranges@) == hunks_spec(all.take(i as int)),
            ranges@.len() <= i,
            i > 0 ==> ranges@.len() > 0 && ranges@.last().1 == i,
            forall|k: int|
                0 <= k < ranges@.len() ==> (#[trigger] ranges@[k]).0 < ranges@[k].1 && ranges@[k].1
                    <= i,
        decreases blocks@.len() - i,
    {
        proof {
            assert(all.take(i + 1).drop_last() == all.take(i as int));
            assert(all.take(i + 1).last() == blocks@[i as int]@);
            if i > 0 {
                assert(all[i - 1].last + 1 < all[i as int].first);
                assert(ranges_view(all, ranges@).last() == all.subrange(
                    ranges@.last().0 as int,
                    ranges@.last().1 as int,
                ));
                assert(ranges_view(all, ranges@).last().last() == all[i - 1]);
                assert(all[i - 1] == blocks@[i - 1]@);
            }
        }
        let near = i > 0 && blocks[i].first - blocks[i - 1].last - 1 <= 2 * CONTEXT;
        let ghost before = ranges@;
        let start: usize = if near {
            match ranges.pop() {
                Some(range) => range.0,
                None => i,
            }
        } else {
            i
        };
        proof {
            let kept = if near {
                ranges_view(all, before).drop_last()
            } else {
                ranges_view(all, before)
            };
            assert(ranges_view(all, ranges@) == kept);
            let r = (start, (i + 1) as usize);
            assert(ranges_view(all, ranges@.push(r)) == kept.push(
                all.subrange(start as int, i + 1),
            ));
            if near {
                assert(all.subrange(start as int, i + 1) == all.subrange(
                    start as int,
                    i as int,
                ).push(all[i as int]));
            } else {
                assert(all.subrange(start as int, i + 1) == seq![all[i as int]]);
            }
        }
        ranges.push((start, i + 1));
        i += 1;
    }
    assert(all.take(all.len() as int) == all);
    ranges
}

/// What the blocks of a diff of `original` satisfy.
spec fn blocks_ok(original: Seq<char>, bs: Seq<BlockView>) -> bool {
    &&& forall|k: int|
        0 <= k < bs.len() ==> block_ok(
            encode_utf8(original),
            #[trigger] bs[k],
            split_lines(original).len() as int,
        ) && edits_in_range(original, bs[k].edits)
    &&& forall|k: int| 1 <= k < bs.len() ==> (#[trigger] bs[k - 1]).last + 1 < bs[k].first
}

/// The body lines of the hunk made of the blocks `lo..hi`.
fn hunk_body(
    original: &str,
    starts: &Vec<usize>,
    lines: &Vec<String>,
    blocks: &Vec<Block>,
    lo: usize,
    hi: usize,
) -> (r: Vec<DiffLine>)
    requires
        offsets(starts@) == line_starts_spec(encode_utf8(original@)),
        texts(lines@) == split_lines(original@),
        blocks_ok(original@, blocks_view(blocks@)),
        lo < hi <= blocks@.len(),
    ensures
        diff_lines_view(r@) == hunk_lines(
            original@,
            blocks_view(blocks@).subrange(lo as int, hi as int),
        ),
{
    let ghost all = blocks_view(blocks@);
    let ghost h = all.subrange(lo as int, hi as int);
    let ghost old_text = split_lines(original@);
    let total: usize = lines.len();
    proof {
        assert(total == old_text.len());
        assert(all[lo as int] == blocks@[lo as int]@);
        assert(all[hi - 1] == blocks@[hi - 1]@);
        assert(h[0] == all[lo as int]);
        assert(h.last() == all[hi - 1]);
    }
    let region_first: usize = blocks[lo].first;
    let region_last: usize = blocks[hi - 1].last;
    let ctx_before: usize = if region_first <= CONTEXT {
        region_first
    } else {
        CONTEXT
    };
    let after: usize = total - 1 - region_last;
    let ctx_after: usize = if after <= CONTEXT {
        after
    } else {
        CONTEXT
    };
    let mut body: Vec<DiffLine> = Vec::new();
    assert(diff_lines_view(body@) == Seq::<(char, Seq<char>)>::empty());
    push_prefixed(&mut body, ' ', lines, region_first - ctx_before, region_first);
    let ghost lead = diff_lines_view(body@);
    let mut j: usize = lo;
    proof {
        assert(all.subrange(lo as int, lo as int).len() == 0);
        assert(lead + blocks_lines(original@, all.subrange(lo as int, lo as int)) == lead);
    }
    while j < hi
        invariant
            lo <= j <= hi <= blocks@.len(),
            all == blocks_view(blocks@),
            old_text == split_lines(original@),
            texts(lines@) == old_text,
            lines@.len() == total,
            total == old_text.len(),
            offsets(starts@) == line_starts_spec(encode_utf8(original@)),
            blocks_ok(original@, all),
            diff_lines_view(body@) == lead + blocks_lines(
                original@,
                all.subrange(lo as int, j as int),
            ),
        decreases hi - j,
    {
        let b = &blocks[j];
        let ghost done = all.subrange(lo as int, j as int);
        let ghost more = all.subrange(lo as int, j + 1);
        proof {
            assert(all[j as int] == b@);
            assert(more.drop_last() == done);
            assert(more.last() == b@);
            assert(block_ok(encode_utf8(original@), all[j as int], old_text.len() as int));
            if j > lo {
                assert(more[more.len() - 2] == all[j - 1]);
                assert(all[j - 1] == blocks@[j - 1]@);
                assert(all[j - 1].last + 1 < all[j as int].first);
            }
        }
        if j > lo {
            push_prefixed(&mut body, ' ', lines, blocks[j - 1].last + 1, b.first);
        }
        push_prefixed(&mut body, '-', lines, b.first, b.last + 1);
        let text = splice_block(original, starts, b);
        let added = split_inclusive(text.as_str());
        push_prefixed(&mut body, '+', &added, 0, added.len());
        proof {
            assert(texts(added@).subrange(0, added@.len() as int) == texts(added@));
            assert(diff_lines_view(body@) == lead + blocks_lines(original@, more));
        }
        j += 1;
    }
    push_prefixed(&mut body, ' ', lines, region_last + 1, region_last + 1 + ctx_after);
    assert(diff_lines_view(body@) == hunk_lines(original@, h));
    body
}

/// Renders the hunks that `ranges` of `blocks` stand for.
fn push_hunks(
    out: &mut String,
    original: &str,
    starts: &Vec<usize>,
    lines: &Vec<String>,
    blocks: &Vec<Block>,
    ranges: &Vec<(usize, usize)>,
)
    requires
        offsets(starts@) == line_starts_spec(encode_utf8(original@)),
        texts(lines@) == split_lines(original@),
        blocks_ok(original@, blocks_view(blocks@)),
        forall|k: int|
            0 <= k < ranges@.len() ==> (#[trigger] ranges@[k]).0 < ranges@[k].1 && ranges@[k].1
                <= blocks@.len(),
    ensures
        final(out)@ == old(out)@ + hunks_text(
            original@,
            ranges_view(blocks_view(blocks@), ranges@),
        ),
{
    let ghost all = blocks_view(blocks@);
    let ghost hs = ranges_view(all, ranges@);
    let ghost head = out@;
    let mut removed: u128 = 0;
    let mut added: u128 = 0;
    let mut i: usize = 0;
    assert(head + hunks_text(original@, hs.take(0)) == head);
    while i < ranges.len()
        invariant
            i <= ranges@.len(),
            all == blocks_view(blocks@),
            hs == ranges_view(all, ranges@),
            offsets(starts@) == line_starts_spec(encode_utf8(original@)),
            texts(lines@) == split_lines(original@),
            blocks_ok(original@, all),
            forall|k: int|
                0 <= k < ranges@.len() ==> (#[trigger] ranges@[k]).0 < ranges@[k].1 && ranges@[k].1
                    <= blocks@.len(),
            removed == old_total(original@, hs.take(i as int)),
            added == new_total(original@, hs.take(i as int)),
            removed <= i * usize::MAX,
            added <= i * usize::MAX,
            out@ == head + hunks_text(original@, hs.take(i as int)),
        decreases ranges@.len() - i,
    {
        let (lo, hi): (usize, usize) = ranges[i];
        let ghost h = all.subrange(lo as int, hi as int);
        proof {
            assert(hs[i as int] == h);
            assert(hs.take(i + 1).drop_last() == hs.take(i as int));
            assert(hs.take(i + 1).last() == h);
            assert(h[0] == all[lo as int]);
            assert(all[lo as int] == blocks@[lo as int]@);
        }
        let body = hunk_body(original, starts, lines, blocks, lo, hi);
        let (old_count, new_count): (usize, usize) = count_lines(&body);
        let region_first: usize = blocks[lo].first;
        let ctx_before: usize = if region_first <= CONTEXT {
            region_first
        } else {
            CONTEXT
        };
        let old_start: u128 = (region_first - ctx_before) as u128 + 1;
        proof {
            assert(i * usize::MAX + 2 * usize::MAX <= u128::MAX) by (nonlinear_arith)
                requires
                    i < usize::MAX,
                    usize::MAX <= 0xffff_ffff_ffff_ffff,
            ;
            assert(i * usize::MAX + usize::MAX == (i + 1) * usize::MAX) by (nonlinear_arith);
        }
        let new_at: u128 = if old_start + added >= removed {
            old_start + added - removed
        } else {
            1
        };
        push_hunk_header(out, old_start, old_count, new_at, new_count);
        push_diff_lines(out, &body);
        removed = removed + old_count as u128;
        added = added + new_count as u128;
        assert(out@ == head + hunks_text(original@, hs.take(i + 1)));
        i += 1;
    }
    assert(hs.take(hs.len() as int) == hs);
}

/// Whether a set of edits can be shown as a diff: each is in range and on a line of the text, and
/// they are in order without overlap.
pub open spec fn diffable(original: Seq<char>, es: Seq<FixEditView>) -> bool {
    &&& edits_in_range(original, es)
    &&& edits_ordered(es)
    &&& edits_on_lines(original, es)
}

/// Whether [`render_diff`] can show `edits` against `original`.
pub fn can_render_diff(original: &str, edits: &[FixEdit]) -> (r: bool)
    ensures
        r == diffable(original@, edits_view(edits@)),
{
    let ghost all = edits_view(edits@);
    let ghost bytes = encode_utf8(original@);
    let starts = line_starts(original);
    let lines = split_inclusive(original);
    let total: usize = lines.len();
    let mut reached: u32 = 0;
    let mut i: usize = 0;
    while i < edits.len()
        invariant
            i <= edits@.len(),
            all == edits_view(edits@),
            bytes == encode_utf8(original@),
            offsets(starts@) == line_starts_spec(bytes),
            total == split_lines(original@).len(),
            forall|j: int|
                0 <= j < i ==> is_byte_range(original@, (#[trigger] all[j]).start, all[j].end)
                    && all[j].end <= reached && last_line(bytes, all[j]) < total,
            forall|j: int, k: int|
                0 <= j < k < i ==> #[trigger] all[j].start <= #[trigger] all[k].start && all[j].end
                    <= all[k].start,
            i > 0 ==> reached == all[i - 1].end,
            i == 0 ==> reached == 0,
        decreases edits@.len() - i,
    {
        let e = &edits[i];
        assert(all[i as int] == e@);
        if get_bytes(original, e.start as usize, e.end as usize).is_none() || e.start < reached {
            proof {
                if is_byte_range(original@, e@.start, e@.end) && i > 0 {
                    assert(all[i - 1].end > all[i as int].start);
                }
            }
            return false;
        }
        let last: u32 = if e.end > e.start {
            e.end - 1
        } else {
            e.start
        };
        if line_at(Ghost(bytes), &starts, last as usize) >= total {
            return false;
        }
        reached = e.end;
        i += 1;
    }
    true
}

/// Render `edits` against `original` as a `git apply`-able unified diff.
///
/// Edits (ascending, non-overlapping) are grouped into *blocks* by the original
/// lines they touch; each block shows those original lines (`-`) and the spliced
/// result (`+`). Blocks are surrounded by up to [`CONTEXT`] unchanged lines and
/// coalesced into shared hunks when close together. Headers use the git `a/` /
/// `b/` prefixes and a `\ No newline at end of file` marker is emitted whenever a
/// file's final shown line lacks a trailing newline, so the output round-trips
/// through `git apply`. Empty `edits` render nothing.
pub fn render_diff(name: &str, original: &str, edits: &[FixEdit]) -> (r: String)
    requires
        edits_in_range(original@, edits_view(edits@)),
        edits_ordered(edits_view(edits@)),
        edits_on_lines(original@, edits_view(edits@)),
    ensures
        r@ == diff_spec(name@, original@, edits_view(edits@)),
{
    if edits.len() == 0 {
        return String::new();
    }
    let starts = line_starts(original);
    let lines = split_inclusive(original);
    let blocks = group_edits(original, &starts, edits);
    let ghost all = blocks_view(blocks@);
    proof {
        lemma_blocks(original@, edits_view(edits@));
        assert(blocks_ok(original@, all));
    }
    let ranges = group_blocks(&blocks);
    let mut out = String::new();
    push_diff_header(&mut out, name);
    push_hunks(&mut out, original, &starts, &lines, &blocks, &ranges);
    out
}

} // verus!
