//! What holds of a diff of edits as a whole: patching the original with all of its hunks gives
//! the text that applying the edits gives.
use vstd::prelude::*;
use vstd::utf8::{
    char_is_scalar, encode_scalar, encode_utf8, has_width_1_encoding, has_width_2_encoding,
    has_width_3_encoding, last_continuation_byte, leading_byte_width_1, leading_byte_width_2,
    leading_byte_width_3, leading_byte_width_4, second_last_continuation_byte,
    third_last_continuation_byte,
};

use crate::diff::{new_lines, prefixed, CONTEXT};
use crate::diff_laws::{
    block_edits, blocks_carry_the_edits, counts_are_side_lengths, hunk_fits,
    hunk_matches_the_original, lemma_sides_concat, lemma_sides_prefixed, new_side, old_side,
    patched,
};
use crate::edit_diff::{
    block_lines, block_ok, block_range, block_text, blocks_lines, blocks_spec, diffable, hunk_end,
    hunk_first, hunk_lines, hunks_spec, last_byte, last_line, lemma_block_range, lemma_blocks,
    new_start, new_total, old_total, shifted, BlockView,
};
use crate::finding::{edits_in_range, FixEditView};
use crate::fix::apply_spec;
use crate::fix_laws::{
    apply_rewrites_in_place, lemma_rewrite_suffix, rewrite, splicing_backwards_rewrites,
};
use crate::lines::{
    joined, lemma_line_holds, lemma_line_starts, lemma_newlines_monotone, lemma_newlines_prefix,
    lemma_split_lines, line_starts_spec, lines_join_to_the_text, newlines, split_lines,
};
use crate::text::{
    lemma_encode_concat, lemma_encode_injective, lemma_slice_encodes, slice_bytes,
};

verus! {

/// A character's encoding holds the newline byte exactly where the character is a newline.
proof fn lemma_scalar_newline(ch: char)
    ensures
        encode_scalar(ch as u32).len() > 0,
        forall|k: int|
            0 <= k < encode_scalar(ch as u32).len() ==> (#[trigger] encode_scalar(ch as u32)[k]
                == 10 <==> ch == '\n'),
        ch == '\n' ==> encode_scalar(ch as u32) == seq![10u8],
{
    let c = ch as u32;
    char_is_scalar(ch);
    assert(has_width_1_encoding(c) ==> leading_byte_width_1(c) == c) by (bit_vector);
    assert(has_width_2_encoding(c) ==> leading_byte_width_2(c) >= 128) by (bit_vector);
    assert(has_width_3_encoding(c) ==> leading_byte_width_3(c) >= 128) by (bit_vector);
    assert(leading_byte_width_4(c) >= 128) by (bit_vector);
    assert(last_continuation_byte(c) >= 128) by (bit_vector);
    assert(second_last_continuation_byte(c) >= 128) by (bit_vector);
    assert(third_last_continuation_byte(c) >= 128) by (bit_vector);
    assert(c == 10 ==> has_width_1_encoding(c)) by (bit_vector);
}

/// Newlines behind a prefix are counted on their own.
proof fn lemma_newlines_concat(x: Seq<u8>, y: Seq<u8>, k: int)
    requires
        0 <= k <= y.len(),
    ensures
        newlines(x + y, x.len() + k) == newlines(x, x.len() as int) + newlines(y, k),
    decreases k,
{
    if k == 0 {
        lemma_newlines_prefix(x + y, x, x.len() as int);
    } else {
        lemma_newlines_concat(x, y, k - 1);
        assert((x + y)[x.len() + k - 1] == y[k - 1]);
    }
}

/// Without newlines in a text, its encoding has none.
proof fn lemma_no_newlines(t: Seq<char>)
    requires
        forall|k: int| 0 <= k < t.len() ==> #[trigger] t[k] != '\n',
    ensures
        newlines(encode_utf8(t), encode_utf8(t).len() as int) == 0,
    decreases t.len(),
{
    if t.len() > 0 {
        let head = encode_scalar(t[0] as u32);
        let tail = encode_utf8(t.drop_first());
        lemma_no_newlines(t.drop_first());
        lemma_scalar_newline(t[0]);
        assert(t[0] != '\n');
        lemma_newlines_concat(head, tail, tail.len() as int);
        lemma_none_counted(head, head.len() as int);
    }
}

proof fn lemma_none_counted(b: Seq<u8>, n: int)
    requires
        0 <= n <= b.len(),
        forall|k: int| 0 <= k < b.len() ==> #[trigger] b[k] != 10,
    ensures
        newlines(b, n) == 0,
    decreases n,
{
    if n > 0 {
        lemma_none_counted(b, n - 1);
    }
}

proof fn lemma_encode_push(t: Seq<char>)
    requires
        t.len() > 0,
    ensures
        encode_utf8(t) == encode_utf8(t.drop_last()) + encode_scalar(t.last() as u32),
{
    let one = seq![t.last()];
    assert(t == t.drop_last() + one);
    lemma_encode_concat(t.drop_last(), one);
    assert(one.drop_first().len() == 0);
    assert(encode_utf8(one.drop_first()) == Seq::<u8>::empty());
    assert(encode_utf8(one) == encode_scalar(t.last() as u32));
}

/// Whether a text is a line: not empty, and without a newline before its end.
pub open spec fn is_line(t: Seq<char>) -> bool {
    &&& t.len() > 0
    &&& forall|k: int| 0 <= k < t.len() - 1 ==> #[trigger] t[k] != '\n'
}

proof fn lemma_lines_are_lines(s: Seq<char>)
    ensures
        forall|i: int| 0 <= i < split_lines(s).len() ==> is_line(#[trigger] split_lines(s)[i]),
        s.len() > 0 ==> split_lines(s).len() > 0 && split_lines(s).last().last() == s.last(),
    decreases s.len(),
{
    if s.len() > 0 {
        lemma_lines_are_lines(s.drop_last());
        lemma_split_lines(s.drop_last());
        let before = split_lines(s.drop_last());
        let after = split_lines(s);
        if before.len() > 0 {
            assert(is_line(before[before.len() - 1]));
        }
        assert forall|i: int| 0 <= i < after.len() implies is_line(#[trigger] after[i]) by {
            if i < after.len() - 1 {
                assert(after[i] == before[i]);
            } else if before.len() > 0 && before.last().last() != '\n' {
                let t = before.last();
                assert(after[i] == t.push(s.last()));
                assert forall|k: int| 0 <= k < after[i].len() - 1 implies #[trigger] after[i][k]
                    != '\n' by {
                    assert(after[i][k] == t[k]);
                }
            }
        }
    }
}

/// The newlines of an encoded line: one where it ends with a newline, else none.
proof fn lemma_line_newlines(t: Seq<char>)
    requires
        is_line(t),
    ensures
        newlines(encode_utf8(t), encode_utf8(t).len() as int) == if t.last() == '\n' {
            1int
        } else {
            0int
        },
{
    let front = t.drop_last();
    let tail = encode_scalar(t.last() as u32);
    assert forall|k: int| 0 <= k < front.len() implies #[trigger] front[k] != '\n' by {
        assert(front[k] == t[k]);
    }
    lemma_no_newlines(front);
    lemma_encode_push(t);
    lemma_scalar_newline(t.last());
    lemma_newlines_concat(encode_utf8(front), tail, tail.len() as int);
    if t.last() != '\n' {
        lemma_none_counted(tail, tail.len() as int);
    } else {
        reveal_with_fuel(newlines, 2);
    }
}

/// Lines laid end to end, one run after another.
proof fn lemma_joined_concat(a: Seq<Seq<char>>, b: Seq<Seq<char>>)
    ensures
        joined(a + b) == joined(a) + joined(b),
    decreases b.len(),
{
    if b.len() == 0 {
        assert(a + b == a);
    } else {
        lemma_joined_concat(a, b.drop_last());
        assert((a + b).drop_last() == a + b.drop_last());
        assert(joined(a) + (joined(b.drop_last()) + b.last()) == joined(a) + joined(b.drop_last())
            + b.last());
    }
}

/// Behind a finished line, the lines of a text are split on their own.
proof fn lemma_split_concat(x: Seq<char>, y: Seq<char>)
    requires
        x.len() > 0 ==> x.last() == '\n',
    ensures
        split_lines(x + y) == split_lines(x) + split_lines(y),
    decreases y.len(),
{
    if y.len() == 0 {
        assert(x + y == x);
    } else {
        let front = y.drop_last();
        lemma_split_concat(x, front);
        lemma_lines_are_lines(x);
        lemma_lines_are_lines(front);
        assert((x + y).drop_last() == x + front);
        assert((x + y).last() == y.last());
        let a = split_lines(x);
        let b = split_lines(front);
        if b.len() > 0 {
            assert((a + b).last() == b.last());
            assert((a + b).drop_last() == a + b.drop_last());
        } else {
            assert(front.len() == 0);
            assert(a + b == a);
        }
        assert(split_lines(x + y) == a + split_lines(y));
    }
}

/// A line splits into itself.
proof fn lemma_split_line(t: Seq<char>)
    requires
        is_line(t),
    ensures
        split_lines(t) == seq![t],
    decreases t.len(),
{
    let front = t.drop_last();
    if front.len() > 0 {
        assert forall|k: int| 0 <= k < front.len() implies #[trigger] front[k] != '\n' by {
            assert(front[k] == t[k]);
        }
        lemma_split_line(front);
        assert(front.last() == front[front.len() - 1]);
        assert(split_lines(t) == seq![front].drop_last().push(front.push(t.last())));
        assert(front.push(t.last()) == t);
        assert(split_lines(t) == seq![t]);
    } else {
        assert(split_lines(front).len() == 0);
        assert(t == seq![t.last()]);
        assert(split_lines(t) == split_lines(front).push(seq![t.last()]));
        assert(split_lines(t) == seq![t]);
    }
}

/// Whether lines are such as a text splits into: only the last may lack a newline.
pub open spec fn are_lines(ls: Seq<Seq<char>>) -> bool {
    &&& forall|i: int| 0 <= i < ls.len() ==> is_line(#[trigger] ls[i])
    &&& forall|i: int| 0 <= i < ls.len() - 1 ==> (#[trigger] ls[i]).last() == '\n'
}

proof fn lemma_joined_end(ls: Seq<Seq<char>>)
    requires
        are_lines(ls),
    ensures
        ls.len() > 0 ==> joined(ls).len() > 0 && joined(ls).last() == ls.last().last(),
        ls.len() == 0 ==> joined(ls).len() == 0,
{
    if ls.len() > 0 {
        assert(is_line(ls[ls.len() - 1]));
        let t = ls.last();
        assert(joined(ls)[joined(ls).len() - 1] == t[t.len() - 1]);
    }
}

/// Lines laid end to end split into the lines again.
proof fn lemma_split_joined(ls: Seq<Seq<char>>)
    requires
        are_lines(ls),
    ensures
        split_lines(joined(ls)) == ls,
    decreases ls.len(),
{
    if ls.len() > 0 {
        let front = ls.drop_last();
        assert forall|i: int| 0 <= i < front.len() implies is_line(#[trigger] front[i])
            && front[i].last() == '\n' by {
            assert(front[i] == ls[i]);
        }
        lemma_split_joined(front);
        lemma_joined_end(front);
        assert(is_line(ls[ls.len() - 1]));
        lemma_split_line(ls.last());
        lemma_split_concat(joined(front), ls.last());
        assert(ls == front + seq![ls.last()]);
    }
}

proof fn lemma_original_lines(original: Seq<char>)
    ensures
        are_lines(split_lines(original)),
{
    lemma_lines_are_lines(original);
    lemma_split_lines(original);
}

proof fn lemma_run_of_lines(ls: Seq<Seq<char>>, i: int, j: int)
    requires
        are_lines(ls),
        0 <= i <= j <= ls.len(),
    ensures
        are_lines(ls.subrange(i, j)),
        j < ls.len() && i < j ==> ls.subrange(i, j).last().last() == '\n',
{
    let r = ls.subrange(i, j);
    assert forall|k: int| 0 <= k < r.len() implies is_line(#[trigger] r[k]) by {
        assert(r[k] == ls[i + k]);
    }
    assert forall|k: int| 0 <= k < r.len() - 1 implies (#[trigger] r[k]).last() == '\n' by {
        assert(r[k] == ls[i + k]);
    }
    if j < ls.len() && i < j {
        assert(r.last() == ls[j - 1]);
    }
}

/// The byte offset behind the first `i` lines of a text.
pub open spec fn line_offset(original: Seq<char>, i: int) -> int {
    encode_utf8(joined(split_lines(original).take(i))).len() as int
}

/// A text in bytes, cut behind its first `i` lines.
proof fn lemma_cut(original: Seq<char>, i: int)
    requires
        0 <= i <= split_lines(original).len(),
    ensures
        0 <= line_offset(original, i) <= encode_utf8(original).len(),
        encode_utf8(original).take(line_offset(original, i)) == encode_utf8(
            joined(split_lines(original).take(i)),
        ),
        encode_utf8(original).skip(line_offset(original, i)) == encode_utf8(
            joined(split_lines(original).skip(i)),
        ),
        line_offset(original, split_lines(original).len() as int) == encode_utf8(original).len(),
{
    let ls = split_lines(original);
    lines_join_to_the_text(original);
    assert(ls == ls.take(i) + ls.skip(i));
    lemma_joined_concat(ls.take(i), ls.skip(i));
    lemma_encode_concat(joined(ls.take(i)), joined(ls.skip(i)));
    let a = encode_utf8(joined(ls.take(i)));
    let b = encode_utf8(joined(ls.skip(i)));
    assert(encode_utf8(original) == a + b);
    assert((a + b).take(a.len() as int) == a);
    assert((a + b).skip(a.len() as int) == b);
    assert(ls.take(ls.len() as int) == ls);
}

/// The bytes between two cuts.
proof fn lemma_between(original: Seq<char>, i: int, j: int)
    requires
        0 <= i <= j <= split_lines(original).len(),
    ensures
        line_offset(original, i) <= line_offset(original, j),
        encode_utf8(original).subrange(line_offset(original, i), line_offset(original, j))
            == encode_utf8(joined(split_lines(original).subrange(i, j))),
{
    let ls = split_lines(original);
    let b = encode_utf8(original);
    lemma_cut(original, i);
    lemma_cut(original, j);
    assert(ls.take(j) == ls.take(i) + ls.subrange(i, j));
    lemma_joined_concat(ls.take(i), ls.subrange(i, j));
    lemma_encode_concat(joined(ls.take(i)), joined(ls.subrange(i, j)));
    let p = line_offset(original, i);
    let q = line_offset(original, j);
    assert(b.subrange(p, q) == b.take(q).skip(p));
    let x = encode_utf8(joined(ls.take(i)));
    let y = encode_utf8(joined(ls.subrange(i, j)));
    assert((x + y).skip(x.len() as int) == y);
}

/// Lines that end with a newline have as many newlines as there are lines.
proof fn lemma_newlines_of_lines(ls: Seq<Seq<char>>)
    requires
        forall|i: int| 0 <= i < ls.len() ==> is_line(#[trigger] ls[i]) && ls[i].last() == '\n',
    ensures
        newlines(encode_utf8(joined(ls)), encode_utf8(joined(ls)).len() as int) == ls.len(),
    decreases ls.len(),
{
    if ls.len() > 0 {
        let front = ls.drop_last();
        assert forall|i: int| 0 <= i < front.len() implies is_line(#[trigger] front[i])
            && front[i].last() == '\n' by {
            assert(front[i] == ls[i]);
        }
        lemma_newlines_of_lines(front);
        let x = encode_utf8(joined(front));
        let y = encode_utf8(ls.last());
        assert(is_line(ls[ls.len() - 1]));
        lemma_line_newlines(ls.last());
        lemma_encode_concat(joined(front), ls.last());
        lemma_newlines_concat(x, y, y.len() as int);
    }
}

/// The offset behind finished lines is a line start of the text.
proof fn lemma_offset_is_start(original: Seq<char>, i: int)
    requires
        0 <= i <= split_lines(original).len(),
        i > 0 ==> split_lines(original)[i - 1].last() == '\n',
    ensures
        i < line_starts_spec(encode_utf8(original)).len(),
        line_starts_spec(encode_utf8(original))[i] == line_offset(original, i),
        newlines(encode_utf8(original), line_offset(original, i)) == i,
        i > 0 ==> line_offset(original, i) > 0 && encode_utf8(original)[line_offset(original, i)
            - 1] == 10,
{
    let ls = split_lines(original);
    let b = encode_utf8(original);
    let q = line_offset(original, i);
    let x = encode_utf8(joined(ls.take(i)));
    lemma_original_lines(original);
    lemma_cut(original, i);
    assert forall|k: int| 0 <= k < ls.take(i).len() implies is_line(#[trigger] ls.take(i)[k])
        && ls.take(i)[k].last() == '\n' by {
        assert(ls.take(i)[k] == ls[k]);
    }
    lemma_newlines_of_lines(ls.take(i));
    lemma_newlines_prefix(b.take(q), b, q);
    assert(newlines(b, q) == i);
    lemma_line_starts(b);
    lemma_line_holds(b, q);
    if i > 0 {
        let t = ls.take(i).last();
        assert(t == ls[i - 1]);
        assert(is_line(ls[i - 1]));
        assert(joined(ls.take(i)).last() == '\n') by {
            lemma_run_of_lines(ls, 0, i);
            assert(ls.subrange(0, i) == ls.take(i));
            lemma_joined_end(ls.take(i));
        }
        assert(joined(ls.take(i)).len() > 0);
        lemma_encode_push(joined(ls.take(i)));
        lemma_scalar_newline('\n');
        assert(x[x.len() - 1] == 10);
        assert(b.take(q)[q - 1] == b[q - 1]);
        assert(newlines(b, q) == newlines(b, q - 1) + 1);
        let s = line_starts_spec(b)[i];
        if s < q {
            lemma_newlines_monotone(b, s, q - 1);
            assert(newlines(b, line_starts_spec(b)[i]) == i);
        }
    }
}

/// The range of a block runs from the offset of its first line to that behind its last.
proof fn lemma_block_offsets(original: Seq<char>, b: BlockView)
    requires
        0 <= b.first <= b.last < split_lines(original).len(),
    ensures
        block_range(encode_utf8(original), b) == (
            line_offset(original, b.first),
            line_offset(original, b.last + 1),
        ),
{
    let ls = split_lines(original);
    let bytes = encode_utf8(original);
    let n = ls.len() as int;
    lemma_original_lines(original);
    lemma_offset_is_start(original, b.first);
    lemma_line_starts(bytes);
    if ls[b.last].last() == '\n' {
        lemma_offset_is_start(original, b.last + 1);
    } else {
        assert(b.last == n - 1);
        lemma_cut(original, n);
        lemma_cut(original, n - 1);
        lemma_offset_is_start(original, n - 1);
        let q = line_offset(original, n - 1);
        let t = encode_utf8(joined(ls.skip(n - 1)));
        assert(ls.skip(n - 1) == seq![ls[n - 1]]);
        assert(ls.skip(n - 1).drop_last().len() == 0);
        assert(joined(ls.skip(n - 1).drop_last()) == Seq::<char>::empty());
        assert(joined(ls.skip(n - 1)) == ls[n - 1]);
        lemma_line_newlines(ls[n - 1]);
        assert(bytes == bytes.take(q) + t);
        lemma_newlines_concat(bytes.take(q), t, t.len() as int);
        lemma_newlines_prefix(bytes.take(q), bytes, q);
        assert(line_starts_spec(bytes).len() == n);
    }
}

/// Whether an edit leaves every newline of the text where it is.
pub open spec fn keeps_newlines(bytes: Seq<u8>, e: FixEditView) -> bool {
    forall|k: int| e.start <= k < e.end ==> #[trigger] bytes[k] != 10
}

/// Whether every edit leaves the newlines of the text where they are.
pub open spec fn all_keep_newlines(original: Seq<char>, es: Seq<FixEditView>) -> bool {
    forall|i: int| 0 <= i < es.len() ==> keeps_newlines(encode_utf8(original), #[trigger] es[i])
}

proof fn lemma_blocks_keep_newlines(original: Seq<char>, es: Seq<FixEditView>)
    requires
        all_keep_newlines(original, es),
    ensures
        forall|k: int|
            0 <= k < blocks_spec(encode_utf8(original), es).len() ==> all_keep_newlines(
                original,
                (#[trigger] blocks_spec(encode_utf8(original), es)[k]).edits,
            ),
    decreases es.len(),
{
    if es.len() > 0 {
        let bytes = encode_utf8(original);
        let front = es.drop_last();
        assert forall|i: int| 0 <= i < front.len() implies keeps_newlines(
            bytes,
            #[trigger] front[i],
        ) by {
            assert(front[i] == es[i]);
        }
        lemma_blocks_keep_newlines(original, front);
        let before = blocks_spec(bytes, front);
        let after = blocks_spec(bytes, es);
        assert(keeps_newlines(bytes, es[es.len() - 1]));
        assert forall|k: int| 0 <= k < after.len() implies all_keep_newlines(
            original,
            (#[trigger] after[k]).edits,
        ) by {
            if k < before.len() {
                assert(all_keep_newlines(original, before[k].edits));
            }
        }
    }
}

/// What the blocks of a diff satisfy.
spec fn sound(original: Seq<char>, bs: Seq<BlockView>) -> bool {
    &&& forall|k: int|
        0 <= k < bs.len() ==> block_ok(
            encode_utf8(original),
            #[trigger] bs[k],
            split_lines(original).len() as int,
        ) && edits_in_range(original, bs[k].edits) && all_keep_newlines(original, bs[k].edits)
    &&& forall|k: int| 1 <= k < bs.len() ==> (#[trigger] bs[k - 1]).last + 1 < bs[k].first
}

proof fn lemma_sound_front(original: Seq<char>, bs: Seq<BlockView>)
    requires
        sound(original, bs),
        bs.len() > 0,
    ensures
        sound(original, bs.drop_last()),
        bs.len() > 1 ==> bs.drop_last().last().last + 1 < bs.last().first,
        0 <= bs.last().first <= bs.last().last < split_lines(original).len(),
{
    let front = bs.drop_last();
    assert forall|k: int| 0 <= k < front.len() implies block_ok(
        encode_utf8(original),
        #[trigger] front[k],
        split_lines(original).len() as int,
    ) && edits_in_range(original, front[k].edits) && all_keep_newlines(
        original,
        front[k].edits,
    ) by {
        assert(front[k] == bs[k]);
    }
    assert forall|k: int| 1 <= k < front.len() implies (#[trigger] front[k - 1]).last + 1
        < front[k].first by {
        assert(front[k - 1] == bs[k - 1] && front[k] == bs[k]);
    }
    assert(block_ok(
        encode_utf8(original),
        bs[bs.len() - 1],
        split_lines(original).len() as int,
    ));
    if bs.len() > 1 {
        assert(bs[bs.len() - 1 - 1].last + 1 < bs[bs.len() - 1].first);
    }
}

/// The new text of a block that is not the end of the file ends with a newline.
proof fn lemma_block_ends(original: Seq<char>, b: BlockView)
    requires
        block_ok(encode_utf8(original), b, split_lines(original).len() as int),
        edits_in_range(original, b.edits),
        all_keep_newlines(original, b.edits),
        split_lines(original)[b.last].last() == '\n',
    ensures
        block_text(original, b).len() > 0,
        block_text(original, b).last() == '\n',
{
    let bytes = encode_utf8(original);
    let range = block_range(bytes, b);
    lemma_block_range(original, b);
    lemma_block_offsets(original, b);
    lemma_offset_is_start(original, b.last + 1);
    lemma_between(original, b.first, b.last + 1);
    lemma_line_starts(bytes);
    lemma_offset_is_start(original, b.last + 1);
    let part = slice_bytes(original, range.0, range.1);
    let local = shifted(b.edits, range.0);
    lemma_slice_encodes(original, range.0, range.1);
    splicing_backwards_rewrites(part, local);
    let mid = bytes.subrange(range.0, range.1);
    let n = mid.len() as int;
    assert(range.0 < range.1) by {
        lemma_original_lines(original);
        if b.first > 0 {
            assert(split_lines(original)[b.first - 1].last() == '\n');
        }
        lemma_offset_is_start(original, b.first);
        assert(line_starts_spec(bytes)[b.first] < line_starts_spec(bytes)[b.last + 1]);
    }
    let head = mid.take(n - 1);
    let nl = seq![10u8];
    assert(mid[n - 1] == bytes[range.1 - 1]);
    assert(mid == head + nl);
    assert forall|i: int| 0 <= i < local.len() implies 0 <= (#[trigger] local[i]).start
        <= local[i].end <= head.len() by {
        let e = b.edits[i];
        assert(range.0 <= b.edits[i].start && b.edits[i].end <= range.1);
        assert(last_line(bytes, b.edits[i]) <= b.last);
        assert(keeps_newlines(bytes, b.edits[i]));
        if last_byte(e) >= range.1 {
            lemma_newlines_monotone(bytes, range.1, last_byte(e));
        }
        if e.end == range.1 && e.start < e.end {
            assert(bytes[e.end - 1] != 10);
        }
    }
    lemma_rewrite_suffix(head, nl, local);
    let text = block_text(original, b);
    let r = rewrite(head, local);
    assert(encode_utf8(text) == r + nl);
    assert(text.len() > 0);
    lemma_encode_push(text);
    let c = encode_scalar(text.last() as u32);
    lemma_scalar_newline(text.last());
    assert((r + nl)[r.len() as int] == 10);
    assert(c[c.len() - 1] == 10);
}

/// The first `upto` lines of the original, with the lines of each block replaced by its new
/// ones.
pub open spec fn blocks_patched(
    original: Seq<char>,
    bs: Seq<BlockView>,
    upto: int,
) -> Seq<Seq<char>>
    decreases bs.len(),
{
    if bs.len() == 0 {
        split_lines(original).take(upto)
    } else {
        let b = bs.last();
        blocks_patched(original, bs.drop_last(), b.first) + split_lines(block_text(original, b))
            + split_lines(original).subrange(b.last + 1, upto)
    }
}

/// Replacing lines block by block rewrites the text block by block.
proof fn lemma_patching_rewrites(original: Seq<char>, bs: Seq<BlockView>, upto: int)
    requires
        sound(original, bs),
        0 <= upto <= split_lines(original).len(),
        bs.len() > 0 ==> bs.last().last < upto,
    ensures
        rewrite(
            encode_utf8(original).take(line_offset(original, upto)),
            block_edits(original, bs),
        ) == encode_utf8(joined(blocks_patched(original, bs, upto))),
        split_lines(joined(blocks_patched(original, bs, upto))) == blocks_patched(
            original,
            bs,
            upto,
        ),
        upto < split_lines(original).len() && joined(blocks_patched(original, bs, upto)).len() > 0
            ==> joined(blocks_patched(original, bs, upto)).last() == '\n',
    decreases bs.len(),
{
    let ls = split_lines(original);
    let bytes = encode_utf8(original);
    let q = line_offset(original, upto);
    lemma_original_lines(original);
    lemma_cut(original, upto);
    if bs.len() == 0 {
        assert(block_edits(original, bs).len() == 0);
        assert(ls.take(upto) == ls.subrange(0, upto));
        lemma_run_of_lines(ls, 0, upto);
        lemma_split_joined(ls.take(upto));
        lemma_joined_end(ls.take(upto));
    } else {
        let b = bs.last();
        let front = bs.drop_last();
        lemma_sound_front(original, bs);
        assert(bs[bs.len() - 1] == b);
        lemma_patching_rewrites(original, front, b.first);
        lemma_block_offsets(original, b);
        lemma_between(original, b.first, b.last + 1);
        lemma_between(original, b.last + 1, upto);
        let range = block_range(bytes, b);
        let x = blocks_patched(original, front, b.first);
        let text = block_text(original, b);
        let y = split_lines(text);
        let z = ls.subrange(b.last + 1, upto);
        let f = joined(x);
        let g = joined(z);
        lines_join_to_the_text(text);
        lemma_joined_concat(x, y);
        lemma_joined_concat(x + y, z);
        assert(joined(x + y + z) == f + text + g);
        let cut = bytes.take(q);
        let be = block_edits(original, bs);
        assert(be.drop_last() == block_edits(original, front));
        assert(cut.take(range.0) == bytes.take(range.0));
        assert(cut.skip(range.1) == bytes.subrange(range.1, q));
        lemma_encode_concat(f, text);
        lemma_encode_concat(f + text, g);
        assert(rewrite(cut, be) == rewrite(cut.take(range.0), be.drop_last()) + encode_utf8(text)
            + cut.skip(range.1));
        lemma_run_of_lines(ls, b.last + 1, upto);
        lemma_split_joined(z);
        lemma_joined_end(z);
        if ls[b.last].last() == '\n' {
            lemma_block_ends(original, b);
            assert((f + text).last() == '\n');
            lemma_split_concat(f, text);
            lemma_split_concat(f + text, g);
            if z.len() > 0 {
                assert((f + text + g).last() == g.last());
            } else {
                assert(f + text + g == f + text);
            }
        } else {
            assert(b.last + 1 == ls.len());
            assert(z.len() == 0);
            assert(f + text + g == f + text);
            assert(x + y + z == x + y);
            lemma_split_concat(f, text);
        }
    }
}

/// The lines of the original with the old side of each hunk replaced by its new side, the last
/// hunk first, so that each stands where its header says.
pub open spec fn patched_by(
    lines: Seq<Seq<char>>,
    original: Seq<char>,
    hs: Seq<Seq<BlockView>>,
) -> Seq<Seq<char>>
    decreases hs.len(),
{
    if hs.len() == 0 {
        lines
    } else {
        patched_by(
            patched(lines, hunk_first(hs.last()), hunk_lines(original, hs.last())),
            original,
            hs.drop_last(),
        )
    }
}

/// The blocks of all hunks in order.
spec fn blocks_of(hs: Seq<Seq<BlockView>>) -> Seq<BlockView>
    decreases hs.len(),
{
    if hs.len() == 0 {
        Seq::empty()
    } else {
        blocks_of(hs.drop_last()) + hs.last()
    }
}

/// What the hunks of a diff satisfy: each is a run of blocks, and more unchanged lines lie
/// between two of them than both show as context.
spec fn hunks_sound(original: Seq<char>, hs: Seq<Seq<BlockView>>) -> bool {
    &&& forall|k: int|
        0 <= k < hs.len() ==> (#[trigger] hs[k]).len() > 0 && sound(original, hs[k])
    &&& forall|k: int|
        1 <= k < hs.len() ==> (#[trigger] hs[k]).first().first - hs[k - 1].last().last - 1 > 2
            * CONTEXT
}

proof fn lemma_hunks_front(original: Seq<char>, hs: Seq<Seq<BlockView>>)
    requires
        hunks_sound(original, hs),
        hs.len() > 0,
    ensures
        hunks_sound(original, hs.drop_last()),
        hs.last().len() > 0,
        sound(original, hs.last()),
        hs.len() > 1 ==> hs.last().first().first - hs.drop_last().last().last().last - 1 > 2
            * CONTEXT,
{
    let front = hs.drop_last();
    assert forall|k: int| 0 <= k < front.len() implies (#[trigger] front[k]).len() > 0 && sound(
        original,
        front[k],
    ) by {
        assert(front[k] == hs[k]);
    }
    assert forall|k: int| 1 <= k < front.len() implies (#[trigger] front[k]).first().first - front[k
        - 1].last().last - 1 > 2 * CONTEXT by {
        assert(front[k] == hs[k] && front[k - 1] == hs[k - 1]);
    }
    assert(hs[hs.len() - 1].len() > 0);
    if hs.len() > 1 {
        assert(hs[hs.len() - 1].first().first - hs[hs.len() - 1 - 1].last().last - 1 > 2 * CONTEXT);
    }
}

/// Coalescing keeps every block, in order.
proof fn lemma_hunks(original: Seq<char>, bs: Seq<BlockView>)
    requires
        sound(original, bs),
    ensures
        hunks_sound(original, hunks_spec(bs)),
        blocks_of(hunks_spec(bs)) == bs,
        bs.len() > 0 ==> hunks_spec(bs).len() > 0 && hunks_spec(bs).last().last() == bs.last(),
    decreases bs.len(),
{
    if bs.len() > 0 {
        let front = bs.drop_last();
        let b = bs.last();
        lemma_sound_front(original, bs);
        lemma_hunks(original, front);
        let before = hunks_spec(front);
        let after = hunks_spec(bs);
        let p = before.len() - 1;
        assert(bs == front.push(b));
        assert(bs[bs.len() - 1] == b);
        if before.len() > 0 && b.first - before.last().last().last - 1 <= 2 * CONTEXT {
            let h = before.last();
            let nh = h.push(b);
            assert(before[p] == h);
            assert(after == before.drop_last().push(nh));
            assert forall|k: int| 0 <= k < nh.len() implies block_ok(
                encode_utf8(original),
                #[trigger] nh[k],
                split_lines(original).len() as int,
            ) && edits_in_range(original, nh[k].edits) && all_keep_newlines(
                original,
                nh[k].edits,
            ) by {
                if k < h.len() {
                    assert(nh[k] == h[k]);
                }
            }
            assert forall|k: int| 1 <= k < nh.len() implies (#[trigger] nh[k - 1]).last + 1
                < nh[k].first by {
                if k < h.len() {
                    assert(nh[k - 1] == h[k - 1] && nh[k] == h[k]);
                } else {
                    assert(nh[k - 1] == front.last());
                }
            }
            assert(sound(original, nh));
            assert forall|k: int| 0 <= k < after.len() implies (#[trigger] after[k]).len() > 0
                && sound(original, after[k]) by {
                if k < p {
                    assert(after[k] == before[k]);
                }
            }
            assert forall|k: int| 1 <= k < after.len() implies (#[trigger] after[k]).first().first
                - after[k - 1].last().last - 1 > 2 * CONTEXT by {
                assert(after[k - 1] == before[k - 1]);
                assert(before[k].first().first - before[k - 1].last().last - 1 > 2 * CONTEXT);
                if k == p {
                    assert(nh.first() == h.first());
                } else {
                    assert(after[k] == before[k]);
                }
            }
            assert(after.drop_last() == before.drop_last());
            assert(blocks_of(after) == blocks_of(before.drop_last()) + nh);
            assert(blocks_of(before) == blocks_of(before.drop_last()) + h);
            assert(blocks_of(after) == blocks_of(before).push(b));
        } else {
            let nh = seq![b];
            assert(after == before.push(nh));
            assert forall|k: int| 0 <= k < after.len() implies (#[trigger] after[k]).len() > 0
                && sound(original, after[k]) by {
                if k < before.len() {
                    assert(after[k] == before[k]);
                } else {
                    assert(nh[0] == b);
                }
            }
            assert forall|k: int| 1 <= k < after.len() implies (#[trigger] after[k]).first().first
                - after[k - 1].last().last - 1 > 2 * CONTEXT by {
                assert(after[k - 1] == before[k - 1]);
                if k < before.len() {
                    assert(after[k] == before[k]);
                    assert(before[k].first().first - before[k - 1].last().last - 1 > 2 * CONTEXT);
                }
            }
            assert(after.drop_last() == before);
            assert(blocks_of(after) == blocks_of(before) + nh);
            assert(blocks_of(after) == bs);
        }
    }
}

/// Patching blocks that form one hunk, behind blocks of earlier ones.
proof fn lemma_run_patched(
    original: Seq<char>,
    pre: Seq<BlockView>,
    h: Seq<BlockView>,
    upto: int,
)
    requires
        h.len() > 0,
    ensures
        blocks_patched(original, pre + h, upto) == blocks_patched(original, pre, h[0].first)
            + new_side(blocks_lines(original, h)) + split_lines(original).subrange(
            h.last().last + 1,
            upto,
        ),
    decreases h.len(),
{
    let ls = split_lines(original);
    let b = h.last();
    let front = h.drop_last();
    let gone = ls.subrange(b.first, b.last + 1);
    let come = split_lines(block_text(original, b));
    lemma_sides_prefixed('-', gone);
    lemma_sides_prefixed('+', come);
    lemma_sides_concat(prefixed('-', gone), prefixed('+', come));
    assert(new_side(block_lines(original, b)) == come);
    assert((pre + h).last() == b);
    assert((pre + h).drop_last() == pre + front);
    if h.len() == 1 {
        assert(pre + front == pre);
        assert(h[0] == b);
    } else {
        lemma_run_patched(original, pre, front, b.first);
        let gap = ls.subrange(h[h.len() - 2].last + 1, b.first);
        assert(front.last() == h[h.len() - 2]);
        lemma_sides_prefixed(' ', gap);
        let x = blocks_lines(original, front);
        lemma_sides_concat(x, prefixed(' ', gap));
        lemma_sides_concat(x + prefixed(' ', gap), block_lines(original, b));
        assert(new_side(blocks_lines(original, h)) == new_side(x) + gap + come);
    }
}

/// Lines behind the last block are kept.
proof fn lemma_upto(original: Seq<char>, bs: Seq<BlockView>, a: int, b: int)
    requires
        0 <= a <= b <= split_lines(original).len(),
        bs.len() > 0 ==> 0 <= bs.last().last + 1 <= a,
    ensures
        blocks_patched(original, bs, b) == blocks_patched(original, bs, a) + split_lines(
            original,
        ).subrange(a, b),
{
    let ls = split_lines(original);
    if bs.len() == 0 {
        assert(ls.take(b) == ls.take(a) + ls.subrange(a, b));
    } else {
        let c = bs.last();
        assert(ls.subrange(c.last + 1, b) == ls.subrange(c.last + 1, a) + ls.subrange(a, b));
    }
}

/// What a hunk turns lines into, and that it fits them.
proof fn lemma_hunk_patched(
    original: Seq<char>,
    h: Seq<BlockView>,
    cut: int,
    tail: Seq<Seq<char>>,
)
    requires
        h.len() > 0,
        sound(original, h),
        hunk_end(original, h) <= cut <= split_lines(original).len(),
    ensures
        0 <= hunk_first(h) <= h[0].first < split_lines(original).len(),
        h.last().last + 1 <= hunk_end(original, h),
        hunk_fits(
            split_lines(original).take(cut) + tail,
            hunk_first(h),
            hunk_lines(original, h),
        ),
        patched(
            split_lines(original).take(cut) + tail,
            hunk_first(h),
            hunk_lines(original, h),
        ) == split_lines(original).take(hunk_first(h)) + (split_lines(original).subrange(
            hunk_first(h),
            h[0].first,
        ) + new_side(blocks_lines(original, h)) + split_lines(original).subrange(
            h.last().last + 1,
            cut,
        ) + tail),
{
    let ls = split_lines(original);
    let now = ls.take(cut) + tail;
    assert forall|k: int| 0 <= k < h.len() implies 0 <= (#[trigger] h[k]).first <= h[k].last
        < ls.len() by {
        assert(block_ok(encode_utf8(original), h[k], ls.len() as int));
    }
    assert forall|k: int| 1 <= k < h.len() implies (#[trigger] h[k - 1]).last + 1 < h[k].first by {
    }
    hunk_matches_the_original(original, h);
    assert(0 <= h[h.len() - 1].first <= h[h.len() - 1].last < ls.len());
    assert(0 <= h[0].first <= h[0].last < ls.len());
    let body = hunk_lines(original, h);
    let start = hunk_first(h);
    let end = hunk_end(original, h);
    let lead = ls.subrange(start, h[0].first);
    let trail = ls.subrange(h.last().last + 1, end);
    let mid = blocks_lines(original, h);
    lemma_sides_prefixed(' ', lead);
    lemma_sides_prefixed(' ', trail);
    lemma_sides_concat(prefixed(' ', lead), mid);
    lemma_sides_concat(prefixed(' ', lead) + mid, prefixed(' ', trail));
    let n = new_side(mid);
    assert(new_side(body) == lead + n + trail);
    assert(start <= end);
    assert(now.subrange(start, end) == ls.subrange(start, end));
    assert(now.take(start) == ls.take(start));
    assert(now.skip(end) == ls.subrange(end, cut) + tail);
    assert(trail + ls.subrange(end, cut) == ls.subrange(h.last().last + 1, cut));
    assert(patched(now, start, body) == ls.take(start) + (lead + n + trail) + (ls.subrange(
        end,
        cut,
    ) + tail));
    assert(ls.take(start) + (lead + n + trail) + (ls.subrange(end, cut) + tail) == ls.take(start)
        + (lead + n + (trail + ls.subrange(end, cut)) + tail));
}

/// Up to any line behind them, patching by hunks and by blocks agree.
proof fn lemma_hunks_patched(
    original: Seq<char>,
    hs: Seq<Seq<BlockView>>,
    cut: int,
    tail: Seq<Seq<char>>,
)
    requires
        hunks_sound(original, hs),
        0 <= cut <= split_lines(original).len(),
        hs.len() > 0 ==> hunk_end(original, hs.last()) <= cut,
    ensures
        patched_by(split_lines(original).take(cut) + tail, original, hs) == blocks_patched(
            original,
            blocks_of(hs),
            cut,
        ) + tail,
    decreases hs.len(),
{
    let ls = split_lines(original);
    if hs.len() > 0 {
        let front = hs.drop_last();
        let h = hs.last();
        lemma_hunks_front(original, hs);
        lemma_hunk_patched(original, h, cut, tail);
        let start = hunk_first(h);
        let lead = ls.subrange(start, h[0].first);
        let n = new_side(blocks_lines(original, h));
        let after = ls.subrange(h.last().last + 1, cut);
        let rest = lead + n + after + tail;
        let pre = blocks_of(front);
        if front.len() > 0 {
            let g = front.last();
            lemma_hunks_front(original, front);
            assert(block_ok(encode_utf8(original), g[g.len() - 1], ls.len() as int));
            assert(pre.last() == g.last());
        } else {
            assert(pre.len() == 0);
        }
        lemma_hunks_patched(original, front, start, rest);
        lemma_run_patched(original, pre, h, cut);
        lemma_upto(original, pre, start, h[0].first);
        let x = blocks_patched(original, pre, start);
        assert(x + rest == (x + lead) + n + after + tail);
    } else {
        assert(blocks_of(hs).len() == 0);
    }
}

/// A diff of edits round-trips: every hunk matches the lines it stands on, and replacing each
/// hunk's old side by its new side turns the lines of the original into those of the text that
/// applying the edits gives. Edits that take out a newline are left out: they join two lines,
/// and a hunk that ends there would show a line without its end.
pub proof fn diff_patches_the_original(original: Seq<char>, es: Seq<FixEditView>)
    requires
        diffable(original, es),
        all_keep_newlines(original, es),
    ensures
        ({
            let lines = split_lines(original);
            let hs = hunks_spec(blocks_spec(encode_utf8(original), es));
            &&& forall|k: int|
                0 <= k < hs.len() ==> hunk_fits(
                    lines,
                    hunk_first(#[trigger] hs[k]),
                    hunk_lines(original, hs[k]),
                )
            &&& patched_by(lines, original, hs) == split_lines(apply_spec(original, es))
            &&& joined(patched_by(lines, original, hs)) == apply_spec(original, es)
        }),
{
    let lines = split_lines(original);
    let bytes = encode_utf8(original);
    let n = lines.len() as int;
    let bs = blocks_spec(bytes, es);
    let hs = hunks_spec(bs);
    lemma_blocks(original, es);
    lemma_blocks_keep_newlines(original, es);
    assert(sound(original, bs));
    lemma_hunks(original, bs);
    if bs.len() > 0 {
        assert(block_ok(bytes, bs[bs.len() - 1], n));
    }
    assert forall|k: int| 0 <= k < hs.len() implies hunk_fits(
        lines,
        hunk_first(#[trigger] hs[k]),
        hunk_lines(original, hs[k]),
    ) by {
        let h = hs[k];
        assert(h.len() > 0 && sound(original, h));
        assert forall|j: int| 0 <= j < h.len() implies 0 <= (#[trigger] h[j]).first <= h[j].last
            < n by {
            assert(block_ok(bytes, h[j], n));
        }
        hunk_matches_the_original(original, h);
    }
    let none = Seq::<Seq<char>>::empty();
    assert(lines.take(n) + none == lines);
    lemma_hunks_patched(original, hs, n, none);
    let r = blocks_patched(original, bs, n);
    assert(r + none == r);
    lemma_patching_rewrites(original, bs, n);
    lemma_cut(original, n);
    assert(bytes.take(bytes.len() as int) == bytes);
    blocks_carry_the_edits(original, es);
    apply_rewrites_in_place(original, es);
    lemma_encode_injective(apply_spec(original, es), joined(r));
}

/// How many lines patching with some hunks leaves.
proof fn lemma_patched_len(
    original: Seq<char>,
    hs: Seq<Seq<BlockView>>,
    cut: int,
    tail: Seq<Seq<char>>,
)
    requires
        hunks_sound(original, hs),
        0 <= cut <= split_lines(original).len(),
        hs.len() > 0 ==> hunk_end(original, hs.last()) <= cut,
    ensures
        patched_by(split_lines(original).take(cut) + tail, original, hs).len() == cut + tail.len()
            + new_total(original, hs) - old_total(original, hs),
    decreases hs.len(),
{
    let ls = split_lines(original);
    if hs.len() > 0 {
        let front = hs.drop_last();
        let h = hs.last();
        lemma_hunks_front(original, hs);
        lemma_hunk_patched(original, h, cut, tail);
        counts_are_side_lengths(hunk_lines(original, h));
        let start = hunk_first(h);
        let rest = ls.subrange(start, h[0].first) + new_side(blocks_lines(original, h))
            + ls.subrange(h.last().last + 1, cut) + tail;
        if front.len() > 0 {
            let g = front.last();
            lemma_hunks_front(original, front);
            assert(block_ok(encode_utf8(original), g[g.len() - 1], ls.len() as int));
        }
        lemma_patched_len(original, front, start, rest);
        let now = ls.take(cut) + tail;
        let body = hunk_lines(original, h);
        assert(patched(now, start, body).len() == start + new_side(body).len() + (now.len() - (start
            + old_side(body).len())));
        assert(patched(now, start, body) == ls.take(start) + rest);
    }
}

/// Where the new side of a hunk stands in the patched lines.
proof fn lemma_placed(
    original: Seq<char>,
    hs: Seq<Seq<BlockView>>,
    cut: int,
    tail: Seq<Seq<char>>,
    k: int,
)
    requires
        hunks_sound(original, hs),
        0 <= cut <= split_lines(original).len(),
        0 <= k < hs.len(),
        hunk_end(original, hs.last()) <= cut,
    ensures
        ({
            let r = patched_by(split_lines(original).take(cut) + tail, original, hs);
            let at = hunk_first(hs[k]) + new_total(original, hs.take(k)) - old_total(
                original,
                hs.take(k),
            );
            let side = new_side(hunk_lines(original, hs[k]));
            &&& 0 <= at
            &&& at + side.len() <= r.len()
            &&& r.subrange(at, at + side.len()) == side
        }),
    decreases hs.len(),
{
    let ls = split_lines(original);
    let front = hs.drop_last();
    let h = hs.last();
    lemma_hunks_front(original, hs);
    lemma_hunk_patched(original, h, cut, tail);
    let start = hunk_first(h);
    let lead = ls.subrange(start, h[0].first);
    let n = new_side(blocks_lines(original, h));
    let after = ls.subrange(h.last().last + 1, cut);
    let rest = lead + n + after + tail;
    if front.len() > 0 {
        let g = front.last();
        lemma_hunks_front(original, front);
        assert(block_ok(encode_utf8(original), g[g.len() - 1], ls.len() as int));
    }
    if k < front.len() {
        assert(front[k] == hs[k]);
        assert(front.take(k) == hs.take(k));
        lemma_placed(original, front, start, rest, k);
    } else {
        assert(hs[k] == h);
        assert(hs.take(k) == front);
        let end = hunk_end(original, h);
        let trail = ls.subrange(h.last().last + 1, end);
        let mid = blocks_lines(original, h);
        lemma_sides_prefixed(' ', lead);
        lemma_sides_prefixed(' ', trail);
        lemma_sides_concat(prefixed(' ', lead), mid);
        lemma_sides_concat(prefixed(' ', lead) + mid, prefixed(' ', trail));
        let side = new_side(hunk_lines(original, h));
        assert(side == lead + n + trail);
        assert(after == trail + ls.subrange(end, cut));
        assert(rest == side + (ls.subrange(end, cut) + tail));
        lemma_hunks_patched(original, front, start, rest);
        lemma_patched_len(original, front, start, rest);
        let x = blocks_patched(original, blocks_of(front), start);
        let r = x + rest;
        assert(r.subrange(x.len() as int, x.len() as int + side.len()) == side);
    }
}

/// The header of a hunk tells where it stands in the new file, too: there, the patched lines
/// are the hunk's new side.
pub proof fn headers_place_the_hunks(original: Seq<char>, es: Seq<FixEditView>, k: int)
    requires
        diffable(original, es),
        all_keep_newlines(original, es),
        0 <= k < hunks_spec(blocks_spec(encode_utf8(original), es)).len(),
    ensures
        ({
            let hs = hunks_spec(blocks_spec(encode_utf8(original), es));
            let body = hunk_lines(original, hs[k]);
            let lines = split_lines(apply_spec(original, es));
            let at = new_start(
                (hunk_first(hs[k]) + 1) as nat,
                old_total(original, hs.take(k)),
                new_total(original, hs.take(k)),
            ) - 1;
            &&& 0 <= at
            &&& at + new_lines(body) <= lines.len()
            &&& lines.subrange(at, at + new_lines(body)) == new_side(body)
        }),
{
    let lines = split_lines(original);
    let bytes = encode_utf8(original);
    let n = lines.len() as int;
    let bs = blocks_spec(bytes, es);
    let hs = hunks_spec(bs);
    lemma_blocks(original, es);
    lemma_blocks_keep_newlines(original, es);
    assert(sound(original, bs));
    lemma_hunks(original, bs);
    assert(bs.len() > 0) by {
        if bs.len() == 0 {
            assert(hs.len() == 0);
        }
    }
    assert(block_ok(bytes, bs[bs.len() - 1], n));
    diff_patches_the_original(original, es);
    let none = Seq::<Seq<char>>::empty();
    assert(lines.take(n) + none == lines);
    lemma_placed(original, hs, n, none, k);
    counts_are_side_lengths(hunk_lines(original, hs[k]));
    let h = hs[k];
    assert(h.len() > 0 && sound(original, h));
    assert(block_ok(bytes, h[0], n));
}

} // verus!
