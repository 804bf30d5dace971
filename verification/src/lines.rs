//! Lines of a text: splitting behind each newline, and the byte offsets where lines begin.
use vstd::prelude::*;
use vstd::utf8::encode_utf8;

use crate::collections::texts;
use crate::text::chars_of;

verus! {

/// The lines of `s`, each with its newline: a character continues the last line unless
/// that line has ended.
pub open spec fn split_lines(s: Seq<char>) -> Seq<Seq<char>>
    decreases s.len(),
{
    if s.len() == 0 {
        Seq::empty()
    } else {
        let before = split_lines(s.drop_last());
        if before.len() == 0 || before.last().last() == '\n' {
            before.push(seq![s.last()])
        } else {
            before.drop_last().push(before.last().push(s.last()))
        }
    }
}

/// No line is empty, and only the last may lack a newline.
pub proof fn lemma_split_lines(s: Seq<char>)
    ensures
        s.len() > 0 ==> split_lines(s).len() > 0,
        split_lines(s).len() <= s.len(),
        forall|i: int| 0 <= i < split_lines(s).len() ==> (#[trigger] split_lines(s)[i]).len() > 0,
        forall|i: int|
            0 <= i < split_lines(s).len() - 1 ==> (#[trigger] split_lines(s)[i]).last() == '\n',
    decreases s.len(),
{
    if s.len() > 0 {
        lemma_split_lines(s.drop_last());
    }
}

/// The texts of a list of strings laid end to end.
pub open spec fn joined(parts: Seq<Seq<char>>) -> Seq<char>
    decreases parts.len(),
{
    if parts.len() == 0 {
        Seq::empty()
    } else {
        joined(parts.drop_last()) + parts.last()
    }
}

/// Splitting loses nothing: the lines of a text, laid end to end, are the text.
pub proof fn lines_join_to_the_text(s: Seq<char>)
    ensures
        joined(split_lines(s)) == s,
    decreases s.len(),
{
    if s.len() > 0 {
        let front = s.drop_last();
        lines_join_to_the_text(front);
        let before = split_lines(front);
        let after = split_lines(s);
        if before.len() == 0 || before.last().last() == '\n' {
            assert(after.drop_last() == before);
        } else {
            assert(after.drop_last() == before.drop_last());
            assert(joined(before) == joined(before.drop_last()) + before.last());
            assert(joined(after) == joined(before.drop_last()) + before.last().push(s.last()));
        }
        assert(joined(after) == joined(before) + seq![s.last()]);
        assert(s == front + seq![s.last()]);
    }
}

/// The lines of `s`, each with its newline.
pub fn split_inclusive(s: &str) -> (r: Vec<String>)
    ensures
        texts(r@) == split_lines(s@),
{
    let cs = chars_of(s);
    let mut lines: Vec<String> = Vec::new();
    let mut line = String::new();
    let mut open = false;
    let mut i: usize = 0;
    proof {
        assert(texts(lines@) == split_lines(cs@.take(0)));
    }
    while i < cs.len()
        invariant
            i <= cs@.len(),
            cs@ == s@,
            open ==> line@.len() > 0 && line@.last() != '\n',
            !open ==> line@.len() == 0,
            split_lines(s@.take(i as int)) == (if open {
                texts(lines@).push(line@)
            } else {
                texts(lines@)
            }),
            !open && i > 0 ==> lines@.len() > 0 && lines@.last()@.len() > 0
                && lines@.last()@.last() == '\n',
            i == 0 ==> lines@.len() == 0 && !open,
        decreases cs@.len() - i,
    {
        let c = cs[i];
        let ghost before = split_lines(s@.take(i as int));
        let ghost old_line = line@;
        proof {
            assert(s@.take(i + 1).drop_last() == s@.take(i as int));
            assert(s@.take(i + 1).last() == c);
        }
        line.push(c);
        proof {
            let done = texts(lines@);
            if open {
                assert(before.last() == old_line);
                assert(before.drop_last() == done);
            } else {
                if i > 0 {
                    assert(before.last() == lines@.last()@);
                }
                assert(line@ == seq![c]);
            }
            assert(split_lines(s@.take(i + 1)) == done.push(line@));
            assert(texts(lines@.push(line)) == done.push(line@));
        }
        if c == '\n' {
            lines.push(line);
            line = String::new();
            open = false;
        } else {
            open = true;
        }
        i += 1;
    }
    assert(s@.take(s@.len() as int) == s@);
    if open {
        proof {
            assert(texts(lines@.push(line)) == texts(
                lines@,
            ).push(line@));
        }
        lines.push(line);
    }
    lines
}

/// Number of newlines among the first `off` bytes.
pub open spec fn newlines(bytes: Seq<u8>, off: int) -> int
    decreases off,
{
    if off <= 0 {
        0
    } else {
        newlines(bytes, off - 1) + if off <= bytes.len() && bytes[off - 1] == 10 {
            1int
        } else {
            0int
        }
    }
}

/// More bytes hold no fewer newlines.
pub proof fn lemma_newlines_monotone(bytes: Seq<u8>, a: int, b: int)
    requires
        a <= b,
    ensures
        0 <= newlines(bytes, a) <= newlines(bytes, b),
        b >= 0 ==> newlines(bytes, b) <= b,
    decreases b - a, b,
{
    if a < b {
        lemma_newlines_monotone(bytes, a, b - 1);
    } else if a > 0 {
        lemma_newlines_monotone(bytes, a - 1, a - 1);
    }
}

/// Newlines before an offset depend on the bytes before it alone.
pub proof fn lemma_newlines_prefix(x: Seq<u8>, y: Seq<u8>, off: int)
    requires
        off <= x.len(),
        off <= y.len(),
        forall|i: int| 0 <= i < off ==> x[i] == y[i],
    ensures
        newlines(x, off) == newlines(y, off),
    decreases off,
{
    if off > 0 {
        lemma_newlines_prefix(x, y, off - 1);
    }
}

/// The byte offsets where lines begin: the start, and behind every newline.
pub open spec fn line_starts_spec(bytes: Seq<u8>) -> Seq<int>
    decreases bytes.len(),
{
    if bytes.len() == 0 {
        seq![0]
    } else {
        let before = line_starts_spec(bytes.drop_last());
        if bytes.last() == 10 {
            before.push(bytes.len() as int)
        } else {
            before
        }
    }
}

/// What a table of line starts is: one more entry than newlines, ascending from zero, each
/// later entry directly behind a newline and with as many newlines before it as its index.
pub proof fn lemma_line_starts(bytes: Seq<u8>)
    ensures
        line_starts_spec(bytes).len() == newlines(bytes, bytes.len() as int) + 1,
        line_starts_spec(bytes)[0] == 0,
        forall|i: int, j: int|
            0 <= i < j < line_starts_spec(bytes).len() ==> #[trigger] line_starts_spec(bytes)[i]
                < #[trigger] line_starts_spec(bytes)[j],
        forall|i: int|
            0 <= i < line_starts_spec(bytes).len() ==> 0 <= #[trigger] line_starts_spec(bytes)[i]
                <= bytes.len(),
        forall|i: int|
            0 < i < line_starts_spec(bytes).len() ==> bytes[#[trigger] line_starts_spec(bytes)[i]
                - 1] == 10,
        forall|i: int|
            0 <= i < line_starts_spec(bytes).len() ==> newlines(
                bytes,
                #[trigger] line_starts_spec(bytes)[i],
            ) == i,
    decreases bytes.len(),
{
    if bytes.len() > 0 {
        let front = bytes.drop_last();
        lemma_line_starts(front);
        let n = bytes.len() as int;
        lemma_newlines_monotone(front, 0, n - 1);
        lemma_newlines_prefix(front, bytes, n - 1);
        let before = line_starts_spec(front);
        let after = line_starts_spec(bytes);
        assert(forall|i: int| 0 <= i < before.len() ==> after[i] == before[i]);
        assert forall|i: int| 0 <= i < after.len() implies newlines(bytes, #[trigger] after[i])
            == i by {
            if i < before.len() {
                lemma_newlines_prefix(front, bytes, before[i]);
                assert(newlines(front, before[i]) == i);
            }
        }
        assert forall|i: int| 0 < i < after.len() implies bytes[#[trigger] after[i] - 1] == 10 by {
            if i < before.len() {
                assert(front[before[i] - 1] == 10);
            }
        }
    }
}

/// The line that holds offset `off` begins at or before it, and the next one behind it.
pub proof fn lemma_line_holds(bytes: Seq<u8>, off: int)
    requires
        0 <= off <= bytes.len(),
    ensures
        0 <= newlines(bytes, off) < line_starts_spec(bytes).len(),
        line_starts_spec(bytes)[newlines(bytes, off)] <= off,
        newlines(bytes, off) + 1 < line_starts_spec(bytes).len() ==> off < line_starts_spec(
            bytes,
        )[newlines(bytes, off) + 1],
{
    lemma_line_starts(bytes);
    let k = newlines(bytes, off);
    let starts = line_starts_spec(bytes);
    lemma_newlines_monotone(bytes, off, bytes.len() as int);
    lemma_newlines_monotone(bytes, 0, off);
    if starts[k] > off {
        // then one more newline stands between `off` and the start of line `k`
        assert(k > 0);
        lemma_newlines_monotone(bytes, off, starts[k] - 1);
        assert(newlines(bytes, starts[k]) == newlines(bytes, starts[k] - 1) + 1);
    }
    if k + 1 < starts.len() {
        lemma_newlines_monotone(bytes, starts[k + 1], if starts[k + 1] <= off { off } else {
            starts[k + 1]
        });
    }
}

/// The table of line starts as integers.
pub open spec fn offsets(v: Seq<usize>) -> Seq<int> {
    v.map_values(|x: usize| x as int)
}

/// The byte offsets where the lines of `s` begin.
pub fn line_starts(s: &str) -> (r: Vec<usize>)
    ensures
        offsets(r@) == line_starts_spec(encode_utf8(s@)),
{
    let b = s.as_bytes();
    let ghost bytes = b@;
    let mut starts: Vec<usize> = Vec::new();
    starts.push(0);
    let mut i: usize = 0;
    assert(offsets(starts@) == line_starts_spec(bytes.take(0)));
    while i < b.len()
        invariant
            i <= b@.len(),
            bytes == b@,
            offsets(starts@) == line_starts_spec(bytes.take(i as int)),
        decreases b@.len() - i,
    {
        assert(bytes.take(i + 1).drop_last() == bytes.take(i as int));
        assert(bytes.take(i + 1).last() == b@[i as int]);
        if b[i] == 10 {
            assert(offsets(starts@.push((i + 1) as usize)) == offsets(starts@).push(i + 1));
            starts.push(i + 1);
        }
        i += 1;
    }
    assert(bytes.take(bytes.len() as int) == bytes);
    starts
}

/// 0-based line index containing byte offset `off` (clamped to the last line).
/// `line_starts` are the byte offsets of each line's first character.
pub fn line_of(line_starts: &[usize], off: usize) -> (r: usize)
    requires
        line_starts@.len() > 0,
        line_starts@[0] == 0,
        forall|i: int, j: int|
            0 <= i < j < line_starts@.len() ==> #[trigger] line_starts@[i]
                < #[trigger] line_starts@[j],
    ensures
        r < line_starts@.len(),
        line_starts@[r as int] <= off,
        r + 1 < line_starts@.len() ==> off < line_starts@[r + 1],
{
    let mut lo: usize = 0;
    let mut hi: usize = line_starts.len();
    while hi - lo > 1
        invariant
            0 <= lo < hi <= line_starts@.len(),
            line_starts@[lo as int] <= off,
            hi < line_starts@.len() ==> off < line_starts@[hi as int],
        decreases hi - lo,
    {
        let mid: usize = lo + (hi - lo) / 2;
        if line_starts[mid] <= off {
            lo = mid;
        } else {
            hi = mid;
        }
    }
    lo
}

} // verus!
