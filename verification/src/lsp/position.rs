//! Byte offset → LSP `Position`/`Range` mapping (UTF-16 columns).
use vstd::prelude::*;
use vstd::utf8::{
    encode_utf8, encode_utf8_valid_utf8, is_char_boundary, is_char_boundary_start_end_of_seq,
    valid_utf8,
};

use crate::fix_laws::lemma_boundary_after_ascii;
use crate::lines::{
    lemma_line_holds, lemma_line_starts, lemma_newlines_monotone, line_of, line_starts,
    line_starts_spec, newlines, offsets,
};
use crate::text::{
    chars_of, get_bytes, is_byte_range, lemma_encode_concat, lemma_encode_injective,
    lemma_slice_encodes, slice_bytes,
};

verus! {

/// A place in a document: 0-based line, UTF-16 code-unit column.
#[derive(Debug, Clone, Copy, PartialEq, Eq, Structural)]
pub struct Position {
    pub line: u32,
    pub character: u32,
}

/// A stretch of a document, `[start, end)`.
#[derive(Debug, Clone, Copy, PartialEq, Eq, Structural)]
pub struct Range {
    pub start: Position,
    pub end: Position,
}

/// Number of UTF-16 code units of a character.
pub open spec fn utf16_width(c: char) -> nat {
    if c as u32 >= 0x1_0000 {
        2
    } else {
        1
    }
}

/// Number of UTF-16 code units of a text.
pub open spec fn utf16_len(s: Seq<char>) -> nat
    decreases s.len(),
{
    if s.len() == 0 {
        0
    } else {
        utf16_len(s.drop_last()) + utf16_width(s.last())
    }
}

/// The last place at or before `byte` that is between characters.
pub open spec fn floor_boundary(bytes: Seq<u8>, byte: int) -> int
    decreases byte,
{
    if byte <= 0 {
        0
    } else if byte <= bytes.len() && is_char_boundary(bytes, byte) {
        byte
    } else {
        floor_boundary(bytes, byte - 1)
    }
}

/// The largest number that a position can hold, for numbers beyond it.
pub open spec fn saturated(n: int) -> u32 {
    if n > u32::MAX {
        u32::MAX
    } else {
        n as u32
    }
}

/// The position of a byte offset: the newlines before it, and the code units between the last of
/// them and it. An offset beyond the text stands for its end, one inside a character for that
/// character's start.
pub open spec fn position_spec(text: Seq<char>, byte: int) -> Position {
    let bytes = encode_utf8(text);
    let at = floor_boundary(bytes, byte);
    let line = newlines(bytes, at);
    let start = line_starts_spec(bytes)[line];
    Position {
        line: saturated(line),
        character: saturated(utf16_len(slice_bytes(text, start, at)) as int),
    }
}

/// The range between two byte offsets.
pub open spec fn range_spec(text: Seq<char>, start: int, end: int) -> Range {
    Range { start: position_spec(text, start), end: position_spec(text, end) }
}

proof fn lemma_floor_boundary(bytes: Seq<u8>, byte: int)
    requires
        valid_utf8(bytes),
    ensures
        0 <= floor_boundary(bytes, byte) <= bytes.len(),
        byte >= 0 ==> floor_boundary(bytes, byte) <= byte,
        is_char_boundary(bytes, floor_boundary(bytes, byte)),
    decreases byte,
{
    if byte <= 0 {
        is_char_boundary_start_end_of_seq(bytes);
    } else if !(byte <= bytes.len() && is_char_boundary(bytes, byte)) {
        lemma_floor_boundary(bytes, byte - 1);
    }
}

proof fn lemma_floor_clamps(text: Seq<char>, byte: int)
    requires
        byte >= encode_utf8(text).len(),
    ensures
        floor_boundary(encode_utf8(text), byte) == floor_boundary(
            encode_utf8(text),
            encode_utf8(text).len() as int,
        ),
    decreases byte,
{
    let bytes = encode_utf8(text);
    if byte > bytes.len() {
        lemma_floor_clamps(text, byte - 1);
    }
}

/// Number of UTF-16 code units of a text.
pub fn utf16_count(s: &str) -> (r: u128)
    ensures
        r == utf16_len(s@),
{
    let cs = chars_of(s);
    let n: usize = cs.len();
    let mut count: u128 = 0;
    let mut i: usize = 0;
    assert(s@.take(0) == Seq::<char>::empty());
    while i < n
        invariant
            i <= n == cs@.len(),
            cs@ == s@,
            count == utf16_len(s@.take(i as int)),
            count <= 2 * i,
        decreases n - i,
    {
        assert(s@.take(i + 1).drop_last() == s@.take(i as int));
        assert(s@.take(i + 1).last() == cs@[i as int]);
        let c: char = cs[i];
        if c as u32 >= 0x1_0000 {
            count = count + 2;
        } else {
            count = count + 1;
        }
        i += 1;
    }
    assert(s@.take(s@.len() as int) == s@);
    count
}

/// Maps byte offsets within a document to LSP positions (0-based line, UTF-16
/// code-unit column). Borrows the source text.
pub struct LineIndex<'a> {
    pub text: &'a str,
    /// Byte offset of the start of each line (line 0 starts at 0).
    pub line_starts: Vec<usize>,
}

impl<'a> LineIndex<'a> {
    /// Whether the table is that of the text.
    pub open spec fn well_formed(&self) -> bool {
        offsets(self.line_starts@) == line_starts_spec(encode_utf8(self.text@))
    }

    /// The index of a text.
    pub fn new(text: &'a str) -> (r: LineIndex<'a>)
        ensures
            r.well_formed(),
            r.text@ == text@,
    {
        let line_starts = line_starts(text);
        LineIndex { text, line_starts }
    }

    /// The last place at or before `byte` that is between characters.
    fn floor(&self, byte: usize) -> (r: usize)
        ensures
            r == floor_boundary(encode_utf8(self.text@), byte as int),
    {
        let n: usize = self.text.as_bytes().len();
        let ghost bytes = encode_utf8(self.text@);
        let mut at: usize = if byte > n {
            n
        } else {
            byte
        };
        proof {
            if byte > n {
                lemma_floor_clamps(self.text@, byte as int);
            }
        }
        while at > 0 && !self.text.is_char_boundary(at)
            invariant
                at <= n == bytes.len(),
                bytes == encode_utf8(self.text@),
                floor_boundary(bytes, byte as int) == floor_boundary(bytes, at as int),
            decreases at,
        {
            at = at - 1;
        }
        at
    }

    /// The LSP position for `byte`. Offsets beyond the text length clamp to its
    /// end; a byte that lands inside a multi-byte character floors to that
    /// character's start.
    pub fn position(&self, byte: usize) -> (r: Position)
        requires
            self.well_formed(),
        ensures
            r == position_spec(self.text@, byte as int),
    {
        let at: usize = self.floor(byte);
        let ghost bytes = encode_utf8(self.text@);
        let ghost starts = line_starts_spec(bytes);
        proof {
            encode_utf8_valid_utf8(self.text@);
            lemma_floor_boundary(bytes, byte as int);
            lemma_line_starts(bytes);
            lemma_newlines_monotone(bytes, 0, bytes.len() as int);
            assert(starts[0] == self.line_starts@[0]);
            assert forall|i: int, j: int|
                0 <= i < j < self.line_starts@.len() implies #[trigger] self.line_starts@[i]
                < #[trigger] self.line_starts@[j] by {
                assert(starts[i] < starts[j]);
            }
        }
        let line: usize = line_of(self.line_starts.as_slice(), at);
        proof {
            lemma_line_holds(bytes, at as int);
            let k = newlines(bytes, at as int);
            assert(starts[line as int] == self.line_starts@[line as int]);
            if line < k {
                assert(starts[line + 1] == self.line_starts@[line + 1]);
                if line + 1 < k {
                    assert(starts[line + 1] < starts[k]);
                }
            }
            if line > k {
                assert(starts[k + 1] == self.line_starts@[k + 1]);
                if k + 1 < line {
                    assert(starts[k + 1] < starts[line as int]);
                }
            }
            assert(line == k);
            if line > 0 {
                lemma_boundary_after_ascii(bytes, starts[line as int] - 1);
            } else {
                is_char_boundary_start_end_of_seq(bytes);
            }
        }
        let start: usize = self.line_starts[line];
        let character: u128 = match get_bytes(self.text, start, at) {
            Some(s) => utf16_count(s),
            None => 0,
        };
        let l: u32 = if line as u128 > u32::MAX as u128 {
            u32::MAX
        } else {
            line as u32
        };
        let c: u32 = if character > u32::MAX as u128 {
            u32::MAX
        } else {
            character as u32
        };
        Position { line: l, character: c }
    }

    /// The LSP range `[start, end)`.
    pub fn range(&self, start: usize, end: usize) -> (r: Range)
        requires
            self.well_formed(),
        ensures
            r == range_spec(self.text@, start as int, end as int),
    {
        Range { start: self.position(start), end: self.position(end) }
    }
}

/// Offsets beyond the end of a text stand for its end.
pub proof fn offsets_beyond_the_end_clamp(text: Seq<char>, byte: int)
    requires
        byte >= encode_utf8(text).len(),
    ensures
        position_spec(text, byte) == position_spec(text, encode_utf8(text).len() as int),
{
    lemma_floor_clamps(text, byte);
}

/// The start of a text is its first line and column.
pub proof fn a_text_starts_at_the_origin(text: Seq<char>)
    ensures
        position_spec(text, 0) == (Position { line: 0, character: 0 }),
{
    let bytes = encode_utf8(text);
    lemma_line_starts(bytes);
    encode_utf8_valid_utf8(text);
    is_char_boundary_start_end_of_seq(bytes);
    assert(slice_bytes(text, 0, 0) == Seq::<char>::empty());
}

/// Whether `p` is at or before `q` in a document.
pub open spec fn not_after(p: Position, q: Position) -> bool {
    p.line < q.line || (p.line == q.line && p.character <= q.character)
}

proof fn lemma_utf16_concat(a: Seq<char>, b: Seq<char>)
    ensures
        utf16_len(a + b) == utf16_len(a) + utf16_len(b),
    decreases b.len(),
{
    if b.len() == 0 {
        assert(a + b == a);
    } else {
        lemma_utf16_concat(a, b.drop_last());
        assert((a + b).drop_last() == a + b.drop_last());
        assert((a + b).last() == b.last());
    }
}

proof fn lemma_slices_join(text: Seq<char>, a: int, b: int, c: int)
    requires
        is_byte_range(text, a, b),
        is_byte_range(text, b, c),
    ensures
        slice_bytes(text, a, c) == slice_bytes(text, a, b) + slice_bytes(text, b, c),
{
    let bytes = encode_utf8(text);
    lemma_slice_encodes(text, a, b);
    lemma_slice_encodes(text, b, c);
    lemma_slice_encodes(text, a, c);
    lemma_encode_concat(slice_bytes(text, a, b), slice_bytes(text, b, c));
    assert(bytes.subrange(a, b) + bytes.subrange(b, c) == bytes.subrange(a, c));
    lemma_encode_injective(
        slice_bytes(text, a, c),
        slice_bytes(text, a, b) + slice_bytes(text, b, c),
    );
}

proof fn lemma_floor_monotone(bytes: Seq<u8>, a: int, b: int)
    requires
        valid_utf8(bytes),
        a <= b,
    ensures
        floor_boundary(bytes, a) <= floor_boundary(bytes, b),
    decreases b,
{
    if 0 < b && a < b {
        lemma_floor_monotone(bytes, a, b - 1);
        lemma_floor_boundary(bytes, b - 1);
        lemma_floor_boundary(bytes, a);
    }
}

/// Later offsets have later positions, in a text short enough for a position to hold every line.
pub proof fn positions_follow_offsets(text: Seq<char>, a: int, b: int)
    requires
        a <= b,
        encode_utf8(text).len() < u32::MAX,
    ensures
        not_after(position_spec(text, a), position_spec(text, b)),
{
    let bytes = encode_utf8(text);
    encode_utf8_valid_utf8(text);
    lemma_floor_monotone(bytes, a, b);
    lemma_floor_boundary(bytes, a);
    lemma_floor_boundary(bytes, b);
    let x = floor_boundary(bytes, a);
    let y = floor_boundary(bytes, b);
    lemma_newlines_monotone(bytes, x, y);
    lemma_newlines_monotone(bytes, y, bytes.len() as int);
    lemma_newlines_monotone(bytes, 0, bytes.len() as int);
    lemma_line_starts(bytes);
    lemma_line_holds(bytes, x);
    lemma_line_holds(bytes, y);
    let line = newlines(bytes, x);
    if line == newlines(bytes, y) {
        let start = line_starts_spec(bytes)[line];
        if line > 0 {
            lemma_boundary_after_ascii(bytes, start - 1);
        } else {
            is_char_boundary_start_end_of_seq(bytes);
        }
        lemma_slices_join(text, start, x, y);
        lemma_utf16_concat(slice_bytes(text, start, x), slice_bytes(text, x, y));
    }
}

} // verus!
