//! Where statements and findings stand in a text.
use vstd::prelude::*;
use vstd::utf8::{
    encode_scalar, encode_utf8, encode_utf8_decode_utf8, encode_utf8_valid_utf8, is_char_boundary,
    is_char_boundary_iff_not_is_continuation_byte, is_char_boundary_start_end_of_seq,
    is_continuation_byte,
};

use crate::anchor_laws::lemma_parts;
use crate::collections::text_lt;
use crate::engine::{chars_before, column_after, finding_of, line_after, location_spec};
use crate::finding::{RuleHitView, Severity};
use crate::geometry::Geometry;
use crate::lines::{lemma_line_starts, lemma_newlines_monotone, line_starts_spec, newlines};
use crate::lsp::diagnostics::finding_range_spec;
use crate::lsp::position::{
    floor_boundary, position_spec, range_spec, saturated, utf16_len, Position,
};
use crate::text::{
    is_byte_range, is_white_space_spec, lemma_encode_concat, lower_char_spec, slice_bytes,
    trim_end_spec, trim_spec, trim_start_spec,
};

verus! {

/// A newline.
pub open spec fn newline() -> spec_fn(char) -> bool {
    |c: char| c == '\n'
}

/// A character that takes two code units of UTF-16.
pub open spec fn wide() -> spec_fn(char) -> bool {
    |c: char| c as u32 > 0xffff
}

proof fn lemma_chars_before(b: Seq<char>, r: Seq<char>, at: int)
    ensures
        chars_before(b + r, at, at + encode_utf8(b).len()) == b.len(),
    decreases b.len(),
{
    if b.len() > 0 {
        let c = b[0];
        assert((b + r)[0] == c);
        assert((b + r).drop_first() =~= b.drop_first() + r);
        let w = encode_scalar(c as u32).len() as int;
        assert(w >= 1);
        assert(encode_utf8(b).len() == w + encode_utf8(b.drop_first()).len());
        lemma_chars_before(b.drop_first(), r, at + w);
    }
}

proof fn lemma_line_after(s: Seq<char>)
    ensures
        line_after(s) == 1 + s.filter(newline()).len(),
    decreases s.len(),
{
    reveal(Seq::filter);
    if s.len() > 0 {
        lemma_line_after(s.drop_last());
    }
}

proof fn lemma_column_after(head: Seq<char>, tail: Seq<char>)
    requires
        head.len() == 0 || head.last() == '\n',
        forall|i: int| 0 <= i < tail.len() ==> #[trigger] tail[i] != '\n',
    ensures
        column_after(head + tail) == tail.len() + 1,
    decreases tail.len(),
{
    let s = head + tail;
    if tail.len() > 0 {
        assert(s.drop_last() =~= head + tail.drop_last());
        assert(s.last() == tail[tail.len() - 1]);
        assert(forall|i: int|
            0 <= i < tail.drop_last().len() ==> #[trigger] tail.drop_last()[i] == tail[i]);
        lemma_column_after(head, tail.drop_last());
    } else {
        assert(s =~= head);
    }
}

/// A statement that starts behind `head + tail`, where `tail` is the begun line, stands on the line
/// after as many newlines as there are before it, and on the column after as many characters as
/// there are before it on that line; both are counted from one.
pub proof fn a_statement_stands_behind_what_precedes_it(
    head: Seq<char>,
    tail: Seq<char>,
    rest: Seq<char>,
)
    requires
        head.len() == 0 || head.last() == '\n',
        forall|i: int| 0 <= i < tail.len() ==> #[trigger] tail[i] != '\n',
        encode_utf8(head + tail + rest).len() < u32::MAX,
        (head + tail).len() < u32::MAX,
    ensures
        ({
            let start = encode_utf8(head + tail).len() as int;
            let at = location_spec(head + tail + rest, start);
            &&& at.byte == start
            &&& at.line == 1 + head.filter(newline()).len()
            &&& at.column == 1 + tail.len()
        }),
{
    let before = head + tail;
    lemma_chars_before(before, rest, 0);
    assert((before + rest).take(before.len() as int) =~= before);
    lemma_line_after(before);
    lemma_column_after(head, tail);
    lemma_encode_concat(before, rest);
    lemma_filter_free(head, tail);
    head.lemma_filter_len(newline());
}

proof fn lemma_filter_free(head: Seq<char>, tail: Seq<char>)
    requires
        forall|i: int| 0 <= i < tail.len() ==> #[trigger] tail[i] != '\n',
    ensures
        (head + tail).filter(newline()) == head.filter(newline()),
    decreases tail.len(),
{
    reveal(Seq::filter);
    let s = head + tail;
    if tail.len() > 0 {
        assert(s.drop_last() =~= head + tail.drop_last());
        assert(s.last() == tail[tail.len() - 1]);
        assert(forall|i: int|
            0 <= i < tail.drop_last().len() ==> #[trigger] tail.drop_last()[i] == tail[i]);
        lemma_filter_free(head, tail.drop_last());
    } else {
        assert(s =~= head);
    }
}

/// White space: a blank, a tab or a line end is, a visible ASCII character is not.
pub proof fn visible_characters_are_no_white_space(c: char)
    ensures
        c == ' ' || c == '\t' || c == '\n' || c == '\r' ==> is_white_space_spec(c),
        '!' <= c <= '~' ==> !is_white_space_spec(c),
{
}

/// Trimming takes the white space off both ends, and nothing else.
pub proof fn trimming_takes_white_space_off(a: Seq<char>, t: Seq<char>, b: Seq<char>)
    requires
        forall|i: int| 0 <= i < a.len() ==> is_white_space_spec(#[trigger] a[i]),
        forall|i: int| 0 <= i < b.len() ==> is_white_space_spec(#[trigger] b[i]),
        t.len() > 0,
        !is_white_space_spec(t[0]),
        !is_white_space_spec(t.last()),
    ensures
        trim_spec(a + t + b) == t,
        trim_start_spec(a + t + b) == t + b,
{
    lemma_trim_start(a, t + b);
    assert(a + t + b =~= a + (t + b));
    lemma_trim_end(t, b);
}

proof fn lemma_trim_start(a: Seq<char>, t: Seq<char>)
    requires
        forall|i: int| 0 <= i < a.len() ==> is_white_space_spec(#[trigger] a[i]),
        t.len() > 0,
        !is_white_space_spec(t[0]),
    ensures
        trim_start_spec(a + t) == t,
    decreases a.len(),
{
    let s = a + t;
    if a.len() > 0 {
        assert(s.drop_first() =~= a.drop_first() + t);
        assert(s[0] == a[0]);
        assert(forall|i: int|
            0 <= i < a.drop_first().len() ==> #[trigger] a.drop_first()[i] == a[i + 1]);
        lemma_trim_start(a.drop_first(), t);
    } else {
        assert(s =~= t);
    }
}

proof fn lemma_trim_end(t: Seq<char>, b: Seq<char>)
    requires
        forall|i: int| 0 <= i < b.len() ==> is_white_space_spec(#[trigger] b[i]),
        t.len() > 0,
        !is_white_space_spec(t.last()),
    ensures
        trim_end_spec(t + b) == t,
    decreases b.len(),
{
    let s = t + b;
    if b.len() > 0 {
        assert(s.drop_last() =~= t + b.drop_last());
        assert(s.last() == b[b.len() - 1]);
        assert(forall|i: int|
            0 <= i < b.drop_last().len() ==> #[trigger] b.drop_last()[i] == b[i]);
        lemma_trim_end(t, b.drop_last());
    } else {
        assert(s =~= t);
    }
}

proof fn lemma_middle(a: Seq<char>, b: Seq<char>, c: Seq<char>)
    ensures
        slice_bytes(
            a + b + c,
            encode_utf8(a).len() as int,
            encode_utf8(a).len() as int + encode_utf8(b).len(),
        ) == b,
{
    lemma_parts(a, b, c);
    let n = encode_utf8(a).len() as int;
    let m = encode_utf8(b).len() as int;
    assert(encode_utf8(a + b + c).subrange(n, n + m) =~= encode_utf8(b));
    encode_utf8_decode_utf8(b);
}

/// The snippet of a finding is its statement, from the first token to the last, and its range in an
/// editor spans exactly that.
pub proof fn a_finding_shows_its_statement(
    before: Seq<char>,
    stmt: Seq<char>,
    after: Seq<char>,
    g: Geometry,
    id: Seq<char>,
    severity: Severity,
    h: RuleHitView,
    i: int,
)
    requires
        stmt.len() > 0,
        !is_white_space_spec(stmt[0]),
        !is_white_space_spec(stmt.last()),
        g.start == encode_utf8(before).len(),
        g.end == g.start + encode_utf8(stmt).len(),
        g.start <= u32::MAX,
    ensures
        ({
            let sql = before + stmt + after;
            let f = finding_of(id, severity, h, i, sql, g);
            &&& f.snippet == stmt
            &&& f.statement_index == i
            &&& f.rule_id == id
            &&& f.severity == severity
            &&& f.message == h.message
            &&& f.guidance == h.guidance
            &&& f.location.byte == g.start
            &&& finding_range_spec(sql, f) == range_spec(sql, g.start as int, g.end as int)
        }),
{
    lemma_middle(before, stmt, after);
    lemma_parts(before, stmt, after);
    let none = Seq::<char>::empty();
    trimming_takes_white_space_off(none, stmt, none);
    assert(none + stmt + none =~= stmt);
}

proof fn lemma_high_bytes(x: u8)
    ensures
        (0x80u8 | x) != 10,
        (0xC0u8 | x) != 10,
        (0xE0u8 | x) != 10,
        (0xF0u8 | x) != 10,
{
    assert((0x80u8 | x) != 10u8) by (bit_vector);
    assert((0xC0u8 | x) != 10u8) by (bit_vector);
    assert((0xE0u8 | x) != 10u8) by (bit_vector);
    assert((0xF0u8 | x) != 10u8) by (bit_vector);
}

proof fn lemma_newline_bytes(c: char)
    ensures
        c == '\n' ==> encode_scalar(c as u32) == seq![10u8],
        c != '\n' ==> forall|i: int|
            0 <= i < encode_scalar(c as u32).len() ==> (#[trigger] encode_scalar(c as u32)[i])
                != 10,
{
    let s = c as u32;
    if s <= 0x7f {
        assert((s & 0x7F) == s) by (bit_vector)
            requires
                s <= 0x7f,
        ;
        assert(encode_scalar(s) =~= seq![s as u8]);
    } else {
        lemma_high_bytes(((s >> 6) & 0x1F) as u8);
        lemma_high_bytes((s & 0x3F) as u8);
        lemma_high_bytes(((s >> 6) & 0x3F) as u8);
        lemma_high_bytes(((s >> 12) & 0x3F) as u8);
        lemma_high_bytes(((s >> 12) & 0x0F) as u8);
        lemma_high_bytes(((s >> 18) & 0x7) as u8);
    }
}

proof fn lemma_no_newlines(bytes: Seq<u8>, a: int, b: int)
    requires
        0 <= a <= b <= bytes.len(),
        forall|i: int| a <= i < b ==> #[trigger] bytes[i] != 10,
    ensures
        newlines(bytes, b) == newlines(bytes, a),
    decreases b - a,
{
    if a < b {
        lemma_no_newlines(bytes, a, b - 1);
    }
}

proof fn lemma_newlines_of(s: Seq<char>, r: Seq<char>)
    ensures
        newlines(encode_utf8(s + r), encode_utf8(s).len() as int) == s.filter(newline()).len(),
    decreases s.len(),
{
    reveal(Seq::filter);
    let bytes = encode_utf8(s + r);
    if s.len() > 0 {
        let init = s.drop_last();
        let c = s.last();
        let one = seq![c];
        assert(s =~= init + one);
        assert(s + r =~= init + (one + r));
        lemma_newlines_of(init, one + r);
        lemma_encode_concat(init, one);
        lemma_encode_concat(init + one, r);
        assert(one.drop_first() =~= Seq::<char>::empty());
        assert(encode_utf8(one.drop_first()) =~= Seq::<u8>::empty());
        assert(encode_utf8(one) =~= encode_scalar(c as u32));
        lemma_newline_bytes(c);
        let x = encode_utf8(init).len() as int;
        let y = encode_utf8(s).len() as int;
        assert forall|i: int| x <= i < y implies #[trigger] bytes[i] == encode_scalar(
            c as u32,
        )[i - x] by {}
        if c == '\n' {
            assert(y == x + 1);
            assert(bytes[x] == 10);
            assert(newlines(bytes, y) == newlines(bytes, x) + 1);
        } else {
            lemma_no_newlines(bytes, x, y);
        }
    }
}

proof fn lemma_line_start(s: Seq<char>, r: Seq<char>)
    requires
        s.len() == 0 || s.last() == '\n',
    ensures
        ({
            let bytes = encode_utf8(s + r);
            let at = encode_utf8(s).len() as int;
            let line = newlines(bytes, at);
            0 <= line < line_starts_spec(bytes).len() && line_starts_spec(bytes)[line] == at
        }),
{
    let bytes = encode_utf8(s + r);
    let at = encode_utf8(s).len() as int;
    lemma_encode_concat(s, r);
    lemma_line_starts(bytes);
    if s.len() == 0 {
        assert(s =~= Seq::<char>::empty());
        assert(at == 0);
        lemma_newlines_monotone(bytes, 0, bytes.len() as int);
    } else {
        let init = s.drop_last();
        let one = seq!['\n'];
        assert(s =~= init + one);
        lemma_encode_concat(init, one);
        assert(one.drop_first() =~= Seq::<char>::empty());
        assert(encode_utf8(one.drop_first()) =~= Seq::<u8>::empty());
        lemma_newline_bytes('\n');
        assert(encode_utf8(one) =~= seq![10u8]);
        assert(bytes[at - 1] == 10);
        lemma_start_behind_newline(bytes, at);
    }
}

proof fn lemma_start_behind_newline(bytes: Seq<u8>, at: int)
    requires
        0 < at <= bytes.len(),
        bytes[at - 1] == 10,
    ensures
        0 <= newlines(bytes, at) < line_starts_spec(bytes).len(),
        line_starts_spec(bytes)[newlines(bytes, at)] == at,
    decreases bytes.len(),
{
    lemma_line_starts(bytes);
    let init = bytes.drop_last();
    lemma_line_starts(init);
    lemma_newlines_prefix(init, bytes, at);
    lemma_newlines_prefix(init, bytes, init.len() as int);
    if at == bytes.len() {
        let before = line_starts_spec(init);
        assert(before.len() == newlines(init, init.len() as int) + 1);
        assert(newlines(bytes, at) == newlines(bytes, at - 1) + 1);
    } else {
        lemma_start_behind_newline(init, at);
    }
}

proof fn lemma_newlines_prefix(a: Seq<u8>, b: Seq<u8>, k: int)
    requires
        a.len() <= b.len(),
        forall|i: int| 0 <= i < a.len() ==> a[i] == b[i],
    ensures
        k <= a.len() ==> newlines(a, k) == newlines(b, k),
    decreases k,
{
    if 0 < k <= a.len() {
        lemma_newlines_prefix(a, b, k - 1);
        assert(a[k - 1] == b[k - 1]);
    }
}

/// The length of a text in UTF-16 is its number of characters, and one more for each character
/// beyond the first plane.
pub proof fn wide_characters_count_twice(s: Seq<char>)
    ensures
        utf16_len(s) == s.len() + s.filter(wide()).len(),
    decreases s.len(),
{
    reveal(Seq::filter);
    if s.len() > 0 {
        wide_characters_count_twice(s.drop_last());
    }
}

/// The editor's position behind `head + tail`, where `tail` is the begun line, is the number of
/// newlines before it and the number of UTF-16 code units before it on that line, both counted from
/// zero.
pub proof fn a_position_counts_lines_and_code_units(
    head: Seq<char>,
    tail: Seq<char>,
    rest: Seq<char>,
)
    requires
        head.len() == 0 || head.last() == '\n',
        forall|i: int| 0 <= i < tail.len() ==> #[trigger] tail[i] != '\n',
    ensures
        position_spec(head + tail + rest, encode_utf8(head + tail).len() as int) == (Position {
            line: saturated(head.filter(newline()).len() as int),
            character: saturated(tail.len() as int + tail.filter(wide()).len()),
        }),
{
    let before = head + tail;
    let text = before + rest;
    let bytes = encode_utf8(text);
    let at = encode_utf8(before).len() as int;
    lemma_parts(head, tail, rest);
    lemma_middle(head, tail, rest);
    lemma_encode_concat(head, tail);
    let start = encode_utf8(head).len() as int;
    assert(is_byte_range(text, start, at));
    if at == 0 {
        encode_utf8_valid_utf8(text);
        is_char_boundary_start_end_of_seq(bytes);
    }
    assert(floor_boundary(bytes, at) == at);
    lemma_newlines_of(before, rest);
    lemma_filter_free(head, tail);
    assert(text =~= head + (tail + rest));
    lemma_newlines_of(head, tail + rest);
    lemma_line_start(head, tail + rest);
    assert(newlines(bytes, start) == newlines(bytes, at));
    assert(line_starts_spec(bytes)[newlines(bytes, at)] == start);
    wide_characters_count_twice(tail);
}

/// A text sorts before another exactly if it is a proper prefix of it, or has the lower character
/// where they first differ.
pub proof fn texts_sort_by_their_first_difference(a: Seq<char>, b: Seq<char>)
    ensures
        text_lt(a, b) <==> {
            ||| a.len() < b.len() && a == b.take(a.len() as int)
            ||| exists|k: int|
                0 <= k < a.len() && k < b.len() && #[trigger] a[k] < b[k] && a.take(k) == b.take(k)
        },
    decreases a.len(),
{
    if a.len() == 0 {
        assert(a =~= b.take(0));
    } else if b.len() > 0 {
        let x = a.drop_first();
        let y = b.drop_first();
        texts_sort_by_their_first_difference(x, y);
        if a[0] == b[0] {
            if a.len() < b.len() {
                assert(a == b.take(a.len() as int) <==> x == y.take(x.len() as int)) by {
                    if a == b.take(a.len() as int) {
                        assert(x =~= y.take(x.len() as int));
                    }
                    if x == y.take(x.len() as int) {
                        assert(a =~= seq![a[0]] + x);
                        assert(b.take(a.len() as int) =~= seq![b[0]] + y.take(x.len() as int));
                    }
                }
            }
            if exists|k: int|
                0 <= k < x.len() && k < y.len() && #[trigger] x[k] < y[k] && x.take(k) == y.take(
                    k,
                ) {
                let k = choose|k: int|
                    0 <= k < x.len() && k < y.len() && #[trigger] x[k] < y[k] && x.take(k)
                        == y.take(k);
                assert(a.take(k + 1) =~= seq![a[0]] + x.take(k));
                assert(b.take(k + 1) =~= seq![b[0]] + y.take(k));
                assert(a[k + 1] < b[k + 1]);
            }
            if exists|k: int|
                0 <= k < a.len() && k < b.len() && #[trigger] a[k] < b[k] && a.take(k) == b.take(
                    k,
                ) {
                let k = choose|k: int|
                    0 <= k < a.len() && k < b.len() && #[trigger] a[k] < b[k] && a.take(k)
                        == b.take(k);
                assert(k > 0);
                assert(x.take(k - 1) =~= a.take(k).drop_first());
                assert(y.take(k - 1) =~= b.take(k).drop_first());
                assert(x[k - 1] < y[k - 1]);
            }
        } else {
            if a[0] < b[0] {
                assert(a.take(0) =~= b.take(0));
            }
            if a.len() < b.len() && a == b.take(a.len() as int) {
                assert(a[0] == b.take(a.len() as int)[0]);
            }
            if exists|k: int|
                0 <= k < a.len() && k < b.len() && #[trigger] a[k] < b[k] && a.take(k) == b.take(
                    k,
                ) {
                let k = choose|k: int|
                    0 <= k < a.len() && k < b.len() && #[trigger] a[k] < b[k] && a.take(k)
                        == b.take(k);
                if k > 0 {
                    assert(a.take(k)[0] == b.take(k)[0]);
                }
            }
        }
    } else {
        assert(b.len() == 0);
    }
}

/// Folding to lower case moves the ASCII capitals down by thirty-two, and no other character.
pub proof fn folding_lowers_ascii_capitals(c: char)
    ensures
        'A' <= c <= 'Z' ==> lower_char_spec(c) as u32 == c as u32 + 32,
        !('A' <= c <= 'Z') ==> lower_char_spec(c) == c,
{
}

proof fn lemma_continuation(x: u8)
    requires
        x <= 0x3f,
    ensures
        0x80 <= (0x80u8 | x) <= 0xbf,
{
    assert(0x80u8 <= (0x80u8 | x) && (0x80u8 | x) <= 0xbfu8) by (bit_vector)
        requires
            x <= 0x3fu8,
    ;
}

proof fn lemma_later_bytes_continue(c: char, i: int)
    requires
        0 < i < encode_scalar(c as u32).len(),
    ensures
        is_continuation_byte(encode_scalar(c as u32)[i]),
{
    let s = c as u32;
    assert((s & 0x3F) <= 0x3f && ((s >> 6) & 0x3F) <= 0x3f && ((s >> 12) & 0x3F) <= 0x3f)
        by (bit_vector);
    lemma_continuation((s & 0x3F) as u8);
    lemma_continuation(((s >> 6) & 0x3F) as u8);
    lemma_continuation(((s >> 12) & 0x3F) as u8);
}

proof fn lemma_floor_inside(bytes: Seq<u8>, at: int, byte: int)
    requires
        0 <= at <= byte < bytes.len(),
        is_char_boundary(bytes, at),
        forall|k: int| at < k <= byte ==> !#[trigger] is_char_boundary(bytes, k),
    ensures
        floor_boundary(bytes, byte) == at,
    decreases byte - at,
{
    if byte > at {
        assert(!is_char_boundary(bytes, byte));
        lemma_floor_inside(bytes, at, byte - 1);
    }
}

/// An offset inside a character stands for the start of that character.
pub proof fn an_offset_inside_a_character_is_its_start(
    before: Seq<char>,
    c: char,
    after: Seq<char>,
    byte: int,
)
    requires
        encode_utf8(before).len() <= byte < encode_utf8(before).len() + encode_utf8(seq![c]).len(),
    ensures
        position_spec(before + seq![c] + after, byte) == position_spec(
            before + seq![c] + after,
            encode_utf8(before).len() as int,
        ),
{
    let one = seq![c];
    let text = before + one + after;
    let bytes = encode_utf8(text);
    let at = encode_utf8(before).len() as int;
    lemma_parts(before, one, after);
    encode_utf8_valid_utf8(text);
    assert(one.drop_first() =~= Seq::<char>::empty());
    assert(encode_utf8(one.drop_first()) =~= Seq::<u8>::empty());
    assert(encode_utf8(one) =~= encode_scalar(c as u32));
    assert forall|k: int| at < k <= byte implies !#[trigger] is_char_boundary(bytes, k) by {
        lemma_later_bytes_continue(c, k - at);
        assert(bytes[k] == encode_scalar(c as u32)[k - at]);
        is_char_boundary_iff_not_is_continuation_byte(bytes, k);
    }
    lemma_floor_inside(bytes, at, byte);
    lemma_floor_inside(bytes, at, at);
}

} // verus!
