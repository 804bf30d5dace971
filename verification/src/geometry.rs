//! Where a statement stands in the source: from its first to its last real token, so that
//! neither a location nor a fix ever falls into a comment or behind the semicolon.
use vstd::prelude::*;
use vstd::utf8::*;

use crate::text::is_byte_range;

verus! {

/// What a token of the scanner is.
#[derive(Debug, Clone, Copy, PartialEq, Eq, Structural)]
pub enum TokenKind {
    /// An identifier.
    Ident,
    /// A comment.
    Comment,
    /// A semicolon.
    Semicolon,
    /// Any other token.
    Other,
}

/// A token of the scanner.
#[derive(Debug, Clone, Copy, PartialEq, Eq)]
pub struct ScanToken {
    pub kind: TokenKind,
    /// Byte offset of its start.
    pub start: i32,
    /// Byte offset one past its end.
    pub end: i32,
}

/// The bytes of a statement: the start of its first token and one past its last.
#[derive(Debug, Clone, Copy, PartialEq, Eq)]
pub struct Geometry {
    pub start: usize,
    pub end: usize,
}

/// Where the bytes of a statement begin and end in a text of `total` bytes, from the location and
/// the length that the parser gives it. A length of 0 means "to the end of the text".
pub fn statement_bounds(location: i32, len: i32, total: usize) -> (r: (usize, usize))
    ensures
        r.0 == (if location > 0 {
            location as int
        } else {
            0
        }),
        r.1 == (if len > 0 && r.0 + len < total {
            r.0 + len
        } else {
            total as int
        }),
{
    let from: usize = if location > 0 {
        location as usize
    } else {
        0
    };
    let to: usize = if len > 0 && from < total && (len as usize) < total - from {
        from + len as usize
    } else {
        total
    };
    (from, to)
}

/// Whether a token is part of the statement that spans the bytes `[from, to)`.
pub open spec fn is_real(t: ScanToken, from: int, to: int) -> bool {
    &&& t.kind != TokenKind::Comment
    &&& t.kind != TokenKind::Semicolon
    &&& from <= t.start
    &&& t.start <= t.end <= to
}

fn token_is_real(t: &ScanToken, from: usize, to: usize) -> (r: bool)
    ensures
        r == is_real(*t, from as int, to as int),
{
    t.kind != TokenKind::Comment && t.kind != TokenKind::Semicolon && t.start >= 0 && t.start
        <= t.end && t.start as usize >= from && t.end as usize <= to
}

/// The first real token of the statement.
pub open spec fn first_real(tokens: Seq<ScanToken>, from: int, to: int) -> Option<ScanToken>
    decreases tokens.len(),
{
    if tokens.len() == 0 {
        None
    } else {
        match first_real(tokens.drop_last(), from, to) {
            Some(t) => Some(t),
            None => if is_real(tokens.last(), from, to) {
                Some(tokens.last())
            } else {
                None
            },
        }
    }
}

/// The last real token of the statement.
pub open spec fn last_real(tokens: Seq<ScanToken>, from: int, to: int) -> Option<ScanToken>
    decreases tokens.len(),
{
    if tokens.len() == 0 {
        None
    } else if is_real(tokens.last(), from, to) {
        Some(tokens.last())
    } else {
        last_real(tokens.drop_last(), from, to)
    }
}

/// Whether a span is that of the statement between the bytes `from` and `to`: from the start of
/// its first real token to the end of its last one, and empty at `from` where no real token stands
/// there.
pub open spec fn is_span(g: Geometry, tokens: Seq<ScanToken>, from: int, to: int) -> bool {
    &&& g.start == (match first_real(tokens, from, to) {
        Some(t) => t.start as int,
        None => from,
    })
    &&& g.end == (match last_real(tokens, from, to) {
        Some(t) => t.end as int,
        None => from,
    })
}

/// The span of a statement between the bytes `from` and `to`; empty at `from` where no real
/// token stands there.
pub fn statement_span(tokens: &[ScanToken], from: usize, to: usize) -> (r: Geometry)
    ensures
        is_span(r, tokens@, from as int, to as int),
{
    let mut start: usize = from;
    let mut end: usize = from;
    let mut found = false;
    let mut i: usize = 0;
    while i < tokens.len()
        invariant
            i <= tokens@.len(),
            found == (first_real(tokens@.take(i as int), from as int, to as int) is Some),
            found == (last_real(tokens@.take(i as int), from as int, to as int) is Some),
            found ==> start == first_real(tokens@.take(i as int), from as int, to as int)->0.start,
            found ==> end == last_real(tokens@.take(i as int), from as int, to as int)->0.end,
            !found ==> start == from && end == from,
        decreases tokens@.len() - i,
    {
        proof {
            assert(tokens@.take(i + 1).drop_last() == tokens@.take(i as int));
            assert(tokens@.take(i + 1).last() == tokens@[i as int]);
        }
        if token_is_real(&tokens[i], from, to) {
            if !found {
                start = tokens[i].start as usize;
                found = true;
            }
            end = tokens[i].end as usize;
        }
        i += 1;
    }
    assert(tokens@.take(tokens@.len() as int) == tokens@);
    Geometry { start, end }
}

/// Whether tokens are byte ranges of a text, one behind the other.
pub open spec fn ascend_in(tokens: Seq<ScanToken>, sql: Seq<char>) -> bool {
    &&& forall|i: int|
        0 <= i < tokens.len() ==> is_byte_range(
            sql,
            (#[trigger] tokens[i]).start as int,
            tokens[i].end as int,
        )
    &&& forall|i: int, j: int|
        0 <= i < j < tokens.len() ==> (#[trigger] tokens[i]).end <= (#[trigger] tokens[j]).start
}

proof fn lemma_real_tokens(tokens: Seq<ScanToken>, from: int, to: int) -> (r: (int, int))
    ensures
        match (first_real(tokens, from, to), last_real(tokens, from, to)) {
            (Some(a), Some(b)) => {
                &&& 0 <= r.0 <= r.1 < tokens.len()
                &&& a == tokens[r.0] && is_real(a, from, to)
                &&& b == tokens[r.1] && is_real(b, from, to)
            },
            (None, None) => true,
            _ => false,
        },
    decreases tokens.len(),
{
    if tokens.len() == 0 {
        (0, 0)
    } else {
        let front = tokens.drop_last();
        let n = tokens.len() as int;
        let (i, j) = lemma_real_tokens(front, from, to);
        if !is_real(tokens.last(), from, to) {
            (i, j)
        } else if first_real(front, from, to) is None {
            (n - 1, n - 1)
        } else {
            (i, n - 1)
        }
    }
}

/// Where the tokens are byte ranges of a text, one behind the other, and a statement begins
/// between characters, the statement's span is a byte range of the text, and lies between the
/// statement's bounds.
pub proof fn spans_are_byte_ranges(
    sql: Seq<char>,
    tokens: Seq<ScanToken>,
    from: int,
    to: int,
    g: Geometry,
)
    requires
        ascend_in(tokens, sql),
        0 <= from <= encode_utf8(sql).len(),
        is_char_boundary(encode_utf8(sql), from),
        is_span(g, tokens, from, to),
    ensures
        is_byte_range(sql, g.start as int, g.end as int),
        from <= g.start,
        from <= to ==> g.end <= to,
{
    let (i, j) = lemma_real_tokens(tokens, from, to);
    if first_real(tokens, from, to) is Some {
        assert(is_byte_range(sql, tokens[i].start as int, tokens[i].end as int));
        assert(is_byte_range(sql, tokens[j].start as int, tokens[j].end as int));
        if i < j {
            assert(tokens[i].end <= tokens[j].start);
        }
    }
}

/// Whether a token belongs to the statement between two bytes: it lies there, and is neither a comment
/// nor a semicolon.
pub open spec fn belongs(t: ScanToken, from: int, to: int) -> bool {
    (t.kind == TokenKind::Ident || t.kind == TokenKind::Other) && from <= t.start && t.start
        <= t.end && t.end <= to
}

/// The span of a statement reaches from the start of its first token to the end of its last: it covers
/// every token that belongs to it, and begins and ends with one.
pub proof fn a_span_covers_its_tokens(
    tokens: Seq<ScanToken>,
    from: int,
    to: int,
    g: Geometry,
    k: int,
)
    requires
        is_span(g, tokens, from, to),
        forall|i: int, j: int|
            0 <= i < j < tokens.len() ==> (#[trigger] tokens[i]).end <= (#[trigger] tokens[j]).start,
        0 <= k < tokens.len(),
        belongs(tokens[k], from, to),
    ensures
        g.start <= tokens[k].start,
        tokens[k].end <= g.end,
        exists|i: int|
            0 <= i < tokens.len() && #[trigger] belongs(tokens[i], from, to) && tokens[i].start
                == g.start,
        exists|i: int|
            0 <= i < tokens.len() && #[trigger] belongs(tokens[i], from, to) && tokens[i].end
                == g.end,
{
    lemma_ends_are_outermost(tokens, from, to, k);
    let (i, j) = lemma_real_tokens(tokens, from, to);
    assert(belongs(tokens[i], from, to));
    assert(belongs(tokens[j], from, to));
}

proof fn lemma_ends_are_outermost(tokens: Seq<ScanToken>, from: int, to: int, k: int)
    requires
        forall|i: int, j: int|
            0 <= i < j < tokens.len() ==> (#[trigger] tokens[i]).end <= (#[trigger] tokens[j]).start,
        0 <= k < tokens.len(),
        is_real(tokens[k], from, to),
    ensures
        first_real(tokens, from, to) matches Some(t) && t.start <= tokens[k].start,
        last_real(tokens, from, to) matches Some(t) && tokens[k].end <= t.end,
    decreases tokens.len(),
{
    let init = tokens.drop_last();
    let n = tokens.len() - 1;
    let last = tokens.last();
    assert(last == tokens[n]);
    assert(forall|i: int| 0 <= i < n ==> #[trigger] init[i] == tokens[i]);
    if k < n {
        assert forall|i: int, j: int| 0 <= i < j < init.len() implies (#[trigger] init[i]).end <= (
        #[trigger] init[j]).start by {
            assert(tokens[i].end <= tokens[j].start);
        }
        lemma_ends_are_outermost(init, from, to, k);
        assert(tokens[k].end <= tokens[n].start);
    } else {
        let (a, b) = lemma_real_tokens(init, from, to);
        if first_real(init, from, to) is Some {
            assert(tokens[a].end <= tokens[n].start);
        }
    }
}

} // verus!
