//! Identifier-length check: flag any identifier written longer than PostgreSQL's
//! 63-byte limit (`NAMEDATALEN - 1`). PostgreSQL silently truncates over-long
//! identifiers, so two names sharing a 63-byte prefix collide. It reads the scanner's
//! tokens rather than the parse tree: the parser truncates identifiers to 63 bytes, so an
//! over-long name is already shortened there, while the scanner's token spans point into the
//! raw source and preserve the true length.
use vstd::prelude::*;
use vstd::utf8::encode_utf8;

use crate::geometry::{ScanToken, TokenKind};
use crate::text::{get_bytes, is_byte_range, slice_bytes};

verus! {

/// Id of this lint.
pub const ID: &'static str = "identifier-too-long";

/// `NAMEDATALEN - 1`: PostgreSQL stores identifiers in a fixed 64-byte field and
/// silently truncates anything longer to 63 bytes.
pub const MAX_IDENTIFIER_BYTES: usize = 63;

/// Number of doubled quotes, counted from the left without overlap.
pub open spec fn doubled_quotes(bytes: Seq<u8>) -> nat
    decreases bytes.len(),
{
    if bytes.len() < 2 {
        0
    } else if bytes[0] == 34 && bytes[1] == 34 {
        1 + doubled_quotes(bytes.skip(2))
    } else {
        doubled_quotes(bytes.skip(1))
    }
}

/// Whether an identifier is written in quotes.
pub open spec fn is_quoted(bytes: Seq<u8>) -> bool {
    bytes.len() >= 2 && bytes[0] == 34 && bytes.last() == 34
}

/// The true byte length an identifier represents: within quotes a doubled quote stands for one.
pub open spec fn identifier_len_spec(bytes: Seq<u8>) -> int {
    if is_quoted(bytes) {
        let inner = bytes.subrange(1, bytes.len() - 1);
        inner.len() - doubled_quotes(inner)
    } else {
        bytes.len() as int
    }
}

/// The true byte length an identifier token represents. For a quoted identifier
/// (`"..."`) the surrounding quotes are removed and each doubled `""` (an escaped
/// quote) counts as a single byte; otherwise it is the slice's byte length.
pub fn identifier_byte_len(slice: &str) -> (r: usize)
    ensures
        r == identifier_len_spec(encode_utf8(slice@)),
{
    let b = slice.as_bytes();
    let ghost bytes = b@;
    let n: usize = b.len();
    if n >= 2 && b[0] == 34 && b[n - 1] == 34 {
        let ghost inner = bytes.subrange(1, n - 1);
        let end: usize = n - 1;
        let mut doubled: usize = 0;
        let mut i: usize = 1;
        assert(inner.skip(0) == inner);
        while i + 1 < end
            invariant
                1 <= i <= end,
                end == n - 1,
                n == b@.len(),
                bytes == b@,
                inner == bytes.subrange(1, n - 1),
                doubled <= i - 1,
                doubled_quotes(inner) == doubled + doubled_quotes(inner.skip(i - 1)),
            decreases end - i,
        {
            let ghost rest = inner.skip(i - 1);
            proof {
                assert(rest[0] == bytes[i as int] && rest[1] == bytes[i + 1]);
                assert(rest.skip(1) == inner.skip(i as int));
                assert(rest.skip(2) == inner.skip(i + 1));
            }
            if b[i] == 34 && b[i + 1] == 34 {
                doubled += 1;
                i += 2;
            } else {
                i += 1;
            }
        }
        end - 1 - doubled
    } else {
        n
    }
}

/// A non-negative offset as it is, a negative one as zero.
pub open spec fn offset_or_zero(x: i32) -> int {
    if x >= 0 {
        x as int
    } else {
        0
    }
}

/// An over-long identifier: where it starts, how it is written, and its true byte length.
pub open spec fn long_identifier(sql: Seq<char>, t: ScanToken) -> Option<(int, Seq<char>, int)> {
    let s = offset_or_zero(t.start);
    let e = offset_or_zero(t.end);
    let text = slice_bytes(sql, s, e);
    let len = identifier_len_spec(encode_utf8(text));
    if t.kind == TokenKind::Ident && is_byte_range(sql, s, e) && len > MAX_IDENTIFIER_BYTES {
        Some((s, text, len))
    } else {
        None
    }
}

/// The over-long identifiers among some tokens.
pub open spec fn long_identifiers_spec(
    sql: Seq<char>,
    tokens: Seq<ScanToken>,
) -> Seq<(int, Seq<char>, int)>
    decreases tokens.len(),
{
    if tokens.len() == 0 {
        Seq::empty()
    } else {
        let before = long_identifiers_spec(sql, tokens.drop_last());
        match long_identifier(sql, tokens.last()) {
            Some(x) => before.push(x),
            None => before,
        }
    }
}

/// What a list of over-long identifiers holds.
pub open spec fn long_view(v: Seq<(usize, String, usize)>) -> Seq<(int, Seq<char>, int)> {
    v.map_values(|x: (usize, String, usize)| (x.0 as int, x.1@, x.2 as int))
}

/// Every identifier token in `sql` whose true byte length exceeds 63, as
/// `(byte_offset, written_form, byte_len)`. Measured from the raw source through the
/// scanner's tokens, so the length is the pre-truncation one.
pub fn long_identifiers(sql: &str, tokens: &[ScanToken]) -> (r: Vec<(usize, String, usize)>)
    ensures
        long_view(r@) == long_identifiers_spec(sql@, tokens@),
{
    let mut out: Vec<(usize, String, usize)> = Vec::new();
    let mut i: usize = 0;
    assert(long_view(out@) == Seq::<(int, Seq<char>, int)>::empty());
    while i < tokens.len()
        invariant
            i <= tokens@.len(),
            long_view(out@) == long_identifiers_spec(sql@, tokens@.take(i as int)),
        decreases tokens@.len() - i,
    {
        proof {
            assert(tokens@.take(i + 1).drop_last() == tokens@.take(i as int));
            assert(tokens@.take(i + 1).last() == tokens@[i as int]);
        }
        let t = &tokens[i];
        if t.kind == TokenKind::Ident {
            let start: usize = if t.start >= 0 {
                t.start as usize
            } else {
                0
            };
            let end: usize = if t.end >= 0 {
                t.end as usize
            } else {
                0
            };
            if let Some(slice) = get_bytes(sql, start, end) {
                let len: usize = identifier_byte_len(slice);
                if len > MAX_IDENTIFIER_BYTES {
                    let text = slice.to_owned();
                    assert(long_view(out@.push((start, text, len))) == long_view(out@).push(
                        (start as int, text@, len as int),
                    ));
                    out.push((start, text, len));
                }
            }
        }
        i += 1;
    }
    assert(tokens@.take(tokens@.len() as int) == tokens@);
    out
}

} // verus!
