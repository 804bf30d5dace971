//! Auto-fix construction: a rule emits a [`FixDraft`] that expresses fix intent
//! as one or more anchored edits (absolute offsets, keyword positions, or
//! statement-relative anchors); the engine lowers each anchor to a validated
//! absolute byte [`crate::FixEdit`] using the source text and the statement's byte
//! span. A draft whose intent can't be located in the source resolves to `None`,
//! so an un-locatable fix is simply omitted rather than misapplied.
use vstd::prelude::*;
use vstd::utf8::{
    encode_utf8, encode_utf8_valid_utf8, is_char_boundary, is_char_boundary_start_end_of_seq,
    valid_utf8,
};

use crate::finding::{duplicate_edits, edits_view, Fix, FixEdit, FixEditView, FixView};
use crate::text::{get_bytes, is_byte_range, lemma_slice_encodes, slice_bytes, trim_start, trim_start_spec};

verus! {

/// Where an edit attaches, in terms a rule can express without the source text.
#[derive(Debug, Clone, Copy, PartialEq, Eq)]
pub enum FixAnchor {
    /// Absolute byte span the rule computed itself (e.g. from a node `location`).
    Absolute { start: u32, end: u32 },
    /// Insert at the statement's first-token byte.
    StatementStart,
    /// Insert at the statement body's end: after the last real token, before
    /// any trailing comment or `;`.
    StatementBodyEnd,
    /// Insert immediately after the first whole-word, ASCII-case-insensitive
    /// occurrence of this keyword within the statement span.
    AfterKeyword(&'static str),
    /// Replace the identifier token starting at this absolute byte offset.
    ReplaceTokenAt(u32),
}

/// One anchored edit of a draft.
#[derive(Debug, Clone, PartialEq, Eq)]
pub struct FixDraftEdit {
    /// Where the edit attaches.
    pub anchor: FixAnchor,
    /// Text to put there.
    pub replacement: String,
}

/// A fix before its anchors are located in the source.
#[derive(Debug, Clone, PartialEq, Eq)]
pub struct FixDraft {
    /// Short label for the fix.
    pub title: &'static str,
    /// The anchored edits.
    pub edits: Vec<FixDraftEdit>,
}

/// What a [`FixAnchor`] holds.
pub enum FixAnchorView {
    Absolute { start: int, end: int },
    StatementStart,
    StatementBodyEnd,
    AfterKeyword(Seq<char>),
    ReplaceTokenAt(int),
}

/// What a [`FixDraftEdit`] holds.
pub struct FixDraftEditView {
    pub anchor: FixAnchorView,
    pub replacement: Seq<char>,
}

/// What a [`FixDraft`] holds.
pub struct FixDraftView {
    pub title: Seq<char>,
    pub edits: Seq<FixDraftEditView>,
}

impl View for FixAnchor {
    type V = FixAnchorView;

    open spec fn view(&self) -> FixAnchorView {
        match *self {
            FixAnchor::Absolute { start, end } => FixAnchorView::Absolute {
                start: start as int,
                end: end as int,
            },
            FixAnchor::StatementStart => FixAnchorView::StatementStart,
            FixAnchor::StatementBodyEnd => FixAnchorView::StatementBodyEnd,
            FixAnchor::AfterKeyword(kw) => FixAnchorView::AfterKeyword(kw@),
            FixAnchor::ReplaceTokenAt(at) => FixAnchorView::ReplaceTokenAt(at as int),
        }
    }
}

impl View for FixDraftEdit {
    type V = FixDraftEditView;

    open spec fn view(&self) -> FixDraftEditView {
        FixDraftEditView { anchor: self.anchor@, replacement: self.replacement@ }
    }
}

impl View for FixDraft {
    type V = FixDraftView;

    open spec fn view(&self) -> FixDraftView {
        FixDraftView {
            title: self.title@,
            edits: self.edits@.map_values(|e: FixDraftEdit| e@),
        }
    }
}

/// A draft of one edit.
pub open spec fn single_edit(
    title: Seq<char>,
    anchor: FixAnchorView,
    replacement: Seq<char>,
) -> FixDraftView {
    FixDraftView { title, edits: seq![FixDraftEditView { anchor, replacement }] }
}

impl FixDraft {
    /// A draft of one edit.
    pub fn single(title: &'static str, anchor: FixAnchor, replacement: &str) -> (r: FixDraft)
        ensures
            r@ == single_edit(title@, anchor@, replacement@),
    {
        let mut edits: Vec<FixDraftEdit> = Vec::new();
        edits.push(FixDraftEdit { anchor, replacement: replacement.to_owned() });
        let r = FixDraft { title, edits };
        assert(r@.edits == single_edit(title@, anchor@, replacement@).edits);
        r
    }

    /// A copy of the draft.
    pub fn duplicate(&self) -> (r: FixDraft)
        ensures
            r@ == self@,
    {
        let mut edits: Vec<FixDraftEdit> = Vec::new();
        let mut i: usize = 0;
        while i < self.edits.len()
            invariant
                i <= self.edits@.len(),
                edits@.len() == i,
                forall|j: int| 0 <= j < i ==> (#[trigger] edits@[j])@ == self.edits@[j]@,
            decreases self.edits@.len() - i,
        {
            edits.push(
                FixDraftEdit {
                    anchor: self.edits[i].anchor,
                    replacement: self.edits[i].replacement.clone(),
                },
            );
            i += 1;
        }
        let r = FixDraft { title: self.title, edits };
        assert(r@.edits == self@.edits);
        r
    }

    /// Whether this draft may legitimately resolve to `None` rather than that
    /// indicating a producer bug. `ReplaceTokenAt` can fail for a quoted or
    /// schema-qualified type token; keyword/statement/absolute anchors cannot.
    pub fn may_legitimately_not_resolve(&self) -> (r: bool)
        ensures
            r == exists|i: int|
                0 <= i < self@.edits.len() && (#[trigger] self@.edits[i]).anchor is ReplaceTokenAt,
    {
        let mut i: usize = 0;
        while i < self.edits.len()
            invariant
                i <= self.edits@.len(),
                forall|j: int|
                    0 <= j < i ==> !((#[trigger] self@.edits[j]).anchor is ReplaceTokenAt),
            decreases self.edits@.len() - i,
        {
            if let FixAnchor::ReplaceTokenAt(_) = self.edits[i].anchor {
                assert(self@.edits[i as int].anchor is ReplaceTokenAt);
                return true;
            }
            i += 1;
        }
        false
    }
}

/// An ASCII letter, digit or underscore.
pub open spec fn is_word_byte_spec(b: u8) -> bool {
    ||| 48 <= b <= 57
    ||| 65 <= b <= 90
    ||| 97 <= b <= 122
    ||| b == 95
}

/// An ASCII letter, digit or underscore.
pub fn is_word_byte(b: u8) -> (r: bool)
    ensures
        r == is_word_byte_spec(b),
{
    (48 <= b && b <= 57) || (65 <= b && b <= 90) || (97 <= b && b <= 122) || b == 95
}

/// The lower-case form of an ASCII letter; any other byte unchanged.
pub open spec fn lower_byte_spec(b: u8) -> u8 {
    if 65 <= b <= 90 {
        (b + 32) as u8
    } else {
        b
    }
}

/// The lower-case form of an ASCII letter; any other byte unchanged.
pub fn lower_byte(b: u8) -> (r: u8)
    ensures
        r == lower_byte_spec(b),
{
    if 65 <= b && b <= 90 {
        b + 32
    } else {
        b
    }
}

/// Whether `kw` stands at `i` in `hay` as a whole word, ASCII case aside.
pub open spec fn keyword_at(hay: Seq<u8>, kw: Seq<u8>, i: int) -> bool {
    &&& 0 <= i
    &&& i + kw.len() <= hay.len()
    &&& forall|k: int|
        0 <= k < kw.len() ==> lower_byte_spec(#[trigger] hay[i + k]) == lower_byte_spec(kw[k])
    &&& i == 0 || !is_word_byte_spec(hay[i - 1])
    &&& i + kw.len() == hay.len() || !is_word_byte_spec(hay[i + kw.len()])
}

/// Whether `i` is the first place where `kw` stands in `hay`.
pub open spec fn first_keyword_at(hay: Seq<u8>, kw: Seq<u8>, i: int) -> bool {
    &&& keyword_at(hay, kw, i)
    &&& forall|j: int| 0 <= j < i ==> !#[trigger] keyword_at(hay, kw, j)
}

/// One past the first whole-word match of `kw` in `hay`.
pub open spec fn keyword_end_spec(hay: Seq<u8>, kw: Seq<u8>) -> Option<int> {
    if exists|i: int| first_keyword_at(hay, kw, i) {
        Some((choose|i: int| first_keyword_at(hay, kw, i)) + kw.len())
    } else {
        None
    }
}

/// Byte offset one past the first whole-word, case-insensitive match of `kw` in
/// `hay`. Whole-word = not flanked by ASCII alphanumerics or `_`.
pub fn keyword_end(hay: &str, kw: &str) -> (r: Option<usize>)
    ensures
        match r {
            Some(e) => keyword_end_spec(encode_utf8(hay@), encode_utf8(kw@)) == Some(e as int),
            None => keyword_end_spec(encode_utf8(hay@), encode_utf8(kw@)) is None,
        },
        r is Some ==> r->0 <= encode_utf8(hay@).len(),
{
    let h = hay.as_bytes();
    let k = kw.as_bytes();
    let ghost hs = h@;
    let ghost ks = k@;
    let n: usize = h.len();
    let kl: usize = k.len();
    if n < kl {
        return None;
    }
    let last: usize = n - kl;
    let mut i: usize = 0;
    loop
        invariant
            hs == h@,
            ks == k@,
            hs == encode_utf8(hay@),
            ks == encode_utf8(kw@),
            n == hs.len(),
            kl == ks.len(),
            last + kl == n,
            i <= last,
            forall|j: int| 0 <= j < i ==> !#[trigger] keyword_at(hs, ks, j),
        decreases last - i,
    {
        let mut m: usize = 0;
        while m < kl && lower_byte(h[i + m]) == lower_byte(k[m])
            invariant
                m <= kl,
                i <= last,
                hs == h@,
                ks == k@,
                n == hs.len(),
                kl == ks.len(),
                last + kl == n,
                forall|q: int|
                    0 <= q < m ==> lower_byte_spec(#[trigger] hs[i + q]) == lower_byte_spec(ks[q]),
            decreases kl - m,
        {
            m += 1;
        }
        if m == kl && (i == 0 || !is_word_byte(h[i - 1])) && (i == last || !is_word_byte(h[i + kl])) {
            proof {
                assert(first_keyword_at(hs, ks, i as int));
                let c = choose|c: int| first_keyword_at(hs, ks, c);
                assert(c == i) by {
                    if c < i {
                        assert(!keyword_at(hs, ks, c));
                    } else if i < c {
                        assert(!keyword_at(hs, ks, i as int));
                    }
                }
            }
            return Some(i + kl);
        }
        proof {
            if m < kl {
                assert(lower_byte_spec(hs[i + m]) != lower_byte_spec(ks[m as int]));
            }
            assert(!keyword_at(hs, ks, i as int));
        }
        if i == last {
            return None;
        }
        i += 1;
    }
}

/// Number of leading word bytes.
pub open spec fn word_prefix(bytes: Seq<u8>) -> int
    decreases bytes.len(),
{
    if bytes.len() > 0 && is_word_byte_spec(bytes[0]) {
        1 + word_prefix(bytes.drop_first())
    } else {
        0
    }
}

/// Byte length of the identifier token at the start of `s` (ASCII alphanumerics
/// and `_`). `None` if `s` doesn't start with one.
pub fn token_len(s: &str) -> (r: Option<usize>)
    ensures
        r is Some <==> word_prefix(encode_utf8(s@)) > 0,
        r is Some ==> r->0 == word_prefix(encode_utf8(s@)),
        word_prefix(encode_utf8(s@)) <= encode_utf8(s@).len(),
{
    let b = s.as_bytes();
    let ghost bytes = b@;
    let mut n: usize = 0;
    assert(bytes.subrange(0, bytes.len() as int) == bytes);
    while n < b.len() && is_word_byte(b[n])
        invariant
            n <= b@.len(),
            bytes == b@,
            word_prefix(bytes) == n + word_prefix(bytes.subrange(n as int, bytes.len() as int)),
        decreases b@.len() - n,
    {
        assert(bytes.subrange(n as int, bytes.len() as int).drop_first() == bytes.subrange(
            n + 1,
            bytes.len() as int,
        ));
        n += 1;
    }
    if n > 0 {
        Some(n)
    } else {
        None
    }
}

/// Whether the text from byte `at` on, white space aside, begins with a dot.
pub open spec fn dot_follows(sql: Seq<char>, at: int) -> bool {
    let rest = trim_start_spec(slice_bytes(sql, at, encode_utf8(sql).len() as int));
    &&& is_byte_range(sql, at, encode_utf8(sql).len() as int)
    &&& rest.len() > 0
    &&& rest[0] == '.'
}

/// The byte span an anchor denotes in `sql`, for a statement whose tokens span
/// `[start, body_end)`; `None` where it cannot be located.
#[verifier::opaque]
pub open spec fn anchor_span(
    anchor: FixAnchorView,
    sql: Seq<char>,
    start: int,
    body_end: int,
) -> Option<(int, int)> {
    let bytes = encode_utf8(sql);
    let n = bytes.len() as int;
    match anchor {
        FixAnchorView::Absolute { start: s, end: e } => if is_byte_range(sql, s, e) {
            Some((s, e))
        } else {
            None
        },
        FixAnchorView::StatementStart => Some((start, start)),
        FixAnchorView::StatementBodyEnd => Some((body_end, body_end)),
        FixAnchorView::AfterKeyword(kw) => if is_byte_range(sql, start, body_end) {
            match keyword_end_spec(bytes.subrange(start, body_end), encode_utf8(kw)) {
                Some(e) => Some((start + e, start + e)),
                None => None,
            }
        } else {
            None
        },
        FixAnchorView::ReplaceTokenAt(at) => {
            let len = word_prefix(bytes.subrange(at, n));
            if is_byte_range(sql, at, n) && len > 0 && !dot_follows(sql, at + len) {
                Some((at, at + len))
            } else {
                None
            }
        },
    }
}

/// The edit a draft edit denotes: its anchor's span, where offsets fit in 32 bits.
pub open spec fn resolved_edit(
    e: FixDraftEditView,
    sql: Seq<char>,
    start: int,
    body_end: int,
) -> Option<FixEditView> {
    match anchor_span(e.anchor, sql, start, body_end) {
        Some((s, t)) => if s <= u32::MAX && t <= u32::MAX {
            Some(FixEditView { start: s, end: t, replacement: e.replacement })
        } else {
            None
        },
        None => None,
    }
}

/// Whether `x` belongs behind `y`: it starts later, or starts with it and ends later. An
/// insertion thus belongs before a replacement that starts where it stands.
pub open spec fn belongs_behind(x: FixEditView, y: FixEditView) -> bool {
    x.start > y.start || (x.start == y.start && x.end > y.end)
}

/// `es` (ascending) with `e` put before the edits that belong behind it.
pub open spec fn insert_ascending(es: Seq<FixEditView>, e: FixEditView) -> Seq<FixEditView>
    decreases es.len(),
{
    if es.len() > 0 && belongs_behind(es.last(), e) {
        insert_ascending(es.drop_last(), e).push(es.last())
    } else {
        es.push(e)
    }
}

/// `es` ordered by ascending start, then by ascending end; edits of equal range in their given
/// order.
pub open spec fn sort_ascending(es: Seq<FixEditView>) -> Seq<FixEditView>
    decreases es.len(),
{
    if es.len() == 0 {
        es
    } else {
        insert_ascending(sort_ascending(es.drop_last()), es.last())
    }
}

proof fn lemma_insert_ascending(es: Seq<FixEditView>, e: FixEditView, p: int)
    requires
        0 <= p <= es.len(),
        forall|i: int| p <= i < es.len() ==> belongs_behind(#[trigger] es[i], e),
        p > 0 ==> !belongs_behind(es[p - 1], e),
    ensures
        insert_ascending(es, e) == es.insert(p, e),
    decreases es.len(),
{
    if p < es.len() {
        lemma_insert_ascending(es.drop_last(), e, p);
        assert(es.insert(p, e) == es.drop_last().insert(p, e).push(es.last()));
    } else {
        assert(es.insert(p, e) == es.push(e));
    }
}

/// Orders edits by ascending start, then by ascending end, keeping the order of edits with
/// equal range.
pub fn sort_edits(edits: &[FixEdit]) -> (r: Vec<FixEdit>)
    ensures
        edits_view(r@) == sort_ascending(edits_view(edits@)),
{
    let ghost all = edits_view(edits@);
    let mut out: Vec<FixEdit> = Vec::new();
    let mut i: usize = 0;
    proof {
        assert(edits_view(out@) == all.take(0));
    }
    while i < edits.len()
        invariant
            i <= edits@.len(),
            all == edits_view(edits@),
            edits_view(out@) == sort_ascending(all.take(i as int)),
        decreases edits@.len() - i,
    {
        let e = edits[i].duplicate();
        let mut p: usize = out.len();
        while p > 0 && (out[p - 1].start > e.start || (out[p - 1].start == e.start && out[p
            - 1].end > e.end))
            invariant
                p <= out@.len(),
                forall|k: int| p <= k < out@.len() ==> belongs_behind((#[trigger] out@[k])@, e@),
            decreases p,
        {
            p -= 1;
        }
        proof {
            let sorted = edits_view(out@);
            assert forall|k: int| p <= k < sorted.len() implies belongs_behind(
                #[trigger] sorted[k],
                e@,
            ) by {
                assert(sorted[k] == out@[k]@);
            }
            lemma_insert_ascending(sorted, e@, p as int);
            assert(edits_view(out@.insert(p as int, e)) == sorted.insert(p as int, e@));
            assert(all.take(i + 1).drop_last() == all.take(i as int));
            assert(all.take(i + 1).last() == e@);
        }
        out.insert(p, e);
        i += 1;
    }
    assert(all.take(all.len() as int) == all);
    out
}

/// The fix a draft denotes in `sql`; `None` for a draft without edits and where
/// some edit cannot be located.
pub open spec fn resolve_spec(
    draft: FixDraftView,
    sql: Seq<char>,
    start: int,
    body_end: int,
) -> Option<FixView> {
    if draft.edits.len() > 0 && forall|i: int|
        0 <= i < draft.edits.len() ==> resolved_edit(
            #[trigger] draft.edits[i],
            sql,
            start,
            body_end,
        ) is Some {
        Some(
            FixView {
                title: draft.title,
                edits: sort_ascending(resolved_edits(draft, sql, start, body_end)),
            },
        )
    } else {
        None
    }
}

/// The edits of a draft, each located, in the order of the draft.
pub open spec fn resolved_edits(
    draft: FixDraftView,
    sql: Seq<char>,
    start: int,
    body_end: int,
) -> Seq<FixEditView> {
    draft.edits.map_values(
        |e: FixDraftEditView| resolved_edit(e, sql, start, body_end)->0,
    )
}

/// The byte span an anchor denotes, or `None` where it cannot be located.
fn locate(anchor: &FixAnchor, sql: &str, start: usize, body_end: usize) -> (r: Option<(usize, usize)>)
    ensures
        match r {
            Some(p) => anchor_span(anchor@, sql@, start as int, body_end as int) == Some(
                (p.0 as int, p.1 as int),
            ),
            None => anchor_span(anchor@, sql@, start as int, body_end as int) is None,
        },
{
    reveal(anchor_span);
    let n: usize = sql.as_bytes().len();
    match anchor {
        FixAnchor::Absolute { start: s, end: e } => {
            let a: usize = *s as usize;
            let b: usize = *e as usize;
            match get_bytes(sql, a, b) {
                Some(_) => Some((a, b)),
                None => None,
            }
        },
        FixAnchor::StatementStart => Some((start, start)),
        FixAnchor::StatementBodyEnd => Some((body_end, body_end)),
        FixAnchor::AfterKeyword(kw) => {
            match get_bytes(sql, start, body_end) {
                Some(body) => {
                    proof {
                        lemma_slice_encodes(sql@, start as int, body_end as int);
                    }
                    match keyword_end(body, kw) {
                        Some(e) => Some((start + e, start + e)),
                        None => None,
                    }
                },
                None => None,
            }
        },
        FixAnchor::ReplaceTokenAt(at) => {
            let a: usize = *at as usize;
            match get_bytes(sql, a, n) {
                Some(rest) => {
                    proof {
                        lemma_slice_encodes(sql@, a as int, n as int);
                    }
                    match token_len(rest) {
                        Some(len) => {
                            // A token followed by `.` is a schema qualifier; replacing it would
                            // leave the qualified name behind.
                            let qualified = match get_bytes(sql, a + len, n) {
                                Some(tail) => {
                                    let t = trim_start(tail);
                                    t.unicode_len() > 0 && t.get_char(0) == '.'
                                },
                                None => false,
                            };
                            if qualified {
                                None
                            } else {
                                Some((a, a + len))
                            }
                        },
                        None => None,
                    }
                },
                None => None,
            }
        },
    }
}

/// Resolve a draft against the source. `start` is the statement's first-token offset;
/// `body_end` is one past its last real token, before any trailing comment — the correct
/// right-hand bound for a body-end insertion and for the keyword-search window, so a fix
/// never lands in (or matches a keyword inside) a trailing comment. Returns `None` if any
/// anchor can't be located, or if the draft carries no edits.
pub fn resolve(draft: &FixDraft, sql: &str, start: usize, body_end: usize) -> (r: Option<Fix>)
    ensures
        match r {
            Some(f) => resolve_spec(draft@, sql@, start as int, body_end as int) == Some(f@),
            None => resolve_spec(draft@, sql@, start as int, body_end as int) is None,
        },
{
    if draft.edits.len() == 0 {
        return None;
    }
    let ghost located = resolved_edits(draft@, sql@, start as int, body_end as int);
    let mut edits: Vec<FixEdit> = Vec::new();
    let mut i: usize = 0;
    while i < draft.edits.len()
        invariant
            i <= draft.edits@.len(),
            located == resolved_edits(draft@, sql@, start as int, body_end as int),
            edits@.len() == i,
            forall|j: int|
                0 <= j < i ==> (#[trigger] edits@[j])@ == located[j] && resolved_edit(
                    draft@.edits[j],
                    sql@,
                    start as int,
                    body_end as int,
                ) is Some,
        decreases draft.edits@.len() - i,
    {
        let e = &draft.edits[i];
        assert(draft@.edits[i as int] == e@);
        match locate(&e.anchor, sql, start, body_end) {
            Some((s, t)) => {
                if s > 0xffff_ffff || t > 0xffff_ffff {
                    return None;
                }
                edits.push(
                    FixEdit { start: s as u32, end: t as u32, replacement: e.replacement.clone() },
                );
            },
            None => {
                return None;
            },
        }
        i += 1;
    }
    proof {
        assert(edits_view(edits@) == located);
        assert forall|j: int| 0 <= j < draft@.edits.len() implies resolved_edit(
            #[trigger] draft@.edits[j],
            sql@,
            start as int,
            body_end as int,
        ) is Some by {
            assert(edits@[j]@ == located[j]);
        }
    }
    Some(Fix { title: draft.title.to_owned(), edits: sort_edits(edits.as_slice()) })
}

/// `t` with the bytes `[start, end)` replaced by `replacement`.
pub open spec fn splice_spec(
    t: Seq<char>,
    start: int,
    end: int,
    replacement: Seq<char>,
) -> Seq<char> {
    slice_bytes(t, 0, start) + replacement + slice_bytes(t, end, encode_utf8(t).len() as int)
}

/// The start and the end of a text are character boundaries.
proof fn lemma_ends_are_boundaries(t: Seq<char>)
    ensures
        valid_utf8(encode_utf8(t)),
        is_char_boundary(encode_utf8(t), 0),
        is_char_boundary(encode_utf8(t), encode_utf8(t).len() as int),
{
    encode_utf8_valid_utf8(t);
    is_char_boundary_start_end_of_seq(encode_utf8(t));
}

/// `t` with the bytes `[start, end)` replaced by `replacement`.
pub fn splice(t: &str, start: usize, end: usize, replacement: &str) -> (r: String)
    requires
        is_byte_range(t@, start as int, end as int),
    ensures
        r@ == splice_spec(t@, start as int, end as int, replacement@),
{
    proof {
        lemma_ends_are_boundaries(t@);
    }
    let n: usize = t.as_bytes().len();
    let mut out = match get_bytes(t, 0, start) {
        Some(head) => head.to_owned(),
        None => String::new(),
    };
    out.append(replacement);
    match get_bytes(t, end, n) {
        Some(tail) => out.append(tail),
        None => {},
    }
    out
}

/// `t` after splicing in the edits one after another.
pub open spec fn splice_all(t: Seq<char>, es: Seq<FixEditView>) -> Seq<char>
    decreases es.len(),
{
    if es.len() == 0 {
        t
    } else {
        splice_all(
            splice_spec(t, es[0].start, es[0].end, es[0].replacement),
            es.drop_first(),
        )
    }
}

/// Whether each of the edits, spliced in one after another, is a range of the text
/// as it stands at its turn.
pub open spec fn splices_fit(t: Seq<char>, es: Seq<FixEditView>) -> bool
    decreases es.len(),
{
    es.len() > 0 ==> is_byte_range(t, es[0].start, es[0].end) && splices_fit(
        splice_spec(t, es[0].start, es[0].end, es[0].replacement),
        es.drop_first(),
    )
}

/// `sql` with `edits` spliced in, the last one first.
pub open spec fn apply_spec(sql: Seq<char>, edits: Seq<FixEditView>) -> Seq<char> {
    splice_all(sql, sort_ascending(edits).reverse())
}

/// Whether `edits` can be spliced into `sql`, the last one first.
pub open spec fn applicable(sql: Seq<char>, edits: Seq<FixEditView>) -> bool {
    splices_fit(sql, sort_ascending(edits).reverse())
}

/// Apply `edits` to `sql`, returning the rewritten string. Edits are applied high
/// offset to low so earlier splices don't shift later ones; of two that start together, the
/// one listed first comes first in the result, and an insertion comes before what is replaced.
pub fn apply(sql: &str, edits: &[FixEdit]) -> (r: String)
    requires
        applicable(sql@, edits_view(edits@)),
    ensures
        r@ == apply_spec(sql@, edits_view(edits@)),
{
    let ordered = sort_edits(edits);
    let n: usize = ordered.len();
    let ghost back = edits_view(ordered@).reverse();
    let mut out = sql.to_owned();
    let mut k: usize = n;
    assert(back.skip(0) == back);
    while k > 0
        invariant
            k <= n,
            n == ordered@.len(),
            back == edits_view(ordered@).reverse(),
            splice_all(out@, back.skip(n - k)) == splice_all(sql@, back),
            splices_fit(out@, back.skip(n - k)),
        decreases k,
    {
        proof {
            let rest = back.skip(n - k);
            assert(rest[0] == ordered@[k - 1]@);
            assert(rest.drop_first() == back.skip(n - (k - 1)));
        }
        let e = &ordered[k - 1];
        out = splice(out.as_str(), e.start as usize, e.end as usize, e.replacement.as_str());
        k -= 1;
    }
    assert(back.skip(n as int).len() == 0);
    out
}

/// Whether [`apply`] can splice `edits` into `sql`.
pub fn can_apply(sql: &str, edits: &[FixEdit]) -> (r: bool)
    ensures
        r == applicable(sql@, edits_view(edits@)),
{
    let ordered = sort_edits(edits);
    let n: usize = ordered.len();
    let ghost back = edits_view(ordered@).reverse();
    let mut out = sql.to_owned();
    let mut k: usize = n;
    assert(back.skip(0) == back);
    while k > 0
        invariant
            k <= n,
            n == ordered@.len(),
            back == edits_view(ordered@).reverse(),
            back == sort_ascending(edits_view(edits@)).reverse(),
            splices_fit(out@, back.skip(n - k)) == splices_fit(sql@, back),
        decreases k,
    {
        proof {
            let rest = back.skip(n - k);
            assert(rest[0] == ordered@[k - 1]@);
            assert(rest.drop_first() == back.skip(n - (k - 1)));
        }
        let e = &ordered[k - 1];
        let (a, b): (usize, usize) = (e.start as usize, e.end as usize);
        if get_bytes(out.as_str(), a, b).is_none() {
            return false;
        }
        out = splice(out.as_str(), a, b, e.replacement.as_str());
        k -= 1;
    }
    true
}

/// Outcome of composing a set of fixes onto one input.
pub struct Applied {
    /// The rewritten SQL after all accepted fixes were spliced.
    pub sql: String,
    /// The accepted edits, ascending by `start`; fixes that fit the text leave them
    /// non-overlapping.
    pub edits: Vec<FixEdit>,
    /// Number of fixes whose edits were applied.
    pub applied: usize,
    /// Number of resolvable fixes skipped because an edit overlapped an already-accepted span.
    pub skipped_overlapping: usize,
}

/// Half-open overlap: `[a, b)` and `[c, d)` overlap iff `a < d && c < b`.
pub open spec fn overlap(x: FixEditView, y: FixEditView) -> bool {
    x.start < y.end && y.start < x.end
}

/// Whether some edit of `es` overlaps some edit of `accepted`.
pub open spec fn clashes(accepted: Seq<FixEditView>, es: Seq<FixEditView>) -> bool {
    exists|i: int, j: int|
        0 <= i < es.len() && 0 <= j < accepted.len() && overlap(
            #[trigger] es[i],
            #[trigger] accepted[j],
        )
}

/// What a list of fixes holds.
pub open spec fn fixes_view(fixes: Seq<&Fix>) -> Seq<FixView> {
    fixes.map_values(|f: &Fix| f@)
}

/// The edits of the accepted fixes: a fix joins, with all of its edits, where none of
/// them overlaps an edit of the fixes that joined before it.
pub open spec fn accepted_edits(fixes: Seq<FixView>) -> Seq<FixEditView>
    decreases fixes.len(),
{
    if fixes.len() == 0 {
        Seq::empty()
    } else {
        let before = accepted_edits(fixes.drop_last());
        if clashes(before, fixes.last().edits) {
            before
        } else {
            before + fixes.last().edits
        }
    }
}

/// Number of fixes that join.
pub open spec fn accepted_count(fixes: Seq<FixView>) -> nat
    decreases fixes.len(),
{
    if fixes.len() == 0 {
        0
    } else if clashes(accepted_edits(fixes.drop_last()), fixes.last().edits) {
        accepted_count(fixes.drop_last())
    } else {
        accepted_count(fixes.drop_last()) + 1
    }
}

/// Whether an edit of `es` overlaps an edit of `accepted`.
fn has_clash(accepted: &Vec<FixEdit>, es: &Vec<FixEdit>) -> (r: bool)
    ensures
        r == clashes(edits_view(accepted@), edits_view(es@)),
{
    let ghost av = edits_view(accepted@);
    let ghost ev = edits_view(es@);
    let mut i: usize = 0;
    while i < es.len()
        invariant
            i <= es@.len(),
            av == edits_view(accepted@),
            ev == edits_view(es@),
            forall|p: int, q: int|
                0 <= p < i && 0 <= q < av.len() ==> !overlap(#[trigger] ev[p], #[trigger] av[q]),
        decreases es@.len() - i,
    {
        let mut j: usize = 0;
        while j < accepted.len()
            invariant
                i < es@.len(),
                j <= accepted@.len(),
                av == edits_view(accepted@),
                ev == edits_view(es@),
                forall|q: int| 0 <= q < j ==> !overlap(ev[i as int], #[trigger] av[q]),
            decreases accepted@.len() - j,
        {
            proof {
                assert(ev[i as int] == es@[i as int]@);
                assert(av[j as int] == accepted@[j as int]@);
            }
            if es[i].start < accepted[j].end && accepted[j].start < es[i].end {
                assert(overlap(ev[i as int], av[j as int]));
                return true;
            }
            j += 1;
        }
        i += 1;
    }
    false
}

/// The edits of the fixes that join, in slice order, with how many joined and how many did not.
fn accept(fixes: &[&Fix]) -> (r: (Vec<FixEdit>, usize, usize))
    ensures
        edits_view(r.0@) == accepted_edits(fixes_view(fixes@)),
        r.1 == accepted_count(fixes_view(fixes@)),
        r.1 + r.2 == fixes@.len(),
{
    let ghost all = fixes_view(fixes@);
    let mut accepted: Vec<FixEdit> = Vec::new();
    let mut applied: usize = 0;
    let mut skipped_overlapping: usize = 0;
    let mut i: usize = 0;
    assert(edits_view(accepted@) == Seq::<FixEditView>::empty());
    while i < fixes.len()
        invariant
            i <= fixes@.len(),
            all == fixes_view(fixes@),
            edits_view(accepted@) == accepted_edits(all.take(i as int)),
            applied == accepted_count(all.take(i as int)),
            applied + skipped_overlapping == i,
        decreases fixes@.len() - i,
    {
        let fix = fixes[i];
        proof {
            assert(all.take(i + 1).drop_last() == all.take(i as int));
            assert(all.take(i + 1).last() == fix@);
        }
        if has_clash(&accepted, &fix.edits) {
            skipped_overlapping += 1;
        } else {
            let mut more = duplicate_edits(fix.edits.as_slice());
            proof {
                assert(edits_view(accepted@ + more@) == edits_view(accepted@) + fix@.edits);
            }
            accepted.append(&mut more);
            applied += 1;
        }
        i += 1;
    }
    assert(all.take(all.len() as int) == all);
    (accepted, applied, skipped_overlapping)
}

/// Compose `fixes` (considered in slice order) onto `sql`. A fix is accepted only
/// if none of its edits overlaps a span already claimed by an accepted fix — a fix
/// is atomic (all of its edits apply, or the whole fix is skipped). The accepted
/// edits are spliced by [`apply`] (which orders the splices high-to-low internally);
/// an empty accepted set splices nothing.
pub fn apply_all(sql: &str, fixes: &[&Fix]) -> (r: Applied)
    requires
        applicable(sql@, sort_ascending(accepted_edits(fixes_view(fixes@)))),
    ensures
        edits_view(r.edits@) == sort_ascending(accepted_edits(fixes_view(fixes@))),
        r.sql@ == apply_spec(sql@, edits_view(r.edits@)),
        r.applied == accepted_count(fixes_view(fixes@)),
        r.applied + r.skipped_overlapping == fixes@.len(),
{
    let (accepted, applied, skipped_overlapping): (Vec<FixEdit>, usize, usize) = accept(fixes);
    let edits = sort_edits(accepted.as_slice());
    let text = apply(sql, edits.as_slice());
    Applied { sql: text, edits, applied, skipped_overlapping }
}

/// Whether [`apply_all`] can compose `fixes` onto `sql`.
pub fn can_apply_all(sql: &str, fixes: &[&Fix]) -> (r: bool)
    ensures
        r == applicable(sql@, sort_ascending(accepted_edits(fixes_view(fixes@)))),
{
    let (accepted, applied, skipped): (Vec<FixEdit>, usize, usize) = accept(fixes);
    let edits = sort_edits(accepted.as_slice());
    can_apply(sql, edits.as_slice())
}

} // verus!
