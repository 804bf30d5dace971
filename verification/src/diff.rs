//! Unified diffs of a fixed input.
use vstd::prelude::*;

use crate::collections::texts;
use crate::lines::{split_inclusive, split_lines};
use crate::text::{decimal, decimal_spec, str_eq};

verus! {

/// Unchanged context lines shown around each changed region. Also the basis for
/// hunk coalescing: two changed regions share one hunk when the unchanged gap
/// between them is at most `2 * CONTEXT` lines (their context would otherwise
/// meet or overlap), matching how `diff -u` merges nearby changes.
pub const CONTEXT: usize = 3;

/// One body line of a diff: its prefix and its text.
pub struct DiffLine {
    /// `' '` for context, `'-'` for a removed and `'+'` for an added line.
    pub prefix: char,
    /// The line, with its newline where it has one.
    pub text: String,
}

/// What a list of diff lines holds.
pub open spec fn diff_lines_view(ls: Seq<DiffLine>) -> Seq<(char, Seq<char>)> {
    ls.map_values(|l: DiffLine| (l.prefix, l.text@))
}

/// `lines` behind one and the same prefix.
pub open spec fn prefixed(prefix: char, lines: Seq<Seq<char>>) -> Seq<(char, Seq<char>)> {
    lines.map_values(|l: Seq<char>| (prefix, l))
}

/// A body line as text: prefix and content, and git's marker behind a content that lacks
/// a trailing newline.
pub open spec fn diff_line_text(prefix: char, content: Seq<char>) -> Seq<char> {
    if content.len() > 0 && content.last() == '\n' {
        seq![prefix] + content
    } else {
        (seq![prefix] + content).push('\n') + "\\ No newline at end of file\n"@
    }
}

/// Body lines as text.
pub open spec fn diff_text(ls: Seq<(char, Seq<char>)>) -> Seq<char>
    decreases ls.len(),
{
    if ls.len() == 0 {
        Seq::empty()
    } else {
        diff_text(ls.drop_last()) + diff_line_text(ls.last().0, ls.last().1)
    }
}

/// Number of body lines that stand in the old file: all but the added ones.
pub open spec fn old_lines(ls: Seq<(char, Seq<char>)>) -> nat
    decreases ls.len(),
{
    if ls.len() == 0 {
        0
    } else {
        old_lines(ls.drop_last()) + if ls.last().0 == '+' {
            0nat
        } else {
            1nat
        }
    }
}

/// Number of body lines that stand in the new file: all but the removed ones.
pub open spec fn new_lines(ls: Seq<(char, Seq<char>)>) -> nat
    decreases ls.len(),
{
    if ls.len() == 0 {
        0
    } else {
        new_lines(ls.drop_last()) + if ls.last().0 == '-' {
            0nat
        } else {
            1nat
        }
    }
}

/// The file header of a diff.
pub open spec fn diff_header(name: Seq<char>) -> Seq<char> {
    "--- a/"@ + name + "\n+++ b/"@ + name + "\n"@
}

/// The header of a hunk.
pub open spec fn hunk_header(
    old_start: nat,
    old_count: nat,
    new_start: nat,
    new_count: nat,
) -> Seq<char> {
    "@@ -"@ + decimal_spec(old_start) + ","@ + decimal_spec(old_count) + " +"@ + decimal_spec(
        new_start,
    ) + ","@ + decimal_spec(new_count) + " @@\n"@
}

/// Push one unified-diff body line — `prefix` then `content` — appending git's
/// `\ No newline at end of file` marker when `content` (a file's final line)
/// carries no trailing newline.
pub fn push_diff_line(out: &mut String, prefix: char, content: &str)
    ensures
        final(out)@ == old(out)@ + diff_line_text(prefix, content@),
{
    let ghost before = out@;
    out.push(prefix);
    out.append(content);
    let n: usize = content.unicode_len();
    let ended = n > 0 && content.get_char(n - 1) == '\n';
    if !ended {
        out.push('\n');
        out.append("\\ No newline at end of file\n");
    }
    assert(out@ == before + diff_line_text(prefix, content@));
}

/// Renders the body lines of a hunk.
pub(crate) fn push_diff_lines(out: &mut String, ls: &Vec<DiffLine>)
    ensures
        final(out)@ == old(out)@ + diff_text(diff_lines_view(ls@)),
{
    let ghost before = out@;
    let ghost all = diff_lines_view(ls@);
    let mut i: usize = 0;
    assert(before + diff_text(all.take(0)) == before);
    while i < ls.len()
        invariant
            i <= ls@.len(),
            all == diff_lines_view(ls@),
            out@ == before + diff_text(all.take(i as int)),
        decreases ls@.len() - i,
    {
        proof {
            assert(all.take(i + 1).drop_last() == all.take(i as int));
            assert(all.take(i + 1).last() == all[i as int]);
        }
        push_diff_line(out, ls[i].prefix, ls[i].text.as_str());
        assert(out@ == before + diff_text(all.take(i + 1)));
        i += 1;
    }
    assert(all.take(all.len() as int) == all);
}

/// Counts the body lines that stand in the old and in the new file.
pub(crate) fn count_lines(ls: &Vec<DiffLine>) -> (r: (usize, usize))
    ensures
        r.0 == old_lines(diff_lines_view(ls@)),
        r.1 == new_lines(diff_lines_view(ls@)),
{
    let ghost all = diff_lines_view(ls@);
    let mut removed: usize = 0;
    let mut added: usize = 0;
    let mut i: usize = 0;
    while i < ls.len()
        invariant
            i <= ls@.len(),
            removed <= i,
            added <= i,
            all == diff_lines_view(ls@),
            removed == old_lines(all.take(i as int)),
            added == new_lines(all.take(i as int)),
        decreases ls@.len() - i,
    {
        proof {
            assert(all.take(i + 1).drop_last() == all.take(i as int));
            assert(all.take(i + 1).last() == all[i as int]);
        }
        if ls[i].prefix != '+' {
            removed += 1;
        }
        if ls[i].prefix != '-' {
            added += 1;
        }
        i += 1;
    }
    assert(all.take(all.len() as int) == all);
    (removed, added)
}

/// Renders a hunk header.
pub(crate) fn push_hunk_header(
    out: &mut String,
    old_start: u128,
    old_count: usize,
    new_start: u128,
    new_count: usize,
)
    ensures
        final(out)@ == old(out)@ + hunk_header(
            old_start as nat,
            old_count as nat,
            new_start as nat,
            new_count as nat,
        ),
{
    let ghost before = out@;
    out.append("@@ -");
    out.append(decimal(old_start).as_str());
    out.append(",");
    out.append(decimal(old_count as u128).as_str());
    out.append(" +");
    out.append(decimal(new_start).as_str());
    out.append(",");
    out.append(decimal(new_count as u128).as_str());
    out.append(" @@\n");
    assert(out@ == before + hunk_header(
        old_start as nat,
        old_count as nat,
        new_start as nat,
        new_count as nat,
    ));
}

/// Appends `lines[from..to]` behind `prefix`.
pub(crate) fn push_prefixed(ls: &mut Vec<DiffLine>, prefix: char, lines: &Vec<String>, from: usize, to: usize)
    requires
        from <= to <= lines@.len(),
    ensures
        diff_lines_view(final(ls)@) == diff_lines_view(old(ls)@) + prefixed(
            prefix,
            texts(lines@).subrange(from as int, to as int),
        ),
{
    let ghost before = diff_lines_view(ls@);
    let ghost all = texts(lines@);
    let mut i: usize = from;
    assert(before + prefixed(prefix, all.subrange(from as int, from as int)) == before);
    while i < to
        invariant
            from <= i <= to <= lines@.len(),
            all == texts(lines@),
            diff_lines_view(ls@) == before + prefixed(
                prefix,
                all.subrange(from as int, i as int),
            ),
        decreases to - i,
    {
        let l = DiffLine { prefix, text: lines[i].clone() };
        proof {
            assert(diff_lines_view(ls@.push(l)) == diff_lines_view(ls@).push((prefix, l.text@)));
            assert(all.subrange(from as int, i + 1) == all.subrange(from as int, i as int).push(
                l.text@,
            ));
            assert(prefixed(prefix, all.subrange(from as int, i + 1)) == prefixed(
                prefix,
                all.subrange(from as int, i as int),
            ).push((prefix, l.text@)));
        }
        ls.push(l);
        i += 1;
    }
}

/// Number of equal lines at the start of both lists.
pub open spec fn common_prefix(a: Seq<Seq<char>>, b: Seq<Seq<char>>) -> int
    decreases a.len(),
{
    if a.len() > 0 && b.len() > 0 && a[0] == b[0] {
        1 + common_prefix(a.drop_first(), b.drop_first())
    } else {
        0
    }
}

/// Number of equal lines at the end of both lists.
pub open spec fn common_suffix(a: Seq<Seq<char>>, b: Seq<Seq<char>>) -> int
    decreases a.len(),
{
    if a.len() > 0 && b.len() > 0 && a.last() == b.last() {
        1 + common_suffix(a.drop_last(), b.drop_last())
    } else {
        0
    }
}

/// The smaller of two numbers.
pub open spec fn least(a: int, b: int) -> int {
    if a <= b {
        a
    } else {
        b
    }
}

/// The body of the one hunk between `a` and `b`: up to [`CONTEXT`] lines of the common
/// start, what `a` has in between as removed, what `b` has as added, and up to
/// [`CONTEXT`] lines of the common end.
pub open spec fn whole_hunk(a: Seq<Seq<char>>, b: Seq<Seq<char>>) -> Seq<(char, Seq<char>)> {
    let pre = common_prefix(a, b);
    let suf = common_suffix(a.skip(pre), b.skip(pre));
    prefixed(' ', a.subrange(pre - least(pre, CONTEXT as int), pre)) + prefixed(
        '-',
        a.subrange(pre, a.len() - suf),
    ) + prefixed('+', b.subrange(pre, b.len() - suf)) + prefixed(
        ' ',
        a.subrange(a.len() - suf, a.len() - suf + least(suf, CONTEXT as int)),
    )
}

/// The diff of two whole texts: nothing where they are equal, else one hunk.
pub open spec fn diff_strings_spec(
    name: Seq<char>,
    original: Seq<char>,
    updated: Seq<char>,
) -> Seq<char> {
    if original == updated {
        Seq::empty()
    } else {
        let a = split_lines(original);
        let b = split_lines(updated);
        let pre = common_prefix(a, b);
        let start = (pre - least(pre, CONTEXT as int) + 1) as nat;
        let body = whole_hunk(a, b);
        diff_header(name) + hunk_header(start, old_lines(body), start, new_lines(body)) + diff_text(
            body,
        )
    }
}

pub proof fn lemma_common_prefix(a: Seq<Seq<char>>, b: Seq<Seq<char>>)
    ensures
        0 <= common_prefix(a, b) <= a.len(),
        common_prefix(a, b) <= b.len(),
        forall|i: int| 0 <= i < common_prefix(a, b) ==> #[trigger] a[i] == b[i],
    decreases a.len(),
{
    if a.len() > 0 && b.len() > 0 && a[0] == b[0] {
        lemma_common_prefix(a.drop_first(), b.drop_first());
        assert forall|i: int| 0 <= i < common_prefix(a, b) implies #[trigger] a[i] == b[i] by {
            if i > 0 {
                assert(a[i] == a.drop_first()[i - 1]);
                assert(b[i] == b.drop_first()[i - 1]);
            }
        }
    }
}

pub proof fn lemma_common_suffix(a: Seq<Seq<char>>, b: Seq<Seq<char>>)
    ensures
        0 <= common_suffix(a, b) <= a.len(),
        common_suffix(a, b) <= b.len(),
        forall|i: int|
            0 <= i < common_suffix(a, b) ==> #[trigger] a[a.len() - 1 - i] == b[b.len() - 1 - i],
    decreases a.len(),
{
    if a.len() > 0 && b.len() > 0 && a.last() == b.last() {
        lemma_common_suffix(a.drop_last(), b.drop_last());
        assert forall|i: int| 0 <= i < common_suffix(a, b) implies #[trigger] a[a.len() - 1 - i]
            == b[b.len() - 1 - i] by {
            if i > 0 {
                let j = i - 1;
                assert(a.drop_last()[a.drop_last().len() - 1 - j] == b.drop_last()[b.drop_last().len()
                    - 1 - j]);
            }
        }
    }
}

/// Number of common leading lines, and of common trailing lines behind those.
fn common_ends(a: &Vec<String>, b: &Vec<String>) -> (r: (usize, usize))
    ensures
        r.0 == common_prefix(texts(a@), texts(b@)),
        r.1 == common_suffix(texts(a@).skip(r.0 as int), texts(b@).skip(r.0 as int)),
        r.0 + r.1 <= a@.len(),
        r.0 + r.1 <= b@.len(),
{
    let ghost av = texts(a@);
    let ghost bv = texts(b@);
    let mut pre: usize = 0;
    assert(av.skip(0) == av && bv.skip(0) == bv);
    while pre < a.len() && pre < b.len() && str_eq(a[pre].as_str(), b[pre].as_str())
        invariant
            pre <= a@.len(),
            pre <= b@.len(),
            av == texts(a@),
            bv == texts(b@),
            common_prefix(av, bv) == pre + common_prefix(av.skip(pre as int), bv.skip(pre as int)),
        decreases a@.len() - pre,
    {
        proof {
            let x = av.skip(pre as int);
            let y = bv.skip(pre as int);
            assert(x[0] == a@[pre as int]@ && y[0] == b@[pre as int]@);
            assert(x.drop_first() == av.skip(pre + 1));
            assert(y.drop_first() == bv.skip(pre + 1));
        }
        pre += 1;
    }
    proof {
        let x = av.skip(pre as int);
        let y = bv.skip(pre as int);
        if x.len() > 0 && y.len() > 0 {
            assert(x[0] == a@[pre as int]@ && y[0] == b@[pre as int]@);
        }
    }
    let ghost x = av.skip(pre as int);
    let ghost y = bv.skip(pre as int);
    let mut suf: usize = 0;
    assert(x.take(x.len() as int) == x && y.take(y.len() as int) == y);
    while suf < a.len() - pre && suf < b.len() - pre && str_eq(
        a[a.len() - 1 - suf].as_str(),
        b[b.len() - 1 - suf].as_str(),
    )
        invariant
            pre <= a@.len(),
            pre <= b@.len(),
            suf <= a@.len() - pre,
            suf <= b@.len() - pre,
            av == texts(a@),
            bv == texts(b@),
            x == av.skip(pre as int),
            y == bv.skip(pre as int),
            common_suffix(x, y) == suf + common_suffix(
                x.take(x.len() - suf),
                y.take(y.len() - suf),
            ),
        decreases a@.len() - pre - suf,
    {
        proof {
            let p = x.take(x.len() - suf);
            let q = y.take(y.len() - suf);
            assert(p.last() == a@[a@.len() - 1 - suf]@);
            assert(q.last() == b@[b@.len() - 1 - suf]@);
            assert(p.drop_last() == x.take(x.len() - (suf + 1)));
            assert(q.drop_last() == y.take(y.len() - (suf + 1)));
        }
        suf += 1;
    }
    proof {
        let p = x.take(x.len() - suf);
        let q = y.take(y.len() - suf);
        if p.len() > 0 && q.len() > 0 {
            assert(p.last() == a@[a@.len() - 1 - suf]@);
            assert(q.last() == b@[b@.len() - 1 - suf]@);
        }
    }
    (pre, suf)
}

/// Coarse, dependency-free unified diff of two whole strings, used whenever per-edit
/// offsets against the original are not at hand. Equal strings have nothing to show
/// and give `""`. Trims the common leading/trailing lines and emits ONE hunk covering
/// everything in between, surrounded by up to [`CONTEXT`] context lines. Coarser than
/// [`render_diff`]'s coalesced per-edit hunks but correct and `git apply`-able.
pub fn render_diff_strings(name: &str, original: &str, updated: &str) -> (r: String)
    ensures
        r@ == diff_strings_spec(name@, original@, updated@),
{
    if str_eq(original, updated) {
        return String::new();
    }
    let a = split_inclusive(original);
    let b = split_inclusive(updated);
    let ghost av = texts(a@);
    let ghost bv = texts(b@);
    let (pre, suf): (usize, usize) = common_ends(&a, &b);
    let ctx_before: usize = if pre <= CONTEXT {
        pre
    } else {
        CONTEXT
    };
    let ctx_after: usize = if suf <= CONTEXT {
        suf
    } else {
        CONTEXT
    };
    let a_end: usize = a.len() - suf;
    let b_end: usize = b.len() - suf;
    let mut body: Vec<DiffLine> = Vec::new();
    assert(diff_lines_view(body@) == Seq::<(char, Seq<char>)>::empty());
    push_prefixed(&mut body, ' ', &a, pre - ctx_before, pre);
    push_prefixed(&mut body, '-', &a, pre, a_end);
    push_prefixed(&mut body, '+', &b, pre, b_end);
    push_prefixed(&mut body, ' ', &a, a_end, a_end + ctx_after);
    assert(diff_lines_view(body@) == whole_hunk(av, bv));
    let (old_count, new_count): (usize, usize) = count_lines(&body);
    let start: u128 = (pre - ctx_before) as u128 + 1;
    let mut out = String::new();
    push_diff_header(&mut out, name);
    push_hunk_header(&mut out, start, old_count, start, new_count);
    push_diff_lines(&mut out, &body);
    out
}

/// Renders the file header of a diff.
pub(crate) fn push_diff_header(out: &mut String, name: &str)
    ensures
        final(out)@ == old(out)@ + diff_header(name@),
{
    let ghost before = out@;
    out.append("--- a/");
    out.append(name);
    out.append("\n+++ b/");
    out.append(name);
    out.append("\n");
    assert(out@ == before + diff_header(name@));
}

} // verus!
