//! Inline suppression: a comment `-- pgsafe:ignore <rule> <reason>` above a statement, inside it,
//! or behind it on its last line marks the findings of that rule on that statement as reviewed.
//! Such a finding is still reported, but never gates. A directive without a reason marks nothing.
use vstd::prelude::*;
use vstd::utf8::encode_utf8;

use crate::finding::{findings_view, Finding, FindingView, Suppression};
use crate::geometry::{Geometry, ScanToken, TokenKind};
use crate::lines::newlines;
use crate::text::{
    chars_of, get_bytes, is_byte_range, is_white_space, is_white_space_spec, slice_bytes, str_eq,
    text_of, trim, trim_spec, trim_start, trim_start_spec,
};

verus! {

/// What a directive starts with.
pub const IGNORE: &'static str = "pgsafe:ignore";

/// An inline directive: the statement it is for, the rule it names, and why.
#[derive(Debug)]
pub struct Directive {
    pub statement_index: usize,
    pub rule_id: String,
    pub reason: String,
}

/// What a directive holds.
pub struct DirectiveView {
    pub statement_index: int,
    pub rule_id: Seq<char>,
    pub reason: Seq<char>,
}

impl View for Directive {
    type V = DirectiveView;

    open spec fn view(&self) -> DirectiveView {
        DirectiveView {
            statement_index: self.statement_index as int,
            rule_id: self.rule_id@,
            reason: self.reason@,
        }
    }
}

/// What a list of directives holds.
pub open spec fn directives_view(ds: Seq<Directive>) -> Seq<DirectiveView> {
    ds.map_values(|d: Directive| d@)
}

/// The number of characters before the first white space.
pub open spec fn word_len(s: Seq<char>) -> int
    decreases s.len(),
{
    if s.len() == 0 || is_white_space_spec(s[0]) {
        0
    } else {
        1 + word_len(s.drop_first())
    }
}

/// What follows `prefix` in `s`, white space aside, where `s` starts with it.
pub open spec fn after_prefix(s: Seq<char>, prefix: Seq<char>) -> Option<Seq<char>> {
    if prefix.is_prefix_of(s) {
        Some(s.skip(prefix.len() as int))
    } else {
        None
    }
}

/// The rule and the reason that a comment gives, where it is a directive. The reason may be empty.
pub open spec fn directive_spec(comment: Seq<char>) -> Option<(Seq<char>, Seq<char>)> {
    match after_prefix(comment, "--"@) {
        Some(body) => match after_prefix(trim_spec(body), IGNORE@) {
            Some(rest) => {
                let words = trim_start_spec(rest);
                let n = word_len(words);
                if words.len() < rest.len() && n > 0 {
                    Some((words.take(n), trim_spec(words.skip(n))))
                } else {
                    None
                }
            },
            None => None,
        },
        None => None,
    }
}

proof fn lemma_word_len(s: Seq<char>)
    ensures
        0 <= word_len(s) <= s.len(),
    decreases s.len(),
{
    if s.len() > 0 {
        lemma_word_len(s.drop_first());
    }
}

fn first_word(s: &str) -> (r: usize)
    ensures
        r == word_len(s@),
        r <= s@.len(),
{
    let cs = chars_of(s);
    let n: usize = cs.len();
    let mut i: usize = 0;
    assert(s@.skip(0) == s@);
    while i < n && !is_white_space(cs[i])
        invariant
            i <= n == cs@.len(),
            cs@ == s@,
            word_len(s@) == i + word_len(s@.skip(i as int)),
        decreases n - i,
    {
        assert(s@.skip(i as int)[0] == cs@[i as int]);
        assert(s@.skip(i as int).drop_first() == s@.skip(i + 1));
        i += 1;
    }
    proof {
        if i < n {
            assert(s@.skip(i as int)[0] == cs@[i as int]);
        }
    }
    i
}

/// What follows `prefix` in `s`, where `s` starts with it.
fn strip<'a>(s: &'a str, prefix: &str) -> (r: Option<&'a str>)
    ensures
        match r {
            Some(t) => after_prefix(s@, prefix@) == Some(t@),
            None => after_prefix(s@, prefix@) is None,
        },
{
    let cs = chars_of(s);
    let ps = chars_of(prefix);
    let n: usize = cs.len();
    let k: usize = ps.len();
    if n < k {
        return None;
    }
    let mut i: usize = 0;
    while i < k
        invariant
            i <= k <= n,
            k == ps@.len(),
            n == cs@.len(),
            cs@ == s@,
            ps@ == prefix@,
            forall|j: int| 0 <= j < i ==> #[trigger] ps@[j] == cs@[j],
        decreases k - i,
    {
        if cs[i] != ps[i] {
            assert(ps@[i as int] != cs@.subrange(0, k as int)[i as int]);
            return None;
        }
        i += 1;
    }
    assert(ps@ == cs@.subrange(0, k as int));
    let t = s.substring_char(k, n);
    assert(t@ == s@.skip(k as int));
    Some(t)
}

/// The rule and the reason that a comment gives, where it is a directive. The reason may be empty.
pub fn directive(comment: &str) -> (r: Option<(String, String)>)
    ensures
        match r {
            Some((rule, reason)) => directive_spec(comment@) == Some((rule@, reason@)),
            None => directive_spec(comment@) is None,
        },
{
    let body = match strip(comment, "--") {
        Some(b) => b,
        None => {
            return None;
        },
    };
    let rest = match strip(trim(body), IGNORE) {
        Some(x) => x,
        None => {
            return None;
        },
    };
    let words = trim_start(rest);
    let total: usize = chars_of(words).len();
    let before: usize = chars_of(rest).len();
    let n: usize = first_word(words);
    let tail = words.substring_char(n, total);
    assert(tail@ == words@.skip(n as int));
    let reason = trim(tail);
    if total < before && n > 0 {
        let rule = words.substring_char(0, n);
        assert(rule@ == words@.take(n as int));
        Some((rule.to_owned(), reason.to_owned()))
    } else {
        None
    }
}

/// The last statement that ends at or before a byte.
pub open spec fn last_ended(geoms: Seq<Geometry>, at: int) -> Option<int>
    decreases geoms.len(),
{
    if geoms.len() == 0 {
        None
    } else if geoms.last().end <= at {
        Some(geoms.len() - 1)
    } else {
        last_ended(geoms.drop_last(), at)
    }
}

/// The first statement, from the `i`-th on, that ends behind a byte.
pub open spec fn first_ending(geoms: Seq<Geometry>, at: int, i: int) -> Option<int>
    decreases geoms.len() - i,
{
    if i < 0 || i >= geoms.len() {
        None
    } else if geoms[i].end > at {
        Some(i)
    } else {
        first_ending(geoms, at, i + 1)
    }
}

/// The statement that a comment at a byte is for: the last one before it where that ends on the
/// same line and no other is under way, else the one that it stands in or above.
pub open spec fn statement_of(bytes: Seq<u8>, geoms: Seq<Geometry>, at: int) -> Option<int> {
    match last_ended(geoms, at) {
        Some(k) => if newlines(bytes, geoms[k].end as int) == newlines(bytes, at) && !(k + 1
            < geoms.len() && geoms[k + 1].start <= at) {
            Some(k)
        } else {
            first_ending(geoms, at, 0)
        },
        None => first_ending(geoms, at, 0),
    }
}

fn find_last_ended(geoms: &[Geometry], at: usize) -> (r: Option<usize>)
    ensures
        match r {
            Some(k) => last_ended(geoms@, at as int) == Some(k as int) && k < geoms@.len()
                && geoms@[k as int].end <= at,
            None => last_ended(geoms@, at as int) is None,
        },
{
    let mut n: usize = geoms.len();
    assert(geoms@.take(n as int) == geoms@);
    while n > 0
        invariant
            n <= geoms@.len(),
            last_ended(geoms@, at as int) == last_ended(geoms@.take(n as int), at as int),
        decreases n,
    {
        assert(geoms@.take(n as int).drop_last() == geoms@.take(n - 1));
        assert(geoms@.take(n as int).last() == geoms@[n - 1]);
        if geoms[n - 1].end <= at {
            return Some(n - 1);
        }
        n = n - 1;
    }
    None
}

fn find_first_ending(geoms: &[Geometry], at: usize) -> (r: Option<usize>)
    ensures
        match r {
            Some(k) => first_ending(geoms@, at as int, 0) == Some(k as int),
            None => first_ending(geoms@, at as int, 0) is None,
        },
{
    let mut i: usize = 0;
    while i < geoms.len()
        invariant
            i <= geoms@.len(),
            first_ending(geoms@, at as int, 0) == first_ending(geoms@, at as int, i as int),
        decreases geoms@.len() - i,
    {
        if geoms[i].end > at {
            return Some(i);
        }
        i += 1;
    }
    None
}

/// Two places are on one line exactly if no newline stands between them.
pub proof fn lemma_same_line(bytes: Seq<u8>, a: int, b: int)
    requires
        0 <= a <= b <= bytes.len(),
    ensures
        newlines(bytes, a) == newlines(bytes, b) <==> forall|i: int|
            a <= i < b ==> #[trigger] bytes[i] != 10,
        newlines(bytes, a) <= newlines(bytes, b),
    decreases b - a,
{
    if a < b {
        lemma_same_line(bytes, a, b - 1);
        if newlines(bytes, a) == newlines(bytes, b) {
            assert(bytes[b - 1] != 10);
        } else if newlines(bytes, a) == newlines(bytes, b - 1) {
            assert(bytes[b - 1] == 10);
        }
    }
}

/// Whether no newline stands between two bytes of a text.
fn same_line(sql: &str, a: usize, b: usize) -> (r: bool)
    requires
        a <= b <= encode_utf8(sql@).len(),
    ensures
        r == (newlines(encode_utf8(sql@), a as int) == newlines(encode_utf8(sql@), b as int)),
{
    let bytes = sql.as_bytes();
    let mut i: usize = a;
    proof {
        lemma_same_line(bytes@, a as int, b as int);
    }
    while i < b
        invariant
            a <= i <= b <= bytes@.len(),
            bytes@ == encode_utf8(sql@),
            forall|j: int| a <= j < i ==> #[trigger] bytes@[j] != 10,
            newlines(bytes@, a as int) == newlines(bytes@, b as int) <==> forall|j: int|
                a <= j < b ==> #[trigger] bytes@[j] != 10,
        decreases b - i,
    {
        if bytes[i] == 10 {
            return false;
        }
        i += 1;
    }
    true
}

/// The statement that a comment at byte `at` is for.
fn find_statement(sql: &str, geoms: &[Geometry], at: usize) -> (r: Option<usize>)
    requires
        at <= encode_utf8(sql@).len(),
    ensures
        match r {
            Some(k) => statement_of(encode_utf8(sql@), geoms@, at as int) == Some(k as int),
            None => statement_of(encode_utf8(sql@), geoms@, at as int) is None,
        },
{
    if let Some(k) = find_last_ended(geoms, at) {
        let under_way = geoms.len() - k > 1 && geoms[k + 1].start <= at;
        if !under_way && same_line(sql, geoms[k].end, at) {
            return Some(k);
        }
    }
    find_first_ending(geoms, at)
}

/// The directive of a token, where it is a comment that is one and stands for a statement.
pub open spec fn token_directive(
    sql: Seq<char>,
    geoms: Seq<Geometry>,
    t: ScanToken,
) -> Option<DirectiveView> {
    if t.kind == TokenKind::Comment && is_byte_range(sql, t.start as int, t.end as int) {
        match directive_spec(slice_bytes(sql, t.start as int, t.end as int)) {
            Some((rule_id, reason)) => match statement_of(
                encode_utf8(sql),
                geoms,
                t.start as int,
            ) {
                Some(k) => Some(DirectiveView { statement_index: k, rule_id, reason }),
                None => None,
            },
            None => None,
        }
    } else {
        None
    }
}

/// The directives among some tokens.
pub open spec fn directives_spec(
    sql: Seq<char>,
    geoms: Seq<Geometry>,
    tokens: Seq<ScanToken>,
) -> Seq<DirectiveView>
    decreases tokens.len(),
{
    if tokens.len() == 0 {
        Seq::empty()
    } else {
        let before = directives_spec(sql, geoms, tokens.drop_last());
        match token_directive(sql, geoms, tokens.last()) {
            Some(d) => before.push(d),
            None => before,
        }
    }
}

fn directive_of(sql: &str, geoms: &[Geometry], t: &ScanToken) -> (r: Option<Directive>)
    ensures
        match r {
            Some(d) => token_directive(sql@, geoms@, *t) == Some(d@),
            None => token_directive(sql@, geoms@, *t) is None,
        },
{
    if t.kind != TokenKind::Comment || t.start < 0 || t.end < 0 {
        return None;
    }
    let text = match get_bytes(sql, t.start as usize, t.end as usize) {
        Some(x) => x,
        None => {
            return None;
        },
    };
    match directive(text) {
        Some((rule_id, reason)) => match find_statement(sql, geoms, t.start as usize) {
            Some(statement_index) => Some(Directive { statement_index, rule_id, reason }),
            None => None,
        },
        None => None,
    }
}

/// The directives in the comments of `sql`.
pub fn directives(sql: &str, geoms: &[Geometry], tokens: &[ScanToken]) -> (r: Vec<Directive>)
    ensures
        directives_view(r@) == directives_spec(sql@, geoms@, tokens@),
{
    let mut out: Vec<Directive> = Vec::new();
    let mut i: usize = 0;
    assert(directives_view(out@) == directives_spec(sql@, geoms@, tokens@.take(0)));
    while i < tokens.len()
        invariant
            i <= tokens@.len(),
            directives_view(out@) == directives_spec(sql@, geoms@, tokens@.take(i as int)),
        decreases tokens@.len() - i,
    {
        proof {
            assert(tokens@.take(i + 1).drop_last() == tokens@.take(i as int));
            assert(tokens@.take(i + 1).last() == tokens@[i as int]);
        }
        if let Some(d) = directive_of(sql, geoms, &tokens[i]) {
            assert(directives_view(out@.push(d)) == directives_view(out@).push(d@));
            out.push(d);
        }
        i += 1;
    }
    assert(tokens@.take(tokens@.len() as int) == tokens@);
    out
}

/// The reason of the first of some directives with a reason that is for the rule and the statement
/// of a finding.
pub open spec fn reason_for(ds: Seq<DirectiveView>, f: FindingView) -> Option<Seq<char>>
    decreases ds.len(),
{
    if ds.len() == 0 {
        None
    } else {
        match reason_for(ds.drop_last(), f) {
            Some(reason) => Some(reason),
            None => if ds.last().statement_index == f.statement_index && ds.last().rule_id
                == f.rule_id && ds.last().reason.len() > 0 {
                Some(ds.last().reason)
            } else {
                None
            },
        }
    }
}

/// A finding marked with the reason of the directive that is for it, if there is one.
pub open spec fn suppressed(ds: Seq<DirectiveView>, f: FindingView) -> FindingView {
    match reason_for(ds, f) {
        Some(reason) => FindingView { suppression: Some(reason), ..f },
        None => f,
    }
}

fn find_reason(ds: &Vec<Directive>, f: &Finding) -> (r: Option<String>)
    ensures
        text_of(r) == reason_for(directives_view(ds@), f@),
{
    let ghost all = directives_view(ds@);
    let mut found: Option<String> = None;
    let mut i: usize = 0;
    while i < ds.len()
        invariant
            i <= ds@.len(),
            all == directives_view(ds@),
            text_of(found) == reason_for(all.take(i as int), f@),
        decreases ds@.len() - i,
    {
        proof {
            assert(all.take(i + 1).drop_last() == all.take(i as int));
            assert(all.take(i + 1).last() == ds@[i as int]@);
        }
        if found.is_none() && ds[i].statement_index == f.statement_index && str_eq(
            ds[i].rule_id.as_str(),
            f.rule_id.as_str(),
        ) && !ds[i].reason.as_str().is_empty() {
            found = Some(ds[i].reason.clone());
        }
        i += 1;
    }
    assert(all.take(all.len() as int) == all);
    found
}

/// Marks every finding that a directive is for. None is added or taken away.
pub fn suppress(findings: &mut Vec<Finding>, ds: &Vec<Directive>)
    ensures
        findings_view(final(findings)@) == findings_view(old(findings)@).map_values(
            |f: FindingView| suppressed(directives_view(ds@), f),
        ),
{
    let ghost before = findings@;
    let ghost all = directives_view(ds@);
    let mut i: usize = 0;
    while i < findings.len()
        invariant
            i <= findings@.len(),
            all == directives_view(ds@),
            findings@.len() == before.len(),
            forall|j: int| i <= j < before.len() ==> findings@[j] == before[j],
            forall|j: int|
                0 <= j < i ==> (#[trigger] findings@[j])@ == suppressed(all, before[j]@),
        decreases findings@.len() - i,
    {
        if let Some(reason) = find_reason(ds, &findings[i]) {
            let mut f = findings[i].duplicate();
            f.suppression = Some(Suppression { reason });
            assert(f@ == suppressed(all, before[i as int]@));
            findings.set(i, f);
        }
        i += 1;
    }
    assert(findings_view(findings@) == findings_view(before).map_values(
        |f: FindingView| suppressed(all, f),
    ));
}

/// A directive with a reason marks findings of the rule it names on its own statement alone, and
/// changes nothing else about them.
pub proof fn a_directive_marks_its_rule_on_its_statement(ds: Seq<DirectiveView>, f: FindingView)
    ensures
        suppressed(ds, f) == (FindingView { suppression: suppressed(ds, f).suppression, ..f }),
        suppressed(ds, f).suppression != f.suppression ==> exists|i: int|
            0 <= i < ds.len() && (#[trigger] ds[i]).rule_id == f.rule_id && ds[i].statement_index
                == f.statement_index && ds[i].reason.len() > 0,
    decreases ds.len(),
{
    if ds.len() > 0 {
        let init = ds.drop_last();
        a_directive_marks_its_rule_on_its_statement(init, f);
        if suppressed(ds, f).suppression != f.suppression {
            if reason_for(init, f) is Some {
                assert(suppressed(init, f).suppression == suppressed(ds, f).suppression);
                let i = choose|i: int|
                    0 <= i < init.len() && (#[trigger] init[i]).rule_id == f.rule_id
                        && init[i].statement_index == f.statement_index && init[i].reason.len()
                        > 0;
                assert(ds[i].rule_id == f.rule_id);
            } else {
                assert(ds[ds.len() - 1].rule_id == f.rule_id);
            }
        }
    }
}

} // verus!
