//! The lint engine: every rule on every statement, each hit placed in the source and its fix
//! resolved.
use vstd::prelude::*;
use vstd::utf8::{encode_scalar, encode_utf8};

use crate::ast::{Node, RawStmt};
use crate::collections::TextSet;
use crate::finding::{
    findings_view, Finding, FindingView, Fix, FixView, Location, RuleHit, RuleHitView, Severity,
};
use crate::fix::{resolve, resolve_spec, FixDraft, FixDraftView};
use crate::geometry::Geometry;
use crate::rules::{all_rules, hits_view, registry, RegisteredRule, Rule};
use crate::text::{
    chars_of, get_bytes, is_byte_range, lemma_encode_concat, slice_bytes, trim, trim_spec,
};

verus! {

/// Number of bytes a character takes.
pub open spec fn char_len_spec(c: char) -> int {
    encode_scalar(c as u32).len() as int
}

/// Number of bytes a character takes.
pub fn char_len(c: char) -> (r: usize)
    ensures
        r == char_len_spec(c),
        1 <= r <= 4,
{
    let u: u32 = c as u32;
    if u < 0x80 {
        1
    } else if u < 0x800 {
        2
    } else if u < 0x1_0000 {
        3
    } else {
        4
    }
}

/// Number of leading characters of `s` that begin before byte `byte`, the first of them at
/// byte `at`.
pub open spec fn chars_before(s: Seq<char>, at: int, byte: int) -> int
    decreases s.len(),
{
    if s.len() == 0 || at >= byte {
        0
    } else {
        1 + chars_before(s.drop_first(), at + char_len_spec(s[0]), byte)
    }
}

/// The line, counted from 1, that the text behind `before` stands on.
pub open spec fn line_after(before: Seq<char>) -> nat
    decreases before.len(),
{
    if before.len() == 0 {
        1
    } else {
        line_after(before.drop_last()) + if before.last() == '\n' {
            1nat
        } else {
            0nat
        }
    }
}

/// The column, counted from 1 in characters, that the text behind `before` stands on.
pub open spec fn column_after(before: Seq<char>) -> nat
    decreases before.len(),
{
    if before.len() == 0 || before.last() == '\n' {
        1
    } else {
        column_after(before.drop_last()) + 1
    }
}

/// What stands before a byte offset.
pub open spec fn text_before(sql: Seq<char>, byte: int) -> Seq<char> {
    sql.take(chars_before(sql, 0, byte))
}

/// The next character of a text takes up bytes of its encoding.
proof fn lemma_next_char_fits(s: Seq<char>, i: int)
    requires
        0 <= i < s.len(),
    ensures
        encode_utf8(s.take(i + 1)).len() == encode_utf8(s.take(i)).len() + char_len_spec(s[i]),
        encode_utf8(s.take(i + 1)).len() <= encode_utf8(s).len(),
{
    let one = seq![s[i]];
    assert(s.take(i + 1) == s.take(i) + one);
    lemma_encode_concat(s.take(i), one);
    assert(one.drop_first() == Seq::<char>::empty());
    assert(encode_utf8(one) == encode_scalar(s[i] as u32) + encode_utf8(one.drop_first()));
    assert(s == s.take(i + 1) + s.skip(i + 1));
    lemma_encode_concat(s.take(i + 1), s.skip(i + 1));
}

/// 1-based line and character-column of a byte offset within `sql`.
pub fn line_col(sql: &str, byte: usize) -> (r: (u32, u32))
    requires
        sql@.len() < u32::MAX,
    ensures
        r.0 == line_after(text_before(sql@, byte as int)),
        r.1 == column_after(text_before(sql@, byte as int)),
{
    let cs = chars_of(sql);
    let ghost all = sql@;
    let n: usize = sql.as_bytes().len();
    let mut line: u32 = 1;
    let mut column: u32 = 1;
    let mut i: usize = 0;
    let mut at: usize = 0;
    assert(all.skip(0) == all);
    assert(all.take(0) == Seq::<char>::empty());
    while i < cs.len() && at < byte
        invariant
            i <= cs@.len(),
            cs@ == all,
            all == sql@,
            all.len() < u32::MAX,
            n == encode_utf8(all).len(),
            at == encode_utf8(all.take(i as int)).len(),
            chars_before(all, 0, byte as int) == i + chars_before(
                all.skip(i as int),
                at as int,
                byte as int,
            ),
            line == line_after(all.take(i as int)),
            column == column_after(all.take(i as int)),
            line <= i + 1,
            column <= i + 1,
        decreases cs@.len() - i,
    {
        let c = cs[i];
        proof {
            assert(all.skip(i as int)[0] == c);
            assert(all.skip(i as int).drop_first() == all.skip(i + 1));
            assert(all.take(i + 1).drop_last() == all.take(i as int));
            assert(all.take(i + 1).last() == c);
        }
        proof {
            lemma_next_char_fits(all, i as int);
        }
        at = at + char_len(c);
        if c == '\n' {
            line += 1;
            column = 1;
        } else {
            column += 1;
        }
        i += 1;
    }
    (line, column)
}

/// Where a statement that starts at byte `start` stands.
pub open spec fn location_spec(sql: Seq<char>, start: int) -> Location {
    Location {
        byte: if start <= u32::MAX {
            start as u32
        } else {
            u32::MAX
        },
        line: line_after(text_before(sql, start)) as u32,
        column: column_after(text_before(sql, start)) as u32,
    }
}

/// The trimmed text of a statement; empty where its span is none of the text's.
pub open spec fn snippet_spec(sql: Seq<char>, g: Geometry) -> Seq<char> {
    if is_byte_range(sql, g.start as int, g.end as int) {
        trim_spec(slice_bytes(sql, g.start as int, g.end as int))
    } else {
        Seq::empty()
    }
}

/// The fix a draft comes to in a statement.
pub open spec fn fix_spec(draft: Option<FixDraftView>, sql: Seq<char>, g: Geometry) -> Option<
    FixView,
> {
    match draft {
        Some(d) => resolve_spec(d, sql, g.start as int, g.end as int),
        None => None,
    }
}

/// A hit as a finding on statement `i`.
pub open spec fn finding_of(
    id: Seq<char>,
    severity: Severity,
    h: RuleHitView,
    i: int,
    sql: Seq<char>,
    g: Geometry,
) -> FindingView {
    FindingView {
        rule_id: id,
        severity,
        message: h.message,
        guidance: h.guidance,
        statement_index: i,
        location: location_spec(sql, g.start as int),
        snippet: snippet_spec(sql, g),
        suppression: None,
        fix: fix_spec(h.fix, sql, g),
    }
}

/// Hits of one rule as findings on statement `i`.
pub open spec fn findings_of(
    id: Seq<char>,
    severity: Severity,
    hits: Seq<RuleHitView>,
    i: int,
    sql: Seq<char>,
    g: Geometry,
) -> Seq<FindingView> {
    hits.map_values(|h: RuleHitView| finding_of(id, severity, h, i, sql, g))
}

/// What some rules find in statement `i`, rule by rule; a disabled rule finds nothing.
pub open spec fn statement_findings(
    rules: Seq<RegisteredRule>,
    disabled: Seq<Seq<char>>,
    node: Node,
    i: int,
    sql: Seq<char>,
    g: Geometry,
) -> Seq<FindingView>
    decreases rules.len(),
{
    if rules.len() == 0 {
        Seq::empty()
    } else {
        let before = statement_findings(rules.drop_last(), disabled, node, i, sql, g);
        let r = rules.last();
        if disabled.contains(r.id_spec()) {
            before
        } else {
            before + findings_of(r.id_spec(), r.severity_spec(), r.hits(node), i, sql, g)
        }
    }
}

/// What the registered rules find in the first `n` statements.
pub open spec fn rule_findings(
    disabled: Seq<Seq<char>>,
    sql: Seq<char>,
    stmts: Seq<RawStmt>,
    geoms: Seq<Geometry>,
    n: int,
) -> Seq<FindingView>
    decreases n,
{
    if n <= 0 {
        Seq::empty()
    } else {
        rule_findings(disabled, sql, stmts, geoms, n - 1) + match stmts[n - 1].stmt {
            Some(node) => statement_findings(
                registry(),
                disabled,
                node,
                n - 1,
                sql,
                geoms[n - 1],
            ),
            None => Seq::empty(),
        }
    }
}

/// Where a statement stands.
pub fn locate(sql: &str, g: Geometry) -> (r: Location)
    requires
        sql@.len() < u32::MAX,
    ensures
        r == location_spec(sql@, g.start as int),
{
    let (line, column): (u32, u32) = line_col(sql, g.start);
    let byte: u32 = if g.start <= 0xffff_ffff {
        g.start as u32
    } else {
        0xffff_ffff
    };
    Location { byte, line, column }
}

/// The trimmed text of a statement.
pub fn snippet(sql: &str, g: Geometry) -> (r: String)
    ensures
        r@ == snippet_spec(sql@, g),
{
    match get_bytes(sql, g.start, g.end) {
        Some(t) => trim(t).to_owned(),
        None => String::new(),
    }
}

/// The fix a draft comes to in a statement.
pub fn resolve_fix(draft: &Option<FixDraft>, sql: &str, g: Geometry) -> (r: Option<Fix>)
    ensures
        match r {
            Some(f) => fix_spec(
                match *draft {
                    Some(d) => Some(d@),
                    None => None,
                },
                sql@,
                g,
            ) == Some(f@),
            None => fix_spec(
                match *draft {
                    Some(d) => Some(d@),
                    None => None,
                },
                sql@,
                g,
            ) is None,
        },
{
    match draft {
        Some(d) => resolve(d, sql, g.start, g.end),
        None => None,
    }
}

/// Appends hits of one rule as findings on statement `i`.
pub fn push_findings(
    findings: &mut Vec<Finding>,
    id: &str,
    severity: Severity,
    hits: &Vec<RuleHit>,
    i: usize,
    sql: &str,
    g: Geometry,
)
    requires
        sql@.len() < u32::MAX,
    ensures
        findings_view(final(findings)@) == findings_view(old(findings)@) + findings_of(
            id@,
            severity,
            hits_view(hits@),
            i as int,
            sql@,
            g,
        ),
{
    let ghost before = findings_view(findings@);
    let ghost hv = hits_view(hits@);
    let ghost all = findings_of(id@, severity, hv, i as int, sql@, g);
    let mut k: usize = 0;
    assert(before + all.take(0) == before);
    while k < hits.len()
        invariant
            k <= hits@.len(),
            sql@.len() < u32::MAX,
            hv == hits_view(hits@),
            all == findings_of(id@, severity, hv, i as int, sql@, g),
            findings_view(findings@) == before + all.take(k as int),
        decreases hits@.len() - k,
    {
        let h = &hits[k];
        let f = Finding {
            rule_id: id.to_owned(),
            severity,
            message: h.message.clone(),
            guidance: h.guidance.clone(),
            statement_index: i,
            location: locate(sql, g),
            snippet: snippet(sql, g),
            suppression: None,
            fix: resolve_fix(&h.fix, sql, g),
        };
        proof {
            assert(hv[k as int] == h@);
            assert(f@ == finding_of(id@, severity, hv[k as int], i as int, sql@, g));
            assert(findings_view(findings@.push(f)) == findings_view(findings@).push(f@));
            assert(all.take(k + 1) == all.take(k as int).push(f@));
            assert((before + all.take(k as int)).push(f@) == before + all.take(k + 1));
        }
        findings.push(f);
        k += 1;
    }
    assert(all.take(all.len() as int) == all);
}

/// Appends what the registered rules find in one statement.
pub fn check_statement(
    findings: &mut Vec<Finding>,
    rules: &Vec<RegisteredRule>,
    disabled: &TextSet,
    node: &Node,
    i: usize,
    sql: &str,
    g: Geometry,
)
    requires
        sql@.len() < u32::MAX,
    ensures
        findings_view(final(findings)@) == findings_view(old(findings)@) + statement_findings(
            rules@,
            disabled@,
            *node,
            i as int,
            sql@,
            g,
        ),
{
    let ghost before = findings_view(findings@);
    let ghost all = rules@;
    let mut k: usize = 0;
    assert(before + statement_findings(all.take(0), disabled@, *node, i as int, sql@, g) == before);
    while k < rules.len()
        invariant
            k <= rules@.len(),
            all == rules@,
            sql@.len() < u32::MAX,
            findings_view(findings@) == before + statement_findings(
                all.take(k as int),
                disabled@,
                *node,
                i as int,
                sql@,
                g,
            ),
        decreases rules@.len() - k,
    {
        let rule = &rules[k];
        proof {
            assert(all.take(k + 1).drop_last() == all.take(k as int));
            assert(all.take(k + 1).last() == all[k as int]);
        }
        let id = rule.id();
        if !disabled.contains(id) {
            let mut hits: Vec<RuleHit> = Vec::new();
            assert(hits_view(hits@) == Seq::<RuleHitView>::empty());
            rule.check(node, &mut hits);
            assert(hits_view(hits@) == rule.hits(*node));
            push_findings(findings, id, rule.severity(), &hits, i, sql, g);
        }
        assert(findings_view(findings@) == before + statement_findings(
            all.take(k + 1),
            disabled@,
            *node,
            i as int,
            sql@,
            g,
        ));
        k += 1;
    }
    assert(all.take(all.len() as int) == all);
}

/// Runs every registered rule that is not disabled on every statement, in source order.
pub fn lint_statements(
    sql: &str,
    stmts: &[RawStmt],
    geoms: &[Geometry],
    disabled: &TextSet,
) -> (r: Vec<Finding>)
    requires
        geoms@.len() == stmts@.len(),
        sql@.len() < u32::MAX,
    ensures
        findings_view(r@) == rule_findings(
            disabled@,
            sql@,
            stmts@,
            geoms@,
            stmts@.len() as int,
        ),
{
    let rules = all_rules();
    let mut findings: Vec<Finding> = Vec::new();
    let mut i: usize = 0;
    assert(findings_view(findings@) == Seq::<FindingView>::empty());
    while i < stmts.len()
        invariant
            i <= stmts@.len(),
            geoms@.len() == stmts@.len(),
            sql@.len() < u32::MAX,
            rules@ == registry(),
            findings_view(findings@) == rule_findings(disabled@, sql@, stmts@, geoms@, i as int),
        decreases stmts@.len() - i,
    {
        let ghost before = findings_view(findings@);
        assert(before + Seq::<FindingView>::empty() == before);
        if let Some(node) = &stmts[i].stmt {
            check_statement(&mut findings, &rules, disabled, node, i, sql, geoms[i]);
        }
        i += 1;
    }
    findings
}

} // verus!
