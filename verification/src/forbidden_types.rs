//! Policy lint (configured, off until set): flag a column whose type is in the configured
//! `[forbidden-types]` set. Matching compares canonical forms: the parser normalizes both the
//! configured type and the column's type, so any spelling matches its canonical form. Runs only
//! when forbidden types are configured.
use vstd::prelude::*;
use vstd::utf8::encode_utf8;

use crate::ast::{values, ColumnDef, RawStmt};
use crate::fix::{single_edit, FixAnchor, FixAnchorView, FixDraft, FixDraftView};
use crate::rules::{
    column_base_type, column_base_type_spec, defined_columns, defined_columns_spec,
};
use crate::text::{
    chars_of, get_bytes, is_byte_range, is_white_space, is_white_space_spec, lower_text,
    slice_bytes, str_eq, text_of, to_ascii_lower,
};

verus! {

/// Id of this lint.
pub const ID: &'static str = "forbidden-column-type";

/// How to satisfy it.
pub const GUIDANCE: &'static str =
    "Change the column to an allowed type, or remove this type from the [forbidden-types] section of \
     your config.";

/// The statement whose parse shows the canonical name of a type: a table with one column of
/// that type.
pub open spec fn typecheck_sql_spec(spelling: Seq<char>) -> Seq<char> {
    "CREATE TABLE _pgsafe_typecheck (c "@ + spelling + ")"@
}

/// The statement whose parse shows the canonical name of a type.
pub fn typecheck_sql(spelling: &str) -> (r: String)
    ensures
        r@ == typecheck_sql_spec(spelling@),
{
    let mut out = "CREATE TABLE _pgsafe_typecheck (c ".to_owned();
    out.append(spelling);
    out.append(")");
    out
}

/// The base type of the first column that the first statement defines.
pub open spec fn canonical_type_spec(stmts: Seq<RawStmt>) -> Option<Seq<char>> {
    if stmts.len() > 0 {
        match stmts[0].stmt {
            Some(node) => if defined_columns_spec(node).len() > 0 {
                column_base_type_spec(defined_columns_spec(node)[0])
            } else {
                None
            },
            None => None,
        }
    } else {
        None
    }
}

/// The canonical base-type name PostgreSQL normalizes a spelling to (e.g. `char` → `bpchar`,
/// `integer` → `int4`), read from the parse of its [`typecheck_sql`]; `None` where that
/// defines no column. The parser has no catalog, so it does NOT validate that the type exists: a
/// bare unknown identifier passes through unchanged, and is simply inert when matched against
/// columns.
pub fn canonical_type(stmts: &[RawStmt]) -> (r: Option<String>)
    ensures
        text_of(r) == canonical_type_spec(stmts@),
{
    if stmts.len() == 0 {
        return None;
    }
    match &stmts[0].stmt {
        Some(node) => {
            let cols = defined_columns(node);
            if cols.len() == 0 {
                return None;
            }
            assert(values(cols@)[0] == *cols@[0]);
            column_base_type(cols[0])
        },
        None => None,
    }
}

/// An ASCII letter, digit or underscore.
pub open spec fn is_word_char_spec(c: char) -> bool {
    ||| '0' <= c <= '9'
    ||| 'A' <= c <= 'Z'
    ||| 'a' <= c <= 'z'
    ||| c == '_'
}

fn is_word_char(c: char) -> (r: bool)
    ensures
        r == is_word_char_spec(c),
{
    ('0' <= c && c <= '9') || ('A' <= c && c <= 'Z') || ('a' <= c && c <= 'z') || c == '_'
}

/// Number of leading word characters.
pub open spec fn leading_word(s: Seq<char>) -> int
    decreases s.len(),
{
    if s.len() > 0 && is_word_char_spec(s[0]) {
        1 + leading_word(s.drop_first())
    } else {
        0
    }
}

fn leading_word_len(s: &str) -> (r: usize)
    ensures
        r == leading_word(s@),
        r <= s@.len(),
{
    let cs = chars_of(s);
    let mut i: usize = 0;
    assert(s@.skip(0) == s@);
    while i < cs.len() && is_word_char(cs[i])
        invariant
            i <= cs@.len(),
            cs@ == s@,
            leading_word(s@) == i + leading_word(s@.skip(i as int)),
        decreases cs@.len() - i,
    {
        assert(s@.skip(i as int).drop_first() == s@.skip(i + 1));
        i += 1;
    }
    i
}

/// What a blank stretch of SQL is in the middle of.
pub enum Blank {
    /// Whitespace, or the place where a comment may begin.
    Space,
    /// A comment up to the end of its line.
    Line,
    /// A block comment, so many levels deep.
    Block(nat),
}

/// Whether a text begins with two characters.
pub open spec fn begins(s: Seq<char>, a: char, b: char) -> bool {
    s.len() >= 2 && s[0] == a && s[1] == b
}

/// A text behind the whitespace and the comments it begins with.
pub open spec fn skip_blank_spec(s: Seq<char>, at: Blank) -> Seq<char>
    decreases s.len(),
{
    if s.len() == 0 {
        s
    } else {
        match at {
            Blank::Line => skip_blank_spec(
                s.drop_first(),
                if s[0] == '\n' {
                    Blank::Space
                } else {
                    Blank::Line
                },
            ),
            Blank::Block(depth) => if begins(s, '*', '/') {
                skip_blank_spec(
                    s.skip(2),
                    if depth <= 1 {
                        Blank::Space
                    } else {
                        Blank::Block((depth - 1) as nat)
                    },
                )
            } else if begins(s, '/', '*') {
                skip_blank_spec(s.skip(2), Blank::Block(depth + 1))
            } else {
                skip_blank_spec(s.drop_first(), at)
            },
            Blank::Space => if is_white_space_spec(s[0]) {
                skip_blank_spec(s.drop_first(), at)
            } else if begins(s, '-', '-') {
                skip_blank_spec(s.skip(2), Blank::Line)
            } else if begins(s, '/', '*') {
                skip_blank_spec(s.skip(2), Blank::Block(1))
            } else {
                s
            },
        }
    }
}

/// What the scan is in the middle of: a line comment, else a block comment where `depth` is not 0.
spec fn blank_at(line: bool, depth: int) -> Blank {
    if line {
        Blank::Line
    } else if depth == 0 {
        Blank::Space
    } else {
        Blank::Block(depth as nat)
    }
}

/// A text behind the whitespace and the comments it begins with.
fn skip_blank(s: &str) -> (r: &str)
    ensures
        r@ == skip_blank_spec(s@, Blank::Space),
{
    let cs = chars_of(s);
    let n: usize = s.unicode_len();
    let mut line = false;
    let mut depth: usize = 0;
    let mut i: usize = 0;
    assert(s@.skip(0) == s@);
    while i < n
        invariant
            i <= n,
            n == s@.len(),
            cs@ == s@,
            depth <= i,
            skip_blank_spec(s@.skip(i as int), blank_at(line, depth as int)) == skip_blank_spec(
                s@,
                Blank::Space,
            ),
        decreases n - i,
    {
        let c = cs[i];
        let two = i + 1 < n;
        proof {
            let rest = s@.skip(i as int);
            assert(rest[0] == c);
            assert(rest.drop_first() == s@.skip(i + 1));
            if two {
                assert(rest[1] == s@[i + 1]);
                assert(rest.skip(2) == s@.skip(i + 2));
            }
        }
        if line {
            line = c != '\n';
            depth = 0;
            i += 1;
        } else if depth > 0 {
            if two && c == '*' && cs[i + 1] == '/' {
                depth -= 1;
                i += 2;
            } else if two && c == '/' && cs[i + 1] == '*' {
                depth += 1;
                i += 2;
            } else {
                i += 1;
            }
        } else if is_white_space(c) {
            i += 1;
        } else if two && c == '-' && cs[i + 1] == '-' {
            line = true;
            i += 2;
        } else if two && c == '/' && cs[i + 1] == '*' {
            depth = 1;
            i += 2;
        } else {
            let r = s.substring_char(i, n);
            assert(r@ == s@.skip(i as int));
            return r;
        }
    }
    let r = s.substring_char(n, n);
    assert(r@ == s@.skip(n as int));
    r
}

/// What follows the first closing parenthesis.
pub open spec fn past_parenthesis(s: Seq<char>) -> Option<Seq<char>>
    decreases s.len(),
{
    if s.len() == 0 {
        None
    } else if s[0] == ')' {
        Some(s.drop_first())
    } else {
        past_parenthesis(s.drop_first())
    }
}

/// What follows a type modifier in parentheses, such as `(3)`; the text itself where it does not
/// begin with one.
pub open spec fn behind_modifier(s: Seq<char>) -> Seq<char> {
    match past_parenthesis(s) {
        Some(rest) => if s[0] == '(' {
            rest
        } else {
            s
        },
        None => s,
    }
}

fn skip_modifier(s: &str) -> (r: &str)
    ensures
        r@ == behind_modifier(s@),
{
    let cs = chars_of(s);
    let n: usize = s.unicode_len();
    if n == 0 || cs[0] != '(' {
        return s;
    }
    let mut i: usize = 0;
    assert(s@.skip(0) == s@);
    while i < n
        invariant
            i <= n,
            n == s@.len(),
            cs@ == s@,
            n > 0,
            s@[0] == '(',
            past_parenthesis(s@.skip(i as int)) == past_parenthesis(s@),
        decreases n - i,
    {
        assert(s@.skip(i as int).drop_first() == s@.skip(i + 1));
        if cs[i] == ')' {
            let r = s.substring_char(i + 1, n);
            assert(r@ == s@.skip(i + 1));
            return r;
        }
        i += 1;
    }
    s
}

/// The words that continue a type of several words, the fields of an interval and the
/// `character` of `national character` among them.
pub open spec fn continues_type(w: Seq<char>) -> bool {
    ||| w == "with"@
    ||| w == "without"@
    ||| w == "varying"@
    ||| w == "precision"@
    ||| w == "time"@
    ||| w == "zone"@
    ||| w == "year"@
    ||| w == "month"@
    ||| w == "day"@
    ||| w == "hour"@
    ||| w == "minute"@
    ||| w == "second"@
    ||| w == "character"@
    ||| w == "char"@
}

/// Whether the text begins with a type of one word: neither schema-qualified nor continued,
/// be it behind a modifier (`timestamp(3) without time zone`).
pub open spec fn one_word_type(rest: Seq<char>) -> bool {
    let k = leading_word(rest);
    let after = skip_blank_spec(rest.skip(k), Blank::Space);
    let next = skip_blank_spec(behind_modifier(after), Blank::Space);
    &&& k > 0
    &&& !(after.len() > 0 && after[0] == '.')
    &&& !continues_type(lower_text(next.take(leading_word(next))))
}

/// Whether the type token at byte `at` is a single SQL word.
pub open spec fn is_single_token_type_spec(sql: Seq<char>, at: int) -> bool {
    let n = encode_utf8(sql).len() as int;
    is_byte_range(sql, at, n) && one_word_type(slice_bytes(sql, at, n))
}

/// Returns `true` when the type token starting at byte `at` in `sql` is a single SQL word —
/// not a multi-word type like `timestamp without time zone`, `timestamp(3) with time zone` or
/// `double precision`, and not schema-qualified like `pg_catalog.text`.
pub fn is_single_token_type(sql: &str, at: usize) -> (r: bool)
    ensures
        r == is_single_token_type_spec(sql@, at as int),
{
    let n: usize = sql.as_bytes().len();
    let rest = match get_bytes(sql, at, n) {
        Some(t) => t,
        None => {
            return false;
        },
    };
    let k: usize = leading_word_len(rest);
    if k == 0 {
        return false;
    }
    let len: usize = rest.unicode_len();
    let behind = rest.substring_char(k, len);
    assert(behind@ == rest@.skip(k as int));
    let after = skip_blank(behind);
    if after.unicode_len() > 0 && after.get_char(0) == '.' {
        return false;
    }
    let next = skip_blank(skip_modifier(after));
    let m: usize = leading_word_len(next);
    let word = next.substring_char(0, m);
    assert(word@ == next@.take(m as int));
    let lower = to_ascii_lower(word);
    let w = lower.as_str();
    !(str_eq(w, "with") || str_eq(w, "without") || str_eq(w, "varying") || str_eq(w, "precision")
        || str_eq(w, "time") || str_eq(w, "zone") || str_eq(w, "year") || str_eq(w, "month")
        || str_eq(w, "day") || str_eq(w, "hour") || str_eq(w, "minute") || str_eq(w, "second")
        || str_eq(w, "character") || str_eq(w, "char"))
}

/// The swap of a column's type token for the suggested replacement. None where there is no
/// suggestion, where the place of the type is unknown, or where the type is written in several
/// tokens (replacing the first word would corrupt the rest).
pub open spec fn forbidden_fix_spec(
    sql: Seq<char>,
    replacement: Seq<char>,
    col: ColumnDef,
) -> Option<FixDraftView> {
    match col.coltype {
        Some(t) => if replacement.len() > 0 && t.location >= 0 && is_single_token_type_spec(
            sql,
            t.location as int,
        ) {
            Some(
                single_edit(
                    "Change to configured type"@,
                    FixAnchorView::ReplaceTokenAt(t.location as int),
                    replacement,
                ),
            )
        } else {
            None
        },
        None => None,
    }
}

/// What an optional draft holds.
pub open spec fn draft_view(d: Option<FixDraft>) -> Option<FixDraftView> {
    match d {
        Some(x) => Some(x@),
        None => None,
    }
}

/// Build a fix draft that swaps the column's type token to `replacement`.
pub fn forbidden_fix(sql: &str, replacement: &str, col: &ColumnDef) -> (r: Option<FixDraft>)
    ensures
        draft_view(r) == forbidden_fix_spec(sql@, replacement@, *col),
{
    if replacement.is_empty() {
        return None;
    }
    match &col.coltype {
        Some(t) => if t.location >= 0 && is_single_token_type(sql, t.location as usize) {
            Some(
                FixDraft::single(
                    "Change to configured type",
                    FixAnchor::ReplaceTokenAt(t.location as u32),
                    replacement,
                ),
            )
        } else {
            None
        },
        None => None,
    }
}

/// A configured type: how it is spelled, what it canonicalizes to, and what to use instead
/// (empty = no suggestion).
#[derive(Debug)]
pub struct ForbiddenType {
    pub spelling: String,
    pub canonical: Option<String>,
    pub replacement: String,
}

/// The configured type that a canonical name denotes: the last one that canonicalizes to it.
pub open spec fn lookup_spec(types: Seq<ForbiddenType>, base: Seq<char>) -> Option<ForbiddenType>
    decreases types.len(),
{
    if types.len() == 0 {
        None
    } else if text_of(types.last().canonical) == Some(base) {
        Some(types.last())
    } else {
        lookup_spec(types.drop_last(), base)
    }
}

fn lookup<'a>(types: &'a [ForbiddenType], base: &str) -> (r: Option<&'a ForbiddenType>)
    ensures
        match r {
            Some(t) => lookup_spec(types@, base@) == Some(*t),
            None => lookup_spec(types@, base@) is None,
        },
{
    let ghost all = types@;
    let mut k: usize = types.len();
    assert(all.take(all.len() as int) == all);
    while k > 0
        invariant
            k <= types@.len(),
            all == types@,
            lookup_spec(all, base@) == lookup_spec(all.take(k as int), base@),
        decreases k,
    {
        proof {
            assert(all.take(k as int).last() == all[k - 1]);
            assert(all.take(k as int).drop_last() == all.take(k - 1));
        }
        if let Some(c) = &types[k - 1].canonical {
            if str_eq(c.as_str(), base) {
                return Some(&types[k - 1]);
            }
        }
        k -= 1;
    }
    None
}

/// The remark on a column of a forbidden type.
pub open spec fn forbidden_message(
    colname: Seq<char>,
    spelling: Seq<char>,
    replacement: Seq<char>,
) -> Seq<char> {
    let head = "The column `"@ + colname + "` uses `"@ + spelling;
    if replacement.len() == 0 {
        head + "`, which your policy disallows."@
    } else {
        head + "`, which your policy disallows; use `"@ + replacement + "` instead."@
    }
}

/// The remarks on some columns of statement `i`.
pub open spec fn forbidden_remarks(
    i: int,
    cols: Seq<ColumnDef>,
    types: Seq<ForbiddenType>,
    sql: Seq<char>,
) -> Seq<(int, Seq<char>, Option<FixDraftView>)>
    decreases cols.len(),
{
    if cols.len() == 0 {
        Seq::empty()
    } else {
        let before = forbidden_remarks(i, cols.drop_last(), types, sql);
        let col = cols.last();
        match column_base_type_spec(col) {
            Some(base) => match lookup_spec(types, base) {
                Some(t) => before.push(
                    (
                        i,
                        forbidden_message(col.colname@, t.spelling@, t.replacement@),
                        forbidden_fix_spec(sql, t.replacement@, col),
                    ),
                ),
                None => before,
            },
            None => before,
        }
    }
}

/// The remarks on the first `n` statements.
pub open spec fn forbidden_violations_spec(
    stmts: Seq<RawStmt>,
    n: int,
    types: Seq<ForbiddenType>,
    sql: Seq<char>,
) -> Seq<(int, Seq<char>, Option<FixDraftView>)>
    decreases n,
{
    if n <= 0 {
        Seq::empty()
    } else {
        forbidden_violations_spec(stmts, n - 1, types, sql) + match stmts[n - 1].stmt {
            Some(node) => forbidden_remarks(n - 1, defined_columns_spec(node), types, sql),
            None => Seq::empty(),
        }
    }
}

/// What a list of remarks with fixes holds.
pub open spec fn fixable_view(v: Seq<(usize, String, Option<FixDraft>)>) -> Seq<
    (int, Seq<char>, Option<FixDraftView>),
> {
    v.map_values(
        |x: (usize, String, Option<FixDraft>)| (x.0 as int, x.1@, draft_view(x.2)),
    )
}

fn message_of(colname: &str, t: &ForbiddenType) -> (r: String)
    ensures
        r@ == forbidden_message(colname@, t.spelling@, t.replacement@),
{
    let mut m = "The column `".to_owned();
    m.append(colname);
    m.append("` uses `");
    m.append(t.spelling.as_str());
    if t.replacement.as_str().is_empty() {
        m.append("`, which your policy disallows.");
    } else {
        m.append("`, which your policy disallows; use `");
        m.append(t.replacement.as_str());
        m.append("` instead.");
    }
    m
}

/// Introduced columns whose type is forbidden, as `(statement_index, message, fix_draft)`.
/// A configured type that does not canonicalize matches nothing.
pub fn forbidden_violations(stmts: &[RawStmt], types: &[ForbiddenType], sql: &str) -> (r: Vec<
    (usize, String, Option<FixDraft>),
>)
    ensures
        fixable_view(r@) == forbidden_violations_spec(
            stmts@,
            stmts@.len() as int,
            types@,
            sql@,
        ),
{
    let ghost all = stmts@;
    let mut out: Vec<(usize, String, Option<FixDraft>)> = Vec::new();
    let mut i: usize = 0;
    assert(fixable_view(out@) == Seq::<(int, Seq<char>, Option<FixDraftView>)>::empty());
    while i < stmts.len()
        invariant
            i <= stmts@.len(),
            all == stmts@,
            fixable_view(out@) == forbidden_violations_spec(all, i as int, types@, sql@),
        decreases stmts@.len() - i,
    {
        let ghost before = fixable_view(out@);
        assert(before + Seq::<(int, Seq<char>, Option<FixDraftView>)>::empty() == before);
        if let Some(node) = &stmts[i].stmt {
            let cols = defined_columns(node);
            let ghost cv = values(cols@);
            let mut j: usize = 0;
            assert(before + forbidden_remarks(i as int, cv.take(0), types@, sql@) == before);
            while j < cols.len()
                invariant
                    j <= cols@.len(),
                    cv == values(cols@),
                    fixable_view(out@) == before + forbidden_remarks(
                        i as int,
                        cv.take(j as int),
                        types@,
                        sql@,
                    ),
                decreases cols@.len() - j,
            {
                proof {
                    assert(cv.take(j + 1).drop_last() == cv.take(j as int));
                    assert(cv.take(j + 1).last() == *cols@[j as int]);
                }
                let col = cols[j];
                if let Some(base) = column_base_type(col) {
                    if let Some(t) = lookup(types, base.as_str()) {
                        let m = message_of(col.colname.as_str(), t);
                        let fix = forbidden_fix(sql, t.replacement.as_str(), col);
                        assert(fixable_view(out@.push((i, m, fix))) == fixable_view(out@).push(
                            (i as int, m@, draft_view(fix)),
                        ));
                        out.push((i, m, fix));
                    }
                }
                assert(fixable_view(out@) == before + forbidden_remarks(
                    i as int,
                    cv.take(j + 1),
                    types@,
                    sql@,
                ));
                j += 1;
            }
            assert(cv.take(cv.len() as int) == cv);
        }
        i += 1;
    }
    out
}

} // verus!
