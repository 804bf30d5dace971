//! `--git-diff` mode: the `git` commands to run, and the `.sql` files their output names. Git
//! writes paths with `/` on every platform.
use vstd::prelude::*;

use crate::collections::{strictly_ascending, texts, TextSet};
use crate::lines::{split_inclusive, split_lines};
use crate::paths::{join_path, joined_path, normal_end, normal_len};
use crate::text::{chars_of, eq_ignore_ascii_case, lower_text, trim, trim_spec};

verus! {

/// Where the last `c` stands.
pub open spec fn last_index(s: Seq<char>, c: char) -> Option<int>
    decreases s.len(),
{
    if s.len() == 0 {
        None
    } else if s.last() == c {
        Some(s.len() - 1)
    } else {
        last_index(s.drop_last(), c)
    }
}

fn last_position(cs: &Vec<char>, end: usize, c: char) -> (r: Option<usize>)
    requires
        end <= cs@.len(),
    ensures
        match r {
            Some(i) => last_index(cs@.take(end as int), c) == Some(i as int) && i < end,
            None => last_index(cs@.take(end as int), c) is None,
        },
{
    let mut n: usize = end;
    while n > 0
        invariant
            n <= end <= cs@.len(),
            last_index(cs@.take(end as int), c) == last_index(cs@.take(n as int), c),
        decreases n,
    {
        assert(cs@.take(n as int).drop_last() == cs@.take(n - 1));
        assert(cs@.take(n as int).last() == cs@[n - 1]);
        if cs[n - 1] == c {
            return Some(n - 1);
        }
        n = n - 1;
    }
    None
}

/// The last component of a path.
pub open spec fn file_name(path: Seq<char>) -> Seq<char> {
    let p = normal_end(path);
    match last_index(p, '/') {
        Some(i) => p.subrange(i + 1, p.len() as int),
        None => p,
    }
}

/// The extension of a path: what follows the last dot of its last component, unless that dot is
/// the component's first character.
pub open spec fn extension(path: Seq<char>) -> Option<Seq<char>> {
    let name = file_name(path);
    match last_index(name, '.') {
        Some(i) => if i == 0 {
            None
        } else {
            Some(name.subrange(i + 1, name.len() as int))
        },
        None => None,
    }
}

/// Whether a path has the extension `sql`, whatever its case.
pub open spec fn is_sql(path: Seq<char>) -> bool {
    extension(path) matches Some(e) && lower_text(e) == lower_text("sql"@)
}

/// Whether a path has the extension `sql`, whatever its case.
pub fn has_sql_extension(path: &str) -> (r: bool)
    ensures
        r == is_sql(path@),
{
    let cs = chars_of(path);
    let end: usize = normal_len(&cs);
    let start: usize = match last_position(&cs, end, '/') {
        Some(i) => i + 1,
        None => 0,
    };
    let ghost name = file_name(path@);
    assert(name == cs@.subrange(start as int, end as int));
    let mut n: usize = end;
    while n > start
        invariant
            start <= n <= end <= cs@.len(),
            cs@ == path@,
            name == file_name(path@),
            name == cs@.subrange(start as int, end as int),
            last_index(name, '.') == last_index(cs@.subrange(start as int, n as int), '.'),
        decreases n - start,
    {
        let ghost here = cs@.subrange(start as int, n as int);
        assert(here.drop_last() == cs@.subrange(start as int, n - 1));
        assert(here.last() == cs@[n - 1]);
        if cs[n - 1] == '.' {
            if n - 1 == start {
                return false;
            }
            let ext = path.substring_char(n, end);
            assert(ext@ == name.subrange(n - start, name.len() as int));
            return eq_ignore_ascii_case(ext, "sql");
        }
        n = n - 1;
    }
    false
}

/// The `.sql` names, each under the root.
pub open spec fn selected(root: Seq<char>, names: Seq<Seq<char>>) -> Seq<Seq<char>>
    decreases names.len(),
{
    if names.len() == 0 {
        Seq::empty()
    } else {
        let before = selected(root, names.drop_last());
        if is_sql(names.last()) {
            before.push(joined_path(root, names.last()))
        } else {
            before
        }
    }
}

/// Keep only `.sql` names (case-insensitive) and resolve each against the repo root.
pub fn select_sql(root: &str, names: Vec<String>) -> (r: Vec<String>)
    ensures
        texts(r@) == selected(root@, texts(names@)),
{
    let ghost all = texts(names@);
    let mut out: Vec<String> = Vec::new();
    let mut i: usize = 0;
    assert(texts(out@) == selected(root@, all.take(0)));
    while i < names.len()
        invariant
            i <= names@.len(),
            all == texts(names@),
            texts(out@) == selected(root@, all.take(i as int)),
        decreases names@.len() - i,
    {
        proof {
            assert(all.take(i + 1).drop_last() == all.take(i as int));
            assert(all.take(i + 1).last() == names@[i as int]@);
        }
        if has_sql_extension(names[i].as_str()) {
            let p = join_path(root, names[i].as_str());
            assert(texts(out@.push(p)) == texts(out@).push(p@));
            out.push(p);
        }
        i += 1;
    }
    assert(all.take(all.len() as int) == all);
    out
}

/// A line without its line ending, `\n` or `\r\n`.
pub open spec fn bare_line(line: Seq<char>) -> Seq<char> {
    if line.len() > 0 && line.last() == '\n' {
        let l = line.drop_last();
        if l.len() > 0 && l.last() == '\r' {
            l.drop_last()
        } else {
            l
        }
    } else {
        line
    }
}

fn bare(line: &str) -> (r: &str)
    ensures
        r@ == bare_line(line@),
{
    let cs = chars_of(line);
    let n: usize = cs.len();
    if n > 0 && cs[n - 1] == '\n' {
        if n > 1 && cs[n - 2] == '\r' {
            let r = line.substring_char(0, n - 2);
            assert(r@ == line@.drop_last().drop_last());
            return r;
        }
        let r = line.substring_char(0, n - 1);
        assert(r@ == line@.drop_last());
        return r;
    }
    line
}

/// Whether `name` is a line of some output that is not empty.
pub open spec fn is_listed(output: Seq<char>, name: Seq<char>) -> bool {
    name.len() > 0 && exists|i: int|
        0 <= i < split_lines(output).len() && bare_line(#[trigger] split_lines(output)[i]) == name
}

fn collect_names(set: &mut TextSet, output: &str)
    ensures
        forall|x: Seq<char>| #[trigger]
            final(set)@.contains(x) <==> old(set)@.contains(x) || is_listed(output@, x),
{
    let lines = split_inclusive(output);
    let ghost all = split_lines(output@);
    let ghost before = set@;
    let mut i: usize = 0;
    while i < lines.len()
        invariant
            i <= lines@.len(),
            all == texts(lines@),
            all == split_lines(output@),
            forall|x: Seq<char>| #[trigger]
                set@.contains(x) <==> before.contains(x) || (x.len() > 0 && exists|j: int|
                    0 <= j < i && bare_line(#[trigger] all[j]) == x),
        decreases lines@.len() - i,
    {
        assert(all[i as int] == lines@[i as int]@);
        let name = bare(lines[i].as_str());
        if !name.is_empty() {
            set.insert(name.to_owned());
        }
        i += 1;
    }
}

/// Changed file names (repo-root-relative): what `git diff --name-only` and
/// `git ls-files --others` list, so that newly written migrations are picked up even before
/// `git add`. Each name once, in order.
pub fn changed_names(diff_out: &str, ls_out: &str) -> (r: TextSet)
    ensures
        forall|x: Seq<char>| #[trigger]
            r@.contains(x) <==> is_listed(diff_out@, x) || is_listed(ls_out@, x),
{
    let mut out = TextSet::new();
    collect_names(&mut out, diff_out);
    collect_names(&mut out, ls_out);
    out
}

/// The `.sql` files added/modified, as absolute paths, given the repository root and what the two
/// listings print.
pub fn changed_sql_files(root: &str, diff_out: &str, ls_out: &str) -> (r: Vec<String>)
    ensures
        exists|names: Seq<Seq<char>>| #[trigger]
            strictly_ascending(names) && (forall|x: Seq<char>| #[trigger]
                names.contains(x) <==> is_listed(diff_out@, x) || is_listed(ls_out@, x))
                && texts(r@) == selected(root@, names),
{
    let set = changed_names(diff_out, ls_out);
    let n: usize = set.len();
    let mut names: Vec<String> = Vec::new();
    let mut i: usize = 0;
    while i < n
        invariant
            i <= n == set@.len(),
            texts(names@) == set@.take(i as int),
        decreases n - i,
    {
        let name = set.at(i).clone();
        proof {
            assert(texts(names@.push(name)) == texts(names@).push(name@));
            assert(set@.take(i + 1) == set@.take(i as int).push(set@[i as int]));
        }
        names.push(name);
        i += 1;
    }
    proof {
        assert(set@.take(n as int) == set@);
        assert(strictly_ascending(set@));
    }
    select_sql(root, names)
}

/// Some words, then the pathspecs behind `--` where there are any.
pub open spec fn scoped(words: Seq<Seq<char>>, scope: Seq<Seq<char>>) -> Seq<Seq<char>> {
    if scope.len() == 0 {
        words
    } else {
        words.push("--"@) + scope
    }
}

fn push_scope(words: &mut Vec<String>, scope: &Vec<String>)
    ensures
        texts(final(words)@) == scoped(texts(old(words)@), texts(scope@)),
{
    if scope.len() == 0 {
        return;
    }
    let ghost before = words@;
    let ghost all = texts(scope@);
    words.push("--".to_owned());
    assert(texts(words@) == texts(before).push("--"@) + all.take(0));
    let mut i: usize = 0;
    while i < scope.len()
        invariant
            i <= scope@.len(),
            all == texts(scope@),
            texts(words@) == texts(before).push("--"@) + all.take(i as int),
        decreases scope@.len() - i,
    {
        let w = scope[i].clone();
        proof {
            assert(texts(words@.push(w)) == texts(words@).push(w@));
            assert(all.take(i + 1) == all.take(i as int).push(w@));
        }
        words.push(w);
        i += 1;
    }
    assert(all.take(all.len() as int) == all);
}

/// The arguments that list the files added, copied, modified or renamed versus `reference`.
pub fn diff_args(reference: &str, scope: &Vec<String>) -> (r: Vec<String>)
    ensures
        texts(r@) == scoped(
            seq!["diff"@, "--name-only"@, "--diff-filter=ACMR"@, reference@],
            texts(scope@),
        ),
{
    let mut out: Vec<String> = Vec::new();
    out.push("diff".to_owned());
    out.push("--name-only".to_owned());
    out.push("--diff-filter=ACMR".to_owned());
    out.push(reference.to_owned());
    assert(texts(out@) == seq!["diff"@, "--name-only"@, "--diff-filter=ACMR"@, reference@]);
    push_scope(&mut out, scope);
    out
}

/// The arguments that list the files git does not know yet (respecting `.gitignore`).
pub fn ls_args(scope: &Vec<String>) -> (r: Vec<String>)
    ensures
        texts(r@) == scoped(
            seq!["ls-files"@, "--others"@, "--exclude-standard"@],
            texts(scope@),
        ),
{
    let mut out: Vec<String> = Vec::new();
    out.push("ls-files".to_owned());
    out.push("--others".to_owned());
    out.push("--exclude-standard".to_owned());
    assert(texts(out@) == seq!["ls-files"@, "--others"@, "--exclude-standard"@]);
    push_scope(&mut out, scope);
    out
}

/// The repository root that `git rev-parse --show-toplevel` printed.
pub fn repo_root(output: &str) -> (r: Result<String, String>)
    ensures
        match r {
            Ok(p) => trim_spec(output@).len() > 0 && p@ == trim_spec(output@),
            Err(m) => trim_spec(output@).len() == 0 && m@ == "not a git repository"@,
        },
{
    let path = trim(output);
    if path.is_empty() {
        return Err("not a git repository".to_owned());
    }
    Ok(path.to_owned())
}

/// The message of a git command that failed: what it printed, if anything.
pub fn git_failure(stderr: &str) -> (r: String)
    ensures
        r@ == (if trim_spec(stderr@).len() == 0 {
            "git command failed"@
        } else {
            trim_spec(stderr@)
        }),
{
    let trimmed = trim(stderr);
    if trimmed.is_empty() {
        "git command failed".to_owned()
    } else {
        trimmed.to_owned()
    }
}

} // verus!
