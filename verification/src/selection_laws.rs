//! Which changed files are linted, and under which names.
use vstd::prelude::*;

use crate::finding::Severity;
use crate::gitdiff::{bare_line, file_name, is_listed, is_sql, last_index, selected};
use crate::lines::split_lines;
use crate::outside::Hue;
use crate::paths::{joined_path, normal_end, rel_path_spec};
use crate::style::{color_on_spec, ColorWhen, Paint, Styling};
use crate::text::lower_text;
use crate::tree_laws::lemma_push_contains;

verus! {

/// Whether a text has neither a slash nor a dot in it, and is not empty.
pub open spec fn is_plain(s: Seq<char>) -> bool {
    s.len() > 0 && forall|i: int| 0 <= i < s.len() ==> #[trigger] s[i] != '/' && s[i] != '.'
}

/// Whether a text has no slash in it, and is not empty.
pub open spec fn is_component(s: Seq<char>) -> bool {
    s.len() > 0 && forall|i: int| 0 <= i < s.len() ==> #[trigger] s[i] != '/'
}

proof fn lemma_last_index(a: Seq<char>, b: Seq<char>, c: char)
    requires
        a.len() == 0 || a.last() == c,
        forall|i: int| 0 <= i < b.len() ==> #[trigger] b[i] != c,
    ensures
        last_index(a + b, c) == (if a.len() > 0 {
            Some(a.len() - 1)
        } else {
            None
        }),
    decreases b.len(),
{
    let s = a + b;
    if b.len() > 0 {
        assert(s.drop_last() =~= a + b.drop_last());
        assert(s.last() == b[b.len() - 1]);
        assert(forall|i: int|
            0 <= i < b.drop_last().len() ==> #[trigger] b.drop_last()[i] == b[i]);
        lemma_last_index(a, b.drop_last(), c);
    } else {
        assert(s =~= a);
    }
}

/// A file is an SQL file exactly if what follows the last dot of its name, in any case, is `sql`; a
/// name without a dot is none, nor is one whose only dot comes first.
pub proof fn sql_files_go_by_their_extension(
    dir: Seq<char>,
    stem: Seq<char>,
    ext: Seq<char>,
)
    requires
        dir.len() == 0 || dir.last() == '/',
        is_component(stem),
        is_plain(ext),
    ensures
        is_sql(dir + (stem + "."@ + ext)) <==> lower_text(ext) == "sql"@,
        !is_sql(dir + ext),
        !is_sql(dir + ("."@ + ext)),
{
    reveal_strlit(".");
    reveal_strlit("sql");
    assert(lower_text("sql"@) =~= "sql"@);
    let name = stem + "."@ + ext;
    let path = dir + name;
    assert(path.last() == ext[ext.len() - 1]);
    assert(normal_end(path) == path);
    assert forall|i: int| 0 <= i < name.len() implies #[trigger] name[i] != '/' by {}
    lemma_last_index(dir, name, '/');
    assert(file_name(path) =~= name);
    lemma_last_index(stem + "."@, ext, '.');
    assert(last_index(name, '.') == Some(stem.len() as int));
    assert(name.subrange(stem.len() as int + 1, name.len() as int) =~= ext);
    // Without a dot.
    let bare = dir + ext;
    assert(bare.last() == ext[ext.len() - 1]);
    assert(normal_end(bare) == bare);
    lemma_last_index(dir, ext, '/');
    assert(file_name(bare) =~= ext);
    lemma_last_index(Seq::<char>::empty(), ext, '.');
    assert(Seq::<char>::empty() + ext =~= ext);
    // With nothing but an extension.
    let dotted = "."@ + ext;
    let hidden = dir + dotted;
    assert(hidden.last() == ext[ext.len() - 1]);
    assert(normal_end(hidden) == hidden);
    assert forall|i: int| 0 <= i < dotted.len() implies #[trigger] dotted[i] != '/' by {}
    lemma_last_index(dir, dotted, '/');
    assert(file_name(hidden) =~= dotted);
    lemma_last_index("."@, ext, '.');
}

/// A changed file is linted exactly if it is an SQL file, under its name below the root of the
/// repository.
pub proof fn changed_sql_files_are_selected(
    root: Seq<char>,
    names: Seq<Seq<char>>,
    path: Seq<char>,
)
    ensures
        selected(root, names).contains(path) <==> exists|name: Seq<char>| #[trigger]
            names.contains(name) && is_sql(name) && path == joined_path(root, name),
    decreases names.len(),
{
    if names.len() > 0 {
        let init = names.drop_last();
        let last = names.last();
        changed_sql_files_are_selected(root, init, path);
        let before = selected(root, init);
        lemma_push_contains(before, joined_path(root, last), path);
        assert(names == init.push(last));
        assert forall|x: Seq<char>| #[trigger] names.contains(x) <==> x == last || init.contains(
            x,
        ) by {
            lemma_push_contains(init, last, x);
        }
        if before.contains(path) {
            let x = choose|x: Seq<char>| #[trigger]
                init.contains(x) && is_sql(x) && path == joined_path(root, x);
            assert(names.contains(x));
        }
        if is_sql(last) && path == joined_path(root, last) {
            assert(names.contains(last));
        }
        if exists|x: Seq<char>| #[trigger]
            names.contains(x) && is_sql(x) && path == joined_path(root, x) {
            let x = choose|x: Seq<char>| #[trigger]
                names.contains(x) && is_sql(x) && path == joined_path(root, x);
            if x != last {
                assert(init.contains(x));
            }
        }
    } else {
        assert(!selected(root, names).contains(path));
        assert(forall|x: Seq<char>| !#[trigger] names.contains(x));
    }
}

/// A name below a root is the root, one slash and the name; a name that starts at `/` is itself.
pub proof fn a_name_is_put_below_its_root(root: Seq<char>, name: Seq<char>)
    ensures
        name.len() > 0 && name[0] == '/' ==> joined_path(root, name) == name,
        !(name.len() > 0 && name[0] == '/') && root.len() > 0 && root.last() != '/'
            ==> joined_path(root, name) == root + "/"@ + name,
        !(name.len() > 0 && name[0] == '/') && root.len() > 0 && root.last() == '/'
            ==> joined_path(root, name) == root + name,
        !(name.len() > 0 && name[0] == '/') && root.len() == 0 ==> joined_path(root, name) == name,
{
    if root.len() == 0 {
        assert(root + name =~= name);
    }
}

proof fn lemma_split_ended(a: Seq<char>, b: Seq<char>)
    requires
        a.len() == 0 || a.last() == '\n',
    ensures
        split_lines(a + b) == split_lines(a) + split_lines(b),
    decreases b.len(),
{
    let s = a + b;
    let left = split_lines(a);
    if b.len() == 0 {
        assert(s =~= a);
        assert(left + split_lines(b) =~= left);
    } else {
        assert(s.drop_last() =~= a + b.drop_last());
        assert(s.last() == b.last());
        lemma_split_ended(a, b.drop_last());
        let right = split_lines(b.drop_last());
        let both = left + right;
        crate::lines::lemma_split_lines(b.drop_last());
        if right.len() == 0 {
            assert(b.drop_last().len() == 0);
            assert(both =~= left);
            if left.len() > 0 {
                lemma_last_line(a);
            }
            assert(split_lines(s) =~= left + split_lines(b));
        } else {
            assert(both.last() == right.last());
            if right.last().last() == '\n' {
                assert(split_lines(s) =~= left + split_lines(b));
            } else {
                assert(both.drop_last() =~= left + right.drop_last());
                assert(split_lines(s) =~= left + split_lines(b));
            }
        }
    }
}

proof fn lemma_last_line(a: Seq<char>)
    requires
        a.len() > 0,
    ensures
        split_lines(a).len() > 0,
        split_lines(a).last().len() > 0,
        split_lines(a).last().last() == a.last(),
    decreases a.len(),
{
    crate::lines::lemma_split_lines(a);
    let before = split_lines(a.drop_last());
    if before.len() == 0 || before.last().last() == '\n' {
        assert(split_lines(a).last() =~= seq![a.last()]);
    }
}

proof fn lemma_one_line(s: Seq<char>)
    requires
        s.len() > 0,
        forall|i: int| 0 <= i < s.len() - 1 ==> #[trigger] s[i] != '\n',
    ensures
        split_lines(s) == seq![s],
    decreases s.len(),
{
    let init = s.drop_last();
    if init.len() > 0 {
        assert(forall|i: int| 0 <= i < init.len() - 1 ==> #[trigger] init[i] == s[i]);
        lemma_one_line(init);
        assert(init.last() == s[s.len() - 2]);
        assert(seq![init].last() == init);
        assert(init.push(s.last()) =~= s);
        assert(split_lines(s) =~= seq![s]);
    } else {
        assert(split_lines(init) =~= Seq::<Seq<char>>::empty());
        assert(seq![s.last()] =~= s);
        assert(split_lines(s) =~= seq![s]);
    }
}

/// Every line that git prints is the name of a file, without its line end; an empty line is none.
pub proof fn every_line_lists_a_name(before: Seq<char>, name: Seq<char>, after: Seq<char>)
    requires
        before.len() == 0 || before.last() == '\n',
        name.len() > 0,
        forall|i: int| 0 <= i < name.len() ==> #[trigger] name[i] != '\n',
        name.last() != '\r',
    ensures
        is_listed(before + (name + "\n"@) + after, name),
        is_listed(before + (name + "\r\n"@) + after, name),
        is_listed(before + name, name),
        !is_listed(before, Seq::empty()),
{
    reveal_strlit("\n");
    reveal_strlit("\r\n");
    lemma_listed(before, name + "\n"@, after, name);
    lemma_listed(before, name + "\r\n"@, after, name);
    assert((name + "\r\n"@).drop_last() =~= name + "\r\n"@.drop_last());
    lemma_split_ended(before, name);
    lemma_one_line(name);
    let lines = split_lines(before + name);
    assert(lines[split_lines(before).len() as int] == seq![name][0]);
    assert(bare_line(name) == name) by {
        assert(name.last() == name[name.len() - 1]);
    }
    assert(bare_line(lines[split_lines(before).len() as int]) == name);
}

proof fn lemma_listed(before: Seq<char>, line: Seq<char>, after: Seq<char>, name: Seq<char>)
    requires
        before.len() == 0 || before.last() == '\n',
        name.len() > 0,
        forall|i: int| 0 <= i < name.len() ==> #[trigger] name[i] != '\n',
        name.last() != '\r',
        line == name + "\n"@ || line == name + "\r\n"@,
    ensures
        is_listed(before + line + after, name),
{
    reveal_strlit("\n");
    reveal_strlit("\r\n");
    assert(line.last() == '\n');
    assert forall|i: int| 0 <= i < line.len() - 1 implies #[trigger] line[i] != '\n' by {
        if i < name.len() {
            assert(line[i] == name[i]);
        }
    }
    lemma_one_line(line);
    lemma_split_ended(before, line);
    let front = before + line;
    assert(front.last() == '\n');
    lemma_split_ended(front, after);
    let lines = split_lines(front + after);
    let k = split_lines(before).len() as int;
    assert(lines[k] == seq![line][0]);
    if line == name + "\n"@ {
        assert(line.drop_last() =~= name);
    } else {
        let l = line.drop_last();
        assert(l.last() == '\r');
        assert(l.drop_last() =~= name);
    }
    assert(bare_line(lines[k]) == name);
}

/// Colors are shown where they are asked for, and not where they are refused; where neither is said,
/// they are shown if forced by the environment, or on a terminal that the environment does not keep
/// plain.
pub proof fn colors_follow_the_flag_then_the_environment(force: bool, refuse: bool, terminal: bool)
    ensures
        color_on_spec(ColorWhen::Always, force, refuse, terminal),
        !color_on_spec(ColorWhen::Never, force, refuse, terminal),
        color_on_spec(ColorWhen::Auto, true, refuse, terminal),
        !color_on_spec(ColorWhen::Auto, false, true, terminal),
        color_on_spec(ColorWhen::Auto, false, false, terminal) == terminal,
{
}

/// Without a config directory a file is matched by the name it was given.
pub proof fn without_a_config_a_file_keeps_its_name(name: Seq<char>, cwd: Seq<char>)
    ensures
        rel_path_spec(name, None, cwd) == name,
{
}

/// Errors are shown in red and warnings in yellow, both bold, each with a glyph of its own; the plain
/// styling has neither.
pub proof fn severities_have_their_colors()
    ensures
        Styling::ansi_spec().severity_paint(Severity::Error) == (Paint {
            fg: Some(Hue::Red),
            bold: true,
            dimmed: false,
        }),
        Styling::ansi_spec().severity_paint(Severity::Warning) == (Paint {
            fg: Some(Hue::Yellow),
            bold: true,
            dimmed: false,
        }),
        Styling::ansi_spec().glyph_spec(Severity::Error) == "✗"@,
        Styling::ansi_spec().glyph_spec(Severity::Warning) == "⚠"@,
        Styling::plain_spec().glyph_spec(Severity::Error) == Seq::<char>::empty(),
        Styling::plain_spec().glyph_spec(Severity::Warning) == Seq::<char>::empty(),
{
}

} // verus!
