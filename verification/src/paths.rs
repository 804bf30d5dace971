//! Paths as texts with `/` between their components: joining them, and naming a file from the
//! directory of the config.
use vstd::prelude::*;

use crate::text::{chars_of, text_of};

verus! {

/// A path without the separators and `.` components at its end.
pub open spec fn normal_end(path: Seq<char>) -> Seq<char>
    decreases path.len(),
{
    if path.len() > 0 && path.last() == '/' {
        normal_end(path.drop_last())
    } else if path.len() > 1 && path.last() == '.' && path[path.len() - 2] == '/' {
        normal_end(path.drop_last())
    } else {
        path
    }
}

/// The length of a path without the separators and `.` components at its end.
pub fn normal_len(cs: &Vec<char>) -> (r: usize)
    ensures
        r <= cs@.len(),
        cs@.take(r as int) == normal_end(cs@),
{
    let mut n: usize = cs.len();
    assert(cs@.take(n as int) == cs@);
    while n > 0
        invariant
            n <= cs@.len(),
            normal_end(cs@.take(n as int)) == normal_end(cs@),
        decreases n,
    {
        let ghost here = cs@.take(n as int);
        assert(here.drop_last() == cs@.take(n - 1));
        assert(here.last() == cs@[n - 1]);
        assert(n > 1 ==> here[n - 2] == cs@[n - 2]);
        if cs[n - 1] == '/' {
            n = n - 1;
        } else if n > 1 && cs[n - 1] == '.' && cs[n - 2] == '/' {
            n = n - 1;
        } else {
            return n;
        }
    }
    n
}

/// Whether a path starts at the root.
pub open spec fn is_absolute(path: Seq<char>) -> bool {
    path.len() > 0 && path[0] == '/'
}

/// A name under a root: a name that is itself absolute stands alone.
pub open spec fn joined_path(root: Seq<char>, name: Seq<char>) -> Seq<char> {
    if is_absolute(name) {
        name
    } else if root.len() == 0 || root.last() == '/' {
        root + name
    } else {
        root + "/"@ + name
    }
}

/// `name` under `root`.
pub fn join_path(root: &str, name: &str) -> (r: String)
    ensures
        r@ == joined_path(root@, name@),
{
    let ns = chars_of(name);
    if ns.len() > 0 && ns[0] == '/' {
        return name.to_owned();
    }
    let rs = chars_of(root);
    let mut out = root.to_owned();
    if rs.len() > 0 && rs[rs.len() - 1] != '/' {
        out.append("/");
    }
    out.append(name);
    out
}

/// Whether the character at `i`, where a component may start, belongs to none: it is a separator,
/// or a `.` component behind the start of the path.
pub open spec fn is_between(path: Seq<char>, i: int) -> bool {
    path[i] == '/' || (0 < i && path[i] == '.' && (i + 1 == path.len() || path[i + 1] == '/'))
}

/// Where the first component at or behind `i` starts; the end of the path where there is none.
pub open spec fn component_start(path: Seq<char>, i: int) -> int
    decreases path.len() - i,
{
    if 0 <= i < path.len() && is_between(path, i) {
        component_start(path, i + 1)
    } else {
        i
    }
}

/// Where the component that holds `i` ends.
pub open spec fn component_end(path: Seq<char>, i: int) -> int
    decreases path.len() - i,
{
    if 0 <= i < path.len() && path[i] != '/' {
        component_end(path, i + 1)
    } else {
        i
    }
}

proof fn lemma_component_bounds(path: Seq<char>, i: int)
    requires
        0 <= i <= path.len(),
    ensures
        i <= component_start(path, i) <= path.len(),
        i <= component_end(path, i) <= path.len(),
        i < path.len() && path[i] != '/' ==> i < component_end(path, i),
    decreases path.len() - i,
{
    if i < path.len() {
        lemma_component_bounds(path, i + 1);
    }
}

/// Where the rest of `path` starts behind the components of `dir`, taken from `i` and `j` on;
/// nothing where they are not its first ones.
pub open spec fn rest_start(path: Seq<char>, i: int, dir: Seq<char>, j: int) -> Option<int>
    decreases dir.len() - j,
    when 0 <= i <= path.len() && 0 <= j <= dir.len()
    via rest_start_decreases
{
    let a = component_start(path, i);
    let b = component_start(dir, j);
    if b >= dir.len() {
        Some(a)
    } else if a >= path.len() {
        None
    } else if path.subrange(a, component_end(path, a)) == dir.subrange(b, component_end(dir, b)) {
        rest_start(path, component_end(path, a), dir, component_end(dir, b))
    } else {
        None
    }
}

#[via_fn]
proof fn rest_start_decreases(path: Seq<char>, i: int, dir: Seq<char>, j: int) {
    lemma_component_bounds(path, i);
    lemma_component_bounds(dir, j);
    let a = component_start(path, i);
    let b = component_start(dir, j);
    lemma_component_bounds(path, a);
    lemma_component_bounds(dir, b);
    lemma_starts_inside(dir, j);
}

/// Where a component starts there is no separator.
proof fn lemma_starts_inside(path: Seq<char>, i: int)
    requires
        0 <= i <= path.len(),
    ensures
        component_start(path, i) < path.len() ==> path[component_start(path, i)] != '/',
    decreases path.len() - i,
{
    if i < path.len() && is_between(path, i) {
        lemma_starts_inside(path, i + 1);
    }
}

/// A whole path without what is superfluous at its end.
pub open spec fn normal_path(path: Seq<char>) -> Seq<char> {
    if is_absolute(path) && normal_end(path).len() == 0 {
        "/"@
    } else {
        normal_end(path)
    }
}

/// What is left of a path when the components of a directory are taken off its front; nothing
/// where it does not lie under that directory.
pub open spec fn stripped(path: Seq<char>, dir: Seq<char>) -> Option<Seq<char>> {
    if dir.len() == 0 {
        Some(normal_path(path))
    } else if is_absolute(path) != is_absolute(dir) {
        None
    } else {
        match rest_start(path, 0, dir, 0) {
            Some(i) => {
                let end = normal_end(path).len() as int;
                if i < end {
                    Some(path.subrange(i, end))
                } else {
                    Some(Seq::empty())
                }
            },
            None => None,
        }
    }
}

fn find_component_start(cs: &Vec<char>, i: usize) -> (r: usize)
    requires
        i <= cs@.len(),
    ensures
        r == component_start(cs@, i as int),
        i <= r <= cs@.len(),
{
    let mut k: usize = i;
    while k < cs.len() && (cs[k] == '/' || (k > 0 && cs[k] == '.' && (k + 1 == cs.len() || cs[k + 1]
        == '/')))
        invariant
            i <= k <= cs@.len(),
            component_start(cs@, i as int) == component_start(cs@, k as int),
        decreases cs@.len() - k,
    {
        k += 1;
    }
    k
}

fn find_component_end(cs: &Vec<char>, i: usize) -> (r: usize)
    requires
        i <= cs@.len(),
    ensures
        r == component_end(cs@, i as int),
        i <= r <= cs@.len(),
{
    let mut k: usize = i;
    while k < cs.len() && cs[k] != '/'
        invariant
            i <= k <= cs@.len(),
            component_end(cs@, i as int) == component_end(cs@, k as int),
        decreases cs@.len() - k,
    {
        k += 1;
    }
    k
}

/// Whether two stretches hold the same characters.
fn same_stretch(a: &Vec<char>, i: usize, j: usize, b: &Vec<char>, k: usize, l: usize) -> (r: bool)
    requires
        i <= j <= a@.len(),
        k <= l <= b@.len(),
    ensures
        r == (a@.subrange(i as int, j as int) == b@.subrange(k as int, l as int)),
{
    let ghost left = a@.subrange(i as int, j as int);
    let ghost right = b@.subrange(k as int, l as int);
    if j - i != l - k {
        assert(left.len() != right.len());
        return false;
    }
    let n: usize = j - i;
    let mut m: usize = 0;
    while m < n
        invariant
            m <= n == j - i == l - k,
            i <= j <= a@.len(),
            k <= l <= b@.len(),
            left == a@.subrange(i as int, j as int),
            right == b@.subrange(k as int, l as int),
            forall|x: int| 0 <= x < m ==> left[x] == right[x],
        decreases n - m,
    {
        if a[i + m] != b[k + m] {
            assert(left[m as int] != right[m as int]);
            return false;
        }
        m += 1;
    }
    assert(left == right);
    true
}

fn find_rest(path: &Vec<char>, dir: &Vec<char>) -> (r: Option<usize>)
    ensures
        match r {
            Some(i) => rest_start(path@, 0, dir@, 0) == Some(i as int) && i <= path@.len(),
            None => rest_start(path@, 0, dir@, 0) is None,
        },
{
    let mut i: usize = 0;
    let mut j: usize = 0;
    loop
        invariant
            i <= path@.len(),
            j <= dir@.len(),
            rest_start(path@, 0, dir@, 0) == rest_start(path@, i as int, dir@, j as int),
        decreases dir@.len() - j,
    {
        let a: usize = find_component_start(path, i);
        let b: usize = find_component_start(dir, j);
        if b == dir.len() {
            return Some(a);
        }
        if a == path.len() {
            return None;
        }
        let ae: usize = find_component_end(path, a);
        let be: usize = find_component_end(dir, b);
        proof {
            lemma_starts_inside(dir@, j as int);
            lemma_component_bounds(dir@, b as int);
        }
        if !same_stretch(path, a, ae, dir, b, be) {
            return None;
        }
        i = ae;
        j = be;
    }
}

/// What is left of `path` behind `dir`.
fn strip(path: &str, dir: &str) -> (r: Option<String>)
    ensures
        match r {
            Some(s) => stripped(path@, dir@) == Some(s@),
            None => stripped(path@, dir@) is None,
        },
{
    let ps = chars_of(path);
    let ds = chars_of(dir);
    let end: usize = normal_len(&ps);
    assert(normal_end(path@) == path@.subrange(0, end as int));
    let rooted = ps.len() > 0 && ps[0] == '/';
    if ds.len() == 0 {
        if rooted && end == 0 {
            return Some("/".to_owned());
        }
        return Some(path.substring_char(0, end).to_owned());
    }
    if rooted != (ds[0] == '/') {
        return None;
    }
    match find_rest(&ps, &ds) {
        Some(i) => {
            if i < end {
                Some(path.substring_char(i, end).to_owned())
            } else {
                Some(String::new())
            }
        },
        None => None,
    }
}

/// How a file is named from the directory of the config: both are taken from the working
/// directory, and a file that does not lie under that directory keeps its full path.
pub open spec fn rel_path_spec(
    name: Seq<char>,
    config_dir: Option<Seq<char>>,
    cwd: Seq<char>,
) -> Seq<char> {
    match config_dir {
        None => name,
        Some(dir) => match stripped(joined_path(cwd, name), joined_path(cwd, dir)) {
            Some(rest) => rest,
            None => joined_path(cwd, name),
        },
    }
}

/// A linted file's path made relative to the config dir (for glob matching).
/// Both the file path and the config dir are absolutized against the current
/// working directory first, so an ignore glob written relative to the config
/// dir still matches when pgsafe is invoked from a subdirectory.
pub fn rel_path(name: &str, config_dir: &Option<String>, cwd: &str) -> (r: String)
    ensures
        r@ == rel_path_spec(name@, text_of(*config_dir), cwd@),
{
    match config_dir {
        None => name.to_owned(),
        Some(dir) => {
            let abs_name = join_path(cwd, name);
            let abs_dir = join_path(cwd, dir.as_str());
            match strip(abs_name.as_str(), abs_dir.as_str()) {
                Some(rest) => rest,
                None => abs_name,
            }
        },
    }
}

/// Whether `path` goes on behind `dir` with a new component.
spec fn goes_on(path: Seq<char>, dir: Seq<char>) -> bool {
    &&& dir.len() > 0
    &&& dir.len() < path.len()
    &&& path.take(dir.len() as int) == dir
    &&& dir.last() == '/' || path[dir.len() as int] == '/'
}

proof fn lemma_same_components(path: Seq<char>, dir: Seq<char>, i: int)
    requires
        goes_on(path, dir),
        0 <= i <= dir.len(),
    ensures
        component_start(path, i) == (if component_start(dir, i) < dir.len() {
            component_start(dir, i)
        } else {
            component_start(path, dir.len() as int)
        }),
        i < dir.len() ==> component_end(path, i) == component_end(dir, i),
    decreases dir.len() - i,
{
    if i < dir.len() {
        lemma_component_bounds(dir, i);
        assert(path.take(dir.len() as int)[i] == path[i]);
        if i + 1 < dir.len() {
            assert(path.take(dir.len() as int)[i + 1] == path[i + 1]);
        }
        assert(is_between(path, i) == is_between(dir, i));
        lemma_same_components(path, dir, i + 1);
        lemma_component_bounds(dir, i + 1);
        if i + 1 == dir.len() {
            assert(dir.last() == dir[i]);
            assert(component_end(dir, i + 1) == i + 1);
            if dir[i] != '/' {
                assert(component_end(path, i + 1) == i + 1);
            }
        }
    }
}

proof fn lemma_rest(path: Seq<char>, dir: Seq<char>, i: int)
    requires
        goes_on(path, dir),
        0 <= i <= dir.len(),
    ensures
        rest_start(path, i, dir, i) == Some(component_start(path, dir.len() as int)),
    decreases dir.len() - i,
{
    lemma_same_components(path, dir, i);
    lemma_component_bounds(dir, i);
    lemma_starts_inside(dir, i);
    let b = component_start(dir, i);
    if b < dir.len() {
        lemma_same_components(path, dir, b);
        lemma_component_bounds(dir, b);
        let e = component_end(dir, b);
        assert(path.subrange(b, e) == path.take(dir.len() as int).subrange(b, e));
        lemma_rest(path, dir, e);
    }
}

/// A file under the config's directory is matched by its path from there, whatever directory the
/// run is started in.
pub proof fn a_file_under_the_config_dir_is_named_from_there(
    dir: Seq<char>,
    rel: Seq<char>,
    cwd: Seq<char>,
)
    requires
        is_absolute(dir),
        rel.len() > 0,
        rel[0] != '/',
        rel[0] == '.' ==> rel.len() > 1 && rel[1] != '/',
        normal_end(rel) == rel,
    ensures
        rel_path_spec(joined_path(dir, rel), Some(dir), cwd) == rel,
{
    reveal_strlit("/");
    let path = joined_path(dir, rel);
    let at = path.len() - rel.len();
    assert(path.take(dir.len() as int) == dir);
    assert(path.subrange(at, path.len() as int) == rel);
    assert(path[at] == rel[0]);
    assert(rel.len() > 1 ==> path[at + 1] == rel[1]);
    assert(path.last() == rel.last());
    assert(rel.len() > 1 ==> path[path.len() - 2] == rel[rel.len() - 2]);
    assert(normal_end(path) == path) by {
        assert(rel.last() != '/') by {
            if rel.last() == '/' {
                lemma_normal_end_shortens(rel.drop_last());
            }
        }
        if rel.len() > 1 && rel.last() == '.' && rel[rel.len() - 2] == '/' {
            lemma_normal_end_shortens(rel.drop_last());
        }
    }
    lemma_rest(path, dir, 0);
    assert(component_start(path, at) == at);
    if at > dir.len() {
        assert(path[dir.len() as int] == '/');
        assert(component_start(path, dir.len() as int) == component_start(path, at));
    }
}

proof fn lemma_normal_end_shortens(path: Seq<char>)
    ensures
        normal_end(path).len() <= path.len(),
    decreases path.len(),
{
    if path.len() > 0 {
        lemma_normal_end_shortens(path.drop_last());
    }
}

} // verus!
