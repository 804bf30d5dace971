//! `pgsafe.toml` (or `.pgsafe.toml`) config: discovery, strict validation, and per-file
//! resolution into the rule settings the engine consumes.
use vstd::prelude::*;

use crate::collections::{texts, TextMap, TextSet};
use crate::finding::{NameKind, Severity};
use crate::options::{LintOptions, NamingPatterns};
use crate::outside::{
    glob_build_error, glob_error, glob_is_match, glob_matches, regex_error, regex_new_error,
};
use crate::output::{FailOn, Format};
use crate::rules::words_view;
use crate::text::{str_eq, text_of};

verus! {

/// A config problem. Rendered by the CLI as `error: {0}` and mapped to exit 2.
#[derive(Debug)]
pub struct ConfigError(pub String);

/// A `[rules]` value: enable/disable, or force a severity.
#[derive(Debug, Clone, Copy, PartialEq, Eq, Structural)]
pub enum RuleSetting {
    Enabled(bool),
    Severity(Severity),
}

/// The `[rules]` value that a string stands for: a severity, else nothing.
pub open spec fn severity_setting(s: Seq<char>) -> Option<RuleSetting> {
    if s == "error"@ {
        Some(RuleSetting::Severity(Severity::Error))
    } else if s == "warning"@ {
        Some(RuleSetting::Severity(Severity::Warning))
    } else {
        None
    }
}

/// The `[rules]` value that a string stands for; any string but a severity is an error.
pub fn rule_setting(s: &str) -> (r: Result<RuleSetting, ConfigError>)
    ensures
        match severity_setting(s@) {
            Some(v) => r == Ok::<RuleSetting, ConfigError>(v),
            None => r matches Err(e) && e.0@ == "expected a boolean or \"error\"/\"warning\", got \""@
                + s@ + "\""@,
        },
{
    if str_eq(s, "error") {
        return Ok(RuleSetting::Severity(Severity::Error));
    }
    if str_eq(s, "warning") {
        return Ok(RuleSetting::Severity(Severity::Warning));
    }
    let mut m = "expected a boolean or \"error\"/\"warning\", got \"".to_owned();
    m.append(s);
    m.append("\"");
    Err(ConfigError(m))
}

/// An `[[ignore]]` entry as written on disk.
#[derive(Debug)]
pub struct RawIgnore {
    pub path: String,
    pub rules: Vec<String>,
}

/// The rules of an `[[ignore]]` entry that names none: all of them.
pub fn ignore_all() -> (r: Vec<String>)
    ensures
        texts(r@) == seq!["*"@],
{
    let mut out: Vec<String> = Vec::new();
    out.push("*".to_owned());
    assert(texts(out@) == seq!["*"@]);
    out
}

/// The on-disk config shape.
#[derive(Debug)]
pub struct RawConfig {
    pub fail_on: Option<FailOn>,
    pub in_transaction: Option<bool>,
    pub format: Option<Format>,
    pub since: Option<String>,
    pub rules: TextMap<RuleSetting>,
    pub ignore: Vec<RawIgnore>,
    pub naming: NamingPatterns,
    pub forbidden_types: TextMap<String>,
    pub required_columns: Vec<String>,
    /// Globs of the files that the config governs; none for all files.
    pub paths: Vec<String>,
}

/// A path glob and the ids of the rules that are off for the files it matches.
#[derive(Debug)]
pub struct Ignore {
    pub path: String,
    pub rules: TextSet,
}

/// A validated config ready for per-file resolution.
#[derive(Debug)]
pub struct Config {
    pub fail_on: Option<FailOn>,
    pub in_transaction: Option<bool>,
    pub format: Option<Format>,
    /// Cutoff path for `--since`-style filtering: lint only files whose path sorts after this.
    pub since: Option<String>,
    /// Global `[rules] = false`.
    pub disabled: TextSet,
    /// Global `[rules] = "sev"`.
    pub overrides: TextMap<Severity>,
    /// Global `[rules] = true` / `= "sev"`.
    pub enabled: TextSet,
    /// Glob to rule ids (`"*"` expanded).
    pub ignores: Vec<Ignore>,
    pub naming: NamingPatterns,
    pub forbidden_types: TextMap<String>,
    pub required_columns: TextSet,
    /// Globs of the files that the config governs; none for all files.
    pub paths: Vec<String>,
}

impl Default for Config {
    fn default() -> (r: Config)
        ensures
            r.fail_on is None,
            r.in_transaction is None,
            r.format is None,
            r.since is None,
            r.disabled@.len() == 0,
            r.overrides.keys().len() == 0,
            r.enabled@.len() == 0,
            r.ignores@.len() == 0,
            r.naming.has_none(),
            r.forbidden_types.keys().len() == 0,
            r.required_columns@.len() == 0,
            r.paths@.len() == 0,
    {
        Config {
            fail_on: None,
            in_transaction: None,
            format: None,
            since: None,
            disabled: TextSet::new(),
            overrides: TextMap::new(),
            enabled: TextSet::new(),
            ignores: Vec::new(),
            naming: NamingPatterns::none(),
            forbidden_types: TextMap::new(),
            required_columns: TextSet::new(),
            paths: Vec::new(),
        }
    }
}

/// Whether `id` is among `known`.
fn is_known(id: &str, known: &[&'static str]) -> (r: bool)
    ensures
        r == words_view(known@).contains(id@),
{
    let ghost all = words_view(known@);
    let mut i: usize = 0;
    while i < known.len()
        invariant
            i <= known@.len(),
            all == words_view(known@),
            forall|j: int| 0 <= j < i ==> #[trigger] all[j] != id@,
        decreases known@.len() - i,
    {
        assert(all[i as int] == known@[i as int]@);
        if str_eq(known[i], id) {
            assert(all.contains(id@));
            return true;
        }
        i += 1;
    }
    false
}

/// The first of the rule ids from the `i`-th on that is not known, as an error.
pub open spec fn rules_error(
    ids: Seq<Seq<char>>,
    known: Seq<Seq<char>>,
    i: int,
) -> Option<Seq<char>>
    decreases ids.len() - i,
{
    if i < 0 || i >= ids.len() {
        None
    } else if !known.contains(ids[i]) {
        Some("[rules] targets unknown rule `"@ + ids[i] + "`"@)
    } else {
        rules_error(ids, known, i + 1)
    }
}

/// The first of the rule ids of an `[[ignore]]` entry, from the `i`-th on, that is neither known
/// nor `*`, as an error.
pub open spec fn ignored_error(
    rules: Seq<Seq<char>>,
    known: Seq<Seq<char>>,
    i: int,
) -> Option<Seq<char>>
    decreases rules.len() - i,
{
    if i < 0 || i >= rules.len() {
        None
    } else if rules[i] != "*"@ && !known.contains(rules[i]) {
        Some("[[ignore]] rules list targets unknown rule `"@ + rules[i] + "`"@)
    } else {
        ignored_error(rules, known, i + 1)
    }
}

/// The first error in the `[[ignore]]` entries from the `i`-th on: that of its glob, else that of
/// its rules.
pub open spec fn ignores_error(
    ignore: Seq<RawIgnore>,
    glob_errors: Seq<Option<Seq<char>>>,
    known: Seq<Seq<char>>,
    i: int,
) -> Option<Seq<char>>
    decreases ignore.len() - i,
{
    if i < 0 || i >= ignore.len() {
        None
    } else {
        match glob_errors[i] {
            Some(e) => Some("[[ignore]] invalid glob `"@ + ignore[i].path@ + "`: "@ + e),
            None => match ignored_error(texts(ignore[i].rules@), known, 0) {
                Some(e) => Some(e),
                None => ignores_error(ignore, glob_errors, known, i + 1),
            },
        }
    }
}

/// The kinds of names in the order in which their patterns are validated.
pub open spec fn nth_kind_spec(i: int) -> NameKind {
    if i == 0 {
        NameKind::Table
    } else if i == 1 {
        NameKind::Column
    } else if i == 2 {
        NameKind::Index
    } else if i == 3 {
        NameKind::Constraint
    } else if i == 4 {
        NameKind::Sequence
    } else if i == 5 {
        NameKind::Trigger
    } else {
        NameKind::Schema
    }
}

fn nth_kind(i: usize) -> (r: NameKind)
    ensures
        r == nth_kind_spec(i as int),
{
    match i {
        0 => NameKind::Table,
        1 => NameKind::Column,
        2 => NameKind::Index,
        3 => NameKind::Constraint,
        4 => NameKind::Sequence,
        5 => NameKind::Trigger,
        _ => NameKind::Schema,
    }
}

/// The first naming pattern, from the `i`-th kind on, that is not a regex, as an error.
pub open spec fn naming_error(naming: NamingPatterns, i: int) -> Option<Seq<char>>
    decreases 7 - i,
{
    if i < 0 || i >= 7 {
        None
    } else {
        match naming.pattern(nth_kind_spec(i)) {
            Some(p) => match regex_new_error(p) {
                Some(e) => Some(
                    "[naming] "@ + nth_kind_spec(i).label() + " is not a valid regex: "@ + e,
                ),
                None => naming_error(naming, i + 1),
            },
            None => naming_error(naming, i + 1),
        }
    }
}

/// The first of the `paths` globs, from the `i`-th on, that is malformed, as an error.
pub open spec fn paths_error(
    paths: Seq<Seq<char>>,
    glob_errors: Seq<Option<Seq<char>>>,
    i: int,
) -> Option<Seq<char>>
    decreases paths.len() - i,
{
    if i < 0 || i >= paths.len() {
        None
    } else {
        match glob_errors[i] {
            Some(e) => Some("paths invalid glob `"@ + paths[i] + "`: "@ + e),
            None => paths_error(paths, glob_errors, i + 1),
        }
    }
}

/// What is wrong with a config, given what is wrong with each of its globs: the first unknown
/// rule of `[rules]`, else the first problem of an `[[ignore]]` entry, else the first naming
/// pattern that is not a regex, else the first malformed `paths` glob.
pub open spec fn config_error(
    raw: RawConfig,
    known: Seq<Seq<char>>,
    ignore_errors: Seq<Option<Seq<char>>>,
    path_errors: Seq<Option<Seq<char>>>,
) -> Option<Seq<char>> {
    match rules_error(raw.rules.keys(), known, 0) {
        Some(e) => Some(e),
        None => match ignores_error(raw.ignore@, ignore_errors, known, 0) {
            Some(e) => Some(e),
            None => match naming_error(raw.naming, 0) {
                Some(e) => Some(e),
                None => paths_error(texts(raw.paths@), path_errors, 0),
            },
        },
    }
}

/// Whether an `[[ignore]]` entry turns a rule off: it names the rule or all of them.
pub open spec fn ignores_rule(rules: Seq<Seq<char>>, known: Seq<Seq<char>>, id: Seq<char>) -> bool {
    known.contains(id) && (rules.contains(id) || rules.contains("*"@))
}

/// Whether `c` is the config that `raw` describes.
pub open spec fn compiles_to(raw: RawConfig, known: Seq<Seq<char>>, c: Config) -> bool {
    &&& c.fail_on == raw.fail_on
    &&& c.in_transaction == raw.in_transaction
    &&& c.format == raw.format
    &&& c.since == raw.since
    &&& c.naming == raw.naming
    &&& c.forbidden_types == raw.forbidden_types
    &&& rules_compile_to(raw.rules, c.disabled@, c.overrides, c.enabled@)
    &&& c.ignores@.len() == raw.ignore@.len()
    &&& forall|i: int|
        0 <= i < raw.ignore@.len() ==> ignore_compiles_to(
            raw.ignore@[i],
            known,
            #[trigger] c.ignores@[i],
        )
    &&& forall|x: Seq<char>| #[trigger]
        c.required_columns@.contains(x) <==> texts(raw.required_columns@).contains(x)
    &&& c.paths == raw.paths
}

/// What `[rules]` disables, overrides and enables. A severity enables its rule as `true` does.
pub open spec fn rules_compile_to(
    rules: TextMap<RuleSetting>,
    disabled: Seq<Seq<char>>,
    overrides: TextMap<Severity>,
    enabled: Seq<Seq<char>>,
) -> bool {
    &&& forall|x: Seq<char>| #[trigger]
        disabled.contains(x) <==> rules.has(x) && rules.value_of(x) == RuleSetting::Enabled(false)
    &&& forall|x: Seq<char>| #[trigger]
        enabled.contains(x) <==> rules.has(x) && rules.value_of(x) != RuleSetting::Enabled(false)
    &&& forall|x: Seq<char>| #[trigger]
        overrides.has(x) <==> rules.has(x) && rules.value_of(x) is Severity
    &&& forall|x: Seq<char>| #[trigger]
        overrides.has(x) ==> rules.value_of(x) == RuleSetting::Severity(overrides.value_of(x))
}

/// Whether `c` is the compiled form of an `[[ignore]]` entry.
pub open spec fn ignore_compiles_to(raw: RawIgnore, known: Seq<Seq<char>>, c: Ignore) -> bool {
    &&& c.path@ == raw.path@
    &&& forall|x: Seq<char>| #[trigger]
        c.rules@.contains(x) <==> ignores_rule(texts(raw.rules@), known, x)
}

proof fn lemma_take_contains(s: Seq<Seq<char>>, i: int)
    requires
        0 <= i < s.len(),
    ensures
        forall|x: Seq<char>| #[trigger]
            s.take(i + 1).contains(x) <==> s.take(i).contains(x) || x == s[i],
{
    let longer = s.take(i + 1);
    let shorter = s.take(i);
    assert forall|x: Seq<char>| #[trigger] longer.contains(x) implies (shorter.contains(x) || x
        == s[i]) by {
        let j = choose|j: int| 0 <= j < longer.len() && longer[j] == x;
        if j < i {
            assert(shorter[j] == x);
        }
    }
    assert forall|x: Seq<char>| shorter.contains(x) || x == s[i] implies #[trigger] longer.contains(
        x,
    ) by {
        if shorter.contains(x) {
            let j = choose|j: int| 0 <= j < shorter.len() && shorter[j] == x;
            assert(longer[j] == x);
        } else {
            assert(longer[i] == x);
        }
    }
}

/// `before`, a text, and a closing backquote.
fn quoting(before: &str, id: &str) -> (r: ConfigError)
    ensures
        r.0@ == before@ + id@ + "`"@,
{
    let mut m = before.to_owned();
    m.append(id);
    m.append("`");
    ConfigError(m)
}

/// `before`, a glob, and its error.
fn glob_problem(before: &str, glob: &str, error: &str) -> (r: ConfigError)
    ensures
        r.0@ == before@ + glob@ + "`: "@ + error@,
{
    let mut m = before.to_owned();
    m.append(glob);
    m.append("`: ");
    m.append(error);
    ConfigError(m)
}

/// The `[rules]` table: what is disabled, what has its severity forced, what is enabled.
fn compile_rules(
    rules: &TextMap<RuleSetting>,
    known: &[&'static str],
) -> (r: Result<(TextSet, TextMap<Severity>, TextSet), ConfigError>)
    ensures
        match r {
            Ok(t) => rules_error(rules.keys(), words_view(known@), 0) is None
                && rules_compile_to(*rules, t.0@, t.1, t.2@),
            Err(e) => rules_error(rules.keys(), words_view(known@), 0) == Some(e.0@),
        },
{
    let mut disabled = TextSet::new();
    let mut overrides: TextMap<Severity> = TextMap::new();
    let mut enabled = TextSet::new();
    let ghost keys = rules.keys();
    let ghost ids = words_view(known@);
    let n: usize = rules.len();
    let mut i: usize = 0;
    while i < n
        invariant
            i <= n == keys.len(),
            keys == rules.keys(),
            ids == words_view(known@),
            rules_error(keys, ids, 0) == rules_error(keys, ids, i as int),
            forall|x: Seq<char>| #[trigger]
                disabled@.contains(x) <==> keys.take(i as int).contains(x) && rules.value_of(x)
                    == RuleSetting::Enabled(false),
            forall|x: Seq<char>| #[trigger]
                enabled@.contains(x) <==> keys.take(i as int).contains(x) && rules.value_of(x)
                    != RuleSetting::Enabled(false),
            forall|x: Seq<char>| #[trigger]
                overrides.has(x) <==> keys.take(i as int).contains(x)
                    && rules.value_of(x) is Severity,
            forall|x: Seq<char>| #[trigger]
                overrides.has(x) ==> rules.value_of(x) == RuleSetting::Severity(
                    overrides.value_of(x),
                ),
        decreases n - i,
    {
        let id = rules.key_at(i);
        if !is_known(id.as_str(), known) {
            return Err(quoting("[rules] targets unknown rule `", id.as_str()));
        }
        proof {
            lemma_take_contains(keys, i as int);
        }
        match *rules.value_at(i) {
            RuleSetting::Enabled(true) => {
                enabled.insert(id.as_str().to_owned());
            },
            RuleSetting::Enabled(false) => {
                disabled.insert(id.as_str().to_owned());
            },
            RuleSetting::Severity(s) => {
                overrides.insert(id.as_str().to_owned(), s);
                enabled.insert(id.as_str().to_owned());
            },
        }
        i += 1;
    }
    proof {
        assert(keys.take(keys.len() as int) == keys);
    }
    Ok((disabled, overrides, enabled))
}

/// The rules that an `[[ignore]]` entry turns off.
fn compile_ignored(rules: &Vec<String>, known: &[&'static str]) -> (r: Result<TextSet, ConfigError>)
    ensures
        match r {
            Ok(t) => ignored_error(texts(rules@), words_view(known@), 0) is None && forall|
                x: Seq<char>,
            | #[trigger]
                t@.contains(x) <==> ignores_rule(texts(rules@), words_view(known@), x),
            Err(e) => ignored_error(texts(rules@), words_view(known@), 0) == Some(e.0@),
        },
{
    let ghost names = texts(rules@);
    let ghost ids = words_view(known@);
    let mut out = TextSet::new();
    let mut i: usize = 0;
    while i < rules.len()
        invariant
            i <= rules@.len(),
            names == texts(rules@),
            ids == words_view(known@),
            ignored_error(names, ids, 0) == ignored_error(names, ids, i as int),
            forall|x: Seq<char>| #[trigger]
                out@.contains(x) <==> ignores_rule(names.take(i as int), ids, x),
        decreases rules@.len() - i,
    {
        let name = rules[i].as_str();
        proof {
            lemma_take_contains(names, i as int);
            assert(names[i as int] == name@);
        }
        if str_eq(name, "*") {
            extend_known(&mut out, known);
        } else if is_known(name, known) {
            out.insert(name.to_owned());
        } else {
            return Err(quoting("[[ignore]] rules list targets unknown rule `", name));
        }
        i += 1;
    }
    proof {
        assert(names.take(names.len() as int) == names);
    }
    Ok(out)
}

/// Adds every known id.
fn extend_known(set: &mut TextSet, known: &[&'static str])
    ensures
        forall|x: Seq<char>| #[trigger]
            final(set)@.contains(x) <==> old(set)@.contains(x) || words_view(known@).contains(x),
{
    let ghost before = set@;
    let ghost ids = words_view(known@);
    let mut i: usize = 0;
    while i < known.len()
        invariant
            i <= known@.len(),
            ids == words_view(known@),
            forall|x: Seq<char>| #[trigger]
                set@.contains(x) <==> before.contains(x) || ids.take(i as int).contains(x),
        decreases known@.len() - i,
    {
        proof {
            lemma_take_contains(ids, i as int);
            assert(ids[i as int] == known@[i as int]@);
        }
        set.insert(known[i].to_owned());
        i += 1;
    }
    proof {
        assert(ids.take(ids.len() as int) == ids);
    }
}

/// What is wrong with each of some globs.
pub open spec fn errors_view(errors: Seq<Option<String>>) -> Seq<Option<Seq<char>>> {
    errors.map_values(|e: Option<String>| text_of(e))
}

/// The `[[ignore]]` entries.
fn compile_ignores(
    ignore: &Vec<RawIgnore>,
    known: &[&'static str],
    errors: &Vec<Option<String>>,
) -> (r: Result<Vec<Ignore>, ConfigError>)
    requires
        errors@.len() == ignore@.len(),
    ensures
        match r {
            Ok(v) => ignores_error(ignore@, errors_view(errors@), words_view(known@), 0) is None
                && v@.len() == ignore@.len() && forall|i: int|
                0 <= i < ignore@.len() ==> ignore_compiles_to(
                    ignore@[i],
                    words_view(known@),
                    #[trigger] v@[i],
                ),
            Err(e) => ignores_error(ignore@, errors_view(errors@), words_view(known@), 0) == Some(
                e.0@,
            ),
        },
{
    let ghost ids = words_view(known@);
    let ghost es = errors_view(errors@);
    let mut out: Vec<Ignore> = Vec::new();
    let mut i: usize = 0;
    while i < ignore.len()
        invariant
            i <= ignore@.len() == errors@.len(),
            ids == words_view(known@),
            es == errors_view(errors@),
            ignores_error(ignore@, es, ids, 0) == ignores_error(ignore@, es, ids, i as int),
            out@.len() == i,
            forall|j: int|
                0 <= j < i ==> ignore_compiles_to(ignore@[j], ids, #[trigger] out@[j]),
        decreases ignore@.len() - i,
    {
        assert(es[i as int] == text_of(errors@[i as int]));
        if let Some(e) = &errors[i] {
            return Err(
                glob_problem("[[ignore]] invalid glob `", ignore[i].path.as_str(), e.as_str()),
            );
        }
        match compile_ignored(&ignore[i].rules, known) {
            Ok(rules) => {
                out.push(Ignore { path: ignore[i].path.as_str().to_owned(), rules });
            },
            Err(e) => {
                return Err(e);
            },
        }
        i += 1;
    }
    Ok(out)
}

/// Checks that every naming pattern is a regex.
fn check_naming(naming: &NamingPatterns) -> (r: Option<ConfigError>)
    ensures
        match r {
            Some(e) => naming_error(*naming, 0) == Some(e.0@),
            None => naming_error(*naming, 0) is None,
        },
{
    let mut i: usize = 0;
    while i < 7
        invariant
            i <= 7,
            naming_error(*naming, 0) == naming_error(*naming, i as int),
        decreases 7 - i,
    {
        let kind = nth_kind(i);
        if let Some(p) = naming.get(kind) {
            if let Some(e) = regex_error(p.as_str()) {
                let mut m = "[naming] ".to_owned();
                m.append(kind.as_str());
                m.append(" is not a valid regex: ");
                m.append(e.as_str());
                return Some(ConfigError(m));
            }
        }
        i += 1;
    }
    None
}

/// Checks that every `paths` glob is well-formed.
fn check_paths(paths: &Vec<String>, errors: &Vec<Option<String>>) -> (r: Option<ConfigError>)
    requires
        errors@.len() == paths@.len(),
    ensures
        match r {
            Some(e) => paths_error(texts(paths@), errors_view(errors@), 0) == Some(e.0@),
            None => paths_error(texts(paths@), errors_view(errors@), 0) is None,
        },
{
    let ghost ps = texts(paths@);
    let ghost es = errors_view(errors@);
    let mut i: usize = 0;
    while i < paths.len()
        invariant
            i <= paths@.len() == errors@.len(),
            ps == texts(paths@),
            es == errors_view(errors@),
            paths_error(ps, es, 0) == paths_error(ps, es, i as int),
        decreases paths@.len() - i,
    {
        assert(es[i as int] == text_of(errors@[i as int]));
        assert(ps[i as int] == paths@[i as int]@);
        if let Some(e) = &errors[i] {
            return Some(glob_problem("paths invalid glob `", paths[i].as_str(), e.as_str()));
        }
        i += 1;
    }
    None
}

/// The set of some names.
fn set_of(names: &Vec<String>) -> (r: TextSet)
    ensures
        forall|x: Seq<char>| #[trigger] r@.contains(x) <==> texts(names@).contains(x),
{
    let ghost all = texts(names@);
    let mut out = TextSet::new();
    let mut i: usize = 0;
    while i < names.len()
        invariant
            i <= names@.len(),
            all == texts(names@),
            forall|x: Seq<char>| #[trigger]
                out@.contains(x) <==> all.take(i as int).contains(x),
        decreases names@.len() - i,
    {
        proof {
            lemma_take_contains(all, i as int);
            assert(all[i as int] == names@[i as int]@);
        }
        out.insert(names[i].as_str().to_owned());
        i += 1;
    }
    proof {
        assert(all.take(all.len() as int) == all);
    }
    out
}

/// Validates a config against the known rule ids and what is wrong with each of its globs.
pub fn compile_checked(
    raw: RawConfig,
    known: &[&'static str],
    ignore_errors: &Vec<Option<String>>,
    path_errors: &Vec<Option<String>>,
) -> (r: Result<Config, ConfigError>)
    requires
        ignore_errors@.len() == raw.ignore@.len(),
        path_errors@.len() == raw.paths@.len(),
    ensures
        match config_error(
            raw,
            words_view(known@),
            errors_view(ignore_errors@),
            errors_view(path_errors@),
        ) {
            Some(m) => r matches Err(e) && e.0@ == m,
            None => r matches Ok(c) && compiles_to(raw, words_view(known@), c),
        },
{
    let (disabled, overrides, enabled) = match compile_rules(&raw.rules, known) {
        Ok(t) => t,
        Err(e) => {
            return Err(e);
        },
    };
    let ignores = match compile_ignores(&raw.ignore, known, ignore_errors) {
        Ok(v) => v,
        Err(e) => {
            return Err(e);
        },
    };
    if let Some(e) = check_naming(&raw.naming) {
        return Err(e);
    }
    if let Some(e) = check_paths(&raw.paths, path_errors) {
        return Err(e);
    }
    let required_columns = set_of(&raw.required_columns);
    Ok(
        Config {
            fail_on: raw.fail_on,
            in_transaction: raw.in_transaction,
            format: raw.format,
            since: raw.since,
            disabled,
            overrides,
            enabled,
            ignores,
            naming: raw.naming,
            forbidden_types: raw.forbidden_types,
            required_columns,
            paths: raw.paths,
        },
    )
}

/// Whether `error` may be what building a glob reports. It is fixed unless the glob has a
/// backslash.
pub open spec fn may_be_glob_error(glob: Seq<char>, error: Option<Seq<char>>) -> bool {
    !glob.contains('\\') ==> error == glob_build_error(glob)
}

/// Whether `errors` may be what building some globs reports.
pub open spec fn may_be_glob_errors(globs: Seq<Seq<char>>, errors: Seq<Option<Seq<char>>>) -> bool {
    &&& errors.len() == globs.len()
    &&& forall|i: int| 0 <= i < globs.len() ==> may_be_glob_error(globs[i], #[trigger] errors[i])
}

/// The globs of some `[[ignore]]` entries.
pub open spec fn ignore_globs(ignore: Seq<RawIgnore>) -> Seq<Seq<char>> {
    ignore.map_values(|g: RawIgnore| g.path@)
}

fn ignore_glob_errors(ignore: &Vec<RawIgnore>) -> (r: Vec<Option<String>>)
    ensures
        may_be_glob_errors(ignore_globs(ignore@), errors_view(r@)),
{
    let ghost globs = ignore_globs(ignore@);
    let mut out: Vec<Option<String>> = Vec::new();
    let mut i: usize = 0;
    while i < ignore.len()
        invariant
            i <= ignore@.len(),
            globs == ignore_globs(ignore@),
            out@.len() == i,
            forall|j: int|
                0 <= j < i ==> may_be_glob_error(globs[j], text_of(#[trigger] out@[j])),
        decreases ignore@.len() - i,
    {
        assert(globs[i as int] == ignore@[i as int].path@);
        out.push(glob_error(ignore[i].path.as_str()));
        i += 1;
    }
    proof {
        assert forall|j: int| 0 <= j < globs.len() implies may_be_glob_error(
            globs[j],
            #[trigger] errors_view(out@)[j],
        ) by {
            assert(may_be_glob_error(globs[j], text_of(out@[j])));
        }
    }
    out
}

fn path_glob_errors(paths: &Vec<String>) -> (r: Vec<Option<String>>)
    ensures
        may_be_glob_errors(texts(paths@), errors_view(r@)),
{
    let ghost globs = texts(paths@);
    let mut out: Vec<Option<String>> = Vec::new();
    let mut i: usize = 0;
    while i < paths.len()
        invariant
            i <= paths@.len(),
            globs == texts(paths@),
            out@.len() == i,
            forall|j: int|
                0 <= j < i ==> may_be_glob_error(globs[j], text_of(#[trigger] out@[j])),
        decreases paths@.len() - i,
    {
        assert(globs[i as int] == paths@[i as int]@);
        out.push(glob_error(paths[i].as_str()));
        i += 1;
    }
    proof {
        assert forall|j: int| 0 <= j < globs.len() implies may_be_glob_error(
            globs[j],
            #[trigger] errors_view(out@)[j],
        ) by {
            assert(may_be_glob_error(globs[j], text_of(out@[j])));
        }
    }
    out
}

/// Validate a config, compiling it against the set of known rule ids. Any problem is a
/// `ConfigError`.
pub fn compile(raw: RawConfig, known: &[&'static str]) -> (r: Result<Config, ConfigError>)
    ensures
        exists|ie: Seq<Option<Seq<char>>>, pe: Seq<Option<Seq<char>>>|
            {
                &&& may_be_glob_errors(ignore_globs(raw.ignore@), ie)
                &&& may_be_glob_errors(texts(raw.paths@), pe)
                &&& match #[trigger] config_error(raw, words_view(known@), ie, pe) {
                    Some(m) => r matches Err(e) && e.0@ == m,
                    None => r matches Ok(c) && compiles_to(raw, words_view(known@), c),
                }
            },
{
    let ie = ignore_glob_errors(&raw.ignore);
    let pe = path_glob_errors(&raw.paths);
    compile_checked(raw, known, &ie, &pe)
}

/// Whether `matched` may be how a path fares against a glob. It is fixed unless one of them has
/// a backslash.
pub open spec fn may_match(glob: Seq<char>, path: Seq<char>, matched: bool) -> bool {
    !glob.contains('\\') && !path.contains('\\') ==> matched == glob_is_match(glob, path)
}

impl Config {
    /// Whether a rule is off for a file, given which of the `[[ignore]]` globs match it.
    pub open spec fn disables(&self, matched: Seq<bool>, id: Seq<char>) -> bool {
        self.disabled@.contains(id) || exists|i: int|
            0 <= i < self.ignores@.len() && matched[i] && (#[trigger] self.ignores@[i]).rules@.contains(
                id,
            )
    }

    /// Whether `matched` may be how a path fares against the `[[ignore]]` globs.
    pub open spec fn may_be_matched(&self, path: Seq<char>, matched: Seq<bool>) -> bool {
        &&& matched.len() == self.ignores@.len()
        &&& forall|i: int|
            0 <= i < matched.len() ==> may_match(
                self.ignores@[i].path@,
                path,
                #[trigger] matched[i],
            )
    }

    /// Which of the `[[ignore]]` globs match a path.
    fn matched_ignores(&self, rel_path: &str) -> (r: Vec<bool>)
        ensures
            self.may_be_matched(rel_path@, r@),
    {
        let mut out: Vec<bool> = Vec::new();
        let mut i: usize = 0;
        while i < self.ignores.len()
            invariant
                i <= self.ignores@.len(),
                out@.len() == i,
                forall|j: int|
                    0 <= j < i ==> may_match(
                        self.ignores@[j].path@,
                        rel_path@,
                        #[trigger] out@[j],
                    ),
            decreases self.ignores@.len() - i,
        {
            out.push(glob_matches(self.ignores[i].path.as_str(), rel_path));
            i += 1;
        }
        out
    }

    /// The rule ids disabled for a file, given which of the `[[ignore]]` globs match it: the
    /// global disables plus those of every match.
    pub fn disabled_with(&self, matched: &Vec<bool>) -> (r: TextSet)
        requires
            matched@.len() == self.ignores@.len(),
        ensures
            forall|x: Seq<char>| #[trigger] r@.contains(x) <==> self.disables(matched@, x),
    {
        let mut out = self.disabled.duplicate();
        let mut i: usize = 0;
        while i < self.ignores.len()
            invariant
                i <= self.ignores@.len() == matched@.len(),
                forall|x: Seq<char>| #[trigger]
                    out@.contains(x) <==> self.disabled@.contains(x) || exists|j: int|
                        0 <= j < i && matched@[j] && (#[trigger] self.ignores@[j]).rules@.contains(
                            x,
                        ),
            decreases self.ignores@.len() - i,
        {
            if matched[i] {
                out.extend(&self.ignores[i].rules);
            }
            i += 1;
        }
        out
    }

    /// The set of rule ids disabled for `rel_path` — the global disables plus every
    /// `[[ignore]]` whose glob matches (union; `"*"` already expanded at load).
    pub fn disabled_for(&self, rel_path: &str) -> (r: TextSet)
        ensures
            exists|matched: Seq<bool>| #[trigger]
                self.may_be_matched(rel_path@, matched) && forall|x: Seq<char>| #[trigger]
                    r@.contains(x) <==> self.disables(matched, x),
    {
        let matched = self.matched_ignores(rel_path);
        let r = self.disabled_with(&matched);
        assert(self.may_be_matched(rel_path@, matched@));
        r
    }

    /// Whether a file is governed by the config, given which of the `paths` globs match it: there
    /// are none, or one of them does.
    pub open spec fn governs(&self, matched: Seq<bool>) -> bool {
        self.paths@.len() == 0 || matched.contains(true)
    }

    /// Whether `matched` may be how a path fares against the `paths` globs.
    pub open spec fn may_be_scoped(&self, path: Seq<char>, matched: Seq<bool>) -> bool {
        &&& matched.len() == self.paths@.len()
        &&& forall|i: int|
            0 <= i < matched.len() ==> may_match(self.paths@[i]@, path, #[trigger] matched[i])
    }

    /// Whether the answer to whether the config governs a path may be `answer`.
    pub open spec fn may_govern(&self, path: Seq<char>, answer: bool) -> bool {
        exists|matched: Seq<bool>| #[trigger]
            self.may_be_scoped(path, matched) && answer == self.governs(matched)
    }

    /// Whether the config's `paths` globs govern `rel_path`; they govern every file when unset.
    pub fn in_scope(&self, rel_path: &str) -> (r: bool)
        ensures
            self.may_govern(rel_path@, r),
    {
        let mut matched: Vec<bool> = Vec::new();
        let mut any = self.paths.len() == 0;
        let mut i: usize = 0;
        while i < self.paths.len()
            invariant
                i <= self.paths@.len(),
                matched@.len() == i,
                any == (self.paths@.len() == 0 || matched@.contains(true)),
                forall|j: int|
                    0 <= j < i ==> may_match(self.paths@[j]@, rel_path@, #[trigger] matched@[j]),
            decreases self.paths@.len() - i,
        {
            let m = glob_matches(self.paths[i].as_str(), rel_path);
            let ghost before = matched@;
            matched.push(m);
            proof {
                if before.contains(true) {
                    let j = choose|j: int| 0 <= j < before.len() && before[j] == true;
                    assert(matched@[j] == true);
                }
                if m {
                    assert(matched@[i as int] == true);
                }
            }
            any = any || m;
            i += 1;
        }
        assert(self.may_be_scoped(rel_path@, matched@));
        any
    }

    /// Global severity overrides (same for every file).
    pub fn overrides(&self) -> (r: &TextMap<Severity>)
        ensures
            *r == self.overrides,
    {
        &self.overrides
    }

    /// Rule ids explicitly enabled in config (global). Opt-in rules run only when their id is here.
    pub fn enabled(&self) -> (r: &TextSet)
        ensures
            *r == self.enabled,
    {
        &self.enabled
    }

    /// Per-kind naming-convention patterns (global).
    pub fn naming(&self) -> (r: &NamingPatterns)
        ensures
            *r == self.naming,
    {
        &self.naming
    }

    /// Forbidden column types → suggested replacement (global).
    pub fn forbidden_types(&self) -> (r: &TextMap<String>)
        ensures
            *r == self.forbidden_types,
    {
        &self.forbidden_types
    }

    /// Column names every CREATE TABLE must include (global).
    pub fn required_columns(&self) -> (r: &TextSet)
        ensures
            *r == self.required_columns,
    {
        &self.required_columns
    }
}

/// Whether `o` has the settings of a config that are the same for every file.
pub open spec fn options_match(
    config: Config,
    assume_in_transaction: bool,
    o: LintOptions,
) -> bool {
    &&& o.assume_in_transaction == assume_in_transaction
    &&& o.enabled_rules@ == config.enabled@
    &&& o.severity_overrides.keys() == config.overrides.keys()
    &&& o.severity_overrides.values() == config.overrides.values()
    &&& o.naming_patterns == config.naming
    &&& o.forbidden_column_types.keys() == config.forbidden_types.keys()
    &&& o.forbidden_column_types.values() == config.forbidden_types.values()
    &&& o.required_columns@ == config.required_columns@
}

/// The lint options of one file: the config's global settings, and the rules it disables for
/// `rel_path`.
pub fn options_from(
    config: &Config,
    rel_path: &str,
    assume_in_transaction: bool,
) -> (r: LintOptions)
    ensures
        options_match(*config, assume_in_transaction, r),
        exists|matched: Seq<bool>| #[trigger]
            config.may_be_matched(rel_path@, matched) && forall|x: Seq<char>| #[trigger]
                r.disabled_rules@.contains(x) <==> config.disables(matched, x),
{
    LintOptions {
        assume_in_transaction,
        disabled_rules: config.disabled_for(rel_path),
        enabled_rules: config.enabled().duplicate(),
        severity_overrides: config.overrides().duplicate(),
        naming_patterns: config.naming().duplicate(),
        forbidden_column_types: config.forbidden_types().duplicate(),
        required_columns: config.required_columns().duplicate(),
    }
}

/// Config file names discovery looks for, in precedence order: the plain
/// `pgsafe.toml` first (preferred — dotfiles are easy to overlook and many tools
/// skip them), then the hidden `.pgsafe.toml`. If a directory holds both, the
/// non-dotfile wins.
pub fn candidates() -> (r: Vec<&'static str>)
    ensures
        words_view(r@) == seq!["pgsafe.toml"@, ".pgsafe.toml"@],
{
    let mut out: Vec<&'static str> = Vec::new();
    out.push("pgsafe.toml");
    out.push(".pgsafe.toml");
    assert(words_view(out@) == seq!["pgsafe.toml"@, ".pgsafe.toml"@]);
    out
}

/// What a directory holds that discovery looks at.
#[derive(Debug, Clone, Copy, PartialEq, Eq, Structural)]
pub struct DirEntry {
    /// A file `pgsafe.toml`.
    pub plain: bool,
    /// A file `.pgsafe.toml`.
    pub hidden: bool,
    /// A `.git`, which marks the root of a repository.
    pub git: bool,
}

/// What discovery does at a directory.
#[derive(Debug, Clone, Copy, PartialEq, Eq, Structural)]
pub enum Discovery {
    /// Take this candidate, counted in precedence order.
    Take(usize),
    /// There is no config: this is the repository root.
    Stop,
    /// Look in the parent directory.
    Ascend,
}

/// What discovery does at a directory.
pub open spec fn discover_spec(d: DirEntry) -> Discovery {
    if d.plain {
        Discovery::Take(0)
    } else if d.hidden {
        Discovery::Take(1)
    } else if d.git {
        Discovery::Stop
    } else {
        Discovery::Ascend
    }
}

/// Walk up from a directory to the first one holding a candidate config file, stopping at a
/// `.git` boundary: what to do at a directory that holds `d`.
pub fn discover_step(d: DirEntry) -> (r: Discovery)
    ensures
        r == discover_spec(d),
{
    if d.plain {
        Discovery::Take(0)
    } else if d.hidden {
        Discovery::Take(1)
    } else if d.git {
        Discovery::Stop
    } else {
        Discovery::Ascend
    }
}

/// The directory, counted upwards from the `i`-th, and the candidate that discovery takes from
/// a chain of directories.
pub open spec fn discovered(dirs: Seq<DirEntry>, i: int) -> Option<(int, int)>
    decreases dirs.len() - i,
{
    if i < 0 || i >= dirs.len() {
        None
    } else {
        match discover_spec(dirs[i]) {
            Discovery::Take(c) => Some((i, c as int)),
            Discovery::Stop => None,
            Discovery::Ascend => discovered(dirs, i + 1),
        }
    }
}

/// Walk up a chain of directories to the first that holds a candidate config file, stopping at a
/// `.git` boundary or the end of the chain. Gives the directory and the candidate.
pub fn discover(dirs: &Vec<DirEntry>) -> (r: Option<(usize, usize)>)
    ensures
        match r {
            Some((d, c)) => discovered(dirs@, 0) == Some((d as int, c as int)),
            None => discovered(dirs@, 0) is None,
        },
{
    let mut i: usize = 0;
    while i < dirs.len()
        invariant
            i <= dirs@.len(),
            discovered(dirs@, 0) == discovered(dirs@, i as int),
        decreases dirs@.len() - i,
    {
        match discover_step(dirs[i]) {
            Discovery::Take(c) => {
                return Some((i, c));
            },
            Discovery::Stop => {
                return None;
            },
            Discovery::Ascend => {},
        }
        i += 1;
    }
    None
}

/// Whether the file at `path` with `extension` is in a supported format; the problem where not.
pub fn check_extension(path: &str, extension: Option<&str>) -> (r: Result<(), ConfigError>)
    ensures
        match extension {
            Some(x) => if x@ == "toml"@ {
                r is Ok
            } else {
                r matches Err(e) && e.0@ == path@ + ": unsupported config format `."@ + x@ + "`"@
            },
            None => r is Ok,
        },
{
    if let Some(x) = extension {
        if !str_eq(x, "toml") {
            let mut m = path.to_owned();
            m.append(": unsupported config format `.");
            m.append(x);
            m.append("`");
            return Err(ConfigError(m));
        }
    }
    Ok(())
}

} // verus!
