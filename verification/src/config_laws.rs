//! What holds of every validated config.
use vstd::prelude::*;

use crate::collections::texts;
use crate::config::{
    compiles_to, config_error, discovered, ignore_compiles_to, ignored_error, ignores_error,
    ignores_rule, naming_error, options_match, paths_error, rules_error, severity_setting, Config,
    DirEntry, RawConfig, RawIgnore, RuleSetting,
};
use crate::finding::Severity;
use crate::options::LintOptions;
use crate::outside::regex_new_error;

verus! {

proof fn lemma_rules_error(ids: Seq<Seq<char>>, known: Seq<Seq<char>>, i: int)
    requires
        0 <= i <= ids.len(),
    ensures
        rules_error(ids, known, i) is None <==> forall|j: int|
            i <= j < ids.len() ==> known.contains(#[trigger] ids[j]),
    decreases ids.len() - i,
{
    if i < ids.len() {
        lemma_rules_error(ids, known, i + 1);
        if rules_error(ids, known, i) is None {
            assert forall|j: int| i <= j < ids.len() implies known.contains(#[trigger] ids[j]) by {
                if j > i {
                    assert(rules_error(ids, known, i + 1) is None);
                }
            }
        }
    }
}

/// `[rules]` is accepted exactly when it names known rules alone.
pub proof fn rules_are_accepted_when_known(ids: Seq<Seq<char>>, known: Seq<Seq<char>>)
    ensures
        rules_error(ids, known, 0) is None <==> forall|j: int|
            0 <= j < ids.len() ==> known.contains(#[trigger] ids[j]),
{
    lemma_rules_error(ids, known, 0);
}

proof fn lemma_ignored_error(rules: Seq<Seq<char>>, known: Seq<Seq<char>>, i: int)
    requires
        0 <= i <= rules.len(),
    ensures
        ignored_error(rules, known, i) is None <==> forall|j: int|
            i <= j < rules.len() ==> (#[trigger] rules[j]) == "*"@ || known.contains(rules[j]),
    decreases rules.len() - i,
{
    if i < rules.len() {
        lemma_ignored_error(rules, known, i + 1);
        if ignored_error(rules, known, i) is None {
            assert forall|j: int| i <= j < rules.len() implies (#[trigger] rules[j]) == "*"@
                || known.contains(rules[j]) by {
                if j > i {
                    assert(ignored_error(rules, known, i + 1) is None);
                }
            }
        }
    }
}

/// An `[[ignore]]` entry's rules are accepted exactly when each is known or `*`.
pub proof fn ignored_rules_are_accepted_when_known(rules: Seq<Seq<char>>, known: Seq<Seq<char>>)
    ensures
        ignored_error(rules, known, 0) is None <==> forall|j: int|
            0 <= j < rules.len() ==> (#[trigger] rules[j]) == "*"@ || known.contains(rules[j]),
{
    lemma_ignored_error(rules, known, 0);
}

/// A validated config names known rules alone: what it disables, enables or overrides, and what
/// it ignores for some files.
pub proof fn a_config_names_known_rules(
    raw: RawConfig,
    known: Seq<Seq<char>>,
    ignore_errors: Seq<Option<Seq<char>>>,
    path_errors: Seq<Option<Seq<char>>>,
    c: Config,
    id: Seq<char>,
)
    requires
        config_error(raw, known, ignore_errors, path_errors) is None,
        compiles_to(raw, known, c),
    ensures
        c.disabled@.contains(id) ==> known.contains(id),
        c.enabled@.contains(id) ==> known.contains(id),
        c.overrides.has(id) ==> known.contains(id),
        forall|i: int|
            0 <= i < c.ignores@.len() && (#[trigger] c.ignores@[i]).rules@.contains(id)
                ==> known.contains(id),
{
    lemma_rules_error(raw.rules.keys(), known, 0);
    if raw.rules.has(id) {
        let j = choose|j: int| 0 <= j < raw.rules.keys().len() && raw.rules.keys()[j] == id;
        assert(known.contains(raw.rules.keys()[j]));
    }
    assert forall|i: int|
        0 <= i < c.ignores@.len() && (#[trigger] c.ignores@[i]).rules@.contains(id) implies known.contains(
        id,
    ) by {
        assert(ignore_compiles_to(raw.ignore@[i], known, c.ignores@[i]));
        assert(ignores_rule(texts(raw.ignore@[i].rules@), known, id));
    }
}

/// No rule is both disabled and enabled, and a rule whose severity is forced is enabled.
pub proof fn settings_do_not_conflict(
    raw: RawConfig,
    known: Seq<Seq<char>>,
    c: Config,
    id: Seq<char>,
)
    requires
        compiles_to(raw, known, c),
    ensures
        !(c.disabled@.contains(id) && c.enabled@.contains(id)),
        c.overrides.has(id) ==> c.enabled@.contains(id) && !c.disabled@.contains(id),
{
    if c.overrides.has(id) {
        assert(c.enabled@.contains(id) <==> raw.rules.has(id) && raw.rules.value_of(id)
            != RuleSetting::Enabled(false));
        assert(c.disabled@.contains(id) <==> raw.rules.has(id) && raw.rules.value_of(id)
            == RuleSetting::Enabled(false));
    }
}

/// An `[[ignore]]` entry that lists `*` turns every known rule off.
pub proof fn a_star_ignores_every_rule(raw: RawIgnore, known: Seq<Seq<char>>, id: Seq<char>)
    requires
        texts(raw.rules@).contains("*"@),
        known.contains(id),
    ensures
        ignores_rule(texts(raw.rules@), known, id),
{
}

/// What is disabled globally is disabled for every file, and a file that matches more globs has
/// no fewer rules disabled.
pub proof fn ignores_only_add(c: Config, fewer: Seq<bool>, more: Seq<bool>, id: Seq<char>)
    requires
        fewer.len() == c.ignores@.len(),
        more.len() == c.ignores@.len(),
        forall|i: int| 0 <= i < fewer.len() && #[trigger] fewer[i] ==> more[i],
    ensures
        c.disabled@.contains(id) ==> c.disables(fewer, id),
        c.disables(fewer, id) ==> c.disables(more, id),
{
    if c.disables(fewer, id) && !c.disabled@.contains(id) {
        let i = choose|i: int|
            0 <= i < c.ignores@.len() && fewer[i] && (#[trigger] c.ignores@[i]).rules@.contains(id);
        assert(more[i]);
        assert(c.ignores@[i].rules@.contains(id));
    }
}

/// A file that matches no glob has the global disables alone.
pub proof fn an_unmatched_file_has_the_global_disables(c: Config, matched: Seq<bool>, id: Seq<char>)
    requires
        matched.len() == c.ignores@.len(),
        forall|i: int| 0 <= i < matched.len() ==> !#[trigger] matched[i],
    ensures
        c.disables(matched, id) <==> c.disabled@.contains(id),
{
}

/// Whether a directory holds a candidate config file.
pub open spec fn has_candidate(d: DirEntry) -> bool {
    d.plain || d.hidden
}

proof fn lemma_discovered(dirs: Seq<DirEntry>, i: int)
    requires
        0 <= i <= dirs.len(),
    ensures
        match discovered(dirs, i) {
            Some((d, c)) => {
                &&& i <= d < dirs.len()
                &&& has_candidate(dirs[d])
                &&& c == (if dirs[d].plain {
                    0int
                } else {
                    1
                })
                &&& forall|j: int|
                    i <= j < d ==> !has_candidate(#[trigger] dirs[j]) && !dirs[j].git
            },
            None => forall|j: int|
                i <= j < dirs.len() && has_candidate(#[trigger] dirs[j]) ==> exists|k: int|
                    i <= k < j && (#[trigger] dirs[k]).git,
        },
    decreases dirs.len() - i,
{
    if i < dirs.len() {
        lemma_discovered(dirs, i + 1);
        if discovered(dirs, i) is None {
            assert forall|j: int|
                i <= j < dirs.len() && has_candidate(#[trigger] dirs[j]) implies exists|k: int|
                i <= k < j && (#[trigger] dirs[k]).git by {
                if !dirs[i].git {
                    assert(discovered(dirs, i + 1) is None);
                    let k = choose|k: int| i + 1 <= k < j && (#[trigger] dirs[k]).git;
                    assert(dirs[k].git);
                } else {
                    assert(dirs[i].git && i < j);
                }
            }
        }
    }
}

/// Discovery takes the nearest config on the way up, the plain name before the hidden one, and
/// never looks past a repository root.
pub proof fn discovery_takes_the_nearest_config(dirs: Seq<DirEntry>)
    ensures
        match discovered(dirs, 0) {
            Some((d, c)) => {
                &&& 0 <= d < dirs.len()
                &&& has_candidate(dirs[d])
                &&& c == (if dirs[d].plain {
                    0int
                } else {
                    1
                })
                &&& forall|j: int|
                    0 <= j < d ==> !has_candidate(#[trigger] dirs[j]) && !dirs[j].git
            },
            None => forall|j: int|
                0 <= j < dirs.len() && has_candidate(#[trigger] dirs[j]) ==> exists|k: int|
                    0 <= k < j && (#[trigger] dirs[k]).git,
        },
{
    lemma_discovered(dirs, 0);
}

/// A rule that is set to `false` is off, one that is set to `true` is on as it is, one that is set to a
/// severity is on with that severity, and one that is not set is neither.
pub proof fn a_setting_does_what_it_says(
    raw: RawConfig,
    known: Seq<Seq<char>>,
    c: Config,
    id: Seq<char>,
)
    requires
        compiles_to(raw, known, c),
    ensures
        raw.rules.has(id) && raw.rules.value_of(id) == RuleSetting::Enabled(false)
            ==> c.disabled@.contains(id) && !c.enabled@.contains(id) && !c.overrides.has(id),
        raw.rules.has(id) && raw.rules.value_of(id) == RuleSetting::Enabled(true)
            ==> !c.disabled@.contains(id) && c.enabled@.contains(id) && !c.overrides.has(id),
        raw.rules.has(id) && raw.rules.value_of(id) == RuleSetting::Severity(Severity::Error)
            ==> !c.disabled@.contains(id) && c.enabled@.contains(id) && c.overrides.has(id)
            && c.overrides.value_of(id) == Severity::Error,
        raw.rules.has(id) && raw.rules.value_of(id) == RuleSetting::Severity(Severity::Warning)
            ==> !c.disabled@.contains(id) && c.enabled@.contains(id) && c.overrides.has(id)
            && c.overrides.value_of(id) == Severity::Warning,
        !raw.rules.has(id) ==> !c.disabled@.contains(id) && !c.enabled@.contains(id)
            && !c.overrides.has(id),
{
    assert(c.disabled@.contains(id) <==> raw.rules.has(id) && raw.rules.value_of(id)
        == RuleSetting::Enabled(false));
    assert(c.enabled@.contains(id) <==> raw.rules.has(id) && raw.rules.value_of(id)
        != RuleSetting::Enabled(false));
    assert(c.overrides.has(id) <==> raw.rules.has(id) && raw.rules.value_of(id) is Severity);
}

/// The words for a severity in a config are those in which it is reported, and no others.
pub proof fn severities_are_written_as_reported(s: Seq<char>)
    ensures
        severity_setting(s) == Some(RuleSetting::Severity(Severity::Error)) <==> s == "error"@,
        severity_setting(s) == Some(RuleSetting::Severity(Severity::Warning)) <==> s == "warning"@,
        s != "error"@ && s != "warning"@ ==> severity_setting(s) is None,
{
    reveal_strlit("error");
    reveal_strlit("warning");
    assert("error"@.len() == 5 && "warning"@.len() == 7);
}

/// A rule is off for a file exactly if `[rules]` turns it off, or an `[[ignore]]` entry whose glob
/// matches the file lists it, by name or by `*`.
pub proof fn a_rule_is_off_where_it_is_ignored(
    raw: RawConfig,
    known: Seq<Seq<char>>,
    c: Config,
    matched: Seq<bool>,
    id: Seq<char>,
)
    requires
        compiles_to(raw, known, c),
        known.contains(id),
        matched.len() == raw.ignore@.len(),
    ensures
        c.disables(matched, id) <==> (raw.rules.has(id) && raw.rules.value_of(id)
            == RuleSetting::Enabled(false)) || exists|i: int|
            0 <= i < raw.ignore@.len() && matched[i] && (texts(
                (#[trigger] raw.ignore@[i]).rules@,
            ).contains(id) || texts(raw.ignore@[i].rules@).contains("*"@)),
{
    assert(c.disabled@.contains(id) <==> raw.rules.has(id) && raw.rules.value_of(id)
        == RuleSetting::Enabled(false));
    assert forall|i: int| 0 <= i < raw.ignore@.len() implies (
    #[trigger] c.ignores@[i]).rules@.contains(id) == (texts(raw.ignore@[i].rules@).contains(id)
        || texts(raw.ignore@[i].rules@).contains("*"@)) by {
        assert(ignore_compiles_to(raw.ignore@[i], known, c.ignores@[i]));
    }
    if exists|i: int|
        0 <= i < c.ignores@.len() && matched[i] && (#[trigger] c.ignores@[i]).rules@.contains(id) {
        let i = choose|i: int|
            0 <= i < c.ignores@.len() && matched[i] && (#[trigger] c.ignores@[i]).rules@.contains(
                id,
            );
        assert(texts(raw.ignore@[i].rules@).contains(id) || texts(raw.ignore@[i].rules@).contains(
            "*"@,
        ));
    }
    if exists|i: int|
        0 <= i < raw.ignore@.len() && matched[i] && (texts(
            (#[trigger] raw.ignore@[i]).rules@,
        ).contains(id) || texts(raw.ignore@[i].rules@).contains("*"@)) {
        let i = choose|i: int|
            0 <= i < raw.ignore@.len() && matched[i] && (texts(
                (#[trigger] raw.ignore@[i]).rules@,
            ).contains(id) || texts(raw.ignore@[i].rules@).contains("*"@));
        assert(c.ignores@[i].rules@.contains(id));
    }
}

/// A config governs a file exactly if it has no `paths`, or one of them matches the file.
pub proof fn paths_say_what_is_governed(c: Config, matched: Seq<bool>)
    requires
        matched.len() == c.paths@.len(),
    ensures
        c.governs(matched) <==> c.paths@.len() == 0 || exists|i: int|
            0 <= i < matched.len() && #[trigger] matched[i],
{
    if c.paths@.len() > 0 && matched.contains(true) {
        let i = choose|i: int| 0 <= i < matched.len() && matched[i] == true;
        assert(matched[i]);
    }
    if exists|i: int| 0 <= i < matched.len() && #[trigger] matched[i] {
        let i = choose|i: int| 0 <= i < matched.len() && #[trigger] matched[i];
        assert(matched.contains(true));
    }
}

proof fn lemma_ignores_error(
    ignore: Seq<RawIgnore>,
    errors: Seq<Option<Seq<char>>>,
    known: Seq<Seq<char>>,
    i: int,
)
    requires
        0 <= i <= ignore.len(),
        errors.len() == ignore.len(),
    ensures
        ignores_error(ignore, errors, known, i) is None <==> forall|j: int|
            i <= j < ignore.len() ==> (#[trigger] errors[j]) is None && ignored_error(
                texts(ignore[j].rules@),
                known,
                0,
            ) is None,
    decreases ignore.len() - i,
{
    if i < ignore.len() {
        lemma_ignores_error(ignore, errors, known, i + 1);
        if ignores_error(ignore, errors, known, i) is None {
            assert forall|j: int| i <= j < ignore.len() implies (#[trigger] errors[j]) is None
                && ignored_error(texts(ignore[j].rules@), known, 0) is None by {
                if j > i {
                    assert(ignores_error(ignore, errors, known, i + 1) is None);
                }
            }
        }
    }
}

proof fn lemma_paths_error(paths: Seq<Seq<char>>, errors: Seq<Option<Seq<char>>>, i: int)
    requires
        0 <= i <= paths.len(),
        errors.len() == paths.len(),
    ensures
        paths_error(paths, errors, i) is None <==> forall|j: int|
            i <= j < paths.len() ==> (#[trigger] errors[j]) is None,
    decreases paths.len() - i,
{
    if i < paths.len() {
        lemma_paths_error(paths, errors, i + 1);
        if paths_error(paths, errors, i) is None {
            assert forall|j: int| i <= j < paths.len() implies (#[trigger] errors[j]) is None by {
                if j > i {
                    assert(paths_error(paths, errors, i + 1) is None);
                }
            }
        }
    }
}

/// Whether a naming pattern compiles, where there is one.
pub open spec fn is_sound(pattern: Option<String>) -> bool {
    pattern matches Some(p) ==> regex_new_error(p@) is None
}

/// A config is accepted exactly if it names known rules alone, all its globs are well-formed, and all
/// its naming patterns are regexes.
pub proof fn a_config_is_accepted_when_sound(
    raw: RawConfig,
    known: Seq<Seq<char>>,
    ignore_errors: Seq<Option<Seq<char>>>,
    path_errors: Seq<Option<Seq<char>>>,
)
    requires
        ignore_errors.len() == raw.ignore@.len(),
        path_errors.len() == raw.paths@.len(),
    ensures
        config_error(raw, known, ignore_errors, path_errors) is None <==> {
            &&& forall|j: int|
                0 <= j < raw.rules.keys().len() ==> known.contains(#[trigger] raw.rules.keys()[j])
            &&& forall|j: int|
                0 <= j < raw.ignore@.len() ==> (#[trigger] ignore_errors[j]) is None
                    && ignored_error(texts(raw.ignore@[j].rules@), known, 0) is None
            &&& is_sound(raw.naming.table) && is_sound(raw.naming.column) && is_sound(
                raw.naming.index,
            ) && is_sound(raw.naming.constraint) && is_sound(raw.naming.sequence) && is_sound(
                raw.naming.trigger,
            ) && is_sound(raw.naming.schema)
            &&& forall|j: int| 0 <= j < raw.paths@.len() ==> (#[trigger] path_errors[j]) is None
        },
{
    lemma_rules_error(raw.rules.keys(), known, 0);
    lemma_ignores_error(raw.ignore@, ignore_errors, known, 0);
    lemma_paths_error(texts(raw.paths@), path_errors, 0);
    reveal_with_fuel(naming_error, 8);
}

/// Linting a file under a config uses that config's settings.
pub proof fn options_carry_the_config(c: Config, in_transaction: bool, o: LintOptions, id: Seq<char>)
    requires
        options_match(c, in_transaction, o),
    ensures
        o.assume_in_transaction == in_transaction,
        o.enabled_rules@.contains(id) <==> c.enabled@.contains(id),
        o.required_columns@.contains(id) <==> c.required_columns@.contains(id),
        o.severity_overrides.has(id) <==> c.overrides.has(id),
        o.severity_overrides.has(id) ==> o.severity_overrides.value_of(id) == c.overrides.value_of(
            id,
        ),
        o.forbidden_column_types.has(id) <==> c.forbidden_types.has(id),
        o.naming_patterns == c.naming,
{
}

} // verus!
