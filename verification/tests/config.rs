//! The config file: what it may hold, what it turns off where, and how it is found.

use pgsafe::cli::EXAMPLE_CONFIG;
use pgsafe::collections::TextMap;
use pgsafe::config::{
    candidates, check_extension, compile, discover, discover_step, ignore_all, options_from,
    rule_setting, Config, ConfigError, DirEntry, Discovery, RawConfig, RawIgnore, RuleSetting,
};
use pgsafe::finding::{NameKind, Severity};
use pgsafe::lint::known_rule_ids;
use pgsafe::options::NamingPatterns;
use pgsafe::output::{FailOn, Format};
use toml::{Table, Value};

fn strings(v: &Value) -> Vec<String> {
    v.as_array().unwrap().iter().map(|s| s.as_str().unwrap().to_string()).collect()
}

fn raw(table: &Table) -> Result<RawConfig, ConfigError> {
    let text = |t: &Table, key: &str| t.get(key).map(|v| v.as_str().unwrap().to_string());
    let mut rules = TextMap::new();
    if let Some(Value::Table(t)) = table.get("rules") {
        for (id, v) in t {
            let setting = match v {
                Value::Boolean(b) => RuleSetting::Enabled(*b),
                other => rule_setting(other.as_str().unwrap())?,
            };
            rules.insert(id.clone(), setting);
        }
    }
    let mut ignore = Vec::new();
    if let Some(Value::Array(entries)) = table.get("ignore") {
        for e in entries {
            let e = e.as_table().unwrap();
            let rules = e.get("rules").map_or_else(ignore_all, strings);
            ignore.push(RawIgnore { path: text(e, "path").unwrap(), rules });
        }
    }
    let mut naming = NamingPatterns::none();
    if let Some(Value::Table(t)) = table.get("naming") {
        naming.table = text(t, "table");
        naming.column = text(t, "column");
        naming.index = text(t, "index");
    }
    let mut forbidden_types = TextMap::new();
    if let Some(Value::Table(t)) = table.get("forbidden-types") {
        for (k, v) in t {
            forbidden_types.insert(k.clone(), v.as_str().unwrap().to_string());
        }
    }
    Ok(RawConfig {
        fail_on: text(table, "fail_on").map(|s| match s.as_str() {
            "error" => FailOn::Error,
            "never" => FailOn::Never,
            _ => FailOn::Warning,
        }),
        in_transaction: table.get("in_transaction").and_then(Value::as_bool),
        format: text(table, "format").map(|s| match s.as_str() {
            "json" => Format::Json,
            "github" => Format::Github,
            "sarif" => Format::Sarif,
            _ => Format::Human,
        }),
        since: text(table, "since"),
        rules,
        ignore,
        naming,
        forbidden_types,
        required_columns: table.get("required-columns").map_or_else(Vec::new, strings),
        paths: table.get("paths").map_or_else(Vec::new, strings),
    })
}

fn from_toml_str(text: &str, known: &[&'static str]) -> Result<Config, ConfigError> {
    compile(raw(&text.parse::<Table>().unwrap())?, known)
}

const KNOWN: &[&str] = &[
    "drop-table",
    "truncate",
    "add-index-non-concurrent",
    "require-timeout",
];

#[test]
fn example_config_parses_and_is_current() {
    // The shipped template (what `pgsafe --example-config` prints) must parse cleanly
    // against the real rule set — a broken TOML edit fails here, not in a user's setup.
    let known = known_rule_ids();
    let parsed = from_toml_str(EXAMPLE_CONFIG, &known);
    assert!(
        parsed.is_ok(),
        "example config must parse: {:?}",
        parsed.err()
    );
    // Every rule the example documents must still exist (a rename fails here) and must be
    // present in the template (so the example can't quietly drop a documented rule).
    for rule in [
        "drop-table",
        "add-trigger",
        "add-index-non-concurrent",
        "require-primary-key",
        "require-not-null",
        "require-comment",
        "require-if-exists",
        "forbid-nullable-fk",
        "unchecked-do-block",
        "naming-convention",
        "forbidden-column-type",
        "require-columns",
    ] {
        assert!(
            known.contains(&rule),
            "example references unknown rule `{rule}` (renamed or removed?)"
        );
        assert!(
            EXAMPLE_CONFIG.contains(rule),
            "example config should mention `{rule}`"
        );
    }
}

#[test]
fn config_parses_scalars_rules_and_ignores() {
    let cfg = from_toml_str(
        r#"
        fail_on = "error"
        in_transaction = true
        format = "json"
        [rules]
        drop-table = false
        add-index-non-concurrent = "warning"
        [[ignore]]
        path = "legacy/**"
        rules = ["truncate"]
    "#,
        KNOWN,
    )
    .unwrap();
    assert_eq!(cfg.fail_on, Some(FailOn::Error));
    assert_eq!(cfg.in_transaction, Some(true));
    assert_eq!(cfg.format, Some(Format::Json));
    assert!(cfg.disabled_for("src/001.sql").contains("drop-table"));
    assert_eq!(
        cfg.overrides().get("add-index-non-concurrent"),
        Some(&Severity::Warning)
    );
}

#[test]
fn config_parses_the_since_cutoff() {
    let cfg = from_toml_str("since = \"db/migrate/0042.sql\"\n", KNOWN).unwrap();
    assert_eq!(cfg.since.as_deref(), Some("db/migrate/0042.sql"));
}

#[test]
fn config_unknown_rule_id_is_rejected() {
    let err = from_toml_str("[rules]\ndrop-tabel = false\n", KNOWN).unwrap_err();
    assert!(err.0.contains("drop-tabel"));
}

#[test]
fn config_bad_rule_value_is_rejected() {
    let err = from_toml_str("[rules]\ndrop-table = \"sometimes\"\n", KNOWN).unwrap_err();
    assert!(err.0.contains("error") && err.0.contains("warning"));
}

#[test]
fn config_ignore_rules_default_to_all() {
    let cfg = from_toml_str("[[ignore]]\npath = \"legacy/**\"\n", KNOWN).unwrap();
    let d = cfg.disabled_for("legacy/001.sql");
    assert!(d.contains("drop-table") && d.contains("require-timeout")); // "*" expanded
}

#[test]
fn config_ignore_union_and_non_match() {
    let cfg = from_toml_str(
        r#"
        [[ignore]]
        path = "legacy/**"
        rules = ["drop-table"]
        [[ignore]]
        path = "**/*_seed.sql"
        rules = ["truncate"]
    "#,
        KNOWN,
    )
    .unwrap();
    let legacy_seed = cfg.disabled_for("legacy/9_seed.sql");
    assert!(legacy_seed.contains("drop-table") && legacy_seed.contains("truncate"));
    assert!(cfg.disabled_for("current/1.sql").is_empty());
}

#[test]
fn config_invalid_glob_is_rejected() {
    // "a[" has an unterminated character class — definitely rejected by globset.
    let err =
        from_toml_str("[[ignore]]\npath = \"a[\"\nrules=[\"truncate\"]\n", KNOWN).unwrap_err();
    assert!(err.0.contains("glob"));
}

#[test]
fn config_ignore_with_unknown_rule_is_rejected() {
    let err = from_toml_str(
        "[[ignore]]\npath = \"legacy/**\"\nrules = [\"typo-rule\"]\n",
        KNOWN,
    )
    .unwrap_err();
    assert!(err.0.contains("typo-rule"));
}

#[test]
fn rules_true_enables_a_rule() {
    let cfg = from_toml_str("[rules]\ndrop-table = true\n", KNOWN).unwrap();
    assert!(cfg.enabled().contains("drop-table"));
    assert!(!cfg.disabled_for("any.sql").contains("drop-table"));
}

#[test]
fn rules_severity_enables_and_overrides() {
    let cfg = from_toml_str("[rules]\ndrop-table = \"error\"\n", KNOWN).unwrap();
    assert!(cfg.enabled().contains("drop-table"));
    assert_eq!(
        cfg.overrides().get("drop-table"),
        Some(&Severity::Error)
    );
}

#[test]
fn rules_false_disables_not_enables() {
    let cfg = from_toml_str("[rules]\ndrop-table = false\n", KNOWN).unwrap();
    assert!(!cfg.enabled().contains("drop-table"));
    assert!(cfg.disabled_for("any.sql").contains("drop-table"));
}

#[test]
fn naming_section_compiles_patterns() {
    let cfg = from_toml_str("[naming]\ntable = \"^t_\"\nindex = \"^ix_\"\n", KNOWN).unwrap();
    assert_eq!(
        cfg.naming()
            .get(NameKind::Table)
            .map(String::as_str),
        Some("^t_")
    );
    assert_eq!(
        cfg.naming()
            .get(NameKind::Index)
            .map(String::as_str),
        Some("^ix_")
    );
    assert!(cfg.naming().get(NameKind::Column).is_none());
}

#[test]
fn naming_malformed_regex_is_a_config_error() {
    let err = from_toml_str("[naming]\ntable = \"^(unclosed\"\n", KNOWN).unwrap_err();
    assert!(
        err.0.contains("table"),
        "error should name the kind: {}",
        err.0
    );
}

#[test]
fn forbidden_types_section_compiles() {
    let cfg = from_toml_str("[forbidden-types]\ntimestamp = \"timestamptz\"\n", KNOWN).unwrap();
    assert_eq!(
        cfg.forbidden_types().get("timestamp").map(String::as_str),
        Some("timestamptz")
    );
}

#[test]
fn forbidden_types_unknown_type_compiles_without_error() {
    // No type-existence validation: an unrecognized type is carried verbatim (it is inert at
    // match time, never a config error).
    let cfg = from_toml_str("[forbidden-types]\nnotatype = \"text\"\n", KNOWN).unwrap();
    assert!(cfg.forbidden_types().get("notatype").is_some());
}

#[test]
fn required_columns_section_compiles() {
    let cfg = from_toml_str(
        "required-columns = [\"created_at\", \"updated_at\"]\n",
        KNOWN,
    )
    .unwrap();
    assert!(cfg.required_columns().contains("created_at"));
    assert!(cfg.required_columns().contains("updated_at"));
}

#[test]
fn required_columns_stored_verbatim() {
    // Config stores names as written; the require-columns rule folds case + skips empties.
    let cfg = from_toml_str("required-columns = [\"Created_At\"]\n", KNOWN).unwrap();
    assert!(cfg.required_columns().contains("Created_At"));
}

#[test]
fn required_columns_absent_is_empty() {
    let cfg = from_toml_str("", KNOWN).unwrap();
    assert!(cfg.required_columns().is_empty());
}

const BARE: DirEntry = DirEntry { plain: false, hidden: false, git: false };
const ROOT: DirEntry = DirEntry { plain: false, hidden: false, git: true };

#[test]
fn config_discover_walks_up_and_stops_at_git() {
    let root = DirEntry { hidden: true, ..ROOT };
    assert_eq!(discover(&vec![BARE, BARE, root]), Some((2, 1)));
    assert_eq!(candidates()[1], ".pgsafe.toml");

    // No config, and a .git boundary stops the walk before the parent.
    let parent = DirEntry { hidden: true, ..BARE };
    assert_eq!(discover(&vec![BARE, ROOT, parent]), None);
}

#[test]
fn config_discover_finds_the_non_dotfile_name() {
    let root = DirEntry { plain: true, ..ROOT };
    assert_eq!(discover(&vec![BARE, BARE, root]), Some((2, 0)));
    assert_eq!(candidates()[0], "pgsafe.toml");
}

#[test]
fn config_discover_prefers_the_non_dotfile_when_both_exist() {
    let root = DirEntry { plain: true, hidden: true, git: true };
    assert_eq!(discover(&vec![root]), Some((0, 0)));
}

#[test]
fn discovery_goes_on_where_there_is_nothing() {
    assert_eq!(discover_step(BARE), Discovery::Ascend);
    assert_eq!(discover_step(ROOT), Discovery::Stop);
    assert_eq!(discover(&vec![BARE, BARE]), None);
    assert_eq!(discover(&vec![]), None);
}

#[test]
fn only_toml_configs_are_read() {
    assert!(check_extension("pgsafe.toml", Some("toml")).is_ok());
    assert!(check_extension("pgsafe", None).is_ok());
    let e = check_extension("a.yaml", Some("yaml")).unwrap_err();
    assert_eq!(e.0, "a.yaml: unsupported config format `.yaml`");
}

#[test]
fn the_first_problem_is_the_one_reported() {
    let text = "[rules]\nnope = true\n[[ignore]]\npath = \"a[\"\n[naming]\ntable = \"(\"\n";
    let e = from_toml_str(text, KNOWN).unwrap_err();
    assert_eq!(e.0, "[rules] targets unknown rule `nope`");
}

#[test]
fn a_glob_does_not_cross_a_slash_unless_it_says_so() {
    let cfg = from_toml_str("[[ignore]]\npath = \"db/*.sql\"\nrules = [\"truncate\"]\n", KNOWN);
    let cfg = cfg.unwrap();
    assert!(cfg.disabled_for("db/1.sql").contains("truncate"));
    assert!(cfg.disabled_for("db/old/1.sql").is_empty());
}

#[test]
fn a_glob_matches_a_path_that_ends_in_dots() {
    let cfg = from_toml_str("[[ignore]]\npath = \"**/..\"\nrules = [\"truncate\"]\n", KNOWN);
    let cfg = cfg.unwrap();
    assert!(cfg.disabled_for("a/..").contains("truncate"));
    assert!(cfg.disabled_for("a/b").is_empty());
}

#[test]
fn ignores_add_to_the_global_disables() {
    let text = "[rules]\ndrop-table = false\n[[ignore]]\npath = \"a/**\"\nrules = [\"truncate\"]\n";
    let cfg = from_toml_str(text, KNOWN).unwrap();
    let inside = cfg.disabled_for("a/1.sql");
    assert!(inside.contains("drop-table") && inside.contains("truncate"));
    assert_eq!(inside.len(), 2);
    let outside = cfg.disabled_for("b/1.sql");
    assert!(outside.contains("drop-table"));
    assert_eq!(outside.len(), 1);
    assert!(cfg.disabled_with(&vec![true]).contains("truncate"));
    assert!(!cfg.disabled_with(&vec![false]).contains("truncate"));
}

#[test]
fn paths_scope_the_config() {
    let cfg = from_toml_str("paths = [\"db/**\", \"x.sql\"]\n", KNOWN).unwrap();
    assert!(cfg.in_scope("db/a/1.sql"));
    assert!(cfg.in_scope("x.sql"));
    assert!(!cfg.in_scope("app/1.sql"));
    assert!(from_toml_str("", KNOWN).unwrap().in_scope("app/1.sql"));
    let e = from_toml_str("paths = [\"a[\"]\n", KNOWN).unwrap_err();
    assert!(e.0.contains("invalid glob `a[`"), "{}", e.0);
}

#[test]
fn options_carry_the_settings_of_the_file() {
    let text = "required-columns = [\"id\"]\n[rules]\ndrop-table = \"error\"\ntruncate = false\n\
                [naming]\ntable = \"^t_\"\n[forbidden-types]\nmoney = \"numeric\"\n";
    let cfg = from_toml_str(text, KNOWN).unwrap();
    let o = options_from(&cfg, "a.sql", true);
    assert!(o.assume_in_transaction);
    assert!(o.disabled_rules.contains("truncate"));
    assert!(o.enabled_rules.contains("drop-table"));
    assert_eq!(o.severity_overrides.get("drop-table"), Some(&Severity::Error));
    assert_eq!(o.naming_patterns.table.as_deref(), Some("^t_"));
    assert_eq!(o.forbidden_column_types.get("money").map(String::as_str), Some("numeric"));
    assert!(o.required_columns.contains("id"));
}

#[test]
fn an_empty_config_is_the_default() {
    let cfg = Config::default();
    assert!(cfg.disabled_for("a.sql").is_empty());
    assert!(cfg.enabled().is_empty());
    assert!(cfg.overrides().is_empty());
    assert!(cfg.naming().is_empty());
    assert!(cfg.forbidden_types().is_empty());
    assert!(cfg.fail_on.is_none() && cfg.format.is_none() && cfg.since.is_none());
}
