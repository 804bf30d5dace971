//! What a run lints: flags, cutoffs, changed files, and what becomes of each input.

use pgsafe::cli::{
    check_fix_format, config_source, exit_code, filter_since, keep_in_scope, lint_exit_code,
    read_files, read_inputs, resolve, scope_to_paths, select_inputs, task, Cli, Command, CommonArgs,
    ConfigSource, Mode, Selection, Source, Task,
};
use pgsafe::collections::TextSet;
use pgsafe::config::{Config, Ignore};
use pgsafe::finding::{Finding, Fix, FixEdit, Location, Severity};
use pgsafe::fix_run::plan_fix;
use pgsafe::fixpoint::{can_fix, fix_to_fixpoint, Fixpoint, MAX_FIX_ITERATIONS};
use pgsafe::gitdiff::{
    changed_names, changed_sql_files, diff_args, git_failure, has_sql_extension, ls_args, repo_root,
    select_sql,
};
use pgsafe::output::{FailOn, FileReport, Format};
use pgsafe::paths::{join_path, rel_path};

#[test]
fn cli_filter_since_keeps_paths_strictly_after_cutoff() {
    let paths = vec![
        "db/migrate/0001.sql".to_string(),
        "db/migrate/0042_cut.sql".to_string(),
        "db/migrate/0043.sql".to_string(),
        "db/migrate/0100.sql".to_string(),
    ];
    let kept = filter_since(&paths, "db/migrate/0042_cut.sql");
    assert_eq!(
        kept,
        vec![
            "db/migrate/0043.sql".to_string(),
            "db/migrate/0100.sql".to_string(),
        ]
    );
}

#[test]
fn mod_filter_since_keeps_paths_strictly_after_cutoff() {
    let paths = vec![
        "db/migrate/0001.sql".to_string(),
        "db/migrate/0042_cut.sql".to_string(),
        "db/migrate/0043.sql".to_string(),
        "db/migrate/0100.sql".to_string(),
    ];
    let kept = filter_since(&paths, "db/migrate/0042_cut.sql");
    assert_eq!(
        kept,
        vec![
            "db/migrate/0043.sql".to_string(),
            "db/migrate/0100.sql".to_string(),
        ]
    );
}

#[test]
fn select_sql_keeps_only_sql_and_joins_to_root() {
    let root = "/repo";
    let got = select_sql(
        root,
        vec![
            "db/a.sql".to_string(),
            "README.md".to_string(),
            "db/b.SQL".to_string(), // case-insensitive
            "c.sql".to_string(),
            "d".to_string(), // no extension
        ],
    );
    assert_eq!(
        got,
        vec![
            "/repo/db/a.sql".to_string(),
            "/repo/db/b.SQL".to_string(),
            "/repo/c.sql".to_string(),
        ]
    );
}

fn texts(words: &[&str]) -> Vec<String> {
    words.iter().map(|w| (*w).to_string()).collect()
}

fn with_paths(paths: &[&str]) -> CommonArgs {
    let mut args = CommonArgs::new();
    args.paths = texts(paths);
    args
}

fn files(selection: &Selection) -> Vec<&str> {
    match selection {
        Selection::Read(sources) => sources
            .iter()
            .map(|s| match s {
                Source::Stdin => "<stdin>",
                Source::File(p) => p.as_str(),
            })
            .collect(),
        Selection::Changed { .. } => panic!("not a list of files"),
    }
}

#[test]
fn the_flags_pick_one_task() {
    let mut args = CommonArgs::new();
    assert_eq!(task(&args), Task::Lint);
    args.diff = true;
    assert_eq!(task(&args), Task::Fix(Mode::Diff));
    args.fix = true;
    assert_eq!(task(&args), Task::Fix(Mode::Apply));
    args.list_rules = true;
    assert_eq!(task(&args), Task::ListRules { json: false });
    args.format = Some(Format::Json);
    assert_eq!(task(&args), Task::ListRules { json: true });
    args.example_config = true;
    assert_eq!(task(&args), Task::ExampleConfig);
}

#[test]
fn a_subcommand_stands_beside_the_flags() {
    let cli = Cli::new(with_paths(&["a.sql"]), Some(Command::Lsp));
    assert_eq!(cli.args.paths, ["a.sql"]);
    assert_eq!(cli.command, Some(Command::Lsp));
}

#[test]
fn fixing_is_for_human_output() {
    assert!(check_fix_format(Format::Human).is_none());
    for f in [Format::Json, Format::Github, Format::Sarif] {
        assert_eq!(
            check_fix_format(f).unwrap(),
            "--fix/--diff cannot be combined with --format json, github, or sarif"
        );
    }
}

#[test]
fn no_config_outranks_a_given_config() {
    let mut args = CommonArgs::new();
    assert!(matches!(config_source(&args), ConfigSource::Discover));
    args.config = Some("c.toml".into());
    assert!(matches!(config_source(&args), ConfigSource::Given(p) if p == "c.toml"));
    args.no_config = true;
    assert!(matches!(config_source(&args), ConfigSource::Defaults));
}

#[test]
fn no_paths_and_a_dash_mean_standard_input() {
    let c = Config::default();
    assert_eq!(files(&select_inputs(&with_paths(&[]), &c).unwrap()), ["<stdin>"]);
    let picked = select_inputs(&with_paths(&["a.sql", "-"]), &c).unwrap();
    assert_eq!(files(&picked), ["a.sql", "<stdin>"]);
    assert_eq!(read_inputs(&vec![]).len(), 1);
    assert!(read_files(&vec![]).is_empty());
}

#[test]
fn a_cutoff_keeps_later_paths_and_never_falls_back_to_standard_input() {
    let mut c = Config::default();
    c.since = Some("b.sql".into());
    let picked = select_inputs(&with_paths(&["a.sql", "b.sql", "c.sql"]), &c).unwrap();
    assert_eq!(files(&picked), ["c.sql"]);
    let none = select_inputs(&with_paths(&["a.sql"]), &c).unwrap();
    assert!(files(&none).is_empty());
    let mut args = with_paths(&["a.sql", "c.sql"]);
    args.since = Some("0.sql".into());
    assert_eq!(files(&select_inputs(&args, &c).unwrap()), ["a.sql", "c.sql"]);
    assert_eq!(
        select_inputs(&with_paths(&["-"]), &c).unwrap_err(),
        "`-` (stdin) cannot be combined with a `since` cutoff (--since or the config file)"
    );
}

#[test]
fn changed_files_are_selected_by_reference() {
    let c = Config::default();
    let mut args = with_paths(&["db"]);
    args.git_diff = Some("origin/main".into());
    let picked = select_inputs(&args, &c).unwrap();
    assert!(matches!(picked, Selection::Changed { reference } if reference == "origin/main"));
    args.paths.push("-".into());
    assert_eq!(
        select_inputs(&args, &c).unwrap_err(),
        "`-` (stdin) cannot be combined with --git-diff"
    );
}

fn inputs(names: &[&str]) -> Vec<(String, String)> {
    names.iter().map(|n| ((*n).to_string(), format!("-- {n}"))).collect()
}

#[test]
fn scoping_keeps_standard_input_and_notes_what_it_drops() {
    let all = inputs(&["a.sql", "<stdin>", "b.sql", "c.sql"]);
    let (kept, note) = keep_in_scope(&all, &vec![true, false, false, false]);
    let names: Vec<&str> = kept.iter().map(|(n, _)| n.as_str()).collect();
    assert_eq!(names, ["a.sql", "<stdin>"]);
    assert_eq!(kept[0].1, "-- a.sql");
    assert_eq!(
        note.unwrap(),
        "note: skipped 2 file(s) not matching the configured `paths`: b.sql, c.sql"
    );
    let (kept, note) = keep_in_scope(&all, &vec![true; 4]);
    assert_eq!(kept.len(), 4);
    assert!(note.is_none());
}

#[test]
fn files_are_scoped_by_their_path_from_the_config() {
    let mut c = Config::default();
    c.paths = texts(&["db/**"]);
    let all = inputs(&["a.sql", "/repo/x.sql", "/repo/db/b.sql", "<stdin>"]);
    let dir = Some("/repo".to_string());
    let (kept, note) = scope_to_paths(&all, &c, &dir, "/repo/db");
    let names: Vec<&str> = kept.iter().map(|(n, _)| n.as_str()).collect();
    assert_eq!(names, ["a.sql", "/repo/db/b.sql", "<stdin>"]);
    assert!(note.unwrap().ends_with(": /repo/x.sql"));
}

#[test]
fn flags_outrank_the_config_and_the_config_the_defaults() {
    let all = inputs(&["a.sql"]);
    let cwd = || "/repo".to_string();
    let (run, note) = resolve(&CommonArgs::new(), Config::default(), None, cwd(), &all);
    assert_eq!((run.fail_on, run.format), (FailOn::Warning, Format::Human));
    assert!(!run.options_for("a.sql").assume_in_transaction);
    assert!(run.inputs.len() == 1 && note.is_none());

    let set = || {
        let mut c = Config::default();
        c.fail_on = Some(FailOn::Never);
        c.format = Some(Format::Github);
        c.in_transaction = Some(true);
        c.paths = texts(&["db/**"]);
        c
    };
    let (run, note) = resolve(&CommonArgs::new(), set(), Some(cwd()), cwd(), &all);
    assert_eq!((run.fail_on, run.format), (FailOn::Never, Format::Github));
    assert!(run.assume_in_transaction && run.inputs.is_empty() && note.is_some());

    let mut args = CommonArgs::new();
    args.fail_on = Some(FailOn::Error);
    args.format = Some(Format::Json);
    let (run, _) = resolve(&args, set(), Some(cwd()), cwd(), &all);
    assert_eq!((run.fail_on, run.format), (FailOn::Error, Format::Json));
}

#[test]
fn options_are_those_of_the_file_under_the_config() {
    let mut c = Config::default();
    c.ignores.push(Ignore { path: "db/*.sql".into(), rules: TextSet::new() });
    c.ignores[0].rules.insert("truncate".into());
    let dir = Some("/repo".to_string());
    let (run, _) = resolve(&CommonArgs::new(), c, dir, "/repo/db".into(), &inputs(&["1.sql"]));
    assert!(run.options_for("1.sql").disabled_rules.contains("truncate"));
    assert!(run.options_for("/repo/1.sql").disabled_rules.is_empty());
}

#[test]
fn a_file_is_named_from_the_config_dir() {
    let dir = |d: &str| Some(d.to_string());
    assert_eq!(rel_path("db/a.sql", &None, "/repo"), "db/a.sql");
    assert_eq!(rel_path("a.sql", &dir("/repo"), "/repo/db"), "db/a.sql");
    assert_eq!(rel_path("/repo/db/a.sql", &dir("/repo/"), "/x"), "db/a.sql");
    assert_eq!(rel_path("/repo//db/./a.sql", &dir("/repo/./db"), "/x"), "a.sql");
    assert_eq!(rel_path("a.sql", &dir(""), "/repo"), "a.sql");
    assert_eq!(rel_path("/other/a.sql", &dir("/repo"), "/repo"), "/other/a.sql");
    assert_eq!(rel_path("/repository/a.sql", &dir("/repo"), "/"), "/repository/a.sql");
    assert_eq!(rel_path("../a.sql", &dir("/repo"), "/repo"), "../a.sql");
}

#[test]
fn errors_outrank_findings_in_the_exit_code() {
    assert_eq!(exit_code(false, false), 0);
    assert_eq!(exit_code(false, true), 1);
    assert_eq!(exit_code(true, false), 2);
    assert_eq!(exit_code(true, true), 2);
    let clean = || FileReport { name: "a".into(), findings: vec![], error: None };
    let found = || FileReport { name: "b".into(), findings: vec![finding("2")], error: None };
    let broken = || FileReport { name: "c".into(), findings: vec![], error: Some("e".into()) };
    assert_eq!(lint_exit_code(&[clean()], FailOn::Warning), 0);
    assert_eq!(lint_exit_code(&[clean(), found()], FailOn::Warning), 1);
    assert_eq!(lint_exit_code(&[clean(), found()], FailOn::Error), 0);
    assert_eq!(lint_exit_code(&[found(), broken()], FailOn::Warning), 2);
}

// --- Changed files ---

#[test]
fn sql_extensions_of_any_case() {
    assert!(has_sql_extension("a/b.SqL"));
    assert!(!has_sql_extension("a/.sql"));
    assert!(!has_sql_extension("a.sql/b"));
    assert!(!has_sql_extension("asql"));
}

#[test]
fn names_are_joined_to_the_root() {
    assert_eq!(join_path("/repo", "a.sql"), "/repo/a.sql");
    assert_eq!(join_path("/repo/", "a.sql"), "/repo/a.sql");
    assert_eq!(join_path("/repo", "/a.sql"), "/a.sql");
    assert_eq!(join_path("", "a.sql"), "a.sql");
}

#[test]
fn changed_and_untracked_names_are_merged_sorted_and_once() {
    let diff = "b.sql\nREADME.md\na.sql\n";
    let ls = "a.sql\nc.sql\n\n";
    let set = changed_names(diff, ls);
    let names: Vec<&String> = (0..set.len()).map(|i| set.at(i)).collect();
    assert_eq!(names, ["README.md", "a.sql", "b.sql", "c.sql"]);
    assert_eq!(
        changed_sql_files("/r", diff, ls),
        ["/r/a.sql", "/r/b.sql", "/r/c.sql"]
    );
}

#[test]
fn git_is_asked_for_the_scope_alone() {
    let none = vec![];
    let scope = texts(&["db", "x.sql"]);
    assert_eq!(diff_args("main", &none), ["diff", "--name-only", "--diff-filter=ACMR", "main"]);
    assert_eq!(
        diff_args("main", &scope),
        ["diff", "--name-only", "--diff-filter=ACMR", "main", "--", "db", "x.sql"]
    );
    assert_eq!(ls_args(&none), ["ls-files", "--others", "--exclude-standard"]);
    assert_eq!(
        ls_args(&scope),
        ["ls-files", "--others", "--exclude-standard", "--", "db", "x.sql"]
    );
}

#[test]
fn the_repository_root_is_a_trimmed_line() {
    assert_eq!(repo_root("/repo\n").unwrap(), "/repo");
    assert_eq!(repo_root(" \n").unwrap_err(), "not a git repository");
    assert_eq!(git_failure("fatal: bad revision\n"), "fatal: bad revision");
    assert_eq!(git_failure(" "), "git command failed");
}

// --- Fix runs ---

/// A warning whose fix swaps the first character.
fn finding(to: &str) -> Finding {
    Finding {
        rule_id: "r".into(),
        severity: Severity::Warning,
        message: "m".into(),
        guidance: "g".into(),
        statement_index: 0,
        location: Location { byte: 0, line: 1, column: 1 },
        snippet: String::new(),
        suppression: None,
        fix: Some(Fix {
            title: "t".into(),
            edits: vec![FixEdit { start: 0, end: 1, replacement: to.to_string() }],
        }),
    }
}

fn report(text: &str) -> FileReport {
    let (findings, error) = match text {
        "1" => (vec![finding("2")], None),
        "5" => (vec![finding("!")], None),
        "!" => (vec![], Some("parse error: bad".to_string())),
        _ => (vec![], None),
    };
    FileReport { name: "m.sql".into(), findings, error }
}

fn fixed(text: &str) -> Fixpoint {
    assert!(can_fix(text, &report(text)));
    fix_to_fixpoint(text, |s: &str| report(s), MAX_FIX_ITERATIONS)
}

#[test]
fn a_fix_run_writes_the_fixed_file() {
    let p = plan_fix("m.sql", "1", &fixed("1"), Mode::Apply, FailOn::Warning);
    assert!(p.failure.is_none() && p.write && !p.gated);
    assert_eq!(p.output, "");
    assert_eq!(p.after, ["fixed 1 findings in m.sql"]);
}

#[test]
fn a_fix_run_on_standard_input_prints_the_fixed_text() {
    let p = plan_fix("<stdin>", "1", &fixed("1"), Mode::Apply, FailOn::Warning);
    assert!(!p.write);
    assert_eq!(p.output, "2");
}

#[test]
fn a_preview_writes_nothing_and_gates_on_the_findings_it_would_fix() {
    let p = plan_fix("m.sql", "1", &fixed("1"), Mode::Diff, FailOn::Warning);
    assert!(!p.write && p.gated && p.failure.is_none());
    assert!(p.output.starts_with("--- a/m.sql\n+++ b/m.sql\n@@ -1,1 +1,1 @@\n-1\n"));
    assert!(p.output.contains("+2\n"));
}

#[test]
fn a_clean_input_needs_nothing() {
    let p = plan_fix("m.sql", "2", &fixed("2"), Mode::Apply, FailOn::Warning);
    assert!(!p.write && !p.gated && p.after.is_empty() && p.output.is_empty());
}

#[test]
fn an_input_that_does_not_parse_is_a_hard_error() {
    let p = plan_fix("m.sql", "!", &fixed("!"), Mode::Apply, FailOn::Warning);
    assert_eq!(p.failure.unwrap(), "error: m.sql: parse error: bad");
    assert!(!p.write && p.output.is_empty() && p.after.is_empty());
}

#[test]
fn a_fix_that_breaks_the_syntax_leaves_the_file_unchanged() {
    let p = plan_fix("m.sql", "5", &fixed("5"), Mode::Apply, FailOn::Warning);
    let m = p.failure.unwrap();
    assert!(m.starts_with("error: m.sql: applying fixes produced SQL that no longer parses ("));
    assert!(m.ends_with("file left unchanged"), "{m}");
    let p = plan_fix("m.sql", "5", &fixed("5"), Mode::Diff, FailOn::Warning);
    assert!(p.failure.unwrap().ends_with("no diff shown"));
}
