//! Command-line surface: what the flags and the config decide, apart from reading files and
//! printing.
use vstd::prelude::*;

use crate::collections::{text_less, text_lt, texts};
use crate::config::{options_from, options_match, Config};
use crate::options::{duplicate_text, LintOptions};
use crate::output::{gate, gates, FailOn, FileReport, FileReportView, Format, reports_view};
use crate::paths::{rel_path, rel_path_spec};
use crate::style::ColorWhen;
use crate::text::{decimal, decimal_spec, str_eq, text_of};

verus! {

/// The flags shared by every pgsafe-style CLI.
#[non_exhaustive]
#[derive(Debug)]
pub struct CommonArgs {
    /// SQL files to lint; use '-' or omit to read from stdin.
    pub paths: Vec<String>,
    /// Output format. (Default: human; overrides the config's `format`.)
    pub format: Option<Format>,
    /// When to colorize human output: `auto` (a TTY, honoring `NO_COLOR` /
    /// `CLICOLOR_FORCE`), `always`, or `never`. Applies only to `--format human`.
    pub color: ColorWhen,
    /// Minimum finding severity that fails the run. (Default: warning; overrides the config's `fail_on`.)
    pub fail_on: Option<FailOn>,
    /// Treat each input as already running inside a transaction.
    pub in_transaction: bool,
    /// Use this exact config file (skips discovery).
    pub config: Option<String>,
    /// Ignore any `pgsafe.toml` / `.pgsafe.toml`; use built-in defaults + CLI flags only.
    pub no_config: bool,
    /// Lint only the `.sql` files added/modified versus this git ref (e.g. `origin/main`).
    /// Positional paths become a git pathspec scope (relative to the repo root); with no paths, the whole repository.
    pub git_diff: Option<String>,
    /// Lint only migration files whose path sorts after this cutoff (the last legacy migration).
    /// Also settable as `since = "..."` in the config file; this flag overrides it.
    pub since: Option<String>,
    /// Print an annotated example `.pgsafe.toml` to stdout and exit, e.g.
    /// `pgsafe --example-config > .pgsafe.toml`.
    pub example_config: bool,
    /// Print the ids of every rule this build can emit (one per line, or a JSON
    /// envelope with `--format json`) and exit.
    pub list_rules: bool,
    /// Apply fixes in place (files) or to stdout (stdin). Human-output only;
    /// cannot combine with --diff or --format json/github/sarif.
    pub fix: bool,
    /// Preview the fixes --fix would apply as a unified diff; writes nothing.
    pub diff: bool,
}

impl CommonArgs {
    /// No flag given and no path.
    pub fn new() -> (r: CommonArgs)
        ensures
            r.paths@.len() == 0,
            r.format is None,
            r.color == ColorWhen::Auto,
            r.fail_on is None,
            r.in_transaction == false,
            r.config is None,
            r.no_config == false,
            r.git_diff is None,
            r.since is None,
            r.example_config == false,
            r.list_rules == false,
            r.fix == false,
            r.diff == false,
    {
        CommonArgs {
            paths: Vec::new(),
            format: None,
            color: ColorWhen::Auto,
            fail_on: None,
            in_transaction: false,
            config: None,
            no_config: false,
            git_diff: None,
            since: None,
            example_config: false,
            list_rules: false,
            fix: false,
            diff: false,
        }
    }
}

/// Subcommands beyond the default lint run.
#[non_exhaustive]
#[derive(Debug, Clone, Copy, PartialEq, Eq, Structural)]
pub enum Command {
    /// Run the language server over stdio (for editor integration).
    Lsp,
}

/// The `pgsafe` binary's top-level parser.
#[non_exhaustive]
#[derive(Debug)]
pub struct Cli {
    /// The shared linting flags (used when no subcommand is given).
    pub args: CommonArgs,
    /// The subcommand to run, if any (absence runs the default lint over `args`).
    pub command: Option<Command>,
}

impl Cli {
    /// The flags and the subcommand of a command line.
    pub fn new(args: CommonArgs, command: Option<Command>) -> (r: Cli)
        ensures
            r.args == args,
            r.command == command,
    {
        Cli { args, command }
    }
}

/// The display name of standard input.
pub const STDIN_NAME: &'static str = "<stdin>";

/// Which fix-mode operation to run.
#[derive(Debug, Clone, Copy, PartialEq, Eq, Structural)]
pub enum Mode {
    /// Apply fixes: rewrite files in place; stdin → fixed SQL on stdout.
    Apply,
    /// Preview fixes as a unified diff; write nothing.
    Diff,
}

/// What a run does.
#[derive(Debug, Clone, Copy, PartialEq, Eq, Structural)]
pub enum Task {
    /// Print the example config.
    ExampleConfig,
    /// Print the rule ids, as JSON or one per line.
    ListRules { json: bool },
    /// Apply or preview fixes.
    Fix(Mode),
    /// Lint and render.
    Lint,
}

/// What a run does: `--example-config` before `--list-rules` before `--fix` before `--diff`.
pub open spec fn task_spec(args: CommonArgs) -> Task {
    if args.example_config {
        Task::ExampleConfig
    } else if args.list_rules {
        Task::ListRules { json: args.format == Some(Format::Json) }
    } else if args.fix {
        Task::Fix(Mode::Apply)
    } else if args.diff {
        Task::Fix(Mode::Diff)
    } else {
        Task::Lint
    }
}

/// What the flags ask for.
pub fn task(args: &CommonArgs) -> (r: Task)
    ensures
        r == task_spec(*args),
{
    if args.example_config {
        Task::ExampleConfig
    } else if args.list_rules {
        let json = match args.format {
            Some(f) => f == Format::Json,
            None => false,
        };
        Task::ListRules { json }
    } else if args.fix {
        Task::Fix(Mode::Apply)
    } else if args.diff {
        Task::Fix(Mode::Diff)
    } else {
        Task::Lint
    }
}

/// Why a fix run is refused.
pub const MACHINE_FORMAT: &'static str =
    "--fix/--diff cannot be combined with --format json, github, or sarif";

/// Fix mode is human-output; a machine format is rejected whether it came from the
/// `--format` flag or the config file.
pub fn check_fix_format(format: Format) -> (r: Option<String>)
    ensures
        text_of(r) == (if format == Format::Human {
            None
        } else {
            Some(MACHINE_FORMAT@)
        }),
{
    match format {
        Format::Human => None,
        _ => Some(MACHINE_FORMAT.to_owned()),
    }
}

/// Where the config comes from.
#[derive(Debug)]
pub enum ConfigSource {
    /// Nowhere: built-in defaults.
    Defaults,
    /// This file.
    Given(String),
    /// The file that discovery finds, if any.
    Discover,
}

/// Where the config comes from: nowhere with `--no-config`, else `--config`, else discovery.
pub fn config_source(args: &CommonArgs) -> (r: ConfigSource)
    ensures
        match r {
            ConfigSource::Defaults => args.no_config,
            ConfigSource::Given(p) => !args.no_config && text_of(args.config) == Some(p@),
            ConfigSource::Discover => !args.no_config && args.config is None,
        },
{
    if args.no_config {
        return ConfigSource::Defaults;
    }
    match &args.config {
        Some(p) => ConfigSource::Given(p.clone()),
        None => ConfigSource::Discover,
    }
}

/// The paths that sort strictly after a cutoff, in their order.
pub open spec fn since_spec(paths: Seq<Seq<char>>, cutoff: Seq<char>) -> Seq<Seq<char>>
    decreases paths.len(),
{
    if paths.len() == 0 {
        Seq::empty()
    } else {
        let before = since_spec(paths.drop_last(), cutoff);
        if text_lt(cutoff, paths.last()) {
            before.push(paths.last())
        } else {
            before
        }
    }
}

/// Keep only paths that sort strictly after `cutoff` (lexicographic full-path comparison),
/// so `--since` lints the new migrations and never the legacy ones (path <= cutoff).
pub fn filter_since(paths: &[String], cutoff: &str) -> (r: Vec<String>)
    ensures
        texts(r@) == since_spec(texts(paths@), cutoff@),
{
    let ghost all = texts(paths@);
    let mut out: Vec<String> = Vec::new();
    let mut i: usize = 0;
    assert(texts(out@) == since_spec(all.take(0), cutoff@));
    while i < paths.len()
        invariant
            i <= paths@.len(),
            all == texts(paths@),
            texts(out@) == since_spec(all.take(i as int), cutoff@),
        decreases paths@.len() - i,
    {
        proof {
            assert(all.take(i + 1).drop_last() == all.take(i as int));
            assert(all.take(i + 1).last() == paths@[i as int]@);
            assert(texts(out@.push(paths@[i as int])) == texts(out@).push(paths@[i as int]@));
        }
        if text_less(cutoff, paths[i].as_str()) {
            out.push(paths[i].clone());
        }
        i += 1;
    }
    assert(all.take(all.len() as int) == all);
    out
}

/// An input to read.
#[derive(Debug)]
pub enum Source {
    Stdin,
    File(String),
}

/// An input to read.
pub enum SourceView {
    Stdin,
    File(Seq<char>),
}

impl View for Source {
    type V = SourceView;

    open spec fn view(&self) -> SourceView {
        match *self {
            Source::Stdin => SourceView::Stdin,
            Source::File(p) => SourceView::File(p@),
        }
    }
}

/// What a list of inputs holds.
pub open spec fn sources_view(ss: Seq<Source>) -> Seq<SourceView> {
    ss.map_values(|s: Source| s@)
}

/// The input that a path names: `-` is standard input.
pub open spec fn source_of(path: Seq<char>) -> SourceView {
    if path == "-"@ {
        SourceView::Stdin
    } else {
        SourceView::File(path)
    }
}

/// The inputs that some paths name: standard input where there are none.
pub open spec fn listed_sources(paths: Seq<Seq<char>>) -> Seq<SourceView> {
    if paths.len() == 0 {
        seq![SourceView::Stdin]
    } else {
        paths.map_values(|p: Seq<char>| source_of(p))
    }
}

/// The inputs that some paths name, each a file. No paths name no inputs: this never falls back
/// to standard input.
pub open spec fn file_sources(paths: Seq<Seq<char>>) -> Seq<SourceView> {
    paths.map_values(|p: Seq<char>| SourceView::File(p))
}

/// The inputs to read for the paths given on the command line.
pub fn read_inputs(paths: &Vec<String>) -> (r: Vec<Source>)
    ensures
        sources_view(r@) == listed_sources(texts(paths@)),
{
    let mut out: Vec<Source> = Vec::new();
    if paths.len() == 0 {
        out.push(Source::Stdin);
        assert(sources_view(out@) == listed_sources(texts(paths@)));
        return out;
    }
    let ghost all = listed_sources(texts(paths@));
    let mut i: usize = 0;
    while i < paths.len()
        invariant
            i <= paths@.len(),
            paths@.len() > 0,
            all == listed_sources(texts(paths@)),
            sources_view(out@) == all.take(i as int),
        decreases paths@.len() - i,
    {
        let s = if str_eq(paths[i].as_str(), "-") {
            Source::Stdin
        } else {
            Source::File(paths[i].clone())
        };
        proof {
            assert(texts(paths@)[i as int] == paths@[i as int]@);
            assert(s@ == all[i as int]);
            assert(sources_view(out@.push(s)) == sources_view(out@).push(s@));
            assert(all.take(i + 1) == all.take(i as int).push(all[i as int]));
        }
        out.push(s);
        i += 1;
    }
    assert(all.take(all.len() as int) == all);
    out
}

/// The inputs to read for a list of files.
pub fn read_files(paths: &Vec<String>) -> (r: Vec<Source>)
    ensures
        sources_view(r@) == file_sources(texts(paths@)),
{
    let ghost all = file_sources(texts(paths@));
    let mut out: Vec<Source> = Vec::new();
    let mut i: usize = 0;
    while i < paths.len()
        invariant
            i <= paths@.len(),
            all == file_sources(texts(paths@)),
            sources_view(out@) == all.take(i as int),
        decreases paths@.len() - i,
    {
        let s = Source::File(paths[i].clone());
        proof {
            assert(texts(paths@)[i as int] == paths@[i as int]@);
            assert(s@ == all[i as int]);
            assert(sources_view(out@.push(s)) == sources_view(out@).push(s@));
            assert(all.take(i + 1) == all.take(i as int).push(all[i as int]));
        }
        out.push(s);
        i += 1;
    }
    assert(all.take(all.len() as int) == all);
    out
}

/// Whether one of some texts is `wanted`.
fn names(paths: &Vec<String>, wanted: &str) -> (r: bool)
    ensures
        r == texts(paths@).contains(wanted@),
{
    let ghost all = texts(paths@);
    let mut i: usize = 0;
    while i < paths.len()
        invariant
            i <= paths@.len(),
            all == texts(paths@),
            forall|j: int| 0 <= j < i ==> #[trigger] all[j] != wanted@,
        decreases paths@.len() - i,
    {
        assert(all[i as int] == paths@[i as int]@);
        if str_eq(paths[i].as_str(), wanted) {
            assert(all.contains(wanted@));
            return true;
        }
        i += 1;
    }
    false
}

/// What to read.
#[derive(Debug)]
pub enum Selection {
    /// The `.sql` files changed versus `reference`, among those that the flags' paths scope.
    Changed { reference: String },
    /// These inputs.
    Read(Vec<Source>),
}

/// What to read.
pub enum SelectionView {
    Changed(Seq<char>),
    Read(Seq<SourceView>),
}

impl View for Selection {
    type V = SelectionView;

    open spec fn view(&self) -> SelectionView {
        match *self {
            Selection::Changed { reference } => SelectionView::Changed(reference@),
            Selection::Read(ss) => SelectionView::Read(sources_view(ss@)),
        }
    }
}

/// Why standard input is refused beside `--git-diff`.
pub const STDIN_WITH_GIT_DIFF: &'static str = "`-` (stdin) cannot be combined with --git-diff";

/// Why standard input is refused beside a cutoff.
pub const STDIN_WITH_SINCE: &'static str =
    "`-` (stdin) cannot be combined with a `since` cutoff (--since or the config file)";

/// The cutoff that applies: the flag's before the config's.
pub open spec fn effective_since(
    flag: Option<Seq<char>>,
    config: Option<Seq<char>>,
) -> Option<Seq<char>> {
    if flag is Some {
        flag
    } else {
        config
    }
}

/// What to read: the changed files with `--git-diff`; else the paths after the cutoff where there
/// is one and there are paths; else the paths. `-` beside `--git-diff` or a cutoff is refused.
pub open spec fn selection_spec(
    paths: Seq<Seq<char>>,
    git_diff: Option<Seq<char>>,
    since: Option<Seq<char>>,
) -> Result<SelectionView, Seq<char>> {
    match git_diff {
        Some(reference) => if paths.contains("-"@) {
            Err(STDIN_WITH_GIT_DIFF@)
        } else {
            Ok(SelectionView::Changed(reference))
        },
        None => match since {
            Some(cutoff) => if paths.contains("-"@) {
                Err(STDIN_WITH_SINCE@)
            } else if paths.len() > 0 {
                Ok(SelectionView::Read(file_sources(since_spec(paths, cutoff))))
            } else {
                Ok(SelectionView::Read(listed_sources(paths)))
            },
            None => Ok(SelectionView::Read(listed_sources(paths))),
        },
    }
}

/// Select the inputs per `--git-diff` / `--since` / positional paths.
pub fn select_inputs(args: &CommonArgs, config: &Config) -> (r: Result<Selection, String>)
    ensures
        match selection_spec(
            texts(args.paths@),
            text_of(args.git_diff),
            effective_since(text_of(args.since), text_of(config.since)),
        ) {
            Ok(s) => r matches Ok(t) && t@ == s,
            Err(m) => r matches Err(e) && e@ == m,
        },
{
    let dash = names(&args.paths, "-");
    if let Some(reference) = &args.git_diff {
        if dash {
            return Err(STDIN_WITH_GIT_DIFF.to_owned());
        }
        return Ok(Selection::Changed { reference: reference.clone() });
    }
    let since = if args.since.is_some() {
        duplicate_text(&args.since)
    } else {
        duplicate_text(&config.since)
    };
    match since {
        Some(cutoff) => {
            if dash {
                return Err(STDIN_WITH_SINCE.to_owned());
            }
            if args.paths.len() > 0 {
                let kept = filter_since(args.paths.as_slice(), cutoff.as_str());
                return Ok(Selection::Read(read_files(&kept)));
            }
            Ok(Selection::Read(read_inputs(&args.paths)))
        },
        None => Ok(Selection::Read(read_inputs(&args.paths))),
    }
}

/// The names and texts of some inputs.
pub open spec fn inputs_view(inputs: Seq<(String, String)>) -> Seq<(Seq<char>, Seq<char>)> {
    inputs.map_values(|i: (String, String)| (i.0@, i.1@))
}

/// Whether an input stays: standard input always does, a file where it is in scope.
pub open spec fn stays(name: Seq<char>, in_scope: bool) -> bool {
    name == STDIN_NAME@ || in_scope
}

/// The inputs that stay, in their order.
pub open spec fn kept_inputs(
    inputs: Seq<(Seq<char>, Seq<char>)>,
    in_scope: Seq<bool>,
) -> Seq<(Seq<char>, Seq<char>)>
    decreases inputs.len(),
{
    if inputs.len() == 0 {
        Seq::empty()
    } else {
        let before = kept_inputs(inputs.drop_last(), in_scope);
        if stays(inputs.last().0, in_scope[inputs.len() - 1]) {
            before.push(inputs.last())
        } else {
            before
        }
    }
}

/// The names of the inputs that do not stay, in their order.
pub open spec fn skipped_inputs(
    inputs: Seq<(Seq<char>, Seq<char>)>,
    in_scope: Seq<bool>,
) -> Seq<Seq<char>>
    decreases inputs.len(),
{
    if inputs.len() == 0 {
        Seq::empty()
    } else {
        let before = skipped_inputs(inputs.drop_last(), in_scope);
        if stays(inputs.last().0, in_scope[inputs.len() - 1]) {
            before
        } else {
            before.push(inputs.last().0)
        }
    }
}

/// Some texts with a separator between them.
pub open spec fn joined_with(parts: Seq<Seq<char>>, separator: Seq<char>) -> Seq<char>
    decreases parts.len(),
{
    if parts.len() == 0 {
        Seq::empty()
    } else if parts.len() == 1 {
        parts[0]
    } else {
        joined_with(parts.drop_last(), separator) + separator + parts.last()
    }
}

fn join_with(parts: &Vec<String>, separator: &str) -> (r: String)
    ensures
        r@ == joined_with(texts(parts@), separator@),
{
    let ghost all = texts(parts@);
    let mut out = String::new();
    let mut i: usize = 0;
    while i < parts.len()
        invariant
            i <= parts@.len(),
            all == texts(parts@),
            out@ == joined_with(all.take(i as int), separator@),
        decreases parts@.len() - i,
    {
        proof {
            assert(all.take(i + 1).drop_last() == all.take(i as int));
            assert(all.take(i + 1).last() == parts@[i as int]@);
            assert(all.take(1)[0] == all[0]);
        }
        if i > 0 {
            out.append(separator);
        }
        out.append(parts[i].as_str());
        i += 1;
    }
    assert(all.take(all.len() as int) == all);
    out
}

/// The note on the inputs that do not stay.
pub open spec fn skip_note(skipped: Seq<Seq<char>>) -> Option<Seq<char>> {
    if skipped.len() == 0 {
        None
    } else {
        Some(
            "note: skipped "@ + decimal_spec(skipped.len())
                + " file(s) not matching the configured `paths`: "@ + joined_with(skipped, ", "@),
        )
    }
}

/// Keep standard input and the files in scope, with a note on the others.
pub fn keep_in_scope(
    inputs: &Vec<(String, String)>,
    in_scope: &Vec<bool>,
) -> (r: (Vec<(String, String)>, Option<String>))
    requires
        in_scope@.len() == inputs@.len(),
    ensures
        inputs_view(r.0@) == kept_inputs(inputs_view(inputs@), in_scope@),
        text_of(r.1) == skip_note(skipped_inputs(inputs_view(inputs@), in_scope@)),
{
    let ghost all = inputs_view(inputs@);
    let mut kept: Vec<(String, String)> = Vec::new();
    let mut skipped: Vec<String> = Vec::new();
    let mut i: usize = 0;
    assert(inputs_view(kept@) == kept_inputs(all.take(0), in_scope@));
    assert(texts(skipped@) == skipped_inputs(all.take(0), in_scope@));
    while i < inputs.len()
        invariant
            i <= inputs@.len() == in_scope@.len(),
            all == inputs_view(inputs@),
            inputs_view(kept@) == kept_inputs(all.take(i as int), in_scope@),
            texts(skipped@) == skipped_inputs(all.take(i as int), in_scope@),
        decreases inputs@.len() - i,
    {
        let name = inputs[i].0.clone();
        proof {
            assert(all.take(i + 1).drop_last() == all.take(i as int));
            assert(all.take(i + 1).last() == (inputs@[i as int].0@, inputs@[i as int].1@));
        }
        if str_eq(name.as_str(), STDIN_NAME) || in_scope[i] {
            let pair = (name, inputs[i].1.clone());
            assert(inputs_view(kept@.push(pair)) == inputs_view(kept@).push((pair.0@, pair.1@)));
            kept.push(pair);
        } else {
            assert(texts(skipped@.push(name)) == texts(skipped@).push(name@));
            skipped.push(name);
        }
        i += 1;
    }
    assert(all.take(all.len() as int) == all);
    if skipped.len() == 0 {
        return (kept, None);
    }
    let mut note = "note: skipped ".to_owned();
    note.append(decimal(skipped.len() as u128).as_str());
    note.append(" file(s) not matching the configured `paths`: ");
    note.append(join_with(&skipped, ", ").as_str());
    (kept, Some(note))
}

/// Whether `in_scope` may be which of some inputs the config governs.
pub open spec fn may_be_in_scope(
    config: Config,
    config_dir: Option<Seq<char>>,
    cwd: Seq<char>,
    inputs: Seq<(Seq<char>, Seq<char>)>,
    in_scope: Seq<bool>,
) -> bool {
    &&& in_scope.len() == inputs.len()
    &&& forall|i: int|
        0 <= i < inputs.len() ==> config.may_govern(
            rel_path_spec((#[trigger] inputs[i]).0, config_dir, cwd),
            in_scope[i],
        )
}

/// Whether the inputs that the config governs may be `kept`, and the note on the others `note`.
pub open spec fn may_be_scoped_to(
    config: Config,
    config_dir: Option<Seq<char>>,
    cwd: Seq<char>,
    inputs: Seq<(Seq<char>, Seq<char>)>,
    kept: Seq<(Seq<char>, Seq<char>)>,
    note: Option<Seq<char>>,
) -> bool {
    exists|in_scope: Seq<bool>| #[trigger]
        may_be_in_scope(config, config_dir, cwd, inputs, in_scope) && kept == kept_inputs(
            inputs,
            in_scope,
        ) && note == skip_note(skipped_inputs(inputs, in_scope))
}

/// Drop file inputs the config's `paths` globs don't govern; each file is matched by its path
/// from `config_dir`, with `cwd` the working directory. Stdin (`"<stdin>"`) has no path
/// identity and is always kept — piped SQL is never filtered. When one or more files are
/// dropped, a note says so, so a scoped-out file isn't silently treated as clean.
pub fn scope_to_paths(
    inputs: &Vec<(String, String)>,
    config: &Config,
    config_dir: &Option<String>,
    cwd: &str,
) -> (r: (Vec<(String, String)>, Option<String>))
    ensures
        may_be_scoped_to(
            *config,
            text_of(*config_dir),
            cwd@,
            inputs_view(inputs@),
            inputs_view(r.0@),
            text_of(r.1),
        ),
{
    let ghost all = inputs_view(inputs@);
    let mut in_scope: Vec<bool> = Vec::new();
    let mut i: usize = 0;
    while i < inputs.len()
        invariant
            i <= inputs@.len(),
            in_scope@.len() == i,
            all == inputs_view(inputs@),
            forall|j: int|
                0 <= j < i ==> config.may_govern(
                    rel_path_spec((#[trigger] all[j]).0, text_of(*config_dir), cwd@),
                    in_scope@[j],
                ),
        decreases inputs@.len() - i,
    {
        let rel = rel_path(inputs[i].0.as_str(), config_dir, cwd);
        assert(all[i as int].0 == inputs@[i as int].0@);
        in_scope.push(config.in_scope(rel.as_str()));
        i += 1;
    }
    assert(may_be_in_scope(*config, text_of(*config_dir), cwd@, all, in_scope@));
    keep_in_scope(inputs, &in_scope)
}

/// Everything the CLI front-end resolves from the args + config: the selected inputs,
/// the effective gating/format settings, and a per-file [`LintOptions`] builder.
#[non_exhaustive]
#[derive(Debug)]
pub struct ResolvedRun {
    /// Selected inputs after `--git-diff` / `--since` / config selection: `(display-name, sql)`.
    pub inputs: Vec<(String, String)>,
    /// Effective gate threshold (CLI-explicit > config > built-in default).
    pub fail_on: FailOn,
    /// Effective output format (CLI-explicit > config > built-in default).
    pub format: Format,
    /// The config that the run is under.
    pub config: Config,
    /// The directory of the config, if it comes from a file.
    pub config_dir: Option<String>,
    /// The working directory.
    pub cwd: String,
    /// Whether each input is taken to run inside a transaction.
    pub assume_in_transaction: bool,
}

impl ResolvedRun {
    /// The per-file lint options: `assume_in_transaction` + this file's config `disabled_rules`
    /// (path-relative) + the global `severity_overrides` and `enabled_rules`.
    #[must_use]
    pub fn options_for(&self, name: &str) -> (r: LintOptions)
        ensures
            options_match(self.config, self.assume_in_transaction, r),
            exists|matched: Seq<bool>| #[trigger]
                self.config.may_be_matched(
                    rel_path_spec(name@, text_of(self.config_dir), self.cwd@),
                    matched,
                ) && forall|x: Seq<char>| #[trigger]
                    r.disabled_rules@.contains(x) <==> self.config.disables(matched, x),
    {
        let rel = rel_path(name, &self.config_dir, self.cwd.as_str());
        options_from(&self.config, rel.as_str(), self.assume_in_transaction)
    }
}

/// The first that is given: the flag, the config's value, the default.
pub open spec fn effective<T>(flag: Option<T>, config: Option<T>, default: T) -> T {
    match flag {
        Some(v) => v,
        None => match config {
            Some(v) => v,
            None => default,
        },
    }
}

/// Resolve the run from the flags, the config and its directory, the working directory and the
/// inputs that were read: the inputs that the config governs and the effective scalar settings,
/// with the note on the other inputs.
pub fn resolve(
    args: &CommonArgs,
    config: Config,
    config_dir: Option<String>,
    cwd: String,
    inputs: &Vec<(String, String)>,
) -> (r: (ResolvedRun, Option<String>))
    ensures
        may_be_scoped_to(
            config,
            text_of(config_dir),
            cwd@,
            inputs_view(inputs@),
            inputs_view(r.0.inputs@),
            text_of(r.1),
        ),
        r.0.fail_on == effective(args.fail_on, config.fail_on, FailOn::Warning),
        r.0.format == effective(args.format, config.format, Format::Human),
        r.0.assume_in_transaction == (args.in_transaction || config.in_transaction == Some(true)),
        r.0.config == config,
        r.0.config_dir == config_dir,
        r.0.cwd == cwd,
{
    let (kept, note) = scope_to_paths(inputs, &config, &config_dir, cwd.as_str());
    let fail_on = match args.fail_on {
        Some(v) => v,
        None => match config.fail_on {
            Some(v) => v,
            None => FailOn::Warning,
        },
    };
    let format = match args.format {
        Some(v) => v,
        None => match config.format {
            Some(v) => v,
            None => Format::Human,
        },
    };
    let configured = match config.in_transaction {
        Some(b) => b,
        None => false,
    };
    let assume_in_transaction = args.in_transaction || configured;
    let run = ResolvedRun {
        inputs: kept,
        fail_on,
        format,
        config,
        config_dir,
        cwd,
        assume_in_transaction,
    };
    (run, note)
}

/// The exit code of a run: 2 on a parse or I/O error, else 1 where findings gate, else 0.
pub open spec fn exit_code_spec(had_error: bool, gated: bool) -> u8 {
    if had_error {
        2
    } else if gated {
        1
    } else {
        0
    }
}

/// The exit code of a run.
pub fn exit_code(had_error: bool, gated: bool) -> (r: u8)
    ensures
        r == exit_code_spec(had_error, gated),
{
    if had_error {
        2
    } else if gated {
        1
    } else {
        0
    }
}

/// Whether one of some reports failed to parse.
pub open spec fn any_error(rs: Seq<FileReportView>) -> bool {
    exists|i: int| 0 <= i < rs.len() && (#[trigger] rs[i]).error is Some
}

/// Whether one of some reports has a finding that fails the run.
pub open spec fn any_gating(rs: Seq<FileReportView>, fail_on: FailOn) -> bool {
    exists|i: int, j: int|
        0 <= i < rs.len() && 0 <= j < rs[i].findings.len() && gates(
            #[trigger] rs[i].findings[j],
            fail_on,
        )
}

/// The exit code of a lint run (`0` clean, `1` gated findings, `2` parse error).
pub fn lint_exit_code(reports: &[FileReport], fail_on: FailOn) -> (r: u8)
    ensures
        r == exit_code_spec(
            any_error(reports_view(reports@)),
            any_gating(reports_view(reports@), fail_on),
        ),
{
    let ghost all = reports_view(reports@);
    let mut had_error = false;
    let mut gated = false;
    let mut i: usize = 0;
    while i < reports.len()
        invariant
            i <= reports@.len(),
            all == reports_view(reports@),
            had_error <==> exists|k: int| 0 <= k < i && (#[trigger] all[k]).error is Some,
            gated <==> exists|k: int, j: int|
                0 <= k < i && 0 <= j < all[k].findings.len() && gates(
                    #[trigger] all[k].findings[j],
                    fail_on,
                ),
        decreases reports@.len() - i,
    {
        let report = &reports[i];
        let ghost fs = report.findings@;
        proof {
            assert(all[i as int] == report@);
            assert(all[i as int].findings.len() == fs.len());
            assert forall|j: int| 0 <= j < fs.len() implies #[trigger] all[i as int].findings[j]
                == fs[j]@ by {}
        }
        if report.error.is_some() {
            had_error = true;
        }
        if gate(report.findings.as_slice(), fail_on) {
            proof {
                let j = choose|j: int|
                    0 <= j < fs.len() && gates((#[trigger] fs[j])@, fail_on);
                assert(gates(all[i as int].findings[j], fail_on));
            }
            gated = true;
        }
        i += 1;
    }
    exit_code(had_error, gated)
}

/// The annotated example config (`pgsafe --example-config`). Every option is shown, commented
/// out, so the file is a valid no-op as-is.
pub const EXAMPLE_CONFIG: &'static str =
    "# pgsafe configuration. Every setting is optional; uncomment what you need.\n#\n# Save as `pgsafe.toml` (or `.pgsafe.toml`) at the root of the repository.\n\n# Minimum severity that fails the run: \"error\", \"warning\" or \"never\".\n# fail_on = \"warning\"\n\n# Treat every input as already running inside a transaction.\n# in_transaction = false\n\n# Output format: \"human\", \"json\", \"github\" or \"sarif\".\n# format = \"human\"\n\n# Lint only files whose path sorts after this one (the last legacy migration).\n# since = \"db/migrate/0042_last_legacy.sql\"\n\n# Lint only files that match one of these globs (relative to this file).\n# paths = [\"db/migrate/**\"]\n\n# Columns every CREATE TABLE must have; turns on `require-columns`.\n# required-columns = [\"created_at\", \"updated_at\"]\n\n# Per-rule settings: false turns a rule off, \"error\"/\"warning\" forces its severity, and true\n# turns an opt-in rule on.\n# [rules]\n# drop-table = false\n# add-trigger = \"error\"\n# add-index-non-concurrent = \"warning\"\n# require-primary-key = true\n# require-not-null = true\n# require-comment = true\n# require-if-exists = true\n# forbid-nullable-fk = true\n# unchecked-do-block = true\n\n# Patterns for the names of new objects; turns on `naming-convention`.\n# [naming]\n# table = \"^[a-z][a-z0-9_]*$\"\n# column = \"^[a-z][a-z0-9_]*$\"\n# index = \"^ix_\"\n# constraint = \"^(pk|fk|ck|uq)_\"\n# sequence = \"_seq$\"\n# trigger = \"^trg_\"\n# schema = \"^[a-z]+$\"\n\n# Column types to avoid and what to use in their place; turns on `forbidden-column-type`.\n# [forbidden-types]\n# timestamp = \"timestamptz\"\n# json = \"jsonb\"\n\n# Rules to skip for the files that match a glob; without `rules`, all of them.\n# [[ignore]]\n# path = \"db/legacy/**\"\n# rules = [\"drop-table\"]\n";

/// The annotated example configuration printed by `--example-config`.
#[must_use]
pub fn example_config() -> (r: &'static str)
    ensures
        r@ == EXAMPLE_CONFIG@,
{
    EXAMPLE_CONFIG
}

} // verus!
