//! pgsafe — a static safety linter for PostgreSQL DDL migrations, verified with Verus.
//!
//! The library takes what the PostgreSQL parser makes of an input ([`lint::ParsedSql`]), finds the
//! statements that lock or lose data ([`lint_sql`]), renders the findings ([`output`]), and drives
//! machine-applicable fixes to a fixpoint ([`fixpoint`]). Config, command line, unified diffs and
//! the language server are decided here too; reading, parsing and printing are the caller's.
//!
//! Every function states what it returns over spec functions next to it. The modules named
//! `*_laws` and `fix_offers` state what holds across functions; `outside` holds what is taken on
//! faith of other crates.
use vstd::prelude::*;

pub mod anchor_laws;
pub mod ast;
pub mod catalog_laws;
pub mod cli;
pub mod cli_laws;
pub mod collections;
pub mod compose_laws;
pub mod config;
pub mod config_laws;
pub mod design_laws;
pub mod diff;
pub mod diff_laws;
pub mod do_block;
pub mod edit_diff;
pub mod engine;
pub mod enum_value;
pub mod finding;
pub mod fix;
pub mod fix_laws;
pub mod fix_offers;
pub mod fix_run;
pub mod fixpoint;
pub mod fixpoint_laws;
pub mod fk_index;
pub mod fk_laws;
pub mod forbid_nullable_fk;
pub mod forbidden_types;
pub mod geometry;
pub mod gitdiff;
pub mod hygiene;
pub mod identifier;
pub mod lines;
pub mod lint;
pub mod lint_laws;
pub mod lsp;
pub mod naming;
pub mod newtable;
pub mod newtable_laws;
pub mod options;
pub mod output;
pub mod output_laws;
pub mod outside;
pub mod patch_laws;
pub mod paths;
pub mod place_laws;
pub mod plpgsql;
pub mod policy;
pub mod policy_laws;
pub mod render_laws;
pub mod require_columns;
pub mod require_comment;
pub mod require_if_exists;
pub mod require_not_null;
pub mod require_pk;
pub mod rule_laws;
pub mod rules;
pub mod selection_laws;
pub mod style;
pub mod suppression;
pub mod suppression_laws;
pub mod text;
pub mod timeout;
pub mod tree_laws;
pub mod txn;
pub mod txn_laws;
pub mod type_laws;

pub use cli::{example_config, resolve, Cli, Command, CommonArgs, ResolvedRun};
pub use finding::{Finding, Fix, FixEdit, Location, NameKind, RuleHit, Severity, Suppression};
pub use lint::{lint_sql, list_rule_ids, LintError, ParsedSql};
pub use options::LintOptions;
pub use output::{
    gate, lint_input, render_errors, render_finding_body, render_finding_human, render_github,
    render_human, render_human_styled, render_statement_header, render_summary, FailOn, FileReport,
    Format, SCHEMA_VERSION,
};
pub use style::{ColorWhen, Styling};

verus! {

} // verus!
