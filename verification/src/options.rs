//! Options that adjust linting.
use vstd::prelude::*;

use crate::collections::{TextMap, TextSet};
use crate::finding::{NameKind, Severity};

verus! {

/// One optional naming-convention pattern (a raw regex) per identifier kind.
#[derive(Debug)]
pub struct NamingPatterns {
    pub table: Option<String>,
    pub column: Option<String>,
    pub index: Option<String>,
    pub constraint: Option<String>,
    pub sequence: Option<String>,
    pub trigger: Option<String>,
    pub schema: Option<String>,
}

impl NamingPatterns {
    /// The pattern of a kind.
    pub open spec fn pattern(&self, kind: NameKind) -> Option<Seq<char>> {
        let p = match kind {
            NameKind::Table => self.table,
            NameKind::Column => self.column,
            NameKind::Index => self.index,
            NameKind::Constraint => self.constraint,
            NameKind::Sequence => self.sequence,
            NameKind::Trigger => self.trigger,
            NameKind::Schema => self.schema,
        };
        match p {
            Some(s) => Some(s@),
            None => None,
        }
    }

    /// Whether no kind has a pattern.
    pub open spec fn has_none(&self) -> bool {
        &&& self.table is None
        &&& self.column is None
        &&& self.index is None
        &&& self.constraint is None
        &&& self.sequence is None
        &&& self.trigger is None
        &&& self.schema is None
    }

    /// No pattern for any kind.
    pub fn none() -> (r: NamingPatterns)
        ensures
            r.has_none(),
    {
        NamingPatterns {
            table: None,
            column: None,
            index: None,
            constraint: None,
            sequence: None,
            trigger: None,
            schema: None,
        }
    }

    /// The pattern of a kind, if it has one.
    pub fn get(&self, kind: NameKind) -> (r: Option<&String>)
        ensures
            match r {
                Some(s) => self.pattern(kind) == Some(s@),
                None => self.pattern(kind) is None,
            },
    {
        let p = match kind {
            NameKind::Table => &self.table,
            NameKind::Column => &self.column,
            NameKind::Index => &self.index,
            NameKind::Constraint => &self.constraint,
            NameKind::Sequence => &self.sequence,
            NameKind::Trigger => &self.trigger,
            NameKind::Schema => &self.schema,
        };
        p.as_ref()
    }

    /// A copy of the patterns.
    pub fn duplicate(&self) -> (r: NamingPatterns)
        ensures
            r == *self,
    {
        NamingPatterns {
            table: duplicate_text(&self.table),
            column: duplicate_text(&self.column),
            index: duplicate_text(&self.index),
            constraint: duplicate_text(&self.constraint),
            sequence: duplicate_text(&self.sequence),
            trigger: duplicate_text(&self.trigger),
            schema: duplicate_text(&self.schema),
        }
    }

    /// Whether no kind has a pattern.
    pub fn is_empty(&self) -> (r: bool)
        ensures
            r == self.has_none(),
    {
        self.table.is_none() && self.column.is_none() && self.index.is_none()
            && self.constraint.is_none() && self.sequence.is_none() && self.trigger.is_none()
            && self.schema.is_none()
    }
}

/// A copy of an optional text.
pub fn duplicate_text(t: &Option<String>) -> (r: Option<String>)
    ensures
        r == *t,
{
    match t {
        Some(s) => Some(s.clone()),
        None => None,
    }
}

/// Options that adjust linting beyond the default static analysis.
#[derive(Debug)]
pub struct LintOptions {
    /// Treat the input as already running inside a transaction (e.g. a migration tool that wraps
    /// each migration implicitly), so `CONCURRENTLY` index operations are flagged even without an
    /// explicit `BEGIN`. Default `false`.
    pub assume_in_transaction: bool,
    /// Rule ids that must not run for this input (their findings — and, for synthesized rules,
    /// their syntheses — are skipped). Default empty.
    pub disabled_rules: TextSet,
    /// Rule ids explicitly enabled in config. Required for the **boolean** opt-in policy rules
    /// (`require-primary-key`, `require-not-null`, `require-if-exists`, `require-comment`,
    /// `forbid-nullable-fk`, `unchecked-do-block`) to run; has no effect on rules that are on by
    /// default. The **data-configured** policies (`naming-convention`, `forbidden-column-type`,
    /// `require-columns`) activate when their own field below is non-empty, independent of this
    /// set. Default empty.
    pub enabled_rules: TextSet,
    /// Per-rule severity overrides applied to the findings this run emits, keyed by rule id.
    /// Default empty.
    pub severity_overrides: TextMap<Severity>,
    /// Per-kind naming-convention patterns (raw regex strings). The `naming-convention` rule runs only
    /// when this is non-empty. Default empty.
    pub naming_patterns: NamingPatterns,
    /// Forbidden column types mapped to a suggested replacement (raw spellings). The
    /// `forbidden-column-type` rule runs only when this is non-empty. Default empty.
    pub forbidden_column_types: TextMap<String>,
    /// Column names every `CREATE TABLE` must have. Matched case-insensitively: the rule folds
    /// each name to lower case to match PostgreSQL's unquoted-identifier folding, so any casing here
    /// works (`Created_At` matches a `created_at` column). A quoted, mixed-case column keeps its case
    /// and is not matched. The `require-columns` rule runs only when this is non-empty. Default empty.
    pub required_columns: TextSet,
}

impl Default for LintOptions {
    fn default() -> (r: LintOptions)
        ensures
            !r.assume_in_transaction,
            r.disabled_rules@.len() == 0,
            r.enabled_rules@.len() == 0,
            r.severity_overrides.keys().len() == 0,
            r.naming_patterns.has_none(),
            r.forbidden_column_types.keys().len() == 0,
            r.required_columns@.len() == 0,
    {
        LintOptions {
            assume_in_transaction: false,
            disabled_rules: TextSet::new(),
            enabled_rules: TextSet::new(),
            severity_overrides: TextMap::new(),
            naming_patterns: NamingPatterns::none(),
            forbidden_column_types: TextMap::new(),
            required_columns: TextSet::new(),
        }
    }
}

} // verus!
