//! Linting from SQL text to findings: every rule, the engine, and what is rendered of them.

use pgsafe::ast::{
    AlterDomainStmt, AlterEnumStmt, AlterTableCmd, AlterTableStmt, AlterTableType, ColumnDef,
    CommentStmt, ConstrType, Constraint, CopyStmt, CreateSchemaStmt, CreateSeqStmt, CreateStmt,
    CreateTableAsStmt, CreateTrigStmt, DefElem, DropStmt, FuncCall, IndexElem, IndexStmt, Node,
    ObjectType, PartitionCmd, RangeVar, RawStmt, RefreshMatViewStmt, ReindexObjectType,
    ReindexStmt, RenameStmt, TransactionKind, TruncateStmt, TypeName, VacuumStmt, VariableSetKind,
    VariableSetStmt,
};
use pgsafe::collections::{TextMap, TextSet};
use pgsafe::do_block::unchecked_do_blocks;
use pgsafe::finding::{Finding, Fix, Location, NameKind, Severity, Suppression};
use pgsafe::fix::{apply, apply_all, resolve};
use pgsafe::fixpoint::{fix_to_fixpoint, Termination, MAX_FIX_ITERATIONS};
use pgsafe::fk_index::fk_without_index;
use pgsafe::forbidden_types::{
    canonical_type, forbidden_violations, is_single_token_type, typecheck_sql, ForbiddenType,
};
use pgsafe::enum_value::early_uses;
use pgsafe::forbid_nullable_fk::nullable_fks;
use pgsafe::geometry::{statement_bounds, statement_span, ScanToken, TokenKind};
use pgsafe::identifier::long_identifiers;
use pgsafe::lint::{DoBody, LintError, ParsedSql};
use pgsafe::lsp::actions::{code_actions, ranges_intersect, ActionKind, CodeAction};
use pgsafe::lsp::diagnostics::diagnostics_for;
use pgsafe::lsp::fixall::fix_all_action;
use pgsafe::lsp::hover::hover;
use pgsafe::lsp::position::{Position, Range};
use pgsafe::naming::{introduced_names, naming_violations};
use pgsafe::newtable::{
    added_check_constraint, attach_escalation_indices, created_table_key, populated_table_key,
    qualified_key, target_table_key, validated_constraint_table,
};
use pgsafe::options::{LintOptions, NamingPatterns};
use pgsafe::output::{
    gate, gh_escape_data, gh_escape_prop, lint_input, render_errors, render_finding_human,
    render_github, render_human, render_human_styled, render_summary, FailOn, FileReport,
};
use pgsafe::plpgsql::{analyze_do_block, DoBodyAnalysis, Json, Member};
use pgsafe::require_columns::missing_required_columns;
use pgsafe::require_comment::missing_comments;
use pgsafe::require_if_exists::missing_if_exists;
use pgsafe::require_not_null::nullable_columns;
use pgsafe::require_pk::missing_primary_keys;
use pgsafe::rules::add_domain_constraint_without_not_valid::AddDomainConstraintWithoutNotValid;
use pgsafe::rules::add_domain_not_null::AddDomainNotNull;
use pgsafe::rules::detach_partition_non_concurrent::DetachPartitionNonConcurrent;
use pgsafe::rules::drop_not_null::DropNotNull;
use pgsafe::rules::non_concurrent_index::NonConcurrentIndex;
use pgsafe::rules::{all_rules, Rule};
use pgsafe::style::{color_on, env_set, ColorWhen, Styling};
use pgsafe::suppression::directive;
use pgsafe::{lint_sql, list_rule_ids};
use std::collections::HashMap;

// --- Reading the SQL of these tests into the library's parse tree ---

/// A token: its kind, its text (folded to lower case unless quoted), and its bytes.
#[derive(Clone, PartialEq)]
enum Kind {
    Word,
    Quoted,
    Text,
    Number,
    Dollar,
    Mark,
    Note,
}

#[derive(Clone)]
struct Tok {
    kind: Kind,
    text: String,
    start: usize,
    end: usize,
}

fn scan(sql: &str) -> Vec<Tok> {
    let b = sql.as_bytes();
    let mut out = Vec::new();
    let mut i = 0;
    while i < b.len() {
        let start = i;
        let c = b[i];
        if c.is_ascii_whitespace() {
            i += 1;
            continue;
        }
        let (kind, text) = if sql[i..].starts_with("--") {
            while i < b.len() && b[i] != b'\n' {
                i += 1;
            }
            (Kind::Note, sql[start..i].to_string())
        } else if sql[i..].starts_with("$$") {
            let close = sql[i + 2..].find("$$").map_or(b.len(), |k| i + 4 + k);
            i = close;
            (Kind::Dollar, sql[start + 2..close - 2].to_string())
        } else if c == b'\'' {
            i += 1;
            while i < b.len() && b[i] != b'\'' {
                i += 1;
            }
            i += 1;
            (Kind::Text, sql[start + 1..i - 1].to_string())
        } else if c == b'"' {
            i += 1;
            while i < b.len() && b[i] != b'"' {
                i += 1;
            }
            i += 1;
            (Kind::Quoted, sql[start + 1..i - 1].to_string())
        } else if c.is_ascii_digit() {
            while i < b.len() && b[i].is_ascii_digit() {
                i += 1;
            }
            (Kind::Number, sql[start..i].to_string())
        } else if c.is_ascii_alphabetic() || c == b'_' || c >= 0x80 {
            while i < b.len() && (b[i].is_ascii_alphanumeric() || b[i] == b'_' || b[i] >= 0x80) {
                i += 1;
            }
            (Kind::Word, sql[start..i].to_lowercase())
        } else {
            i += 1;
            (Kind::Mark, sql[start..i].to_string())
        };
        out.push(Tok { kind, text, start, end: i });
    }
    out
}

/// One statement's tokens, comments aside.
struct Reader {
    toks: Vec<Tok>,
    at: usize,
    /// Whether a column list did not read as one.
    bad: bool,
}

impl Reader {
    fn peek(&self) -> &str {
        self.toks.get(self.at).map_or("", |t| t.text.as_str())
    }

    fn next(&mut self) -> String {
        let t = self.peek().to_string();
        self.at += 1;
        t
    }

    fn eat(&mut self, words: &str) -> bool {
        let ws: Vec<&str> = words.split(' ').collect();
        let found = ws.iter().enumerate().all(|(k, w)| {
            self.toks.get(self.at + k).is_some_and(|t| t.text == *w && t.kind != Kind::Quoted)
        });
        if found {
            self.at += ws.len();
        }
        found
    }

    fn skip_group(&mut self) {
        let mut depth = 0;
        loop {
            match self.next().as_str() {
                "(" => depth += 1,
                ")" => depth -= 1,
                "" => return,
                _ => {}
            }
            if depth == 0 {
                return;
            }
        }
    }

    fn parts(&mut self) -> Vec<String> {
        let mut out = vec![self.next()];
        while self.eat(".") {
            out.push(self.next());
        }
        out
    }

    fn relation(&mut self) -> Option<RangeVar> {
        let mut parts = self.parts();
        let relname = parts.pop().unwrap();
        let schemaname = parts.pop().unwrap_or_default();
        Some(RangeVar { schemaname, relname, relpersistence: "p".into() })
    }

    fn names(&mut self) -> Vec<Node> {
        let mut out = Vec::new();
        if self.eat("(") {
            while self.peek() != ")" && self.peek() != "" {
                out.push(Node::Str(self.next()));
                self.eat(",");
            }
            self.eat(")");
        }
        out
    }

    fn data_type(&mut self) -> TypeName {
        let location = self.toks[self.at].start as i32;
        let word = self.next();
        let mut zoned = false;
        if word == "timestamp" {
            self.eat("without time zone");
            zoned = self.eat("with time zone");
        }
        if self.peek() == "(" {
            self.skip_group();
        }
        let builtin = match word.as_str() {
            "int" | "integer" => Some("int4"),
            "bigint" => Some("int8"),
            "smallint" => Some("int2"),
            "timestamp" if zoned => Some("timestamptz"),
            "timestamp" => Some("timestamp"),
            "numeric" => Some("numeric"),
            "char" => Some("bpchar"),
            _ => None,
        };
        let names = match builtin {
            Some(b) => vec![Node::Str("pg_catalog".into()), Node::Str(b.into())],
            None => vec![Node::Str(word)],
        };
        TypeName { names, location }
    }

    fn expression(&mut self) -> Option<Box<Node>> {
        let name = self.next();
        if name == "(" {
            self.at -= 1;
            self.skip_group();
            return Some(Box::new(Node::Other));
        }
        if self.peek() == "(" {
            self.skip_group();
            return Some(Box::new(Node::FuncCall(FuncCall {
                funcname: vec![Node::Str(name)],
                args: Vec::new(),
            })));
        }
        Some(Box::new(Node::Other))
    }

    fn constraint(&mut self) -> Option<Constraint> {
        let mut c = Constraint {
            contype: ConstrType::Other,
            conname: String::new(),
            skip_validation: false,
            indexname: String::new(),
            keys: Vec::new(),
            fk_attrs: Vec::new(),
            raw_expr: None,
        };
        if self.eat("constraint") {
            c.conname = self.next();
        }
        if self.eat("primary key") {
            c.contype = ConstrType::Primary;
            c.keys = self.names();
        } else if self.eat("unique") {
            c.contype = ConstrType::Unique;
            c.keys = self.names();
        } else if self.eat("check") {
            c.contype = ConstrType::Check;
            c.raw_expr = self.expression();
        } else if self.eat("foreign key") {
            c.contype = ConstrType::Foreign;
            c.fk_attrs = self.names();
            self.eat("references");
            self.relation();
            self.names();
        } else if self.eat("references") {
            c.contype = ConstrType::Foreign;
            self.relation();
            self.names();
        } else if self.eat("not null") {
            c.contype = ConstrType::NotNull;
        } else if self.eat("default") {
            c.contype = ConstrType::Default;
            c.raw_expr = self.expression();
        } else {
            return None;
        }
        if self.eat("using index") {
            c.indexname = self.next();
        }
        c.skip_validation = self.eat("not valid");
        Some(c)
    }

    fn column(&mut self) -> Node {
        let colname = self.next();
        let coltype = Some(self.data_type());
        let mut constraints = Vec::new();
        while let Some(c) = self.constraint() {
            constraints.push(Node::Constraint(c));
        }
        Node::ColumnDef(ColumnDef { colname, coltype, constraints })
    }

    fn create_table(&mut self, persistence: &str) -> Node {
        let if_not_exists = self.eat("if not exists");
        let mut relation = self.relation();
        if let Some(rv) = &mut relation {
            rv.relpersistence = persistence.into();
        }
        if self.eat("as") {
            return Node::CreateTableAsStmt(CreateTableAsStmt {
                objtype: ObjectType::Table,
                relation,
                col_names: Vec::new(),
                is_select_into: false,
                if_not_exists,
            });
        }
        let partbound = self.eat("partition of");
        let mut table_elts = Vec::new();
        if self.eat("(") {
            while self.peek() != ")" && self.peek() != "" {
                let is_constraint = matches!(
                    self.peek(),
                    "constraint" | "primary" | "unique" | "check" | "foreign"
                );
                if is_constraint {
                    if let Some(c) = self.constraint() {
                        table_elts.push(Node::Constraint(c));
                    }
                } else {
                    table_elts.push(self.column());
                }
                if !self.eat(",") && self.peek() != ")" {
                    self.bad = true;
                    break;
                }
            }
        }
        Node::CreateStmt(CreateStmt { relation, table_elts, partbound, if_not_exists })
    }

    fn create_index(&mut self) -> Node {
        let concurrent = self.eat("concurrently");
        let if_not_exists = self.eat("if not exists");
        let idxname = if self.peek() == "on" { String::new() } else { self.next() };
        self.eat("on");
        let relation = self.relation();
        let mut index_params = Vec::new();
        for n in self.names() {
            if let Node::Str(name) = n {
                index_params.push(Node::IndexElem(IndexElem { name }));
            }
        }
        Node::IndexStmt(IndexStmt { idxname, relation, index_params, concurrent, if_not_exists })
    }

    fn create(&mut self) -> Node {
        if self.eat("temp table") || self.eat("temporary table") {
            return self.create_table("t");
        }
        if self.eat("unlogged table") {
            return self.create_table("u");
        }
        if self.eat("table") {
            return self.create_table("p");
        }
        if self.eat("index") || self.eat("unique index") {
            return self.create_index();
        }
        if self.eat("schema") {
            let if_not_exists = self.eat("if not exists");
            return Node::CreateSchemaStmt(CreateSchemaStmt {
                schemaname: self.next(),
                if_not_exists,
            });
        }
        if self.eat("sequence") {
            let if_not_exists = self.eat("if not exists");
            return Node::CreateSeqStmt(CreateSeqStmt { sequence: self.relation(), if_not_exists });
        }
        if self.eat("materialized view") {
            let if_not_exists = self.eat("if not exists");
            return Node::CreateTableAsStmt(CreateTableAsStmt {
                objtype: ObjectType::MatView,
                relation: self.relation(),
                col_names: Vec::new(),
                is_select_into: false,
                if_not_exists,
            });
        }
        if self.eat("trigger") {
            let trigname = self.next();
            while self.peek() != "on" && self.peek() != "" {
                self.next();
            }
            self.eat("on");
            return Node::CreateTrigStmt(CreateTrigStmt { trigname, relation: self.relation() });
        }
        Node::Other
    }

    fn alter_cmd(&mut self) -> Node {
        let mut def = None;
        let mut name = String::new();
        let subtype = if self.eat("add column") {
            def = Some(Box::new(self.column()));
            AlterTableType::AddColumn
        } else if self.eat("add") {
            def = self.constraint().map(|c| Box::new(Node::Constraint(c)));
            AlterTableType::AddConstraint
        } else if self.eat("drop column") {
            AlterTableType::DropColumn
        } else if self.eat("drop constraint") {
            AlterTableType::DropConstraint
        } else if self.eat("validate constraint") {
            AlterTableType::ValidateConstraint
        } else if self.eat("attach partition") {
            let name = self.relation();
            def = Some(Box::new(Node::PartitionCmd(PartitionCmd { name, concurrent: false })));
            AlterTableType::AttachPartition
        } else if self.eat("detach partition") {
            let name = self.relation();
            let concurrent = self.eat("concurrently");
            def = Some(Box::new(Node::PartitionCmd(PartitionCmd { name, concurrent })));
            AlterTableType::DetachPartition
        } else if self.eat("set access method") {
            AlterTableType::SetAccessMethod
        } else if self.eat("set logged") {
            AlterTableType::SetLogged
        } else if self.eat("set unlogged") {
            AlterTableType::SetUnLogged
        } else if self.eat("alter column") {
            name = self.next();
            if self.eat("type") {
                AlterTableType::AlterColumnType
            } else if self.eat("set not null") {
                AlterTableType::SetNotNull
            } else if self.eat("drop not null") {
                AlterTableType::DropNotNull
            } else {
                AlterTableType::Other
            }
        } else {
            AlterTableType::Other
        };
        while self.peek() != "," && self.peek() != "" {
            if self.peek() == "(" {
                self.skip_group();
            } else {
                self.next();
            }
        }
        Node::AlterTableCmd(AlterTableCmd { subtype, name, def })
    }

    fn rename(&mut self, rename_type: ObjectType, relation: Option<RangeVar>) -> Node {
        self.eat("to");
        Node::RenameStmt(RenameStmt { rename_type, relation, newname: self.next() })
    }

    fn alter(&mut self) -> Result<Node, String> {
        if self.eat("table") {
            if self.peek() == "" {
                return Err("syntax error at end of input".into());
            }
            let relation = self.relation();
            if self.eat("rename column") {
                self.next();
                return Ok(self.rename(ObjectType::Column, relation));
            }
            if self.eat("rename constraint") {
                self.next();
                return Ok(self.rename(ObjectType::TabConstraint, relation));
            }
            if self.eat("rename") {
                return Ok(self.rename(ObjectType::Table, relation));
            }
            let mut cmds = vec![self.alter_cmd()];
            while self.eat(",") {
                cmds.push(self.alter_cmd());
            }
            return Ok(Node::AlterTableStmt(AlterTableStmt { relation, cmds }));
        }
        if self.eat("domain") {
            self.next();
            if self.eat("rename") {
                return Ok(self.rename(ObjectType::Domain, None));
            }
            let (subtype, def) = if self.eat("set not null") {
                ("O", None)
            } else if self.eat("drop not null") {
                ("N", None)
            } else if self.eat("validate constraint") {
                ("V", None)
            } else if self.eat("drop constraint") {
                ("X", None)
            } else {
                self.eat("add");
                ("C", self.constraint().map(|c| Box::new(Node::Constraint(c))))
            };
            return Ok(Node::AlterDomainStmt(AlterDomainStmt { subtype: subtype.into(), def }));
        }
        if self.eat("type") {
            self.next();
            if self.eat("add value") {
                self.eat("if not exists");
                let new_val = self.next();
                return Ok(Node::AlterEnumStmt(AlterEnumStmt { old_val: String::new(), new_val }));
            }
            if self.eat("rename value") {
                let old_val = self.next();
                self.eat("to");
                return Ok(Node::AlterEnumStmt(AlterEnumStmt { old_val, new_val: self.next() }));
            }
            if self.eat("rename attribute") {
                self.next();
                return Ok(self.rename(ObjectType::Attribute, None));
            }
            self.eat("rename");
            return Ok(self.rename(ObjectType::Type, None));
        }
        let kind = if self.eat("index") {
            ObjectType::Index
        } else if self.eat("view") {
            ObjectType::View
        } else if self.eat("materialized view") {
            ObjectType::MatView
        } else if self.eat("sequence") {
            ObjectType::Sequence
        } else if self.eat("function") {
            ObjectType::Function
        } else if self.eat("procedure") {
            ObjectType::Procedure
        } else {
            return Ok(Node::Other);
        };
        let relation = self.relation();
        if self.peek() == "(" {
            self.skip_group();
        }
        self.eat("rename");
        Ok(self.rename(kind, relation))
    }

    fn drop(&mut self) -> Node {
        if self.eat("database") {
            return Node::DropdbStmt(self.eat("if exists"));
        }
        if self.eat("role") || self.eat("tablespace") {
            return Node::DropGlobalStmt(self.eat("if exists"));
        }
        let remove_type = if self.eat("table") {
            ObjectType::Table
        } else if self.eat("index") {
            ObjectType::Index
        } else {
            self.next();
            ObjectType::Other
        };
        let concurrent = self.eat("concurrently");
        let missing_ok = self.eat("if exists");
        let mut objects = Vec::new();
        while self.peek() != "" {
            objects.push(Node::List(self.parts().into_iter().map(Node::Str).collect()));
            self.eat(",");
        }
        Node::DropStmt(DropStmt { remove_type, objects, missing_ok, concurrent })
    }

    fn option(name: &str) -> Node {
        Node::DefElem(DefElem { defname: name.into(), arg: None })
    }

    fn reindex(&mut self) -> Node {
        let kind = match self.next().as_str() {
            "index" => ReindexObjectType::Index,
            "table" => ReindexObjectType::Table,
            "schema" => ReindexObjectType::Schema,
            "system" => ReindexObjectType::System,
            _ => ReindexObjectType::Database,
        };
        let mut params = Vec::new();
        if self.eat("concurrently") {
            params.push(Self::option("concurrently"));
        }
        Node::ReindexStmt(ReindexStmt { kind, params })
    }

    fn comment_on(&mut self) -> Node {
        self.eat("on");
        let objtype = if self.eat("table") {
            ObjectType::Table
        } else {
            self.next();
            ObjectType::Column
        };
        let parts = self.parts().into_iter().map(Node::Str).collect();
        Node::CommentStmt(CommentStmt { objtype, object: Some(Box::new(Node::List(parts))) })
    }

    fn statement(&mut self) -> Result<Node, String> {
        Ok(match self.next().as_str() {
            "create" => self.create(),
            "alter" => self.alter()?,
            "drop" => self.drop(),
            "reindex" => self.reindex(),
            "comment" => self.comment_on(),
            "truncate" => {
                self.eat("table");
                let relations = self.relation().map(Node::RangeVar).into_iter().collect();
                Node::TruncateStmt(TruncateStmt { relations })
            }
            "vacuum" => {
                let mut options = Vec::new();
                if self.eat("full") {
                    options.push(Self::option("full"));
                }
                Node::VacuumStmt(VacuumStmt { options, is_vacuumcmd: true })
            }
            "cluster" => Node::ClusterStmt,
            "refresh" => {
                self.eat("materialized view");
                let concurrent = self.eat("concurrently");
                self.relation();
                Node::RefreshMatViewStmt(RefreshMatViewStmt {
                    concurrent,
                    skip_data: self.eat("with no data"),
                })
            }
            "insert" => {
                self.eat("into");
                Node::InsertStmt(self.relation())
            }
            "merge" => {
                self.eat("into");
                Node::MergeStmt(self.relation())
            }
            "copy" => {
                let relation = self.relation();
                Node::CopyStmt(CopyStmt { relation, is_from: self.eat("from") })
            }
            "do" => Node::DoStmt,
            "begin" | "start" => Node::TransactionStmt(TransactionKind::Begin),
            "commit" | "rollback" => Node::TransactionStmt(TransactionKind::End),
            "set" => {
                let name = self.next();
                Node::VariableSetStmt(VariableSetStmt { kind: VariableSetKind::Value, name })
            }
            "reset" => {
                if self.eat("all") {
                    let kind = VariableSetKind::ResetAll;
                    return Ok(Node::VariableSetStmt(VariableSetStmt { kind, name: String::new() }));
                }
                let name = self.next();
                Node::VariableSetStmt(VariableSetStmt { kind: VariableSetKind::Reset, name })
            }
            "select" | "grant" => Node::Other,
            other => return Err(format!("syntax error at or near \"{other}\"")),
        })
    }
}

/// The JSON tree of a PL/pgSQL body: its SQL statements, its `EXECUTE`s, and what `IF` guards.
fn plpgsql_tree(body: &str) -> Option<Json> {
    let object = |key: &str, value: Json| {
        Json::Object(vec![Member { key: key.into(), value }])
    };
    let mut items = Vec::new();
    let mut open_ifs = 0;
    for piece in body.split(';') {
        let mut s = piece.trim();
        if let Some(rest) = s.strip_prefix("BEGIN") {
            s = rest.trim();
        }
        if s == "END IF" {
            open_ifs -= 1;
            continue;
        }
        if let Some(rest) = s.strip_prefix("IF ") {
            open_ifs += 1;
            s = rest.split_once("THEN").map_or("", |(_, body)| body.trim());
        }
        if s.is_empty() || s == "END" || s == "NULL" {
            continue;
        }
        items.push(if s.starts_with("PERFORM") {
            object("PLpgSQL_stmt_perform", Json::Scalar)
        } else if s.starts_with("EXECUTE") {
            object("PLpgSQL_stmt_dynexecute", Json::Scalar)
        } else {
            let query = object("query", Json::Text(s.to_string()));
            let expr = object("PLpgSQL_expr", query);
            object("PLpgSQL_stmt_execsql", object("sqlstmt", expr))
        });
    }
    if open_ifs != 0 {
        return None;
    }
    let block = object("PLpgSQL_stmt_block", object("body", Json::Array(items)));
    Some(Json::Array(vec![object("PLpgSQL_function", object("action", block))]))
}

/// What the parser makes of `sql`, with the canonical names of the forbidden types.
fn parse_with(sql: &str, options: &LintOptions) -> Result<ParsedSql, String> {
    let toks = scan(sql);
    let tokens: Vec<ScanToken> = toks
        .iter()
        .map(|t| ScanToken {
            kind: match t.kind {
                Kind::Word | Kind::Quoted => TokenKind::Ident,
                Kind::Note => TokenKind::Comment,
                Kind::Mark if t.text == ";" => TokenKind::Semicolon,
                _ => TokenKind::Other,
            },
            start: t.start as i32,
            end: t.end as i32,
        })
        .collect();
    let mut stmts = Vec::new();
    let mut geoms = Vec::new();
    let mut do_bodies = Vec::new();
    let mut from = 0;
    let mut part: Vec<Tok> = Vec::new();
    let mut rest: Vec<Tok> = toks.into_iter().filter(|t| t.kind != Kind::Note).collect();
    let end = Tok { kind: Kind::Mark, text: ";".into(), start: sql.len(), end: sql.len() };
    rest.push(end);
    for t in rest {
        if t.kind != Kind::Mark || t.text != ";" {
            part.push(t);
            continue;
        }
        if !part.is_empty() {
            let body = part.iter().find(|t| t.kind == Kind::Dollar).map(|t| t.text.clone());
            let mut r = Reader { toks: std::mem::take(&mut part), at: 0, bad: false };
            let node = r.statement()?;
            if r.bad {
                return Err(format!("syntax error at or near \"{}\"", r.peek()));
            }
            if let (Node::DoStmt, Some(body)) = (&node, body) {
                let tree = plpgsql_tree(&body);
                let mut inner = Vec::new();
                for text in analyze_do_block(tree.as_ref()).statements {
                    inner.extend(parse_with(&text, options)?.stmts);
                }
                do_bodies.push(DoBody { statement_index: stmts.len(), stmts: inner });
            }
            stmts.push(RawStmt { stmt: Some(node) });
            geoms.push(statement_span(&tokens, from, t.start));
        }
        from = t.end;
    }
    let mut forbidden = Vec::new();
    for i in 0..options.forbidden_column_types.len() {
        let spelling = options.forbidden_column_types.key_at(i).clone();
        let replacement = options.forbidden_column_types.value_at(i).clone();
        let probe = parse_with(&typecheck_sql(&spelling), &LintOptions::default());
        let canonical = probe.ok().and_then(|p| canonical_type(&p.stmts));
        forbidden.push(ForbiddenType { spelling, canonical, replacement });
    }
    Ok(ParsedSql { stmts, geoms, tokens, do_bodies, forbidden })
}

fn stmts(sql: &str) -> Vec<RawStmt> {
    parse_with(sql, &LintOptions::default()).unwrap().stmts
}

fn node(sql: &str) -> Node {
    stmts(sql).remove(0).stmt.unwrap()
}

fn lint(sql: &str, options: &LintOptions) -> Result<Vec<Finding>, LintError> {
    lint_sql(sql, &parse_with(sql, options), options)
}

fn lint_named(name: &str, sql: &str, options: &LintOptions) -> FileReport {
    lint_input(name.to_string(), sql, &parse_with(sql, options), options)
}

// --- Options and shorthands ---

fn set(names: &[&str]) -> TextSet {
    let mut s = TextSet::new();
    for n in names {
        s.insert((*n).to_string());
    }
    s
}

fn severities(pairs: &[(&str, Severity)]) -> TextMap<Severity> {
    let mut m = TextMap::new();
    for (k, v) in pairs {
        m.insert((*k).to_string(), *v);
    }
    m
}

fn patterns(pairs: &[(NameKind, &str)]) -> NamingPatterns {
    let mut p = NamingPatterns::none();
    for (kind, pattern) in pairs {
        let pattern = Some((*pattern).to_string());
        match kind {
            NameKind::Table => p.table = pattern,
            NameKind::Column => p.column = pattern,
            NameKind::Index => p.index = pattern,
            NameKind::Constraint => p.constraint = pattern,
            NameKind::Sequence => p.sequence = pattern,
            NameKind::Trigger => p.trigger = pattern,
            NameKind::Schema => p.schema = pattern,
        }
    }
    p
}

/// What `rule` alone reports for the one statement of `sql`.
fn findings_of<R: Rule>(rule: &R, sql: &str) -> Vec<Finding> {
    let parsed = parse_with(sql, &LintOptions::default()).unwrap();
    let geometry = &parsed.geoms[0];
    let node = parsed.stmts[0].stmt.as_ref().unwrap();
    let mut hits = Vec::new();
    rule.check(node, &mut hits);
    hits.into_iter()
        .map(|hit| Finding {
            rule_id: rule.id().to_string(),
            severity: rule.severity(),
            message: hit.message,
            guidance: hit.guidance,
            statement_index: 0,
            location: Location { byte: 0, line: 1, column: 1 },
            snippet: String::new(),
            suppression: None,
            fix: hit.fix.and_then(|d| resolve(&d, sql, geometry.start, geometry.end)),
        })
        .collect()
}

fn canonical_of(spelling: &str) -> Option<String> {
    let parsed = parse_with(&typecheck_sql(spelling), &LintOptions::default()).ok()?;
    canonical_type(&parsed.stmts)
}

fn long_identifiers_of(sql: &str) -> Vec<(usize, String, usize)> {
    let parsed = parse_with(sql, &LintOptions::default()).unwrap();
    long_identifiers(sql, &parsed.tokens)
}

/// What a `DO` statement's body holds.
fn analyze(sql: &str) -> DoBodyAnalysis {
    let body = scan(sql).into_iter().find(|t| t.kind == Kind::Dollar).unwrap().text;
    analyze_do_block(plpgsql_tree(&body).as_ref())
}

#[test]
fn add_check_without_not_valid_emits_a_not_valid_fix() {
    let sql = "ALTER TABLE t ADD CONSTRAINT ck CHECK (a > 0);";
    let fs = lint(sql, &LintOptions::default()).unwrap();
    let f = fs
        .iter()
        .find(|f| f.rule_id == "add-check-without-not-valid")
        .expect("rule must fire");
    let fix = f.fix.as_ref().expect("fix present");
    assert_eq!(fix.title, "Add NOT VALID");
    let fixed = apply(sql, &fix.edits);
    assert_eq!(
        fixed,
        "ALTER TABLE t ADD CONSTRAINT ck CHECK (a > 0) NOT VALID;"
    );
    // Applying it clears the finding.
    assert!(lint(&fixed, &LintOptions::default())
        .unwrap()
        .iter()
        .all(|f| f.rule_id != "add-check-without-not-valid"));
}

#[test]
fn multi_cmd_alter_constraint_fix_is_none() {
    // Two commands: ADD COLUMN + ADD CONSTRAINT — NOT VALID would be ambiguous at
    // StatementBodyEnd, so the fix must be None.
    let sql = "ALTER TABLE t ADD COLUMN x int, ADD CONSTRAINT ck CHECK (a > 0);";
    let fs = lint(sql, &LintOptions::default()).unwrap();
    let f = fs
        .iter()
        .find(|f| f.rule_id == "add-check-without-not-valid")
        .expect("rule must fire");
    assert!(
        f.fix.is_none(),
        "multi-cmd ALTER TABLE must not produce a fix"
    );
}

#[test]
fn flags_check_without_not_valid() {
    let findings = lint(
        "ALTER TABLE t ADD CONSTRAINT ck CHECK (a > 0)",
        &LintOptions::default(),
    )
    .unwrap();
    assert!(findings
        .iter()
        .any(|f| f.rule_id == "add-check-without-not-valid"));
}

#[test]
fn ignores_check_with_not_valid() {
    let findings = lint(
        "ALTER TABLE t ADD CONSTRAINT ck CHECK (a > 0) NOT VALID",
        &LintOptions::default(),
    )
    .unwrap();
    assert!(findings
        .iter()
        .all(|f| f.rule_id != "add-check-without-not-valid"));
}

#[test]
fn flags_inline_check_on_add_column_with_default() {
    let findings = lint(
        "ALTER TABLE t ADD COLUMN x int DEFAULT 1 CHECK (x > 0)",
        &LintOptions::default(),
    )
    .unwrap();
    assert!(findings
        .iter()
        .any(|f| f.rule_id == "add-check-without-not-valid"));
}

#[test]
fn flags_inline_check_on_add_column_without_default() {
    // Even with no default, the inline CHECK is validated by scanning the table (the NULL rows
    // are still scanned) under ACCESS EXCLUSIVE — proven by tests/rule_proofs.rs (seq_scan++).
    let findings = lint(
        "ALTER TABLE t ADD COLUMN x int CHECK (x > 0)",
        &LintOptions::default(),
    )
    .unwrap();
    assert!(findings
        .iter()
        .any(|f| f.rule_id == "add-check-without-not-valid"));
}

fn add_domain_constraint_without_not_valid_findings(sql: &str) -> Vec<Finding> {
    findings_of(&AddDomainConstraintWithoutNotValid, sql)
}

fn add_domain_constraint_without_not_valid_fires(sql: &str) -> bool {
    add_domain_constraint_without_not_valid_findings(sql)
        .iter()
        .any(|f| f.rule_id == "add-domain-constraint-without-not-valid")
}

#[test]
fn flags_add_constraint_without_not_valid() {
    let f = add_domain_constraint_without_not_valid_findings("ALTER DOMAIN us_postal ADD CONSTRAINT fmt CHECK (VALUE ~ '^[0-9]{5}$')")
        .into_iter()
        .find(|f| f.rule_id == "add-domain-constraint-without-not-valid")
        .expect("rule must fire");
    assert_eq!(f.severity, Severity::Error);
}

#[test]
fn ignores_add_constraint_with_not_valid() {
    assert!(!add_domain_constraint_without_not_valid_fires(
        "ALTER DOMAIN us_postal ADD CONSTRAINT fmt CHECK (VALUE ~ '^[0-9]{5}$') NOT VALID"
    ));
}

#[test]
fn ignores_create_domain_with_check() {
    // A freshly created domain has no dependent columns, so its CHECK locks nothing.
    assert!(!add_domain_constraint_without_not_valid_fires(
        "CREATE DOMAIN us_postal AS text CHECK (VALUE ~ '^[0-9]{5}$')"
    ));
}

#[test]
fn ignores_validate_constraint() {
    // VALIDATE CONSTRAINT is the sanctioned safe follow-up; do not flag it.
    assert!(!add_domain_constraint_without_not_valid_fires("ALTER DOMAIN us_postal VALIDATE CONSTRAINT fmt"));
}

#[test]
fn ignores_drop_constraint() {
    assert!(!add_domain_constraint_without_not_valid_fires("ALTER DOMAIN us_postal DROP CONSTRAINT fmt"));
}

#[test]
fn emits_not_valid_fix_that_clears() {
    let sql = "ALTER DOMAIN us_postal ADD CONSTRAINT fmt CHECK (VALUE > 0);";
    let f = add_domain_constraint_without_not_valid_findings(sql)
        .into_iter()
        .find(|f| f.rule_id == "add-domain-constraint-without-not-valid")
        .unwrap();
    let fix = f.fix.as_ref().expect("fix present");
    assert_eq!(fix.title, "Add NOT VALID");
    let fixed = apply(sql, &fix.edits);
    assert_eq!(
        fixed,
        "ALTER DOMAIN us_postal ADD CONSTRAINT fmt CHECK (VALUE > 0) NOT VALID;"
    );
    assert!(
        !add_domain_constraint_without_not_valid_findings(&fixed)
            .iter()
            .any(|f| f.rule_id == "add-domain-constraint-without-not-valid"),
        "fixed SQL must not re-trigger the rule"
    );
}

fn add_domain_not_null_findings(sql: &str) -> Vec<Finding> {
    findings_of(&AddDomainNotNull, sql)
}

fn add_domain_not_null_fires(sql: &str) -> bool {
    add_domain_not_null_findings(sql)
        .iter()
        .any(|f| f.rule_id == "add-domain-not-null")
}

#[test]
fn flags_add_not_null() {
    let f = add_domain_not_null_findings("ALTER DOMAIN d ADD NOT NULL")
        .into_iter()
        .find(|f| f.rule_id == "add-domain-not-null")
        .expect("rule must fire");
    assert_eq!(f.severity, Severity::Error);
    assert!(
        f.fix.is_none(),
        "no autofix — domain NOT NULL can't be NOT VALID"
    );
}

#[test]
fn flags_named_add_constraint_not_null() {
    assert!(add_domain_not_null_fires("ALTER DOMAIN d ADD CONSTRAINT nn NOT NULL"));
}

#[test]
fn flags_set_not_null() {
    // SET NOT NULL (subtype "O") is the portable spelling and carries the same scan/lock hazard.
    assert!(add_domain_not_null_fires("ALTER DOMAIN d SET NOT NULL"));
}

#[test]
fn ignores_add_check_constraint() {
    // The CHECK form is owned by add-domain-constraint-without-not-valid, not this rule.
    assert!(!add_domain_not_null_fires("ALTER DOMAIN d ADD CONSTRAINT c CHECK (VALUE > 0)"));
}

#[test]
fn ignores_drop_not_null() {
    // DROP NOT NULL relaxes the constraint: no scan, brief lock — genuinely safe.
    assert!(!add_domain_not_null_fires("ALTER DOMAIN d DROP NOT NULL"));
}

#[test]
fn ignores_create_domain_not_null() {
    // A freshly created domain has no dependent columns, so its NOT NULL scans nothing (and it
    // is a CreateDomainStmt, not an AlterDomainStmt).
    assert!(!add_domain_not_null_fires("CREATE DOMAIN d AS int NOT NULL"));
}

#[test]
fn add_fk_without_not_valid_emits_a_not_valid_fix() {
    let sql = "ALTER TABLE t ADD CONSTRAINT fk FOREIGN KEY (a) REFERENCES u (id);";
    let fs = lint(sql, &LintOptions::default()).unwrap();
    let f = fs
        .iter()
        .find(|f| f.rule_id == "add-fk-without-not-valid")
        .expect("rule must fire");
    let fix = f.fix.as_ref().expect("fix present");
    assert_eq!(fix.title, "Add NOT VALID");
    let fixed = apply(sql, &fix.edits);
    assert_eq!(
        fixed,
        "ALTER TABLE t ADD CONSTRAINT fk FOREIGN KEY (a) REFERENCES u (id) NOT VALID;"
    );
    // Applying it clears the finding.
    assert!(lint(&fixed, &LintOptions::default())
        .unwrap()
        .iter()
        .all(|f| f.rule_id != "add-fk-without-not-valid"));
}

#[test]
fn emits_a_not_valid_fix_no_semicolon() {
    // Without a trailing semicolon StatementBodyEnd must still land at the true end.
    let sql = "ALTER TABLE t ADD CONSTRAINT fk FOREIGN KEY (a) REFERENCES u (id)";
    let fs = lint(sql, &LintOptions::default()).unwrap();
    let f = fs
        .iter()
        .find(|f| f.rule_id == "add-fk-without-not-valid")
        .expect("rule must fire");
    let fix = f.fix.as_ref().expect("fix present");
    let fixed = apply(sql, &fix.edits);
    assert_eq!(
        fixed,
        "ALTER TABLE t ADD CONSTRAINT fk FOREIGN KEY (a) REFERENCES u (id) NOT VALID"
    );
}

#[test]
fn inline_fk_fix_is_none() {
    // Inline FK on ADD COLUMN cannot take NOT VALID — fix must be absent.
    let sql = "ALTER TABLE t ADD COLUMN pid int DEFAULT 1 REFERENCES p (id);";
    let fs = lint(sql, &LintOptions::default()).unwrap();
    let f = fs
        .iter()
        .find(|f| f.rule_id == "add-fk-without-not-valid")
        .expect("rule must fire");
    assert!(f.fix.is_none(), "inline FK must not produce a fix");
}

#[test]
fn flags_fk_without_not_valid() {
    let sql = "ALTER TABLE t ADD CONSTRAINT fk FOREIGN KEY (a) REFERENCES u (id)";
    let findings = lint(sql, &LintOptions::default()).unwrap();
    assert!(findings
        .iter()
        .any(|f| f.rule_id == "add-fk-without-not-valid"));
}

#[test]
fn ignores_fk_with_not_valid() {
    let sql = "ALTER TABLE t ADD CONSTRAINT fk FOREIGN KEY (a) REFERENCES u (id) NOT VALID";
    let findings = lint(sql, &LintOptions::default()).unwrap();
    assert!(findings
        .iter()
        .all(|f| f.rule_id != "add-fk-without-not-valid"));
}

#[test]
fn flags_inline_fk_on_add_column_with_default() {
    let sql = "ALTER TABLE t ADD COLUMN pid int DEFAULT 1 REFERENCES p (id)";
    let findings = lint(sql, &LintOptions::default()).unwrap();
    assert!(findings
        .iter()
        .any(|f| f.rule_id == "add-fk-without-not-valid"));
}

#[test]
fn ignores_inline_fk_on_add_column_without_default() {
    // No default — existing rows are NULL and NULL is FK-exempt, so no scan.
    let sql = "ALTER TABLE t ADD COLUMN pid int REFERENCES p (id)";
    let findings = lint(sql, &LintOptions::default()).unwrap();
    assert!(findings
        .iter()
        .all(|f| f.rule_id != "add-fk-without-not-valid"));
}

#[test]
fn multi_command_fk_fix_is_none() {
    // Multiple commands in one ALTER TABLE — the fix is suppressed because StatementBodyEnd
    // is ambiguous when len > 1 (NOT VALID would bind to the wrong command).
    let sql =
        "ALTER TABLE t ADD COLUMN x int, ADD CONSTRAINT fk FOREIGN KEY (x) REFERENCES u (id);";
    let fs = lint(sql, &LintOptions::default()).unwrap();
    let f = fs
        .iter()
        .find(|f| f.rule_id == "add-fk-without-not-valid")
        .expect("rule must fire");
    assert!(
        f.fix.is_none(),
        "multi-command ALTER must not emit a fix (StatementBodyEnd ambiguous)"
    );
}

#[test]
fn column_path_guidance_mentions_nullable_not_table_path() {
    let findings = lint(
        "ALTER TABLE t ADD COLUMN id int PRIMARY KEY",
        &LintOptions::default(),
    )
    .unwrap();
    let f = findings
        .iter()
        .find(|f| f.rule_id == "add-primary-key-without-index")
        .expect("rule must fire for inline column PK");
    assert!(
        f.guidance.contains("nullable"),
        "column-path guidance must instruct adding the column nullable first"
    );
}

fn add_trigger_findings(sql: &str) -> Vec<Finding> {
    lint(sql, &LintOptions::default()).unwrap()
}

fn add_trigger_trigger_sql(table: &str) -> String {
    format!("CREATE TRIGGER trg AFTER INSERT ON {table} FOR EACH ROW EXECUTE FUNCTION f()")
}

#[test]
fn flags_create_trigger() {
    assert!(add_trigger_findings(&add_trigger_trigger_sql("t"))
        .iter()
        .any(|f| f.rule_id == "add-trigger"));
}

#[test]
fn add_trigger_is_a_warning() {
    let f = add_trigger_findings(&add_trigger_trigger_sql("t"))
        .into_iter()
        .find(|f| f.rule_id == "add-trigger")
        .expect("rule must fire");
    assert_eq!(f.severity, Severity::Warning);
}

#[test]
fn silent_on_non_trigger_statements() {
    assert!(add_trigger_findings("SELECT 1")
        .iter()
        .all(|f| f.rule_id != "add-trigger"));
}

#[test]
fn silent_on_trigger_for_same_migration_new_table() {
    // foo is created (empty) earlier in the same input → the trigger is exempt.
    let sql = format!("CREATE TABLE foo (id int); {}", add_trigger_trigger_sql("foo"));
    assert!(add_trigger_findings(&sql).iter().all(|f| f.rule_id != "add-trigger"));
}

fn add_unique_constraint_hits(sql: &str) -> Vec<String> {
    lint(sql, &LintOptions::default())
        .unwrap()
        .into_iter()
        .filter(|f| f.rule_id == "add-unique-constraint")
        .map(|f| f.guidance)
        .collect()
}

#[test]
fn flags_add_constraint_unique() {
    let g = add_unique_constraint_hits("ALTER TABLE t ADD CONSTRAINT uq UNIQUE (email)");
    assert_eq!(g.len(), 1);
    assert!(g[0].contains("USING INDEX"));
}

#[test]
fn flags_add_column_unique_with_column_specific_guidance() {
    let g = add_unique_constraint_hits("ALTER TABLE t ADD COLUMN email text UNIQUE");
    assert_eq!(g.len(), 1);
    assert!(g[0].contains("Add the column without UNIQUE first"));
}

#[test]
fn ignores_add_constraint_using_index() {
    // promoting an already-built index is the safe path and must not fire.
    assert!(add_unique_constraint_hits("ALTER TABLE t ADD CONSTRAINT uq UNIQUE USING INDEX uq_idx").is_empty());
}

#[test]
fn ignores_non_unique_constraint() {
    assert!(add_unique_constraint_hits("ALTER TABLE t ADD CONSTRAINT ck CHECK (x > 0)").is_empty());
}

#[test]
fn flags_alter_column_type() {
    let findings = lint(
        "ALTER TABLE t ALTER COLUMN a TYPE bigint",
        &LintOptions::default(),
    )
    .unwrap();
    assert!(findings.iter().any(|f| f.rule_id == "alter-column-type"));
}

#[test]
fn ignores_unrelated_alter() {
    let findings = lint(
        "ALTER TABLE t ALTER COLUMN a SET DEFAULT 0",
        &LintOptions::default(),
    )
    .unwrap();
    assert!(findings.iter().all(|f| f.rule_id != "alter-column-type"));
}

#[test]
fn message_names_the_cached_plan_hazard() {
    let findings = lint(
        "ALTER TABLE t ALTER COLUMN a TYPE text",
        &LintOptions::default(),
    )
    .unwrap();
    let f = findings
        .iter()
        .find(|f| f.rule_id == "alter-column-type")
        .expect("rule must fire");
    // The message must name the cached-plan hazard of a no-rewrite change...
    assert!(
        f.message.contains("cached plan"),
        "message must mention the cached-plan hazard, got: {}",
        f.message
    );
    // ...and the guidance must not present a no-rewrite change as unconditionally safe.
    assert!(
        f.guidance.contains("DISCARD PLANS"),
        "guidance must tell users to handle cached plans, got: {}",
        f.guidance
    );
}

fn attach_partition_findings(sql: &str) -> Vec<Finding> {
    lint(sql, &LintOptions::default()).unwrap()
}

fn attach_partition_findings_with_override(sql: &str, sev: Severity) -> Vec<Finding> {
    let mut opts = LintOptions::default();
    opts.severity_overrides
        .insert("attach-partition".to_string(), sev);
    lint(sql, &opts).unwrap()
}

fn attach_partition_attach_finding(fs: Vec<Finding>) -> Finding {
    fs.into_iter()
        .find(|f| f.rule_id == "attach-partition")
        .expect("attach-partition rule must fire")
}

const ATTACH_PARTITION_ATTACH: &str = "ALTER TABLE parent ATTACH PARTITION child FOR VALUES FROM (0) TO (100)";

#[test]
fn flags_attach_partition() {
    assert!(attach_partition_findings(ATTACH_PARTITION_ATTACH)
        .iter()
        .any(|f| f.rule_id == "attach-partition"));
}

#[test]
fn attach_partition_silent_on_unrelated_alter() {
    assert!(attach_partition_findings("ALTER TABLE t ADD COLUMN c int")
        .iter()
        .all(|f| f.rule_id != "attach-partition"));
}

#[test]
fn silent_on_attach_of_same_migration_empty_child() {
    // child is created empty in the same migration → no validation scan → exempt.
    let sql = format!("CREATE TABLE child (id int); {ATTACH_PARTITION_ATTACH};");
    assert!(attach_partition_findings(&sql)
        .iter()
        .all(|f| f.rule_id != "attach-partition"));
}

#[test]
fn fires_on_attach_of_populated_child() {
    // populating the child removes the empty exemption.
    let sql = format!("CREATE TABLE child (id int); INSERT INTO child VALUES (1); {ATTACH_PARTITION_ATTACH};");
    assert!(attach_partition_findings(&sql)
        .iter()
        .any(|f| f.rule_id == "attach-partition"));
}

#[test]
fn pre_existing_child_is_error() {
    // Child never created in this migration -> may be a live table -> Error.
    assert_eq!(attach_partition_attach_finding(attach_partition_findings(ATTACH_PARTITION_ATTACH)).severity, Severity::Error);
}

#[test]
fn pre_existing_child_error_explains_why() {
    // The escalated finding appends the pre-existing-child explanation.
    assert!(attach_partition_attach_finding(attach_partition_findings(ATTACH_PARTITION_ATTACH))
        .message
        .contains("not created in this migration"));
}

#[test]
fn not_valid_check_then_validate_keeps_warning() {
    let sql = format!(
        "ALTER TABLE child ADD CONSTRAINT cc CHECK (id >= 0 AND id < 100) NOT VALID; \
         ALTER TABLE child VALIDATE CONSTRAINT cc; {ATTACH_PARTITION_ATTACH};"
    );
    assert_eq!(attach_partition_attach_finding(attach_partition_findings(&sql)).severity, Severity::Warning);
}

#[test]
fn plain_check_keeps_warning() {
    let sql =
        format!("ALTER TABLE child ADD CONSTRAINT cc CHECK (id >= 0 AND id < 100); {ATTACH_PARTITION_ATTACH};");
    assert_eq!(attach_partition_attach_finding(attach_partition_findings(&sql)).severity, Severity::Warning);
}

#[test]
fn populated_same_migration_child_is_warning() {
    // Child built (and filled) in this migration is not in service -> stays Warning.
    let sql = format!("CREATE TABLE child (id int); INSERT INTO child VALUES (1); {ATTACH_PARTITION_ATTACH};");
    assert_eq!(attach_partition_attach_finding(attach_partition_findings(&sql)).severity, Severity::Warning);
}

#[test]
fn explicit_warning_override_beats_escalation() {
    // A user who forces attach-partition to warning keeps warning even on the pre-existing case.
    assert_eq!(
        attach_partition_attach_finding(attach_partition_findings_with_override(ATTACH_PARTITION_ATTACH, Severity::Warning)).severity,
        Severity::Warning
    );
}

#[test]
fn explicit_error_override_applies_to_non_escalated_case() {
    // A user who forces attach-partition to error gets error even on the same-migration case.
    let sql = format!("CREATE TABLE child (id int); INSERT INTO child VALUES (1); {ATTACH_PARTITION_ATTACH};");
    assert_eq!(
        attach_partition_attach_finding(attach_partition_findings_with_override(&sql, Severity::Error)).severity,
        Severity::Error
    );
}

#[test]
fn not_valid_check_without_validate_is_error() {
    // ADD CHECK ... NOT VALID with no following VALIDATE does not prepare the child;
    // ATTACH_PARTITION_ATTACH still runs the full validation scan -> Error. (The primary anti-pattern.)
    let sql = format!(
        "ALTER TABLE child ADD CONSTRAINT cc CHECK (id >= 0 AND id < 100) NOT VALID; {ATTACH_PARTITION_ATTACH};"
    );
    assert_eq!(attach_partition_attach_finding(attach_partition_findings(&sql)).severity, Severity::Error);
}

#[test]
fn validate_on_other_table_does_not_lift_escalation() {
    // The VALIDATE targets a different table, so child's NOT VALID check stays unvalidated -> Error.
    let sql = format!(
        "ALTER TABLE child ADD CONSTRAINT cc CHECK (id >= 0 AND id < 100) NOT VALID; \
         ALTER TABLE other VALIDATE CONSTRAINT cc; {ATTACH_PARTITION_ATTACH};"
    );
    assert_eq!(attach_partition_attach_finding(attach_partition_findings(&sql)).severity, Severity::Error);
}

#[test]
fn escalation_is_per_attach_selective() {
    // Two ATTACHes in one migration: pre-existing child_a escalates (Error); same-migration
    // populated child_b stays Warning. Escalation is per-statement, not all-or-nothing.
    let sql = "CREATE TABLE child_b (id int); INSERT INTO child_b VALUES (1); \
               ALTER TABLE pa ATTACH PARTITION child_a FOR VALUES FROM (0) TO (100); \
               ALTER TABLE pb ATTACH PARTITION child_b FOR VALUES FROM (100) TO (200);";
    let fs = attach_partition_findings(sql);
    let sev = |child: &str| {
        fs.iter()
            .find(|f| f.rule_id == "attach-partition" && f.snippet.contains(child))
            .unwrap_or_else(|| panic!("no attach finding for {child}"))
            .severity
    };
    assert_eq!(sev("child_a"), Severity::Error);
    assert_eq!(sev("child_b"), Severity::Warning);
}

fn detach_partition_non_concurrent_findings(sql: &str) -> Vec<Finding> {
    lint(sql, &LintOptions::default()).unwrap()
}

#[test]
fn flags_detach_partition() {
    assert!(detach_partition_non_concurrent_findings("ALTER TABLE p DETACH PARTITION p1")
        .iter()
        .any(|f| f.rule_id == "detach-partition-non-concurrent"));
}

#[test]
fn silent_on_detach_concurrently() {
    assert!(detach_partition_non_concurrent_findings("ALTER TABLE p DETACH PARTITION p1 CONCURRENTLY")
        .iter()
        .all(|f| f.rule_id != "detach-partition-non-concurrent"));
}

#[test]
fn detach_partition_non_concurrent_silent_on_unrelated_alter() {
    assert!(detach_partition_non_concurrent_findings("ALTER TABLE t ADD COLUMN c int")
        .iter()
        .all(|f| f.rule_id != "detach-partition-non-concurrent"));
}

#[test]
fn detach_is_an_error() {
    let f = detach_partition_non_concurrent_findings("ALTER TABLE p DETACH PARTITION p1")
        .into_iter()
        .find(|f| f.rule_id == "detach-partition-non-concurrent")
        .expect("rule must fire");
    assert_eq!(f.severity, Severity::Error);
}

#[test]
fn multi_cmd_alter_has_no_fix() {
    // PostgreSQL grammar prevents DETACH PARTITION from being combined with
    // other ALTER TABLE sub-commands in the same statement, so we synthesise a
    // two-command AlterTableStmt directly to exercise the single-command condition.
    let relation = |name: &str| {
        Some(RangeVar {
            schemaname: String::new(),
            relname: name.to_string(),
            relpersistence: "p".to_string(),
        })
    };
    let detach_cmd = AlterTableCmd {
        subtype: AlterTableType::DetachPartition,
        name: String::new(),
        def: Some(Box::new(Node::PartitionCmd(PartitionCmd {
            name: relation("p1"),
            concurrent: false,
        }))),
    };
    let other_cmd =
        AlterTableCmd { subtype: AlterTableType::DropColumn, name: "c".into(), def: None };
    let node = Node::AlterTableStmt(AlterTableStmt {
        relation: relation("p"),
        cmds: vec![Node::AlterTableCmd(detach_cmd), Node::AlterTableCmd(other_cmd)],
    });

    let mut out = Vec::new();
    DetachPartitionNonConcurrent.check(&node, &mut out);
    let h = out.first().expect("rule must fire");
    assert!(
        h.fix.is_none(),
        "multi-cmd ALTER TABLE must not produce a fix"
    );
}

#[test]
fn detach_partition_non_concurrent_emits_a_concurrently_fix() {
    let sql = "ALTER TABLE p DETACH PARTITION p1;";
    let fs = detach_partition_non_concurrent_findings(sql);
    let f = fs
        .iter()
        .find(|f| f.rule_id == "detach-partition-non-concurrent")
        .unwrap();
    let fix = f.fix.as_ref().expect("fix present");
    assert_eq!(fix.title, "Add CONCURRENTLY");
    let fixed = apply(sql, &fix.edits);
    assert_eq!(fixed, "ALTER TABLE p DETACH PARTITION p1 CONCURRENTLY;");
    // Applying it clears the finding.
    assert!(detach_partition_non_concurrent_findings(&fixed)
        .iter()
        .all(|f| f.rule_id != "detach-partition-non-concurrent"));
}

fn drop_constraint_findings(sql: &str) -> Vec<Finding> {
    lint(sql, &LintOptions::default()).unwrap()
}

#[test]
fn flags_drop_constraint() {
    assert!(drop_constraint_findings("ALTER TABLE t DROP CONSTRAINT c")
        .iter()
        .any(|f| f.rule_id == "drop-constraint"));
}

#[test]
fn drop_constraint_is_a_warning() {
    let f = drop_constraint_findings("ALTER TABLE t DROP CONSTRAINT c")
        .into_iter()
        .find(|f| f.rule_id == "drop-constraint")
        .expect("rule must fire");
    assert_eq!(f.severity, Severity::Warning);
}

#[test]
fn silent_on_other_alter_commands() {
    assert!(drop_constraint_findings("ALTER TABLE t ADD COLUMN x int")
        .iter()
        .all(|f| f.rule_id != "drop-constraint"));
}

fn drop_database_findings(sql: &str) -> Vec<Finding> {
    lint(sql, &LintOptions::default()).unwrap()
}

#[test]
fn flags_drop_database() {
    let f = drop_database_findings("DROP DATABASE olddb")
        .into_iter()
        .find(|f| f.rule_id == "drop-database")
        .expect("rule must fire");
    assert_eq!(f.severity, Severity::Warning);
}

#[test]
fn flags_drop_database_if_exists() {
    assert!(drop_database_findings("DROP DATABASE IF EXISTS olddb")
        .iter()
        .any(|f| f.rule_id == "drop-database"));
}

#[test]
fn silent_on_drop_table() {
    assert!(drop_database_findings("DROP TABLE t")
        .iter()
        .all(|f| f.rule_id != "drop-database"));
}

fn drop_index_non_concurrent_findings(sql: &str) -> Vec<Finding> {
    lint(sql, &LintOptions::default()).unwrap()
}

#[test]
fn flags_plain_drop_index() {
    assert!(drop_index_non_concurrent_findings("DROP INDEX idx")
        .iter()
        .any(|f| f.rule_id == "drop-index-non-concurrent"));
}

#[test]
fn ignores_concurrent_drop_index() {
    assert!(drop_index_non_concurrent_findings("DROP INDEX CONCURRENTLY idx")
        .iter()
        .all(|f| f.rule_id != "drop-index-non-concurrent"));
}

#[test]
fn drop_index_non_concurrent_emits_a_concurrently_fix() {
    let sql = "DROP INDEX idx;";
    let fs = drop_index_non_concurrent_findings(sql);
    let f = fs
        .iter()
        .find(|f| f.rule_id == "drop-index-non-concurrent")
        .unwrap();
    let fix = f.fix.as_ref().expect("fix present");
    assert_eq!(fix.title, "Add CONCURRENTLY");
    let fixed = apply(sql, &fix.edits);
    assert_eq!(fixed, "DROP INDEX CONCURRENTLY idx;");
    // Applying it clears the finding.
    assert!(drop_index_non_concurrent_findings(&fixed)
        .iter()
        .all(|f| f.rule_id != "drop-index-non-concurrent"));
}

#[test]
fn multi_index_drop_has_no_fix() {
    let fs = drop_index_non_concurrent_findings("DROP INDEX a, b;");
    let f = fs
        .iter()
        .find(|f| f.rule_id == "drop-index-non-concurrent")
        .expect("rule must fire for multi-index drop");
    assert!(
        f.fix.is_none(),
        "multi-index DROP INDEX must not produce a fix"
    );
}

fn drop_not_null_findings(sql: &str) -> Vec<Finding> {
    findings_of(&DropNotNull, sql)
}

#[test]
fn flags_drop_not_null() {
    let f = drop_not_null_findings("ALTER TABLE t ALTER COLUMN a DROP NOT NULL")
        .into_iter()
        .find(|f| f.rule_id == "drop-not-null")
        .expect("rule must fire");
    assert_eq!(f.severity, Severity::Warning);
}

#[test]
fn silent_on_set_not_null() {
    assert!(drop_not_null_findings("ALTER TABLE t ALTER COLUMN a SET NOT NULL")
        .iter()
        .all(|f| f.rule_id != "drop-not-null"));
}

#[test]
fn severity_classification_is_locked() {
    let sev: HashMap<&str, Severity> =
        all_rules().iter().map(|r| (r.id(), r.severity())).collect();
    let errors = [
        "add-index-non-concurrent",
        "reindex-non-concurrent",
        "drop-index-non-concurrent",
        "alter-column-type",
        "set-not-null",
        "add-fk-without-not-valid",
        "add-check-without-not-valid",
        "vacuum-full-cluster",
        "add-unique-constraint",
        "add-primary-key-without-index",
        "add-column-not-null-no-default",
        "add-column-volatile-default",
        "add-column-serial",
        "add-column-identity",
        "add-column-generated-stored",
        "set-logged-unlogged",
        "refresh-matview-non-concurrent",
        "add-exclusion-constraint",
        "detach-partition-non-concurrent",
        "set-access-method",
    ];
    let warnings = [
        "rename",
        "drop-table",
        "drop-database",
        "drop-column",
        "truncate",
        "prefer-jsonb",
        "prefer-bigint-primary-key",
        "drop-constraint",
        "add-trigger",
        // Nominal Warning; escalated to Error at runtime for a pre-existing child (no
        // in-migration CHECK prep) — see newtable::escalate_pre_existing_attach.
        "attach-partition",
    ];
    for id in errors {
        assert_eq!(sev[id], Severity::Error, "{id} should be error");
    }
    for id in warnings {
        assert_eq!(sev[id], Severity::Warning, "{id} should be warning");
    }
    assert_eq!(
        errors.len() + warnings.len(),
        sev.len(),
        "every rule must be classified"
    );
}

#[test]
fn registration_order_is_stable() {
    let ids: Vec<&str> = all_rules().iter().map(|r| r.id()).collect();
    assert_eq!(
        ids,
        [
            "add-index-non-concurrent",
            "add-fk-without-not-valid",
            "add-check-without-not-valid",
            "set-not-null",
            "alter-column-type",
            "rename",
            "drop-index-non-concurrent",
            "drop-table",
            "drop-database",
            "drop-column",
            "truncate",
            "vacuum-full-cluster",
            "reindex-non-concurrent",
            "add-unique-constraint",
            "add-primary-key-without-index",
            "add-column-not-null-no-default",
            "add-column-volatile-default",
            "add-column-serial",
            "add-column-identity",
            "add-column-generated-stored",
            "set-logged-unlogged",
            "refresh-matview-non-concurrent",
            "add-exclusion-constraint",
            "prefer-jsonb",
            "prefer-bigint-primary-key",
            "drop-constraint",
            "add-trigger",
            "detach-partition-non-concurrent",
            "attach-partition",
            "set-access-method",
        ]
    );
}

#[test]
fn flags_plain_create_index() {
    let findings = findings_of(&NonConcurrentIndex, "CREATE INDEX idx ON t (col)");
    assert!(findings.iter().any(|f| f.rule_id == "non-concurrent-index"));
}

#[test]
fn ignores_concurrent_create_index() {
    let findings = findings_of(&NonConcurrentIndex, "CREATE INDEX CONCURRENTLY idx ON t (col)");
    assert!(findings.iter().all(|f| f.rule_id != "non-concurrent-index"));
}

fn prefer_bigint_primary_key_fires(sql: &str) -> bool {
    lint(sql, &LintOptions::default())
        .unwrap()
        .iter()
        .any(|f| f.rule_id == "prefer-bigint-primary-key")
}

#[test]
fn flags_column_level_serial_pk() {
    assert!(prefer_bigint_primary_key_fires("CREATE TABLE t (id serial PRIMARY KEY)"));
}

#[test]
fn flags_column_level_int_pk() {
    assert!(prefer_bigint_primary_key_fires("CREATE TABLE t (id integer PRIMARY KEY)"));
}

#[test]
fn flags_table_level_pk_on_int_column() {
    assert!(prefer_bigint_primary_key_fires(
        "CREATE TABLE t (id int, name text, PRIMARY KEY (id))"
    ));
}

#[test]
fn flags_add_column_serial_pk() {
    assert!(prefer_bigint_primary_key_fires("ALTER TABLE t ADD COLUMN id serial PRIMARY KEY"));
}

#[test]
fn flags_compound_add_column_with_table_level_pk() {
    // The column is added and made a PK in the same statement — its type IS visible.
    assert!(prefer_bigint_primary_key_fires(
        "ALTER TABLE t ADD COLUMN id int, ADD PRIMARY KEY (id)"
    ));
}

#[test]
fn ignores_bigint_and_bigserial_pk() {
    assert!(!prefer_bigint_primary_key_fires("CREATE TABLE t (id bigint PRIMARY KEY)"));
    assert!(!prefer_bigint_primary_key_fires("CREATE TABLE t (id bigserial PRIMARY KEY)"));
    assert!(!prefer_bigint_primary_key_fires("CREATE TABLE t (id bigint, PRIMARY KEY (id))"));
}

#[test]
fn ignores_non_pk_int_column() {
    assert!(!prefer_bigint_primary_key_fires("CREATE TABLE t (id bigint PRIMARY KEY, n int)"));
}

#[test]
fn ignores_add_primary_key_on_existing_column() {
    // The pre-existing column's type isn't in the SQL — documented limitation.
    assert!(!prefer_bigint_primary_key_fires("ALTER TABLE t ADD PRIMARY KEY (id)"));
}

#[test]
fn emits_bigint_fix_on_integer_pk_and_clears() {
    let sql = "CREATE TABLE t (id integer PRIMARY KEY)";
    let fs = lint(sql, &LintOptions::default()).unwrap();
    let f = fs
        .iter()
        .find(|f| f.rule_id == "prefer-bigint-primary-key")
        .unwrap();
    let fix = f.fix.as_ref().expect("fix present");
    assert_eq!(fix.title, "Use bigint");
    let fixed = apply(sql, &fix.edits);
    assert_eq!(fixed, "CREATE TABLE t (id bigint PRIMARY KEY)");
    assert!(
        lint(&fixed, &LintOptions::default())
            .unwrap()
            .iter()
            .all(|f| f.rule_id != "prefer-bigint-primary-key"),
        "fixed SQL must not re-trigger prefer-bigint-primary-key"
    );
}

#[test]
fn emits_bigserial_fix_on_serial_pk_and_clears() {
    let sql = "CREATE TABLE t (id serial PRIMARY KEY)";
    let fs = lint(sql, &LintOptions::default()).unwrap();
    let f = fs
        .iter()
        .find(|f| f.rule_id == "prefer-bigint-primary-key")
        .unwrap();
    let fix = f.fix.as_ref().expect("fix present");
    let fixed = apply(sql, &fix.edits);
    // serial → bigserial preserves the auto-increment sequence; plain bigint would not.
    assert_eq!(fixed, "CREATE TABLE t (id bigserial PRIMARY KEY)");
    assert!(
        lint(&fixed, &LintOptions::default())
            .unwrap()
            .iter()
            .all(|f| f.rule_id != "prefer-bigint-primary-key"),
        "fixed SQL must not re-trigger prefer-bigint-primary-key"
    );
}

#[test]
fn emits_bigint_fix_on_table_level_pk_and_clears() {
    let sql = "CREATE TABLE t (id int, PRIMARY KEY (id))";
    let fs = lint(sql, &LintOptions::default()).unwrap();
    let f = fs
        .iter()
        .find(|f| f.rule_id == "prefer-bigint-primary-key")
        .unwrap();
    let fix = f.fix.as_ref().expect("fix present");
    let fixed = apply(sql, &fix.edits);
    assert_eq!(fixed, "CREATE TABLE t (id bigint, PRIMARY KEY (id))");
    assert!(
        lint(&fixed, &LintOptions::default())
            .unwrap()
            .iter()
            .all(|f| f.rule_id != "prefer-bigint-primary-key"),
        "fixed SQL must not re-trigger prefer-bigint-primary-key"
    );
}

fn prefer_jsonb_fires(sql: &str) -> bool {
    lint(sql, &LintOptions::default())
        .unwrap()
        .iter()
        .any(|f| f.rule_id == "prefer-jsonb")
}

#[test]
fn flags_json_in_create_table() {
    assert!(prefer_jsonb_fires("CREATE TABLE t (id int, data json)"));
}

#[test]
fn flags_json_in_add_column() {
    assert!(prefer_jsonb_fires("ALTER TABLE t ADD COLUMN data json"));
}

#[test]
fn ignores_jsonb() {
    assert!(!prefer_jsonb_fires("CREATE TABLE t (id int, data jsonb)"));
    assert!(!prefer_jsonb_fires("ALTER TABLE t ADD COLUMN data jsonb"));
}

#[test]
fn emits_jsonb_fix_on_add_column_and_clears() {
    let sql = "ALTER TABLE t ADD COLUMN data json;";
    let fs = lint(sql, &LintOptions::default()).unwrap();
    let f = fs.iter().find(|f| f.rule_id == "prefer-jsonb").unwrap();
    let fix = f.fix.as_ref().expect("fix present");
    assert_eq!(fix.title, "Use jsonb");
    let fixed = apply(sql, &fix.edits);
    assert_eq!(fixed, "ALTER TABLE t ADD COLUMN data jsonb;");
    assert!(
        lint(&fixed, &LintOptions::default())
            .unwrap()
            .iter()
            .all(|f| f.rule_id != "prefer-jsonb"),
        "fixed SQL must not re-trigger prefer-jsonb"
    );
}

#[test]
fn emits_jsonb_fix_on_create_table_and_clears() {
    let sql = "CREATE TABLE t (id int, data json)";
    let fs = lint(sql, &LintOptions::default()).unwrap();
    let f = fs.iter().find(|f| f.rule_id == "prefer-jsonb").unwrap();
    let fix = f.fix.as_ref().expect("fix present");
    let fixed = apply(sql, &fix.edits);
    assert_eq!(fixed, "CREATE TABLE t (id int, data jsonb)");
    assert!(
        lint(&fixed, &LintOptions::default())
            .unwrap()
            .iter()
            .all(|f| f.rule_id != "prefer-jsonb"),
        "fixed SQL must not re-trigger prefer-jsonb"
    );
}

fn reindex_non_concurrent_findings(sql: &str) -> Vec<Finding> {
    lint(sql, &LintOptions::default()).unwrap()
}

#[test]
fn flags_plain_reindex_index() {
    assert!(reindex_non_concurrent_findings("REINDEX INDEX idx")
        .iter()
        .any(|f| f.rule_id == "reindex-non-concurrent"));
}

#[test]
fn ignores_concurrent_reindex_index() {
    assert!(reindex_non_concurrent_findings("REINDEX INDEX CONCURRENTLY idx")
        .iter()
        .all(|f| f.rule_id != "reindex-non-concurrent"));
}

#[test]
fn reindex_non_concurrent_emits_a_concurrently_fix() {
    let sql = "REINDEX INDEX idx;";
    let fs = reindex_non_concurrent_findings(sql);
    let f = fs
        .iter()
        .find(|f| f.rule_id == "reindex-non-concurrent")
        .unwrap();
    let fix = f.fix.as_ref().expect("fix present");
    assert_eq!(fix.title, "Add CONCURRENTLY");
    let fixed = apply(sql, &fix.edits);
    assert_eq!(fixed, "REINDEX INDEX CONCURRENTLY idx;");
    // Applying it clears the finding.
    assert!(reindex_non_concurrent_findings(&fixed)
        .iter()
        .all(|f| f.rule_id != "reindex-non-concurrent"));
}

#[test]
fn reindex_system_has_no_fix() {
    let fs = reindex_non_concurrent_findings("REINDEX SYSTEM mydb;");
    let f = fs
        .iter()
        .find(|f| f.rule_id == "reindex-non-concurrent")
        .expect("rule must fire for REINDEX SYSTEM");
    assert!(f.fix.is_none(), "REINDEX SYSTEM must not produce a fix");
}

/// The `rename` finding's message for `sql`, asserting the rule fired. Used to pin the
/// per-object-kind word in the message (so a swapped match arm is caught).
fn rename_rename_message(sql: &str) -> String {
    lint(sql, &LintOptions::default())
        .unwrap()
        .into_iter()
        .find(|f| f.rule_id == "rename")
        .expect("rename must fire")
        .message
}

#[test]
fn flags_table_rename() {
    let findings = lint("ALTER TABLE t RENAME TO t2", &LintOptions::default()).unwrap();
    assert!(findings.iter().any(|f| f.rule_id == "rename"));
}

#[test]
fn flags_column_rename() {
    let findings = lint(
        "ALTER TABLE t RENAME COLUMN a TO b",
        &LintOptions::default(),
    )
    .unwrap();
    assert!(findings.iter().any(|f| f.rule_id == "rename"));
}

#[test]
fn flags_index_rename() {
    let findings = lint("ALTER INDEX idx RENAME TO idx2", &LintOptions::default()).unwrap();
    assert!(findings.iter().any(|f| f.rule_id == "rename"));
}

#[test]
fn flags_constraint_rename() {
    let findings = lint(
        "ALTER TABLE t RENAME CONSTRAINT ck TO ck2",
        &LintOptions::default(),
    )
    .unwrap();
    assert!(findings.iter().any(|f| f.rule_id == "rename"));
}

#[test]
fn flags_view_rename() {
    let findings = lint("ALTER VIEW v RENAME TO v2", &LintOptions::default()).unwrap();
    assert!(findings.iter().any(|f| f.rule_id == "rename"));
}

#[test]
fn flags_sequence_rename() {
    let findings = lint("ALTER SEQUENCE s RENAME TO s2", &LintOptions::default()).unwrap();
    assert!(findings.iter().any(|f| f.rule_id == "rename"));
}

#[test]
fn flags_matview_rename() {
    let findings = lint(
        "ALTER MATERIALIZED VIEW m RENAME TO m2",
        &LintOptions::default(),
    )
    .unwrap();
    assert!(findings.iter().any(|f| f.rule_id == "rename"));
}

#[test]
fn flags_type_rename() {
    let findings =
        lint("ALTER TYPE mood RENAME TO feeling", &LintOptions::default()).unwrap();
    assert!(findings.iter().any(|f| f.rule_id == "rename"));
}

#[test]
fn flags_type_attribute_rename() {
    let findings = lint(
        "ALTER TYPE pt RENAME ATTRIBUTE x TO y",
        &LintOptions::default(),
    )
    .unwrap();
    assert!(findings.iter().any(|f| f.rule_id == "rename"));
}

#[test]
fn flags_enum_value_rename() {
    assert!(
        rename_rename_message("ALTER TYPE mood RENAME VALUE 'happy' TO 'glad'").contains("enum value")
    );
}

#[test]
fn flags_function_rename() {
    assert!(
        rename_rename_message("ALTER FUNCTION get_user(int) RENAME TO fetch_user")
            .contains("function")
    );
}

#[test]
fn flags_procedure_rename() {
    assert!(
        rename_rename_message("ALTER PROCEDURE charge(uuid) RENAME TO process_charge")
            .contains("procedure")
    );
}

#[test]
fn flags_domain_rename() {
    assert!(rename_rename_message("ALTER DOMAIN us_postal RENAME TO zip").contains("domain"));
}

#[test]
fn ignores_enum_add_value() {
    // ADD VALUE is not a rename (empty old_val) and must not fire.
    let findings = lint(
        "ALTER TYPE mood ADD VALUE 'excited'",
        &LintOptions::default(),
    )
    .unwrap();
    assert!(findings.iter().all(|f| f.rule_id != "rename"));
}

fn set_access_method_findings(sql: &str) -> Vec<Finding> {
    lint(sql, &LintOptions::default()).unwrap()
}

#[test]
fn flags_set_access_method() {
    assert!(set_access_method_findings("ALTER TABLE t SET ACCESS METHOD heap")
        .iter()
        .any(|f| f.rule_id == "set-access-method"));
}

#[test]
fn set_access_method_is_an_error() {
    let f = set_access_method_findings("ALTER TABLE t SET ACCESS METHOD heap")
        .into_iter()
        .find(|f| f.rule_id == "set-access-method")
        .expect("rule must fire");
    assert_eq!(f.severity, Severity::Error);
}

#[test]
fn set_access_method_silent_on_unrelated_alter() {
    assert!(set_access_method_findings("ALTER TABLE t ADD COLUMN c int")
        .iter()
        .all(|f| f.rule_id != "set-access-method"));
}

#[test]
fn silent_on_same_migration_new_table() {
    // t is created empty in the same migration → rewriting it is safe → exempt.
    let sql = "CREATE TABLE t (id int); ALTER TABLE t SET ACCESS METHOD heap;";
    assert!(set_access_method_findings(sql)
        .iter()
        .all(|f| f.rule_id != "set-access-method"));
}

fn do_block_enabled() -> LintOptions {
    LintOptions {
        enabled_rules: set(&["unchecked-do-block"]),
        ..LintOptions::default()
    }
}

fn do_block_flagged(sql: &str) -> usize {
    unchecked_do_blocks(&stmts(sql)).len()
}

#[test]
fn do_block_is_flagged() {
    assert_eq!(
        do_block_flagged("DO $$ BEGIN ALTER TABLE big ADD COLUMN x int NOT NULL DEFAULT 1; END $$;"),
        1
    );
}

#[test]
fn non_do_statement_is_not_flagged() {
    assert_eq!(do_block_flagged("CREATE TABLE t (id int)"), 0);
}

#[test]
fn do_with_explicit_language_clause_is_flagged() {
    // `DO LANGUAGE plpgsql $$ … $$` parses to the same DoStmt node as the positional form.
    assert_eq!(
        do_block_flagged("DO LANGUAGE plpgsql $$ BEGIN PERFORM 1; END $$;"),
        1
    );
}

#[test]
fn each_do_block_is_flagged_once() {
    // two DO blocks around a plain statement — one finding each, none for the CREATE.
    let sql = "DO $$ BEGIN PERFORM 1; END $$;\n\
               CREATE TABLE t (id int);\n\
               DO $$ BEGIN PERFORM 2; END $$;";
    assert_eq!(do_block_flagged(sql), 2);
}

#[test]
fn do_block_off_by_default() {
    let f = lint("DO $$ BEGIN PERFORM 1; END $$;", &LintOptions::default()).unwrap();
    assert!(f.iter().all(|f| f.rule_id != "unchecked-do-block"));
}

#[test]
fn do_block_fires_when_enabled() {
    let f = lint("DO $$ BEGIN PERFORM 1; END $$;", &do_block_enabled()).unwrap();
    let hit = f
        .iter()
        .find(|f| f.rule_id == "unchecked-do-block")
        .expect("rule must fire when enabled");
    assert_eq!(hit.severity, Severity::Warning);
}

#[test]
fn disabled_overrides_enabled() {
    // a rule both enabled and disabled is silenced — the disabled set wins.
    let opts = LintOptions {
        enabled_rules: set(&["unchecked-do-block"]),
        disabled_rules: set(&["unchecked-do-block"]),
        ..LintOptions::default()
    };
    let f = lint("DO $$ BEGIN PERFORM 1; END $$;", &opts).unwrap();
    assert!(f.iter().all(|f| f.rule_id != "unchecked-do-block"));
}

#[test]
fn do_block_suppressible_when_enabled() {
    let sql = "-- pgsafe:ignore unchecked-do-block reviewed\nDO $$ BEGIN PERFORM 1; END $$;";
    let f = lint(sql, &do_block_enabled()).unwrap();
    let hit = f
        .iter()
        .find(|f| f.rule_id == "unchecked-do-block")
        .expect("rule must fire");
    assert!(hit.is_suppressed());
}

fn fk_flagged(sql: &str) -> Vec<(usize, String, String)> {
    fk_without_index(&stmts(sql))
}

#[test]
fn new_column_fk_without_index_is_flagged() {
    let f = fk_flagged("CREATE TABLE child (id bigint, parent_id bigint REFERENCES parent (id))");
    assert_eq!(f, vec![(0, "child".to_string(), "parent_id".to_string())]);
}

#[test]
fn add_column_fk_without_index_is_flagged() {
    let f = fk_flagged("ALTER TABLE child ADD COLUMN parent_id bigint REFERENCES parent");
    assert_eq!(f, vec![(0, "child".to_string(), "parent_id".to_string())]);
}

#[test]
fn a_following_create_index_covers_it() {
    assert!(fk_flagged(
        "CREATE TABLE child (parent_id bigint REFERENCES parent); \
         CREATE INDEX ON child (parent_id)"
    )
    .is_empty());
}

#[test]
fn fk_on_preexisting_column_is_not_flagged() {
    // No column is added in this statement → parent_id is pre-existing → out of scope.
    assert!(fk_flagged(
        "ALTER TABLE child ADD CONSTRAINT fk FOREIGN KEY (parent_id) REFERENCES parent (id)"
    )
    .is_empty());
}

#[test]
fn inline_unique_or_pk_covers_the_fk_column() {
    assert!(
        fk_flagged("CREATE TABLE child (parent_id bigint PRIMARY KEY REFERENCES parent)")
            .is_empty()
    );
    assert!(
        fk_flagged("CREATE TABLE child (parent_id bigint UNIQUE REFERENCES parent)").is_empty()
    );
}

#[test]
fn multi_column_fk_keys_on_the_first_column() {
    let f = fk_flagged(
        "CREATE TABLE child (a bigint, b bigint, FOREIGN KEY (a, b) REFERENCES parent (x, y))",
    );
    assert_eq!(f, vec![(0, "child".to_string(), "a".to_string())]);
    // An index leading with the first column covers it.
    assert!(fk_flagged(
        "CREATE TABLE child (a bigint, b bigint, FOREIGN KEY (a, b) REFERENCES parent (x, y)); \
         CREATE INDEX ON child (a, b)"
    )
    .is_empty());
}

#[test]
fn table_level_pk_first_key_covers_the_fk_column() {
    assert!(fk_flagged(
        "CREATE TABLE child (parent_id bigint REFERENCES parent, PRIMARY KEY (parent_id))"
    )
    .is_empty());
}

#[test]
fn lint_sql_emits_a_warning_for_a_new_column_fk() {
    let f = lint(
        "ALTER TABLE child ADD COLUMN parent_id bigint REFERENCES parent",
        &LintOptions::default(),
    )
    .unwrap();
    let hit = f
        .iter()
        .find(|f| f.rule_id == "fk-without-covering-index")
        .expect("rule must fire through the engine");
    assert_eq!(hit.severity, Severity::Warning);
}

#[test]
fn fk_finding_is_inline_suppressible() {
    // CREATE TABLE form avoids require-timeout so the FK finding is the only one.
    let sql = "-- pgsafe:ignore fk-without-covering-index index follows in a later migration\n\
               CREATE TABLE child (parent_id bigint REFERENCES parent)";
    let f = lint(sql, &LintOptions::default()).unwrap();
    let hit = f
        .iter()
        .find(|f| f.rule_id == "fk-without-covering-index")
        .expect("rule must fire");
    assert!(
        hit.is_suppressed(),
        "directive must suppress the FK finding"
    );
}

#[test]
fn disabled_fk_rule_is_silent() {
    let opts = LintOptions {
        disabled_rules: set(&["fk-without-covering-index"]),
        ..LintOptions::default()
    };
    let f = lint(
        "CREATE TABLE child (parent_id bigint REFERENCES parent)",
        &opts,
    )
    .unwrap();
    assert!(f.iter().all(|f| f.rule_id != "fk-without-covering-index"));
}

fn types_forbid(pairs: &[(&str, &str)]) -> TextMap<String> {
    let mut m = TextMap::new();
    for (k, v) in pairs {
        m.insert((*k).to_string(), (*v).to_string());
    }
    m
}

fn types_flagged(sql: &str, pairs: &[(&str, &str)]) -> Vec<String> {
    let parsed = parse_with(sql, &types_forbid_opts(pairs)).unwrap();
    forbidden_violations(&parsed.stmts, &parsed.forbidden, sql)
        .into_iter()
        .map(|(_, m, _)| m)
        .collect()
}

fn types_forbid_opts(pairs: &[(&str, &str)]) -> LintOptions {
    LintOptions {
        forbidden_column_types: types_forbid(pairs),
        ..LintOptions::default()
    }
}

#[test]
fn canonical_type_normalizes_spellings() {
    assert_eq!(canonical_of("char").as_deref(), Some("bpchar"));
    assert_eq!(canonical_of("integer").as_deref(), Some("int4"));
    assert_eq!(
        canonical_of("timestamp with time zone").as_deref(),
        Some("timestamptz")
    );
}

#[test]
fn canonical_type_returns_none_on_unparseable() {
    // Only strings that fail to PARSE as a type yield None. A bare unknown identifier passes
    // through (`notatype` -> Some) — the parser has no catalog to validate type existence.
    assert!(canonical_of("not a real type").is_none());
    assert_eq!(canonical_of("notatype").as_deref(), Some("notatype"));
}

#[test]
fn unrecognized_type_is_inert() {
    // A configured type the parser doesn't recognize matches no column — no finding, no error.
    assert!(types_flagged("CREATE TABLE t (c text)", &[("notatype", "")]).is_empty());
}

#[test]
fn forbidden_type_is_flagged_with_replacement() {
    let f = types_flagged(
        "CREATE TABLE t (created timestamp)",
        &[("timestamp", "timestamptz")],
    );
    assert_eq!(f.len(), 1);
    assert!(f[0].contains("`timestamptz`"));
}

#[test]
fn distinct_canonical_type_is_not_flagged() {
    // forbidding `timestamp` must not flag a `timestamptz` column.
    assert!(types_flagged(
        "CREATE TABLE t (created timestamptz)",
        &[("timestamp", "timestamptz")]
    )
    .is_empty());
}

#[test]
fn spelling_matches_via_canonicalization() {
    // config `char` matches a char(10) column (both canonicalize to bpchar).
    assert_eq!(
        types_flagged("CREATE TABLE t (code char(10))", &[("char", "text")]).len(),
        1
    );
}

#[test]
fn add_column_forbidden_type_is_flagged() {
    assert_eq!(
        types_flagged("ALTER TABLE t ADD COLUMN c money", &[("money", "numeric")]).len(),
        1
    );
}

#[test]
fn allowed_type_is_silent() {
    assert!(types_flagged(
        "CREATE TABLE t (id bigint)",
        &[("timestamp", "timestamptz")]
    )
    .is_empty());
}

#[test]
fn forbidden_types_empty_config_does_no_work() {
    assert!(types_flagged("CREATE TABLE t (created timestamp)", &[]).is_empty());
}

#[test]
fn empty_replacement_omits_suggestion() {
    let f = types_flagged("CREATE TABLE t (c money)", &[("money", "")]);
    assert_eq!(f.len(), 1);
    assert!(!f[0].contains("use `"));
}

#[test]
fn silent_without_config() {
    let f = lint(
        "CREATE TABLE t (created timestamp)",
        &LintOptions::default(),
    )
    .unwrap();
    assert!(f.iter().all(|f| f.rule_id != "forbidden-column-type"));
}

#[test]
fn forbidden_types_fires_with_config() {
    let f = lint(
        "CREATE TABLE t (created timestamp)",
        &types_forbid_opts(&[("timestamp", "timestamptz")]),
    )
    .unwrap();
    let hit = f
        .iter()
        .find(|f| f.rule_id == "forbidden-column-type")
        .expect("rule must fire when configured");
    assert_eq!(hit.severity, Severity::Warning);
}

#[test]
fn severity_override_escalates_to_error() {
    let opts = LintOptions {
        forbidden_column_types: types_forbid(&[("timestamp", "timestamptz")]),
        severity_overrides: severities(&[("forbidden-column-type", Severity::Error)]),
        ..LintOptions::default()
    };
    let f = lint("CREATE TABLE t (created timestamp)", &opts).unwrap();
    let hit = f
        .iter()
        .find(|f| f.rule_id == "forbidden-column-type")
        .expect("rule must fire");
    assert_eq!(hit.severity, Severity::Error);
}

#[test]
fn passes_on_allowed_type() {
    let f = lint(
        "CREATE TABLE t (created timestamptz)",
        &types_forbid_opts(&[("timestamp", "timestamptz")]),
    )
    .unwrap();
    assert!(f.iter().all(|f| f.rule_id != "forbidden-column-type"));
}

#[test]
fn forbidden_types_inline_suppressible() {
    let sql = "-- pgsafe:ignore forbidden-column-type legacy column\n\
               CREATE TABLE t (created timestamp)";
    let f = lint(sql, &types_forbid_opts(&[("timestamp", "timestamptz")])).unwrap();
    let hit = f
        .iter()
        .find(|f| f.rule_id == "forbidden-column-type")
        .expect("rule must fire");
    assert!(hit.is_suppressed());
}

#[test]
fn timestamp_fix_clears_rule() {
    let sql = "CREATE TABLE t (created timestamp)";
    let fs = lint(sql, &types_forbid_opts(&[("timestamp", "timestamptz")])).unwrap();
    let hit = fs
        .iter()
        .find(|f| f.rule_id == "forbidden-column-type")
        .expect("rule must fire");
    let fix = hit
        .fix
        .as_ref()
        .expect("fix must be present for single-token type");
    let fixed = apply(sql, &fix.edits);
    assert_eq!(fixed, "CREATE TABLE t (created timestamptz)");
    assert!(
        lint(&fixed, &types_forbid_opts(&[("timestamp", "timestamptz")]))
            .unwrap()
            .iter()
            .all(|f| f.rule_id != "forbidden-column-type"),
        "fixed SQL must not re-trigger forbidden-column-type"
    );
}

#[test]
fn add_column_money_fix_clears_rule() {
    let sql = "ALTER TABLE t ADD COLUMN c money";
    let fs = lint(sql, &types_forbid_opts(&[("money", "numeric")])).unwrap();
    let hit = fs
        .iter()
        .find(|f| f.rule_id == "forbidden-column-type")
        .expect("rule must fire");
    let fix = hit
        .fix
        .as_ref()
        .expect("fix must be present for single-token type");
    let fixed = apply(sql, &fix.edits);
    assert_eq!(fixed, "ALTER TABLE t ADD COLUMN c numeric");
    assert!(
        lint(&fixed, &types_forbid_opts(&[("money", "numeric")]))
            .unwrap()
            .iter()
            .all(|f| f.rule_id != "forbidden-column-type"),
        "fixed SQL must not re-trigger forbidden-column-type"
    );
}

#[test]
fn multi_word_type_fix_is_none() {
    // `timestamp without time zone` is a multi-word type; ReplaceTokenAt would replace
    // only the first word, leaving `timestamptz without time zone` — a corrupt rewrite.
    // The single-token guard must suppress the fix draft while still firing the finding.
    let sql = "CREATE TABLE t (created timestamp without time zone)";
    let fs = lint(sql, &types_forbid_opts(&[("timestamp", "timestamptz")])).unwrap();
    let hit = fs
        .iter()
        .find(|f| f.rule_id == "forbidden-column-type")
        .expect("rule must fire — the finding is still valid");
    assert!(
        hit.fix.is_none(),
        "fix must be suppressed for multi-word type (single-token guard)"
    );
}

fn ident_fires(sql: &str) -> bool {
    !long_identifiers_of(sql).is_empty()
}

fn ident_long() -> String {
    "a".repeat(64)
}

fn ident_at_limit() -> String {
    "a".repeat(63)
}

#[test]
fn flags_over_long_table_name() {
    assert!(ident_fires(&format!("CREATE TABLE {} (id int)", ident_long())));
}

#[test]
fn flags_over_long_column_name() {
    assert!(ident_fires(&format!("CREATE TABLE t ({} int)", ident_long())));
}

#[test]
fn flags_over_long_constraint_name() {
    assert!(ident_fires(&format!(
        "ALTER TABLE t ADD CONSTRAINT {} CHECK (x > 0)",
        ident_long()
    )));
}

#[test]
fn flags_over_long_rename_target() {
    assert!(ident_fires(&format!("ALTER TABLE t RENAME TO {}", ident_long())));
}

#[test]
fn flags_over_long_index_name() {
    assert!(ident_fires(&format!("CREATE INDEX {} ON t (x)", ident_long())));
}

#[test]
fn flags_over_long_trigger_name() {
    assert!(ident_fires(&format!(
        "CREATE TRIGGER {} AFTER INSERT ON t FOR EACH ROW EXECUTE FUNCTION f()",
        ident_long()
    )));
}

#[test]
fn silent_at_63_byte_limit() {
    assert!(!ident_fires(&format!("CREATE TABLE {} (id int)", ident_at_limit())));
}

#[test]
fn reports_the_true_untruncated_byte_length() {
    // The AST would show 63 (PostgreSQL truncates); scan() must report the real 64.
    let found = long_identifiers_of(&format!("CREATE TABLE {} (id int)", ident_long()));
    assert_eq!(found.len(), 1);
    assert_eq!(found[0].2, 64, "byte_len must be the pre-truncation length");
}

#[test]
fn byte_length_counts_multibyte_chars_not_chars() {
    // 32 × 'é' (U+00E9) = 32 chars but 64 UTF-8 bytes → over the 63-BYTE limit.
    let name = "é".repeat(32);
    assert_eq!(name.chars().count(), 32);
    assert_eq!(name.len(), 64);
    let found = long_identifiers_of(&format!("CREATE TABLE \"{name}\" (id int)"));
    assert_eq!(found.len(), 1);
    assert_eq!(found[0].2, 64, "quotes must be stripped, content bytes counted");
}

#[test]
fn quoted_identifier_quotes_are_not_counted() {
    // 63 inner bytes + 2 quotes = 65 source bytes; stripping the quotes leaves 63 → silent.
    let name = "a".repeat(63);
    assert!(!ident_fires(&format!("CREATE TABLE \"{name}\" (id int)")));
}

#[test]
fn lint_sql_emits_a_warning_for_an_over_long_identifier() {
    let f = lint(&format!("CREATE TABLE {} (id int)", ident_long()), &LintOptions::default())
        .unwrap();
    let hit = f
        .iter()
        .find(|f| f.rule_id == "identifier-too-long")
        .expect("rule must fire through the engine");
    assert_eq!(hit.severity, Severity::Warning);
}

#[test]
fn identifier_finding_is_inline_suppressible() {
    // CREATE TABLE avoids require-timeout, so the identifier finding is the only one.
    let sql = format!(
        "-- pgsafe:ignore identifier-too-long legacy name kept deliberately\n\
         CREATE TABLE {} (id int)",
        ident_long()
    );
    let f = lint(&sql, &LintOptions::default()).unwrap();
    let hit = f
        .iter()
        .find(|f| f.rule_id == "identifier-too-long")
        .expect("rule must fire");
    assert!(hit.is_suppressed(), "directive must suppress the finding");
}

#[test]
fn disabled_identifier_rule_is_silent() {
    let opts = LintOptions {
        disabled_rules: set(&["identifier-too-long"]),
        ..LintOptions::default()
    };
    let f = lint(&format!("CREATE TABLE {} (id int)", ident_long()), &opts).unwrap();
    assert!(f.iter().all(|f| f.rule_id != "identifier-too-long"));
}

fn flagged_names(sql: &str, pairs: &[(NameKind, &str)]) -> Vec<String> {
    naming_violations(&stmts(sql), &patterns(pairs)).into_iter().map(|(_, m)| m).collect()
}

fn naming_table_pat_opts() -> LintOptions {
    LintOptions {
        naming_patterns: patterns(&[(NameKind::Table, "^t_")]),
        ..LintOptions::default()
    }
}

#[test]
fn table_name_mismatch_is_flagged() {
    assert_eq!(
        flagged_names("CREATE TABLE users (id int)", &[(NameKind::Table, "^t_")]).len(),
        1
    );
    assert!(
        flagged_names("CREATE TABLE t_users (id int)", &[(NameKind::Table, "^t_")]).is_empty()
    );
}

#[test]
fn column_name_mismatch_is_flagged() {
    // quoted "Id" keeps its case; snake_case pattern rejects it.
    assert_eq!(
        flagged_names(
            "CREATE TABLE t (\"Id\" int)",
            &[(NameKind::Column, "^[a-z][a-z0-9_]*$")]
        )
        .len(),
        1
    );
}

#[test]
fn index_and_constraint_and_sequence_and_trigger_and_schema() {
    assert_eq!(
        flagged_names("CREATE INDEX foo ON t (x)", &[(NameKind::Index, "^ix_")]).len(),
        1
    );
    assert_eq!(
        flagged_names(
            "ALTER TABLE t ADD CONSTRAINT bad CHECK (x > 0)",
            &[(NameKind::Constraint, "^ck_")]
        )
        .len(),
        1
    );
    assert_eq!(
        flagged_names("CREATE SEQUENCE foo", &[(NameKind::Sequence, "^seq_")]).len(),
        1
    );
    assert_eq!(
        flagged_names(
            "CREATE TRIGGER foo AFTER INSERT ON t FOR EACH ROW EXECUTE FUNCTION f()",
            &[(NameKind::Trigger, "^trg_")]
        )
        .len(),
        1
    );
    assert_eq!(
        flagged_names("CREATE SCHEMA bad", &[(NameKind::Schema, "^app_")]).len(),
        1
    );
}

#[test]
fn rename_target_is_checked() {
    assert_eq!(
        flagged_names(
            "ALTER TABLE t RENAME TO \"Bad\"",
            &[(NameKind::Table, "^[a-z]")]
        )
        .len(),
        1
    );
}

#[test]
fn kind_without_a_pattern_is_not_checked() {
    // only a column pattern is set; the bad table name is not checked.
    assert!(flagged_names(
        "CREATE TABLE \"Bad\" (id int)",
        &[(NameKind::Column, "^[a-z]")]
    )
    .is_empty());
}

#[test]
fn no_patterns_means_no_work() {
    assert!(flagged_names("CREATE TABLE \"Bad\" (id int)", &[]).is_empty());
}

#[test]
fn silent_without_patterns() {
    let f = lint("CREATE TABLE users (id int)", &LintOptions::default()).unwrap();
    assert!(f.iter().all(|f| f.rule_id != "naming-convention"));
}

#[test]
fn fires_with_a_pattern() {
    let f = lint("CREATE TABLE users (id int)", &naming_table_pat_opts()).unwrap();
    let hit = f
        .iter()
        .find(|f| f.rule_id == "naming-convention")
        .expect("rule must fire on a mismatch");
    assert_eq!(hit.severity, Severity::Warning);
}

#[test]
fn passes_on_a_match() {
    let f = lint("CREATE TABLE t_users (id int)", &naming_table_pat_opts()).unwrap();
    assert!(f.iter().all(|f| f.rule_id != "naming-convention"));
}

#[test]
fn naming_inline_suppressible() {
    let sql = "-- pgsafe:ignore naming-convention legacy table\nCREATE TABLE users (id int)";
    let f = lint(sql, &naming_table_pat_opts()).unwrap();
    let hit = f
        .iter()
        .find(|f| f.rule_id == "naming-convention")
        .expect("rule must fire");
    assert!(hit.is_suppressed());
}

#[test]
fn qualified_key_normalizes_public_to_bare() {
    assert_eq!(qualified_key("", "t"), "t");
    assert_eq!(qualified_key("public", "t"), "t");
    assert_eq!(qualified_key("app", "t"), "app.t");
}

#[test]
fn added_check_constraint_classifies_validity() {
    assert_eq!(
        added_check_constraint(&node("ALTER TABLE t ADD CONSTRAINT c CHECK (a > 0)")),
        Some(("t".to_string(), true)) // plain ADD CHECK is immediately valid
    );
    assert_eq!(
        added_check_constraint(&node(
            "ALTER TABLE t ADD CONSTRAINT c CHECK (a > 0) NOT VALID"
        )),
        Some(("t".to_string(), false)) // NOT VALID: not enforced until VALIDATE
    );
    // A non-CHECK constraint (FK) is not a CHECK preparation.
    assert_eq!(
        added_check_constraint(&node(
            "ALTER TABLE t ADD CONSTRAINT fk FOREIGN KEY (x) REFERENCES p (id)"
        )),
        None
    );
    assert_eq!(
        added_check_constraint(&node("ALTER TABLE t ADD COLUMN x int")),
        None
    );
}

#[test]
fn validated_constraint_table_matches_validate() {
    assert_eq!(
        validated_constraint_table(&node("ALTER TABLE t VALIDATE CONSTRAINT c"))
            .as_deref(),
        Some("t")
    );
    assert_eq!(
        validated_constraint_table(&node("ALTER TABLE t ADD COLUMN x int")),
        None
    );
}

#[test]
fn escalates_attach_of_pre_existing_child_without_check() {
    // Pre-existing child, no CHECK prep -> escalate the single statement (index 0).
    let idx = attach_escalation_indices(&stmts(
        "ALTER TABLE parent ATTACH PARTITION child FOR VALUES FROM (0) TO (100)",
    ));
    assert!(idx.contains(&0));
}

#[test]
fn does_not_escalate_same_migration_created_child() {
    // Child created in this migration -> not yet in service -> no escalation.
    let idx = attach_escalation_indices(&stmts(
        "CREATE TABLE child (id int); \
         ALTER TABLE parent ATTACH PARTITION child FOR VALUES FROM (0) TO (100)",
    ));
    assert!(idx.is_empty());
}

#[test]
fn does_not_escalate_when_not_valid_check_then_validated() {
    // The documented safe rewrite: ADD CHECK ... NOT VALID, then VALIDATE, then ATTACH.
    let idx = attach_escalation_indices(&stmts(
        "ALTER TABLE child ADD CONSTRAINT cc CHECK (id >= 0 AND id < 100) NOT VALID; \
         ALTER TABLE child VALIDATE CONSTRAINT cc; \
         ALTER TABLE parent ATTACH PARTITION child FOR VALUES FROM (0) TO (100)",
    ));
    assert!(idx.is_empty());
}

#[test]
fn does_not_escalate_when_plain_check_present() {
    // A plain (immediately valid) ADD CHECK before the ATTACH also prepares the child.
    let idx = attach_escalation_indices(&stmts(
        "ALTER TABLE child ADD CONSTRAINT cc CHECK (id >= 0 AND id < 100); \
         ALTER TABLE parent ATTACH PARTITION child FOR VALUES FROM (0) TO (100)",
    ));
    assert!(idx.is_empty());
}

#[test]
fn escalates_when_not_valid_check_never_validated() {
    // ADD CHECK ... NOT VALID without a following VALIDATE does not let ATTACH skip the scan.
    let idx = attach_escalation_indices(&stmts(
        "ALTER TABLE child ADD CONSTRAINT cc CHECK (id >= 0 AND id < 100) NOT VALID; \
         ALTER TABLE parent ATTACH PARTITION child FOR VALUES FROM (0) TO (100)",
    ));
    assert!(idx.contains(&1));
}

#[test]
fn key_extraction() {
    assert_eq!(
        created_table_key(&node("CREATE TABLE foo (id int)")).as_deref(),
        Some("foo")
    );
    assert_eq!(
        created_table_key(&node("CREATE TABLE s.foo (id int)")).as_deref(),
        Some("s.foo")
    );
    assert_eq!(
        created_table_key(&node("CREATE TABLE foo AS SELECT 1")),
        None
    );
    assert_eq!(
        target_table_key(&node("ALTER TABLE foo ADD COLUMN c int")).as_deref(),
        Some("foo")
    );
    assert_eq!(
        target_table_key(&node("CREATE INDEX i ON foo (x)")).as_deref(),
        Some("foo")
    );
    assert_eq!(
        target_table_key(&node(
            "CREATE TRIGGER trg AFTER INSERT ON foo FOR EACH ROW EXECUTE FUNCTION f()"
        ))
        .as_deref(),
        Some("foo")
    );
    assert_eq!(
        target_table_key(&node(
            "ALTER TABLE parent ATTACH PARTITION child FOR VALUES FROM (0) TO (100)"
        ))
        .as_deref(),
        Some("child")
    );
    assert_eq!(
        populated_table_key(&node("INSERT INTO foo VALUES (1)")).as_deref(),
        Some("foo")
    );
    assert_eq!(
        populated_table_key(&node("COPY foo FROM '/tmp/x'")).as_deref(),
        Some("foo")
    );
    assert_eq!(
        populated_table_key(&node("COPY foo TO '/tmp/x'")),
        None
    );
    assert_eq!(
        populated_table_key(&node(
            "MERGE INTO foo USING src ON foo.id = src.id WHEN NOT MATCHED THEN INSERT VALUES (src.id)"
        ))
        .as_deref(),
        Some("foo")
    );
}

#[test]
fn recovers_a_single_direct_statement() {
    let a = analyze("DO $$ BEGIN ALTER TABLE t ADD COLUMN x int; END $$;");
    assert_eq!(a.statements.len(), 1);
    assert!(a.statements[0].contains("ALTER TABLE t"));
    assert!(!a.has_residue);
}

#[test]
fn recovers_multiple_statements_in_body_order() {
    let a = analyze("DO $$ BEGIN CREATE INDEX i ON t (c); DROP TABLE u; END $$;");
    assert_eq!(a.statements.len(), 2);
    assert!(a.statements[0].contains("CREATE INDEX"));
    assert!(a.statements[1].contains("DROP TABLE"));
    assert!(!a.has_residue);
}

#[test]
fn recovers_statements_nested_in_control_flow() {
    let a =
        analyze("DO $$ BEGIN IF true THEN CREATE INDEX i ON t (c); END IF; END $$;");
    assert_eq!(a.statements.len(), 1);
    assert!(a.statements[0].contains("CREATE INDEX"));
    assert!(!a.has_residue);
}

#[test]
fn control_only_body_yields_no_statements_and_no_residue() {
    let a = analyze("DO $$ BEGIN PERFORM 1; END $$;");
    assert!(a.statements.is_empty());
    assert!(!a.has_residue);
}

#[test]
fn dynamic_execute_is_residue() {
    let a = analyze("DO $$ BEGIN EXECUTE 'ALTER TABLE t ADD COLUMN x int'; END $$;");
    assert!(a.has_residue);
}

#[test]
fn unparsable_body_is_residue_with_no_statements() {
    // missing END IF — parse_plpgsql rejects the body.
    let a = analyze("DO $$ BEGIN IF true THEN NULL; END $$;");
    assert!(a.has_residue);
    assert!(a.statements.is_empty());
}

#[test]
fn mixed_execsql_and_execute_keeps_static_and_flags_residue() {
    let a = analyze(
        "DO $$ BEGIN ALTER TABLE t ADD COLUMN x int; EXECUTE 'DROP TABLE u'; END $$;",
    );
    assert_eq!(a.statements.len(), 1);
    assert!(a.statements[0].contains("ALTER TABLE t"));
    assert!(a.has_residue);
}

fn columns_flagged(sql: &str, names: &[&str]) -> Vec<String> {
    missing_required_columns(&stmts(sql), &set(names))
        .into_iter()
        .map(|(_, m)| m)
        .collect()
}

fn columns_opts(names: &[&str]) -> LintOptions {
    LintOptions {
        required_columns: set(names),
        ..LintOptions::default()
    }
}

#[test]
fn missing_required_column_is_flagged() {
    assert_eq!(columns_flagged("CREATE TABLE t (id int)", &["created_at"]).len(), 1);
}

#[test]
fn present_inline_column_is_not_flagged() {
    assert!(columns_flagged(
        "CREATE TABLE t (id int, created_at timestamptz)",
        &["created_at"]
    )
    .is_empty());
}

#[test]
fn column_added_by_later_alter_satisfies() {
    let sql = "CREATE TABLE t (id int);\nALTER TABLE t ADD COLUMN created_at timestamptz;";
    assert!(columns_flagged(sql, &["created_at"]).is_empty());
}

#[test]
fn two_missing_columns_yield_two_findings() {
    assert_eq!(
        columns_flagged("CREATE TABLE t (id int)", &["created_at", "updated_at"]).len(),
        2
    );
}

#[test]
fn require_columns_temp_table_is_not_flagged() {
    assert!(columns_flagged("CREATE TEMP TABLE t (id int)", &["created_at"]).is_empty());
}

#[test]
fn require_columns_empty_config_does_no_work() {
    assert!(columns_flagged("CREATE TABLE t (id int)", &[]).is_empty());
}

#[test]
fn off_without_config() {
    let f = lint("CREATE TABLE t (id int)", &LintOptions::default()).unwrap();
    assert!(f.iter().all(|f| f.rule_id != "require-columns"));
}

#[test]
fn require_columns_fires_with_config() {
    let f = lint("CREATE TABLE t (id int)", &columns_opts(&["created_at"])).unwrap();
    let hit = f
        .iter()
        .find(|f| f.rule_id == "require-columns")
        .expect("rule must fire when configured");
    assert_eq!(hit.severity, Severity::Warning);
}

#[test]
fn suppressible() {
    let sql = "-- pgsafe:ignore require-columns lookup table\nCREATE TABLE t (id int)";
    let f = lint(sql, &columns_opts(&["created_at"])).unwrap();
    let hit = f
        .iter()
        .find(|f| f.rule_id == "require-columns")
        .expect("rule must fire");
    assert!(hit.is_suppressed());
}

fn comments_enabled() -> LintOptions {
    LintOptions {
        enabled_rules: set(&["require-comment"]),
        ..LintOptions::default()
    }
}

fn comments_messages(sql: &str) -> Vec<String> {
    missing_comments(&stmts(sql))
        .into_iter()
        .map(|(_, m)| m)
        .collect()
}

#[test]
fn uncommented_table_and_columns_are_flagged() {
    // table + one column = two findings.
    assert_eq!(comments_messages("CREATE TABLE t (id int)").len(), 2);
}

#[test]
fn fully_commented_table_is_silent() {
    let sql = "CREATE TABLE t (id int);\n\
               COMMENT ON TABLE t IS 'the t table';\n\
               COMMENT ON COLUMN t.id IS 'identifier';";
    assert!(comments_messages(sql).is_empty());
}

#[test]
fn missing_column_comment_is_flagged_when_table_is_commented() {
    let sql = "CREATE TABLE t (id int);\nCOMMENT ON TABLE t IS 'x';";
    let m = comments_messages(sql);
    assert_eq!(m.len(), 1);
    assert!(m[0].contains("`t.id`"));
}

#[test]
fn require_comment_temp_table_is_not_flagged() {
    assert!(comments_messages("CREATE TEMP TABLE t (id int)").is_empty());
}

#[test]
fn require_comment_off_by_default() {
    let f = lint("CREATE TABLE t (id int)", &LintOptions::default()).unwrap();
    assert!(f.iter().all(|f| f.rule_id != "require-comment"));
}

#[test]
fn require_comment_fires_when_enabled() {
    let f = lint("CREATE TABLE t (id int)", &comments_enabled()).unwrap();
    let hit = f
        .iter()
        .find(|f| f.rule_id == "require-comment")
        .expect("rule must fire when enabled");
    assert_eq!(hit.severity, Severity::Warning);
}

#[test]
fn alter_add_column_without_comment_is_flagged() {
    // a column added by ALTER TABLE ... ADD COLUMN needs a COMMENT too (the table is not flagged).
    let m = comments_messages("ALTER TABLE t ADD COLUMN secret text");
    assert_eq!(m.len(), 1);
    assert!(m[0].contains("`t.secret`"));
}

#[test]
fn alter_add_column_with_later_comment_is_satisfied() {
    let sql = "ALTER TABLE t ADD COLUMN secret text;\n\
               COMMENT ON COLUMN t.secret IS 'the secret';";
    assert!(comments_messages(sql).is_empty());
}

#[test]
fn alter_add_multiple_columns_yields_a_finding_each() {
    assert_eq!(
        comments_messages("ALTER TABLE t ADD COLUMN a int, ADD COLUMN b text").len(),
        2
    );
}

#[test]
fn alter_added_column_needs_comment_even_when_table_is_documented() {
    let sql = "CREATE TABLE t (id int);\n\
               COMMENT ON TABLE t IS 'the table';\n\
               COMMENT ON COLUMN t.id IS 'pk';\n\
               ALTER TABLE t ADD COLUMN secret text;";
    let m = comments_messages(sql);
    assert_eq!(m.len(), 1);
    assert!(m[0].contains("`t.secret`"));
}

#[test]
fn require_comment_suppressible_when_enabled() {
    // all findings for a statement share its index, so one inline ignore suppresses them together.
    let sql = "-- pgsafe:ignore require-comment lookup table\nCREATE TABLE t (id int)";
    let f = lint(sql, &comments_enabled()).unwrap();
    let hit = f
        .iter()
        .find(|f| f.rule_id == "require-comment")
        .expect("rule must fire");
    assert!(hit.is_suppressed());
}

fn guards_enabled() -> LintOptions {
    LintOptions {
        enabled_rules: set(&["require-if-exists"]),
        ..LintOptions::default()
    }
}

fn guards_flagged(sql: &str) -> usize {
    missing_if_exists(&stmts(sql)).len()
}

fn guards_message(sql: &str) -> String {
    missing_if_exists(&stmts(sql))
        .into_iter()
        .next()
        .map(|(_, m)| m)
        .expect("expected a finding")
}

#[test]
fn create_table_without_guard_is_flagged() {
    assert_eq!(guards_flagged("CREATE TABLE t (id int)"), 1);
}

#[test]
fn create_table_with_guard_is_not_flagged() {
    assert_eq!(guards_flagged("CREATE TABLE IF NOT EXISTS t (id int)"), 0);
}

#[test]
fn create_index_without_guard_is_flagged() {
    assert_eq!(guards_flagged("CREATE INDEX i ON t (x)"), 1);
}

#[test]
fn create_sequence_without_guard_is_flagged() {
    assert_eq!(guards_flagged("CREATE SEQUENCE s"), 1);
}

#[test]
fn create_schema_without_guard_is_flagged() {
    assert_eq!(guards_flagged("CREATE SCHEMA app"), 1);
}

#[test]
fn create_materialized_view_without_guard_is_flagged() {
    assert_eq!(guards_flagged("CREATE MATERIALIZED VIEW m AS SELECT 1"), 1);
    assert!(guards_message("CREATE MATERIALIZED VIEW m AS SELECT 1").contains("MATERIALIZED VIEW"));
}

#[test]
fn create_materialized_view_with_guard_is_not_flagged() {
    assert_eq!(
        guards_flagged("CREATE MATERIALIZED VIEW IF NOT EXISTS m AS SELECT 1"),
        0
    );
}

#[test]
fn create_table_as_without_guard_is_flagged() {
    assert_eq!(guards_flagged("CREATE TABLE t AS SELECT 1"), 1);
    assert!(guards_message("CREATE TABLE t AS SELECT 1").contains("CREATE TABLE AS"));
}

#[test]
fn create_table_as_with_guard_is_not_flagged() {
    assert_eq!(guards_flagged("CREATE TABLE IF NOT EXISTS t AS SELECT 1"), 0);
}

#[test]
fn select_into_is_not_flagged() {
    // SELECT … INTO has no IF NOT EXISTS syntax, so it must not be flagged (would be unfixable).
    assert_eq!(guards_flagged("SELECT 1 INTO t"), 0);
}

#[test]
fn drop_without_if_exists_is_flagged() {
    assert_eq!(guards_flagged("DROP TABLE t"), 1);
}

#[test]
fn drop_with_if_exists_is_not_flagged() {
    assert_eq!(guards_flagged("DROP TABLE IF EXISTS t"), 0);
}

#[test]
fn require_if_exists_off_by_default() {
    let f = lint("CREATE TABLE t (id int)", &LintOptions::default()).unwrap();
    assert!(f.iter().all(|f| f.rule_id != "require-if-exists"));
}

#[test]
fn require_if_exists_fires_when_enabled() {
    let f = lint("CREATE TABLE t (id int)", &guards_enabled()).unwrap();
    let hit = f
        .iter()
        .find(|f| f.rule_id == "require-if-exists")
        .expect("rule must fire when enabled");
    assert_eq!(hit.severity, Severity::Warning);
}

#[test]
fn create_materialized_view_fires_through_lint_sql() {
    // end-to-end through the engine, not just the helper: the new form reaches Finding output.
    let f = lint("CREATE MATERIALIZED VIEW m AS SELECT 1", &guards_enabled()).unwrap();
    assert!(f
        .iter()
        .any(|f| f.rule_id == "require-if-exists" && f.message.contains("MATERIALIZED VIEW")));
}

#[test]
fn create_table_as_fires_through_lint_sql() {
    let f = lint("CREATE TABLE t AS SELECT 1", &guards_enabled()).unwrap();
    assert!(f
        .iter()
        .any(|f| f.rule_id == "require-if-exists" && f.message.contains("CREATE TABLE AS")));
}

#[test]
fn require_if_exists_suppressible_when_enabled() {
    let sql = "-- pgsafe:ignore require-if-exists bootstrap\nCREATE TABLE t (id int)";
    let f = lint(sql, &guards_enabled()).unwrap();
    let hit = f
        .iter()
        .find(|f| f.rule_id == "require-if-exists")
        .expect("rule must fire");
    assert!(hit.is_suppressed());
}

fn lib_opts(disabled: &[&str], overrides: &[(&str, Severity)]) -> LintOptions {
    LintOptions {
        disabled_rules: set(disabled),
        severity_overrides: severities(overrides),
        ..LintOptions::default()
    }
}

#[test]
fn severity_is_ordered_warning_below_error() {
    assert!(Severity::Warning < Severity::Error);
}

#[test]
fn empty_string_returns_no_findings() {
    assert_eq!(lint("", &LintOptions::default()).unwrap(), Vec::new());
}

#[test]
fn comment_only_returns_no_findings() {
    assert_eq!(
        lint("-- just a comment\n", &LintOptions::default()).unwrap(),
        Vec::new()
    );
}

#[test]
fn valid_sql_returns_no_findings() {
    assert_eq!(
        lint("SELECT 1", &LintOptions::default()).unwrap(),
        Vec::new()
    );
}

#[test]
fn invalid_sql_is_parse_error() {
    assert!(matches!(
        lint("ALTER TABLE", &LintOptions::default()),
        Err(LintError::Parse(_))
    ));
}

#[test]
fn engine_finding_order_and_positional_enrichment() {
    let sql = "CREATE INDEX i ON t (x);\n\nALTER TABLE t ALTER COLUMN a TYPE bigint, ALTER COLUMN a SET NOT NULL;\n";
    let f = lint(sql, &LintOptions::default()).unwrap();

    // Order: statement source order; within a statement, rule-loop findings
    // (registry order) precede engine-synthesized findings.
    // set-not-null is registered before alter-column-type, so it comes first;
    // require-timeout is synthesized after the rule loop for each statement.
    let ids: Vec<&str> = f.iter().map(|x| x.rule_id.as_str()).collect();
    assert_eq!(
        ids,
        [
            "add-index-non-concurrent",
            "require-timeout",
            "set-not-null",
            "alter-column-type",
            "require-timeout",
        ]
    );

    assert_eq!(f[0].statement_index, 0);
    assert_eq!(f[1].statement_index, 0);
    assert_eq!(f[2].statement_index, 1);
    assert_eq!(f[3].statement_index, 1);
    assert_eq!(f[4].statement_index, 1);

    // location.byte points at the statement's first real token (NOT leading whitespace):
    for finding in &f {
        let b = finding.location.byte as usize;
        assert!(
            sql[b..].starts_with(&finding.snippet),
            "location.byte must point at the trimmed statement start"
        );
    }

    // line/column: CREATE on line 1, the ALTER on line 3 (after the blank line).
    assert_eq!((f[0].location.line, f[0].location.column), (1, 1));
    assert_eq!((f[2].location.line, f[2].location.column), (3, 1));
    assert_eq!(f[3].location.line, 3);

    assert!(f[2].snippet.starts_with("ALTER TABLE"));
}

#[test]
fn assume_in_transaction_flags_top_level_concurrently() {
    let sql = "CREATE INDEX CONCURRENTLY i ON t (x)";
    let on = lint(
        sql,
        &LintOptions {
            assume_in_transaction: true,
            ..LintOptions::default()
        },
    )
    .unwrap();
    assert!(on
        .iter()
        .any(|f| f.rule_id == "concurrently-in-transaction"));
    let off = lint(sql, &LintOptions::default()).unwrap();
    assert!(!off
        .iter()
        .any(|f| f.rule_id == "concurrently-in-transaction"));
}

#[test]
fn disabled_registered_rule_produces_no_finding() {
    let fs = lint("DROP TABLE x;", &lib_opts(&["drop-table"], &[])).unwrap();
    assert!(!fs.iter().any(|f| f.rule_id == "drop-table"));
}

#[test]
fn disabled_synthesized_rule_is_silent() {
    // require-timeout normally fires on a bare ALTER TABLE.
    let fs = lint(
        "ALTER TABLE t ADD COLUMN c int;",
        &lib_opts(&["require-timeout"], &[]),
    )
    .unwrap();
    assert!(!fs.iter().any(|f| f.rule_id == "require-timeout"));
}

#[test]
fn severity_override_changes_a_findings_severity() {
    let fs = lint(
        "CREATE INDEX i ON t (x);",
        &lib_opts(&[], &[("add-index-non-concurrent", Severity::Warning)]),
    )
    .unwrap();
    let f = fs
        .iter()
        .find(|f| f.rule_id == "add-index-non-concurrent")
        .unwrap();
    assert_eq!(f.severity, Severity::Warning); // default is Error
}

#[test]
fn directive_for_a_disabled_rule_is_not_reported_unused() {
    let sql = "-- pgsafe:ignore drop-table  disabled in config anyway\nDROP TABLE x;";
    let fs = lint(sql, &lib_opts(&["drop-table"], &[])).unwrap();
    assert!(!fs.iter().any(|f| f.rule_id == "suppression-unused"));
    assert!(!fs.iter().any(|f| f.rule_id == "drop-table"));
}

#[test]
fn hazard_inside_do_block_is_flagged_by_the_real_rule() {
    let f = lint(
        "DO $$ BEGIN CREATE INDEX i ON t (c); END $$;",
        &LintOptions::default(),
    )
    .unwrap();
    let hit = f
        .iter()
        .find(|f| f.rule_id == "add-index-non-concurrent")
        .expect("a non-CONCURRENTLY CREATE INDEX in a DO block must be flagged");
    assert!(hit.message.starts_with("Inside a DO block:"));
    assert!(hit.snippet.contains("CREATE INDEX"));
}

#[test]
fn safe_do_block_produces_no_findings() {
    let f = lint("DO $$ BEGIN PERFORM 1; END $$;", &LintOptions::default()).unwrap();
    assert!(f.is_empty());
}

#[test]
fn multiple_hazards_in_one_do_block_each_flagged() {
    let f = lint(
        "DO $$ BEGIN CREATE INDEX i ON t (c); DROP TABLE u; END $$;",
        &LintOptions::default(),
    )
    .unwrap();
    assert!(f.iter().any(|f| f.rule_id == "add-index-non-concurrent"));
    assert!(f.iter().any(|f| f.rule_id == "drop-table"));
}

#[test]
fn embedded_finding_respects_disabled_rules() {
    let opts = LintOptions {
        disabled_rules: set(&["add-index-non-concurrent"]),
        ..LintOptions::default()
    };
    let f = lint("DO $$ BEGIN CREATE INDEX i ON t (c); END $$;", &opts).unwrap();
    assert!(f.iter().all(|f| f.rule_id != "add-index-non-concurrent"));
}

#[test]
fn embedded_finding_is_suppressible_on_the_do_statement() {
    let sql = "-- pgsafe:ignore add-index-non-concurrent reviewed\n\
               DO $$ BEGIN CREATE INDEX i ON t (c); END $$;";
    let f = lint(sql, &LintOptions::default()).unwrap();
    let hit = f
        .iter()
        .find(|f| f.rule_id == "add-index-non-concurrent")
        .expect("finding must still be present, just suppressed");
    assert!(hit.is_suppressed());
}

#[test]
fn mixed_do_block_yields_both_embedded_and_residue_findings() {
    let opts = LintOptions {
        enabled_rules: set(&["unchecked-do-block"]),
        ..LintOptions::default()
    };
    let f = lint(
        "DO $$ BEGIN CREATE INDEX i ON t (c); EXECUTE 'DROP TABLE u'; END $$;",
        &opts,
    )
    .unwrap();
    assert!(f.iter().any(|f| f.rule_id == "add-index-non-concurrent"
        && f.message.starts_with("Inside a DO block:")));
    assert!(f.iter().any(|f| f.rule_id == "unchecked-do-block"));
}

#[test]
fn rule_hit_default_carries_no_fix() {
    // A rule that emits no fix still produces a finding with fix == None.
    let fs = lint("DROP TABLE t;", &LintOptions::default()).unwrap();
    let f = fs.iter().find(|f| f.rule_id == "drop-table").unwrap();
    assert!(f.fix.is_none());
}

fn output_findings(sql: &str) -> Vec<Finding> {
    lint(sql, &LintOptions::default()).unwrap()
}

#[test]
fn lint_input_reports_findings_for_valid_sql() {
    let r = lint_named(
        "m.sql",
        "CREATE INDEX i ON t (x);",
        &LintOptions::default(),
    );
    assert_eq!(r.name, "m.sql");
    assert!(r.error.is_none());
    assert!(r
        .findings
        .iter()
        .any(|f| f.rule_id == "add-index-non-concurrent"));
}

#[test]
fn lint_input_captures_parse_errors() {
    let r = lint_named("bad.sql", "ALTER TABLE;", &LintOptions::default());
    assert!(r.findings.is_empty());
    assert!(r.error.as_deref().unwrap().contains("parse error"));
}

#[test]
fn never_never_gates() {
    assert!(!gate(&output_findings("VACUUM FULL t;"), FailOn::Never));
}

#[test]
fn warning_gates_on_a_warning() {
    // DROP TABLE is a warning-severity rule.
    assert!(gate(&output_findings("DROP TABLE x;"), FailOn::Warning));
}

#[test]
fn error_does_not_gate_on_a_warning_but_does_on_an_error() {
    assert!(!gate(&output_findings("DROP TABLE x;"), FailOn::Error));
    assert!(gate(&output_findings("VACUUM FULL t;"), FailOn::Error));
}

#[test]
fn no_findings_never_gates() {
    assert!(!gate(
        &output_findings("CREATE INDEX CONCURRENTLY i ON t (x);"),
        FailOn::Warning
    ));
}

#[test]
fn render_finding_human_has_id_severity_and_fix() {
    let f = &lint_named("m.sql", "VACUUM FULL t;", &LintOptions::default()).findings[0];
    let s = render_finding_human("m.sql", f);
    assert!(s.contains("error [vacuum-full-cluster]"));
    assert!(s.contains("  fix: "));
}

#[test]
fn render_human_groups_findings_by_statement() {
    let reports = vec![lint_named(
        "m.sql",
        "DROP TABLE users;\nCREATE INDEX i ON t (x);",
        &LintOptions::default(),
    )];
    let s = render_human(&reports);
    // Each statement has exactly one header line with its snippet (the two findings on
    // statement 0 — drop-table + require-timeout — share one header).
    assert_eq!(
        s.matches("m.sql:").count(),
        2,
        "one header per statement:\n{s}"
    );
    assert!(s.contains("m.sql:1:1  DROP TABLE users\n"));
    assert!(s.contains("m.sql:2:1  CREATE INDEX i ON t (x)\n"));
    // Findings are nested (indented) under their statement header.
    assert!(s.contains("\n  warning [drop-table]\n    "));
    assert!(s.contains("\n  error [add-index-non-concurrent]\n    "));
    // A blank line separates the two statement groups.
    assert!(
        s.contains("\n\nm.sql:2:1"),
        "blank line between groups:\n{s}"
    );
}

#[test]
fn render_errors_lists_parse_failures_only() {
    let reports = vec![
        lint_named(
            "ok.sql",
            "CREATE INDEX CONCURRENTLY i ON t (x);",
            &LintOptions::default(),
        ),
        lint_named("bad.sql", "ALTER TABLE;", &LintOptions::default()),
    ];
    let s = render_errors(&reports);
    assert!(s.contains("bad.sql: parse error"));
    assert!(!s.contains("ok.sql"));
}

#[test]
fn gh_escape_helpers_encode_special_chars() {
    assert_eq!(gh_escape_data("a%b\nc\rd"), "a%25b%0Ac%0Dd");
    assert_eq!(gh_escape_prop("x,y:z"), "x%2Cy%3Az");
}

#[test]
fn render_github_emits_severity_keyed_annotations() {
    // VACUUM FULL → an error rule (vacuum-full-cluster) + a warning (require-timeout), both at 1:1.
    let reports = vec![lint_named(
        "m.sql",
        "VACUUM FULL t;",
        &LintOptions::default(),
    )];
    let s = render_github(&reports);
    assert!(s.contains("::error file=m.sql,line=1,col=1,title=pgsafe(vacuum-full-cluster)::"));
    assert!(s.contains("::warning file=m.sql,line=1,col=1,title=pgsafe(require-timeout)::"));
}

#[test]
fn render_github_skips_suppressed_findings() {
    let sql = "-- pgsafe:ignore vacuum-full-cluster reviewed\nVACUUM FULL t;";
    let reports = vec![lint_named("m.sql", sql, &LintOptions::default())];
    let s = render_github(&reports);
    // the suppressed finding is not annotated; an unsuppressed sibling still is.
    assert!(!s.contains("title=pgsafe(vacuum-full-cluster)"));
    assert!(s.contains("title=pgsafe(require-timeout)"));
}

#[test]
fn render_github_annotates_a_parse_error() {
    let reports = vec![lint_named(
        "bad.sql",
        "ALTER TABLE;",
        &LintOptions::default(),
    )];
    let s = render_github(&reports);
    assert!(s.starts_with("::error file=bad.sql::"), "got: {s}");
    assert!(s.contains("parse error"));
}

#[test]
fn ansi_paints_escapes_plain_does_not() {
    let ansi = Styling::ansi();
    let plain = Styling::plain();
    assert!(ansi.danger("error").contains('\u{1b}'));
    assert_eq!(plain.danger("error"), "error");
    assert_eq!(ansi.glyph(Severity::Error), "✗");
    assert_eq!(ansi.glyph(Severity::Warning), "⚠");
    assert_eq!(plain.glyph(Severity::Error), "");
}

#[test]
fn role_painters_use_expected_sgr() {
    let a = Styling::ansi();
    // anstyle renders each attribute as its own escape: bold `\x1b[1m`, dim
    // `\x1b[2m`, fg red `\x1b[31m`, yellow `\x1b[33m`, green `\x1b[32m`, cyan `\x1b[36m`.
    assert!(a.danger("x").contains("\u{1b}[1m") && a.danger("x").contains("\u{1b}[31m"));
    assert!(a.warning("x").contains("\u{1b}[33m"));
    assert!(a.success("x").contains("\u{1b}[32m"));
    assert!(a.accent("x").contains("\u{1b}[36m"));
    assert!(a.muted("x").contains("\u{1b}[2m"));
    assert!(a.strong("x").contains("\u{1b}[1m"));
    let p = Styling::plain();
    for painted in [
        p.danger("x"),
        p.warning("x"),
        p.success("x"),
        p.accent("x"),
        p.muted("x"),
        p.strong("x"),
    ] {
        assert_eq!(painted, "x");
    }
}

#[test]
fn summary_counts_are_bold_in_ansi() {
    let reports = vec![lint_named(
        "m.sql",
        "VACUUM FULL t;",
        &LintOptions::default(),
    )];
    let s = render_summary(&reports, &Styling::ansi()).unwrap();
    // Counts share the danger/warning roles, so they are bold.
    assert!(
        s.contains("\u{1b}[1m"),
        "summary counts should be bold: {s}"
    );
}

#[test]
fn plain_render_is_byte_identical_and_escape_free() {
    let reports = vec![lint_named(
        "m.sql",
        "DROP TABLE users;\nVACUUM FULL t;",
        &LintOptions::default(),
    )];
    let s = render_human(&reports);
    assert!(
        !s.contains('\u{1b}'),
        "plain output must have no escapes:\n{s}"
    );
    assert!(
        !s.contains('✗') && !s.contains('⚠'),
        "plain output must have no glyphs"
    );
    // The plain wrapper and an explicit plain styling agree.
    assert_eq!(s, render_human_styled(&reports, &Styling::plain()));
    // Layout unchanged: header + nested finding lines still present.
    assert!(s.contains("m.sql:1:1  DROP TABLE users\n"));
    assert!(s.contains("\n  warning [drop-table]\n    "));
}

#[test]
fn ansi_render_adds_escapes_and_severity_glyphs() {
    let reports = vec![lint_named(
        "m.sql",
        "VACUUM FULL t;",
        &LintOptions::default(),
    )];
    let s = render_human_styled(&reports, &Styling::ansi());
    assert!(s.contains('\u{1b}'), "ansi output must contain escapes");
    assert!(s.contains('✗'), "vacuum-full-cluster is an error → ✗");
    assert!(s.contains('⚠'), "require-timeout is a warning → ⚠");
}

#[test]
fn summary_is_none_on_a_clean_run() {
    let reports = vec![lint_named(
        "ok.sql",
        "CREATE INDEX CONCURRENTLY i ON t (x);",
        &LintOptions::default(),
    )];
    assert!(render_summary(&reports, &Styling::plain()).is_none());
}

#[test]
fn summary_counts_and_pluralizes() {
    // VACUUM FULL → 1 error (vacuum-full-cluster) + 1 warning (require-timeout).
    let reports = vec![lint_named(
        "m.sql",
        "VACUUM FULL t;",
        &LintOptions::default(),
    )];
    assert_eq!(
        render_summary(&reports, &Styling::plain()).unwrap(),
        "Summary: 1 error, 1 warning in 1 file"
    );
}

#[test]
fn summary_parenthesizes_suppressed_and_colors_in_ansi() {
    let sql = "-- pgsafe:ignore drop-table cleanup\nDROP TABLE x;\nVACUUM FULL t;";
    let reports = vec![lint_named("m.sql", sql, &LintOptions::default())];
    let plain = render_summary(&reports, &Styling::plain()).unwrap();
    assert!(plain.starts_with("Summary: 1 error, "), "{plain}");
    assert!(plain.contains("(1 suppressed)"), "{plain}");
    assert!(plain.ends_with(" in 1 file"), "{plain}");
    assert!(render_summary(&reports, &Styling::ansi())
        .unwrap()
        .contains('\u{1b}'));
}

#[test]
fn summary_counts_pluralize_at_two() {
    // Two files, each VACUUM FULL → 1 error (vacuum-full-cluster) + 1 warning
    // (require-timeout), so totals cross the singular/plural boundary.
    let reports = vec![
        lint_named("a.sql", "VACUUM FULL t;", &LintOptions::default()),
        lint_named("b.sql", "VACUUM FULL t;", &LintOptions::default()),
    ];
    assert_eq!(
        render_summary(&reports, &Styling::plain()).unwrap(),
        "Summary: 2 errors, 2 warnings in 2 files"
    );
}

#[test]
fn summary_stands_alone_when_only_suppressed_findings_exist() {
    // DROP TABLE emits two findings (drop-table + require-timeout); stack an
    // ignore directive for each so nothing unsuppressed remains, exercising the
    // `clauses.is_empty()` branch: no comma, no parenthesis, just "N suppressed".
    let sql = "-- pgsafe:ignore drop-table cleanup\n\
               -- pgsafe:ignore require-timeout reviewed\n\
               DROP TABLE x;";
    let reports = vec![lint_named("m.sql", sql, &LintOptions::default())];
    assert!(
        reports[0].findings.iter().all(Finding::is_suppressed),
        "fixture must have zero unsuppressed findings: {:?}",
        reports[0].findings
    );
    assert_eq!(
        render_summary(&reports, &Styling::plain()).unwrap(),
        "Summary: 2 suppressed in 1 file"
    );
}

#[test]
fn color_on_follows_precedence() {
    // Never / Always ignore env + tty entirely.
    assert!(!color_on(ColorWhen::Never, true, false, true));
    assert!(color_on(ColorWhen::Always, false, true, false));
    // Auto: CLICOLOR_FORCE wins over NO_COLOR and a non-tty.
    assert!(color_on(ColorWhen::Auto, true, true, false));
    // Auto: NO_COLOR (without force) is off even on a tty.
    assert!(!color_on(ColorWhen::Auto, false, true, true));
    // Auto: neither set → follow the tty.
    assert!(color_on(ColorWhen::Auto, false, false, true));
    assert!(!color_on(ColorWhen::Auto, false, false, false));
}

#[test]
fn resolve_always_colors_never_plain_regardless_of_env() {
    // Always/Never bypass env, so these are deterministic under any test env.
    assert!(Styling::resolve(ColorWhen::Always, false, true, false)
        .danger("x")
        .contains('\u{1b}'));
    assert_eq!(Styling::resolve(ColorWhen::Never, true, false, true).danger("x"), "x");
}

const URI: &str = "file:///tmp/a.sql";

#[test]
fn fixable_finding_yields_a_quickfix() {
    // A CREATE INDEX without CONCURRENTLY has a machine-applicable fix.
    let sql = "CREATE INDEX idx ON t (col);";
    let findings = lint(sql, &LintOptions::default()).unwrap();
    assert!(findings.iter().any(|f| f.fix.is_some()));
    let whole = Range {
        start: Position {
            line: 0,
            character: 0,
        },
        end: Position {
            line: 0,
            character: u32::try_from(sql.len()).unwrap(),
        },
    };
    let actions = code_actions(URI, sql, &findings, whole);
    let ca = actions.first().expect("expected a quickfix code action");
    assert_eq!(ca.uri, URI);
    assert!(!ca.edits.is_empty());
}

#[test]
fn out_of_range_request_yields_nothing() {
    let sql = "CREATE INDEX idx ON t (col);";
    let findings = lint(sql, &LintOptions::default()).unwrap();
    // A request far past the statement.
    let far = Range {
        start: Position {
            line: 99,
            character: 0,
        },
        end: Position {
            line: 99,
            character: 1,
        },
    };
    assert!(code_actions(URI, sql, &findings, far).is_empty());
}

#[test]
fn touching_ranges_intersect_but_gapped_ranges_do_not() {
    let r = |sl, sc, el, ec| Range {
        start: Position {
            line: sl,
            character: sc,
        },
        end: Position {
            line: el,
            character: ec,
        },
    };
    // Touching at a single point (a.end == b.start) counts as intersecting, in
    // either order — a cursor exactly at a statement boundary still gets its fix.
    assert!(ranges_intersect(r(0, 0, 0, 10), r(0, 10, 0, 20)));
    assert!(ranges_intersect(r(0, 10, 0, 20), r(0, 0, 0, 10)));
    // A genuine gap between them does not intersect.
    assert!(!ranges_intersect(r(0, 0, 0, 5), r(0, 6, 0, 9)));
    // Overlap intersects.
    assert!(ranges_intersect(r(0, 0, 0, 10), r(0, 5, 0, 15)));
}

#[test]
fn maps_a_finding_to_a_diagnostic() {
    let sql = "CREATE INDEX idx ON t (col);";
    let findings = lint(sql, &LintOptions::default()).unwrap();
    assert!(!findings.is_empty(), "fixture should trigger a rule");
    let diags = diagnostics_for(sql, &findings);
    assert_eq!(diags.len(), findings.len());
    let d = &diags[0];
    assert_eq!(d.source, "pgsafe");
    assert_eq!(d.code, findings[0].rule_id);
    assert!(d.severity == Severity::Warning || d.severity == Severity::Error);
    assert!(d.message.contains(&findings[0].message));
    assert!(d.message.contains(&findings[0].guidance));
    // Range starts at the statement's first token (byte 0 here).
    assert_eq!((d.range.start.line, d.range.start.character), (0, 0));
    assert!(d.range.end.character > 0);
}

#[test]
fn suppressed_findings_are_not_emitted() {
    let sql = "CREATE INDEX idx ON t (col); -- pgsafe:ignore add-index-non-concurrent reason";
    let findings = lint(sql, &LintOptions::default()).unwrap();
    assert!(
        findings.iter().any(|f| f.is_suppressed()),
        "fixture should produce a suppressed finding"
    );
    let diags = diagnostics_for(sql, &findings);
    assert_eq!(
        diags.len(),
        findings.iter().filter(|f| !f.is_suppressed()).count()
    );
}

/// The single whole-document edit of a fix-all action.
fn fixall_edit(action: &CodeAction) -> (Range, String) {
    assert_eq!(action.kind, ActionKind::FixAll);
    assert_eq!(action.uri, URI);
    assert_eq!(action.edits.len(), 1, "fixAll is a single whole-doc replacement");
    (action.edits[0].range, action.edits[0].new_text.clone())
}

#[test]
fn fixes_all_findings_as_one_whole_doc_edit() {
    let sql = "CREATE INDEX idx ON t (col);";
    let opts = LintOptions::default();
    let action = fix_all_action(URI, sql, |s: &str| lint_named("", s, &opts)).expect("fixable input → an action");
    let (range, text) = fixall_edit(&action);
    // Whole-document replacement: [ (0,0) .. (0, len) ) over the ASCII fixture.
    assert_eq!((range.start.line, range.start.character), (0, 0));
    assert_eq!(
        (range.end.line, range.end.character),
        (0, u32::try_from(sql.len()).unwrap())
    );
    // The replacement is byte-identical to what `pgsafe --fix` produces (same engine).
    let expected = fix_to_fixpoint(sql, |s: &str| lint_named("x", s, &opts), MAX_FIX_ITERATIONS).sql;
    assert_eq!(text, expected);
    assert_ne!(text, sql, "the fix must change the text");
    assert!(
        text.contains("CONCURRENTLY"),
        "the add-index fix should apply"
    );
}

#[test]
fn nothing_fixable_yields_no_action() {
    // Clean SQL: no findings, so the fixpoint is a no-op → no action.
    let opts = LintOptions::default();
    assert!(fix_all_action(URI, "SELECT 1;", |s: &str| lint_named("", s, &opts)).is_none());
}

#[test]
fn whole_doc_range_spans_a_multiline_input() {
    // Two statements, no trailing newline: the replacement range must cover to the
    // end of the second line regardless of where the fixes land.
    let sql = "DROP TABLE a;\nCREATE INDEX idx ON t (col);";
    let opts = LintOptions::default();
    let action = fix_all_action(URI, sql, |s: &str| lint_named("", s, &opts)).expect("fixable");
    let (range, _text) = fixall_edit(&action);
    assert_eq!((range.start.line, range.start.character), (0, 0));
    assert_eq!(
        (range.end.line, range.end.character),
        (
            1,
            u32::try_from("CREATE INDEX idx ON t (col);".len()).unwrap()
        )
    );
}

fn hover_at(line: u32, character: u32) -> Position {
    Position { line, character }
}

#[test]
fn hovering_a_flagged_statement_shows_its_finding() {
    let sql = "CREATE INDEX idx ON t (col);";
    let findings = lint(sql, &LintOptions::default()).unwrap();
    let f = &findings[0];
    let h = hover(sql, &findings, hover_at(0, 3)).expect("cursor inside the statement → a hover");
    let text = h.value;
    assert!(text.contains(&f.rule_id), "hover should name the rule id");
    assert!(text.contains(&f.message), "hover should carry the message");
    assert!(
        text.contains(&f.guidance),
        "hover should carry the guidance"
    );
    assert!(text.contains("error"), "hover should show the severity");
}

#[test]
fn hovering_off_any_finding_yields_none() {
    // A clean statement produces no findings, so any position yields no hover.
    let sql = "CREATE INDEX CONCURRENTLY idx ON t (col);";
    let findings = lint(sql, &LintOptions::default()).unwrap();
    assert!(hover(sql, &findings, hover_at(0, 3)).is_none());
}

#[test]
fn hovering_before_the_statement_range_yields_none() {
    // Two statements: line 0 sets lock_timeout (clean, and satisfies require-timeout
    // so it doesn't anchor a synthesized finding at the top), line 1 drops a table.
    // A cursor on line 0 must not surface line 1's drop-table hover.
    let sql = "SET lock_timeout = '5s';\nDROP TABLE t;";
    let findings = lint(sql, &LintOptions::default()).unwrap();
    assert!(
        findings.iter().any(|f| f.rule_id == "drop-table"),
        "fixture should flag drop-table"
    );
    assert!(
        hover(sql, &findings, hover_at(0, 4)).is_none(),
        "hovering the clean SET line must not surface the drop-table hover"
    );
    assert!(
        hover(sql, &findings, hover_at(1, 2)).is_some(),
        "hovering the DROP TABLE statement should surface its hover"
    );
}

#[test]
fn multiple_findings_on_one_statement_are_all_shown() {
    // A CREATE INDEX (non-concurrent) with no lock_timeout set fires both
    // add-index-non-concurrent and require-timeout on the same statement.
    let sql = "CREATE INDEX idx ON t (col);";
    let findings = lint(sql, &LintOptions::default()).unwrap();
    assert!(
        findings.len() >= 2,
        "fixture should raise at least two findings, got {}",
        findings.len()
    );
    let h = hover(sql, &findings, hover_at(0, 3)).unwrap();
    let text = h.value;
    for f in &findings {
        assert!(
            text.contains(&f.rule_id),
            "every finding's rule id should appear; missing {}",
            f.rule_id
        );
    }
}

#[test]
fn suppressed_findings_do_not_hover() {
    // add-index-non-concurrent is suppressed inline; require-timeout still fires
    // unsuppressed on the same statement. The hover must show require-timeout and
    // omit the suppressed rule — proving suppression filters the hover, not that
    // the whole hover vanishes.
    let sql = "CREATE INDEX idx ON t (col); -- pgsafe:ignore add-index-non-concurrent reason";
    let findings = lint(sql, &LintOptions::default()).unwrap();
    assert!(
        findings.iter().any(|f| f.is_suppressed()),
        "fixture should suppress a finding"
    );
    let h = hover(sql, &findings, hover_at(0, 3))
        .expect("require-timeout still fires unsuppressed → a hover");
    let text = h.value;
    assert!(
        text.contains("require-timeout"),
        "the unsuppressed require-timeout finding should hover, got: {text}"
    );
    assert!(
        !text.contains("add-index-non-concurrent"),
        "the suppressed rule must not appear in the hover"
    );
}

#[test]
fn hover_range_marks_the_statement_span() {
    let sql = "CREATE INDEX idx ON t (col);";
    let findings = lint(sql, &LintOptions::default()).unwrap();
    let h = hover(sql, &findings, hover_at(0, 3)).unwrap();
    let r = h.range.expect("hover should carry the statement range");
    assert_eq!((r.start.line, r.start.character), (0, 0));
    assert!(r.end.character > r.start.character);
}

/// Representative single- and multi-fix inputs across the fix-producing rules.
const INPUTS: [&str; 6] = [
    "CREATE INDEX i ON t (c);",
    "ALTER TABLE t ADD COLUMN c json;",
    "ALTER TABLE t ADD CONSTRAINT fk FOREIGN KEY (a) REFERENCES u (id);",
    "REINDEX INDEX i;",
    "DROP INDEX i;",
    // A statement that triggers two independent fixes at once:
    "CREATE INDEX i ON t (c);\nALTER TABLE t ADD COLUMN c json;",
];

fn converges_in_one_pass(sql: &str) -> bool {
    let opts = LintOptions::default();
    let lint = |s: &str| lint_named("<test>", s, &opts);
    let fp = fix_to_fixpoint(sql, lint, MAX_FIX_ITERATIONS);
    assert!(
        fp.iterations <= 1,
        "input unexpectedly cascaded ({} passes): {sql:?}",
        fp.iterations
    );
    assert!(
        matches!(fp.termination, Termination::Converged),
        "input did not converge: {sql:?}"
    );
    // When a fix applied, the fixpoint result matches a single apply_all.
    if fp.iterations == 1 {
        let report = lint_named("<test>", sql, &opts);
        let fixes: Vec<&Fix> = report
            .findings
            .iter()
            .filter(|f| !f.is_suppressed())
            .filter_map(|f| f.fix.as_ref())
            .collect();
        let once = apply_all(sql, &fixes);
        assert_eq!(
            fp.sql, once.sql,
            "fixpoint diverged from single-pass for {sql:?}"
        );
    }
    matches!(fp.termination, Termination::Converged)
}

#[test]
fn fix_real_inputs_converge_in_one_pass() {
    for sql in INPUTS {
        assert!(converges_in_one_pass(sql), "input did not converge: {sql:?}");
    }
}

#[test]
fn real_inputs_converge_in_one_pass() {
    for sql in INPUTS {
        converges_in_one_pass(sql);
        let opts = LintOptions::default();
        let fp = fix_to_fixpoint(sql, |s: &str| lint_named("<test>", s, &opts), MAX_FIX_ITERATIONS);
        // A second run has nothing left to fix.
        let again = fix_to_fixpoint(
            &fp.sql,
            |s: &str| lint_named("<test>", s, &opts),
            MAX_FIX_ITERATIONS,
        );
        assert_eq!(again.iterations, 0);
        assert_eq!(again.sql, fp.sql);
    }
}

// --- The engine as a whole ---

fn ids(findings: &[Finding]) -> Vec<&str> {
    findings.iter().map(|f| f.rule_id.as_str()).collect()
}

/// The defaults, without the lint on lock timeouts.
fn untimed() -> LintOptions {
    LintOptions { disabled_rules: set(&["require-timeout"]), ..LintOptions::default() }
}

#[test]
fn every_finding_is_of_a_listed_rule() {
    let sql = "DROP TABLE a; CREATE TABLE b (c json REFERENCES d); VACUUM FULL e; CLUSTER f";
    let listed = list_rule_ids();
    let f = lint(sql, &LintOptions::default()).unwrap();
    assert!(!f.is_empty());
    assert!(f.iter().all(|f| listed.contains(&f.rule_id.as_str())));
}

#[test]
fn rule_ids_are_listed_once() {
    let mut listed = list_rule_ids();
    let all = listed.len();
    listed.sort_unstable();
    listed.dedup();
    assert_eq!(listed.len(), all);
}

#[test]
fn parse_errors_carry_the_parser_message() {
    let e = lint("ALTER TABLE", &LintOptions::default()).unwrap_err();
    assert_eq!(e.message(), "parse error: syntax error at end of input");
}

#[test]
fn a_new_table_is_no_hazard_until_it_is_populated() {
    let o = LintOptions::default();
    let fresh = "CREATE TABLE t (a int); CREATE INDEX i ON t (a)";
    assert!(lint(fresh, &o).unwrap().is_empty());
    let filled = "CREATE TABLE t (a int); INSERT INTO t VALUES (1); CREATE INDEX i ON t (a)";
    assert_eq!(
        ids(&lint(filled, &o).unwrap()),
        ["add-index-non-concurrent", "require-timeout"]
    );
}

#[test]
fn an_override_sets_the_severity_it_names_and_no_other() {
    let o = LintOptions {
        severity_overrides: severities(&[("drop-table", Severity::Error)]),
        ..untimed()
    };
    let f = lint("DROP TABLE a; DROP DATABASE b", &o).unwrap();
    assert_eq!(ids(&f), ["drop-table", "drop-database"]);
    assert_eq!(f[0].severity, Severity::Error);
    assert_eq!(f[1].severity, Severity::Warning);
}

#[test]
fn a_qualified_volatile_default_rewrites_the_table() {
    let o = untimed();
    let f = lint("ALTER TABLE t ADD COLUMN c uuid DEFAULT gen_random_uuid()", &o).unwrap();
    assert_eq!(ids(&f), ["add-column-volatile-default"]);
    assert!(lint("ALTER TABLE t ADD COLUMN c int DEFAULT 1", &o).unwrap().is_empty());
}

#[test]
fn column_hazards_are_told_apart() {
    let o = untimed();
    let of = |sql: &str| -> Vec<String> {
        lint(sql, &o).unwrap().into_iter().map(|f| f.rule_id).collect()
    };
    assert_eq!(of("ALTER TABLE t ADD COLUMN c bigserial"), ["add-column-serial"]);
    assert_eq!(
        of("ALTER TABLE t ADD COLUMN c int NOT NULL"),
        ["add-column-not-null-no-default"]
    );
    assert!(of("ALTER TABLE t ADD COLUMN c int NOT NULL DEFAULT 1").is_empty());
    assert_eq!(of("ALTER TABLE t DROP COLUMN c"), ["drop-column"]);
    assert_eq!(of("ALTER TABLE t SET LOGGED"), ["set-logged-unlogged"]);
    assert_eq!(of("TRUNCATE t"), ["truncate"]);
    assert_eq!(of("REFRESH MATERIALIZED VIEW m"), ["refresh-matview-non-concurrent"]);
    assert!(of("REFRESH MATERIALIZED VIEW CONCURRENTLY m").is_empty());
}

#[test]
fn select_into_needs_no_guard() {
    let into = |is_select_into| RawStmt {
        stmt: Some(Node::CreateTableAsStmt(CreateTableAsStmt {
            objtype: ObjectType::Table,
            relation: None,
            col_names: Vec::new(),
            is_select_into,
            if_not_exists: false,
        })),
    };
    assert!(missing_if_exists(&[into(true)]).is_empty());
    assert_eq!(missing_if_exists(&[into(false)]).len(), 1);
}

// --- Transactions and lock timeouts ---

fn assumed() -> LintOptions {
    LintOptions { assume_in_transaction: true, ..untimed() }
}

#[test]
fn concurrently_fails_inside_a_transaction() {
    let sql = "CREATE INDEX CONCURRENTLY i ON t (x); BEGIN; DROP INDEX CONCURRENTLY i; \
               REINDEX INDEX CONCURRENTLY i; COMMIT; CREATE INDEX CONCURRENTLY j ON t (x)";
    let f = lint(sql, &LintOptions::default()).unwrap();
    assert_eq!(ids(&f), ["concurrently-in-transaction", "concurrently-in-transaction"]);
    assert_eq!((f[0].statement_index, f[1].statement_index), (2, 3));
    assert!(f.iter().all(|f| f.severity == Severity::Error));
}

#[test]
fn no_fix_adds_concurrently_inside_a_transaction() {
    let sql = "CREATE INDEX i ON t (x);";
    assert!(lint(sql, &untimed()).unwrap()[0].fix.is_some());
    assert!(lint(sql, &assumed()).unwrap()[0].fix.is_none());
    let f = lint("BEGIN; CREATE INDEX i ON t (x); COMMIT; DROP INDEX i;", &untimed()).unwrap();
    assert_eq!(ids(&f), ["add-index-non-concurrent", "drop-index-non-concurrent"]);
    assert!(f[0].fix.is_none());
    assert!(f[1].fix.is_some());
    // Other fixes stay.
    let f = lint("ALTER TABLE t ADD COLUMN c json;", &assumed()).unwrap();
    assert!(f[0].fix.is_some());
}

#[test]
fn a_lock_timeout_covers_what_follows_until_it_is_reset() {
    let timed = |sql: &str| -> Vec<usize> {
        lint(sql, &LintOptions::default())
            .unwrap()
            .iter()
            .filter(|f| f.rule_id == "require-timeout")
            .map(|f| f.statement_index)
            .collect()
    };
    assert_eq!(timed("DROP TABLE a; SET lock_timeout = '1s'; DROP TABLE b; TRUNCATE c"), [0]);
    assert_eq!(timed("SET lock_timeout = '1s'; RESET lock_timeout; DROP TABLE b"), [2]);
    assert_eq!(timed("SET lock_timeout = '1s'; RESET ALL; CLUSTER b"), [2]);
    assert_eq!(timed("SET statement_timeout = '1s'; VACUUM FULL b"), [1]);
    assert!(timed("SET lock_timeout = '1s'; RESET search_path; REINDEX TABLE b").is_empty());
    assert!(timed("CREATE TABLE t (a int); ALTER TABLE t ADD COLUMN b int").is_empty());
    assert!(timed("VACUUM t; SELECT 1; CREATE TABLE u (a int)").is_empty());
}

#[test]
fn the_timeout_fix_stands_before_the_statement() {
    let sql = "SELECT 1;\nDROP TABLE t;";
    let f = lint(sql, &LintOptions::default()).unwrap();
    let hit = f.iter().find(|f| f.rule_id == "require-timeout").unwrap();
    let fix = hit.fix.as_ref().unwrap();
    assert_eq!(fix.title, "Set lock_timeout");
    assert_eq!(
        apply(sql, &fix.edits),
        "SELECT 1;\nSET lock_timeout = '5s';\nDROP TABLE t;"
    );
}

// --- Suppression ---

#[test]
fn a_directive_names_a_rule_and_a_reason() {
    assert_eq!(
        directive("-- pgsafe:ignore drop-table  old data"),
        Some(("drop-table".to_string(), "old data".to_string()))
    );
    assert_eq!(
        directive("-- pgsafe:ignore drop-table"),
        Some(("drop-table".to_string(), String::new()))
    );
    assert_eq!(directive("-- pgsafe:ignore"), None);
    assert_eq!(directive("-- drop-table"), None);
}

#[test]
fn a_directive_marks_its_rule_on_its_statement_alone() {
    let sql = "-- pgsafe:ignore drop-table cleanup\nDROP TABLE a;\nDROP TABLE b;";
    let f = lint(sql, &untimed()).unwrap();
    assert_eq!(ids(&f), ["drop-table", "drop-table"]);
    assert_eq!(f[0].suppression.as_ref().unwrap().reason, "cleanup");
    assert!(f[1].suppression.is_none());
    assert!(gate(&f, FailOn::Warning));
    assert!(!gate(&f[..1], FailOn::Warning));
}

// --- Rendering ---

fn plain(rule_id: &str, severity: Severity, reason: Option<&str>) -> Finding {
    Finding {
        rule_id: rule_id.to_string(),
        severity,
        message: "m".to_string(),
        guidance: "g".to_string(),
        statement_index: 0,
        location: Location { byte: 0, line: 1, column: 1 },
        snippet: "s".to_string(),
        suppression: reason.map(|r| Suppression { reason: r.to_string() }),
        fix: None,
    }
}

fn report(name: &str, findings: Vec<Finding>) -> FileReport {
    FileReport { name: name.to_string(), findings, error: None }
}

#[test]
fn the_summary_counts_each_finding_once() {
    let st = Styling::plain();
    let one = || vec![plain("a", Severity::Error, None), plain("b", Severity::Warning, None)];
    assert_eq!(
        render_summary(&[report("m.sql", one())], &st).unwrap(),
        "Summary: 1 error, 1 warning in 1 file"
    );
    assert_eq!(
        render_summary(&[report("a.sql", one()), report("b.sql", one())], &st).unwrap(),
        "Summary: 2 errors, 2 warnings in 2 files"
    );
    let mut mixed = one();
    mixed.push(plain("c", Severity::Error, Some("ok")));
    assert_eq!(
        render_summary(&[report("m.sql", mixed)], &st).unwrap(),
        "Summary: 1 error, 1 warning (1 suppressed) in 1 file"
    );
    let hidden = vec![
        plain("a", Severity::Error, Some("ok")),
        plain("b", Severity::Warning, Some("ok")),
    ];
    assert_eq!(
        render_summary(&[report("m.sql", hidden)], &st).unwrap(),
        "Summary: 2 suppressed in 1 file"
    );
}

#[test]
fn annotations_follow_the_severity_and_skip_suppressed_findings() {
    let r = report(
        "m.sql",
        vec![
            plain("a", Severity::Error, None),
            plain("b", Severity::Warning, None),
            plain("c", Severity::Error, Some("ok")),
        ],
    );
    let s = render_github(&[r]);
    assert!(s.contains("::error file=m.sql,line=1,col=1,title=pgsafe(a)::"));
    assert!(s.contains("::warning file=m.sql,line=1,col=1,title=pgsafe(b)::"));
    assert!(!s.contains("pgsafe(c)"));
}

#[test]
fn styled_output_marks_each_severity() {
    let r = [report(
        "m.sql",
        vec![plain("a", Severity::Error, None), plain("b", Severity::Warning, None)],
    )];
    let s = render_human_styled(&r, &Styling::ansi());
    assert!(s.contains('\u{1b}') && s.contains('✗') && s.contains('⚠'));
    let p = render_human(&r);
    assert!(!p.contains('\u{1b}') && !p.contains('✗') && !p.contains('⚠'));
}

#[test]
fn painted_text_stands_between_its_codes() {
    let a = Styling::ansi();
    assert_eq!(a.danger("x"), "\u{1b}[1m\u{1b}[31mx\u{1b}[0m");
    assert_eq!(a.muted("x"), "\u{1b}[2mx\u{1b}[0m");
}

// --- The language server on findings ---

#[test]
fn a_hover_shows_every_finding_of_the_statement_but_the_suppressed() {
    let sql = "DROP TABLE t;";
    let mut fs = vec![
        plain("a-rule", Severity::Error, None),
        plain("b-rule", Severity::Warning, None),
        plain("c-rule", Severity::Error, Some("ok")),
    ];
    for f in &mut fs {
        f.snippet = "DROP TABLE t".to_string();
    }
    let h = hover(sql, &fs, hover_at(0, 3)).unwrap();
    assert!(h.value.contains("a-rule") && h.value.contains("b-rule"));
    assert!(!h.value.contains("c-rule"));
    assert!(hover(sql, &fs[2..], hover_at(0, 3)).is_none());
}

#[test]
fn a_fix_clears_the_finding_it_came_with() {
    let o = LintOptions::default();
    let sql = "CREATE INDEX i ON t (c);";
    let fp = fix_to_fixpoint(sql, |s: &str| lint_named("m.sql", s, &o), MAX_FIX_ITERATIONS);
    assert_eq!(fp.sql, "SET lock_timeout = '5s';\nCREATE INDEX CONCURRENTLY i ON t (c);");
    assert!(fp.final_report.findings.is_empty());
    assert_eq!(fp.applied, 2);
}

#[test]
fn a_color_variable_counts_unless_it_is_empty_or_zero() {
    assert!(env_set(Some("1")));
    assert!(!env_set(Some("")));
    assert!(!env_set(Some("0")));
    assert!(!env_set(None));
}

// --- Names across statements and within types ---

#[test]
fn a_comment_may_name_the_default_schema() {
    let sql = "CREATE TABLE t (id int);\n\
               COMMENT ON TABLE public.t IS 'x';\n\
               COMMENT ON COLUMN public.t.id IS 'y';";
    assert!(missing_comments(&stmts(sql)).is_empty());
    let sql = "CREATE TABLE public.t (id int);\n\
               COMMENT ON TABLE t IS 'x';\n\
               COMMENT ON COLUMN t.id IS 'y';";
    assert!(missing_comments(&stmts(sql)).is_empty());
    // Another schema's table is another table.
    let sql = "CREATE TABLE t (id int);\n\
               COMMENT ON TABLE app.t IS 'x';\n\
               COMMENT ON COLUMN app.t.id IS 'y';";
    assert_eq!(missing_comments(&stmts(sql)).len(), 2);
}

#[test]
fn an_added_column_brings_the_names_of_its_constraints() {
    let names = introduced_names(&node("ALTER TABLE t ADD COLUMN c int CONSTRAINT ck CHECK (c > 0)"));
    assert_eq!(
        names,
        vec![
            (NameKind::Column, "c".to_string()),
            (NameKind::Constraint, "ck".to_string()),
        ]
    );
}

#[test]
fn a_modifier_does_not_hide_the_rest_of_a_type() {
    assert!(!is_single_token_type("timestamp(3) without time zone", 0));
    assert!(!is_single_token_type("time (6) WITH TIME ZONE", 0));
    assert!(!is_single_token_type("interval day to second", 0));
    assert!(!is_single_token_type("national character varying(10)", 0));
    assert!(!is_single_token_type("double /* wide /* very */ */ precision", 0));
    assert!(!is_single_token_type("timestamp -- (3)\n(3) -- no zone\n without time zone", 0));
    assert!(!is_single_token_type("pg_catalog /* */ .text", 0));
    assert!(is_single_token_type("text -- with care", 0));
    assert!(is_single_token_type("timestamp(3) NOT NULL", 0));
    assert!(is_single_token_type("numeric(10, 2)", 0));
    assert!(is_single_token_type("numeric(10", 0));
}

#[test]
fn a_report_carries_the_error_of_a_text_that_does_not_parse() {
    let parsed = Err("syntax error".to_string());
    let r = lint_input("m.sql".to_string(), "CREAT", &parsed, &LintOptions::default());
    assert_eq!(r.name, "m.sql");
    assert!(r.findings.is_empty());
    assert_eq!(r.error.unwrap(), "parse error: syntax error");
}

#[test]
fn a_table_made_of_a_query_is_a_name_introduced() {
    assert_eq!(
        introduced_names(&node("CREATE TABLE Copy AS SELECT 1")),
        vec![(NameKind::Table, "copy".to_string())]
    );
    let with_columns = Node::CreateTableAsStmt(CreateTableAsStmt {
        objtype: ObjectType::Table,
        relation: None,
        col_names: vec!["a".to_string(), "b".to_string()],
        is_select_into: false,
        if_not_exists: false,
    });
    assert_eq!(
        introduced_names(&with_columns),
        vec![(NameKind::Column, "a".to_string()), (NameKind::Column, "b".to_string())]
    );
    assert!(introduced_names(&node("CREATE MATERIALIZED VIEW m AS SELECT 1")).is_empty());
}

#[test]
fn every_drop_can_lack_its_guard() {
    for sql in ["DROP DATABASE d", "DROP ROLE r", "DROP TABLE t", "DROP VIEW v"] {
        let found = missing_if_exists(&stmts(sql));
        assert_eq!(found.len(), 1, "{sql}");
        assert!(found[0].1.starts_with("DROP without IF EXISTS"), "{sql}");
    }
    assert!(missing_if_exists(&stmts("DROP DATABASE IF EXISTS d")).is_empty());
    assert!(missing_if_exists(&stmts("DROP ROLE IF EXISTS r")).is_empty());
}

#[test]
fn one_check_that_holds_at_once_prepares_a_child() {
    let both = "ALTER TABLE c ADD CONSTRAINT a CHECK (x > 0) NOT VALID, \
                ADD CONSTRAINT b CHECK (y > 0)";
    assert_eq!(added_check_constraint(&node(both)), Some(("c".to_string(), true)));
    let sql = format!("{both};\nALTER TABLE p ATTACH PARTITION c DEFAULT;");
    assert!(attach_escalation_indices(&stmts(&sql)).is_empty());
}

#[test]
fn escaping_tells_texts_apart() {
    let texts = ["%", "%25", "\r", "%0D", "\n", ",", "%2C", ":", "5"];
    for (i, a) in texts.iter().enumerate() {
        for (j, b) in texts.iter().enumerate() {
            assert_eq!(gh_escape_prop(a) == gh_escape_prop(b), i == j, "{a:?} {b:?}");
            assert_eq!(gh_escape_data(a) == gh_escape_data(b), i == j, "{a:?} {b:?}");
        }
    }
}

// --- Spans ---

#[test]
fn a_statement_without_a_length_runs_to_the_end() {
    assert_eq!(statement_bounds(0, 9, 20), (0, 9));
    assert_eq!(statement_bounds(10, 5, 20), (10, 15));
    assert_eq!(statement_bounds(10, 0, 20), (10, 20));
    assert_eq!(statement_bounds(10, 40, 20), (10, 20));
    assert_eq!(statement_bounds(-1, -1, 20), (0, 20));
    assert_eq!(statement_bounds(30, 5, 20), (30, 20));
    assert_eq!(statement_bounds(i32::MAX, i32::MAX, 20), (i32::MAX as usize, 20));
}

#[test]
fn a_span_leaves_out_comments_and_the_semicolon() {
    let token = |kind, start, end| ScanToken { kind, start, end };
    let tokens = [
        token(TokenKind::Comment, 0, 4),
        token(TokenKind::Other, 5, 8),
        token(TokenKind::Ident, 9, 10),
        token(TokenKind::Semicolon, 10, 11),
        token(TokenKind::Comment, 12, 16),
    ];
    let g = statement_span(&tokens, 0, 16);
    assert_eq!((g.start, g.end), (5, 10));
    let g = statement_span(&tokens, 11, 16);
    assert_eq!((g.start, g.end), (11, 11));
}

// --- Directives with a fault ---

fn directive_findings(sql: &str, options: &LintOptions) -> Vec<(String, usize)> {
    let f = lint(sql, options).unwrap();
    f.into_iter()
        .filter(|f| f.rule_id.starts_with("suppression-"))
        .inspect(|f| {
            assert_eq!(f.severity, Severity::Warning);
            assert!(f.fix.is_none() && f.suppression.is_none());
        })
        .map(|f| (f.rule_id, f.statement_index))
        .collect()
}

#[test]
fn a_directive_with_nothing_to_suppress_is_reported_unused() {
    let sql = "DROP TABLE a;\n-- pgsafe:ignore truncate cleanup\nDROP TABLE b;";
    let f = lint(sql, &untimed()).unwrap();
    assert_eq!(ids(&f), ["drop-table", "drop-table", "suppression-unused"]);
    assert_eq!(
        f[2].message,
        "The pgsafe:ignore directive for `truncate` suppresses nothing: the rule has no finding on \
         this statement."
    );
    assert_eq!(f[2].statement_index, 1);
    assert_eq!(f[2].location.line, 3);
}

#[test]
fn a_directive_for_an_unknown_rule_is_reported() {
    let sql = "-- pgsafe:ignore drop-tabel cleanup\nDROP TABLE a;";
    let f = lint(sql, &untimed()).unwrap();
    assert_eq!(ids(&f), ["drop-table", "suppression-unknown-rule"]);
    assert!(f[0].suppression.is_none());
    assert_eq!(
        f[1].message,
        "The pgsafe:ignore directive for `drop-tabel` names no known rule, so it suppresses nothing."
    );
    assert!(list_rule_ids().iter().all(|id| !id.starts_with("suppression-")));
    let sql = "-- pgsafe:ignore suppression-unused cleanup\nDROP TABLE a;";
    assert_eq!(
        directive_findings(sql, &untimed()),
        [("suppression-unknown-rule".to_string(), 0)]
    );
}

#[test]
fn a_directive_without_a_reason_is_reported_and_marks_nothing() {
    let sql = "-- pgsafe:ignore drop-table\nDROP TABLE a;";
    let f = lint(sql, &untimed()).unwrap();
    assert_eq!(ids(&f), ["drop-table", "suppression-missing-reason"]);
    assert!(f[0].suppression.is_none());
    assert_eq!(
        f[1].message,
        "The pgsafe:ignore directive for `drop-table` gives no reason, so it suppresses nothing."
    );
}

#[test]
fn a_sound_or_redundant_directive_is_not_reported() {
    let used = "-- pgsafe:ignore drop-table cleanup\nDROP TABLE a;";
    assert!(directive_findings(used, &untimed()).is_empty());
    let on_new_table = "CREATE TABLE a (id bigint PRIMARY KEY);\n\
                        -- pgsafe:ignore add-index-non-concurrent reviewed\n\
                        CREATE INDEX i ON a (id);";
    assert!(directive_findings(on_new_table, &untimed()).is_empty());
    let disabled = LintOptions {
        disabled_rules: set(&["require-timeout", "drop-table"]),
        ..LintOptions::default()
    };
    assert!(directive_findings(used, &disabled).is_empty());
}

#[test]
fn an_override_leaves_findings_on_directives_alone() {
    let options = LintOptions {
        severity_overrides: severities(&[("suppression-unused", Severity::Error)]),
        ..untimed()
    };
    let sql = "-- pgsafe:ignore truncate cleanup\nDROP TABLE b;";
    assert_eq!(directive_findings(sql, &options), [("suppression-unused".to_string(), 0)]);
}

// --- Primary keys and nullable columns ---

fn opting_in(id: &str) -> LintOptions {
    LintOptions { enabled_rules: set(&[id]), ..untimed() }
}

#[test]
fn a_table_without_a_primary_key_is_flagged() {
    assert_eq!(
        missing_primary_keys(&stmts("CREATE TABLE t (id bigint)")),
        [(0, "The table `t` has no primary key.".to_string())]
    );
    let keyed = [
        "CREATE TABLE t (id bigint PRIMARY KEY)",
        "CREATE TABLE t (id bigint, PRIMARY KEY (id))",
        "CREATE TABLE t (id bigint); ALTER TABLE t ADD CONSTRAINT k PRIMARY KEY (id)",
        "CREATE TEMP TABLE t (id bigint)",
    ];
    for sql in keyed {
        assert!(missing_primary_keys(&stmts(sql)).is_empty(), "{sql}");
    }
    let other = "CREATE TABLE t (id bigint); ALTER TABLE u ADD CONSTRAINT k PRIMARY KEY (id)";
    assert_eq!(missing_primary_keys(&stmts(other)).len(), 1);
}

#[test]
fn a_new_nullable_column_is_flagged() {
    assert_eq!(
        nullable_columns(&stmts("CREATE TABLE t (a text, b text NOT NULL)")),
        [(0, "The column `t.a` is nullable.".to_string())]
    );
    assert_eq!(
        nullable_columns(&stmts("SELECT 1; ALTER TABLE t ADD COLUMN c text")),
        [(1, "The column `t.c` is nullable.".to_string())]
    );
    let secured = [
        "CREATE TABLE t (a bigint PRIMARY KEY)",
        "CREATE TABLE t (a bigint NOT NULL, b bigint NOT NULL, PRIMARY KEY (a, b))",
        "CREATE TABLE t (a bigint, b bigint, PRIMARY KEY (a, b))",
        "CREATE TABLE t (a bigserial)",
        "CREATE TABLE t (a text); ALTER TABLE t ALTER COLUMN a SET NOT NULL",
        "CREATE TEMP TABLE t (a text)",
    ];
    for sql in secured {
        assert!(nullable_columns(&stmts(sql)).is_empty(), "{sql}");
    }
    let other = "CREATE TABLE t (a text); ALTER TABLE t ALTER COLUMN b SET NOT NULL";
    assert_eq!(nullable_columns(&stmts(other)).len(), 1);
}

#[test]
fn a_foreign_key_on_a_nullable_column_is_flagged() {
    let message = "The foreign key on `t.a` is nullable.".to_string();
    assert_eq!(
        nullable_fks(&stmts("CREATE TABLE t (a bigint REFERENCES u)")),
        [(0, message.clone())]
    );
    let table_level = "CREATE TABLE t (a bigint, FOREIGN KEY (a) REFERENCES u (id))";
    assert_eq!(nullable_fks(&stmts(table_level)), [(0, message)]);
    let secured = "CREATE TABLE t (a bigint NOT NULL REFERENCES u)";
    assert!(nullable_fks(&stmts(secured)).is_empty());
    let later = "CREATE TABLE t (a bigint REFERENCES u); ALTER TABLE t ALTER COLUMN a SET NOT NULL";
    assert!(nullable_fks(&stmts(later)).is_empty());
}

#[test]
fn column_policies_are_opt_in() {
    let sql = "CREATE TABLE t (a bigint REFERENCES u); CREATE INDEX i ON t (a);";
    for id in ["require-primary-key", "require-not-null", "forbid-nullable-fk"] {
        assert!(lint(sql, &untimed()).unwrap().iter().all(|f| f.rule_id != id));
        let on = lint(sql, &opting_in(id)).unwrap();
        let hits: Vec<&Finding> = on.iter().filter(|f| f.rule_id == id).collect();
        assert_eq!(hits.len(), 1, "{id}");
        assert_eq!(hits[0].severity, Severity::Warning);
        assert_eq!(hits[0].statement_index, 0);
        let off = LintOptions { disabled_rules: set(&["require-timeout", id]), ..opting_in(id) };
        assert!(lint(sql, &off).unwrap().iter().all(|f| f.rule_id != id));
    }
}

// --- Enum values ---

fn early_uses_in(sql: &str, options: &LintOptions) -> Vec<(usize, String)> {
    let f = lint(sql, options).unwrap();
    f.into_iter()
        .filter(|f| f.rule_id == "enum-value-used-in-transaction")
        .inspect(|f| assert_eq!(f.severity, Severity::Error))
        .map(|f| (f.statement_index, f.message))
        .collect()
}

#[test]
fn an_enum_value_is_not_used_in_the_transaction_that_adds_it() {
    let message = "The enum value `glad` was added earlier in the same transaction; PostgreSQL \
                   rejects its use until that transaction has committed.";
    let sql = "BEGIN; ALTER TYPE mood ADD VALUE 'glad'; INSERT INTO t VALUES ('glad'); COMMIT;";
    assert_eq!(early_uses_in(sql, &untimed()), [(2, message.to_string())]);
    let silent = [
        "ALTER TYPE mood ADD VALUE 'glad'; INSERT INTO t VALUES ('glad');",
        "BEGIN; ALTER TYPE mood ADD VALUE 'glad'; COMMIT; INSERT INTO t VALUES ('glad');",
        "BEGIN; ALTER TYPE mood ADD VALUE 'glad'; INSERT INTO t VALUES ('sad'); COMMIT;",
        "BEGIN; INSERT INTO t VALUES ('glad'); ALTER TYPE mood ADD VALUE 'glad'; COMMIT;",
        "BEGIN; ALTER TYPE mood ADD VALUE 'glad'; ALTER TYPE mood ADD VALUE 'sad' AFTER 'glad'; COMMIT;",
        "BEGIN; ALTER TYPE mood RENAME VALUE 'sad' TO 'glad'; INSERT INTO t VALUES ('glad'); COMMIT;",
    ];
    for sql in silent {
        assert!(early_uses_in(sql, &untimed()).is_empty(), "{sql}");
    }
    let wrapped = LintOptions { assume_in_transaction: true, ..untimed() };
    let sql = "ALTER TYPE mood ADD VALUE 'glad'; INSERT INTO t VALUES ('glad', 'glad');";
    assert_eq!(early_uses_in(sql, &wrapped), [(1, message.to_string())]);
    let off = LintOptions {
        assume_in_transaction: true,
        disabled_rules: set(&["enum-value-used-in-transaction"]),
        ..LintOptions::default()
    };
    assert!(early_uses_in(sql, &off).is_empty());
}

#[test]
fn a_quote_in_an_enum_value_is_doubled_in_its_literal() {
    let sql = "INSERT INTO t VALUES ('it''s');";
    let token = |start: i32, end: i32| ScanToken { kind: TokenKind::Other, start, end };
    let tokens = [token(0, 6), token(22, 29)];
    let added = AlterEnumStmt { old_val: String::new(), new_val: "it's".into() };
    let stmts = [
        RawStmt { stmt: Some(Node::AlterEnumStmt(added)) },
        RawStmt { stmt: Some(Node::InsertStmt(None)) },
    ];
    let geoms = [statement_span(&tokens, 0, 0), statement_span(&tokens, 0, sql.len())];
    let found = early_uses(sql, &stmts, &geoms, &tokens, true);
    assert_eq!(found.len(), 1);
    assert_eq!(found[0].0, 1);
    assert!(found[0].1.contains("`it's`"));
}

// --- Required columns ---

#[test]
fn a_required_column_is_named_as_configured_and_once() {
    assert_eq!(
        missing_required_columns(&stmts("CREATE TABLE t (id int)"), &set(&["Created_At"])),
        [(0, "The table `t` is missing the required column `Created_At`.".to_string())]
    );
    let folded = missing_required_columns(
        &stmts("CREATE TABLE t (id int)"),
        &set(&["Created_At", "created_at", "CREATED_AT"]),
    );
    assert_eq!(folded.len(), 1);
}
