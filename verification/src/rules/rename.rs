use vstd::prelude::*;

use super::{push_hit, Rule};
use crate::ast::{Node, ObjectType};
use crate::finding::{RuleHit, RuleHitView, Severity};

verus! {

pub const MESSAGE_HEAD: &'static str = "Renaming this ";

pub const MESSAGE_TAIL: &'static str = " breaks every application query, view, and function that references the old name.";

pub const GUIDANCE: &'static str = "Avoid renames in a rolling deploy. Prefer expand/contract: add the new name, dual-write, \
    migrate readers, then drop the old name — or use a view to alias during the transition.";

/// What a statement renames, in words; `None` where it renames nothing that queries name.
pub open spec fn renamed_kind_spec(node: Node) -> Option<Seq<char>> {
    match node {
        Node::RenameStmt(stmt) => match stmt.rename_type {
            ObjectType::Table => Some("table"@),
            ObjectType::Column => Some("column"@),
            ObjectType::Index => Some("index"@),
            ObjectType::TabConstraint => Some("constraint"@),
            ObjectType::View => Some("view"@),
            ObjectType::MatView => Some("materialized view"@),
            ObjectType::Sequence => Some("sequence"@),
            ObjectType::Schema => Some("schema"@),
            ObjectType::Type => Some("type"@),
            ObjectType::Attribute => Some("type attribute"@),
            ObjectType::Function => Some("function"@),
            ObjectType::Procedure => Some("procedure"@),
            ObjectType::Domain => Some("domain"@),
            _ => None,
        },
        Node::AlterEnumStmt(stmt) => if stmt.old_val@.len() > 0 {
            Some("enum value"@)
        } else {
            None
        },
        _ => None,
    }
}

fn renamed_kind(node: &Node) -> (r: Option<&'static str>)
    ensures
        match r {
            Some(k) => renamed_kind_spec(*node) == Some(k@),
            None => renamed_kind_spec(*node) is None,
        },
{
    match node {
        Node::RenameStmt(stmt) => match stmt.rename_type {
            ObjectType::Table => Some("table"),
            ObjectType::Column => Some("column"),
            ObjectType::Index => Some("index"),
            ObjectType::TabConstraint => Some("constraint"),
            ObjectType::View => Some("view"),
            ObjectType::MatView => Some("materialized view"),
            ObjectType::Sequence => Some("sequence"),
            ObjectType::Schema => Some("schema"),
            ObjectType::Type => Some("type"),
            ObjectType::Attribute => Some("type attribute"),
            ObjectType::Function => Some("function"),
            ObjectType::Procedure => Some("procedure"),
            ObjectType::Domain => Some("domain"),
            _ => None,
        },
        // `RENAME VALUE` renames an enum label; `ADD VALUE` leaves the old label empty.
        Node::AlterEnumStmt(stmt) => if stmt.old_val.as_str().is_empty() {
            None
        } else {
            Some("enum value")
        },
        _ => None,
    }
}

/// Flags a rename of anything queries refer to by name.
pub struct Rename;

impl Rule for Rename {
    open spec fn id_spec(&self) -> Seq<char> {
        "rename"@
    }

    open spec fn severity_spec(&self) -> Severity {
        Severity::Warning
    }

    open spec fn hits(&self, node: Node) -> Seq<RuleHitView> {
        match renamed_kind_spec(node) {
            Some(kind) => seq![
                RuleHitView {
                    message: MESSAGE_HEAD@ + kind + MESSAGE_TAIL@,
                    guidance: GUIDANCE@,
                    fix: None,
                },
            ],
            None => Seq::empty(),
        }
    }

    fn id(&self) -> (r: &'static str) {
        "rename"
    }

    fn severity(&self) -> (r: Severity) {
        Severity::Warning
    }

    fn check(&self, node: &Node, out: &mut Vec<RuleHit>) {
        if let Some(kind) = renamed_kind(node) {
            let mut message = MESSAGE_HEAD.to_owned();
            message.append(kind);
            message.append(MESSAGE_TAIL);
            push_hit(out, message.as_str(), GUIDANCE, None);
        }
    }
}

} // verus!
