use vstd::prelude::*;

use super::{push_hit, Rule};
use crate::ast::{ConstrType, Node};
use crate::finding::{RuleHit, RuleHitView, Severity};
use crate::text::str_eq;

verus! {

pub const MESSAGE: &'static str = "ALTER DOMAIN ... ADD/SET NOT NULL checks that no existing value of the domain type is null \
    across every dependent table, scanning them and holding a lock that blocks writes for the \
    scan's duration.";

pub const GUIDANCE: &'static str = "A domain NOT NULL cannot be added NOT VALID (unlike a CHECK). Add it while the domain has \
    few or no dependent rows, or drop the domain-level NOT NULL and instead set NOT NULL on \
    each dependent column via the safe two-step (CHECK (col IS NOT NULL) NOT VALID, VALIDATE \
    CONSTRAINT, then SET NOT NULL).";

/// Whether the action adds a `NOT NULL` constraint.
pub open spec fn adds_not_null(def: Option<Box<Node>>) -> bool {
    match def {
        Some(d) => *d matches Node::Constraint(c) && c.contype == ConstrType::NotNull,
        None => false,
    }
}

/// Flags a `NOT NULL` put on an existing domain: `ADD [CONSTRAINT] NOT NULL` or
/// `SET NOT NULL`. `DROP NOT NULL` relaxes the constraint and is not flagged.
pub struct AddDomainNotNull;

impl Rule for AddDomainNotNull {
    open spec fn id_spec(&self) -> Seq<char> {
        "add-domain-not-null"@
    }

    open spec fn severity_spec(&self) -> Severity {
        Severity::Error
    }

    open spec fn hits(&self, node: Node) -> Seq<RuleHitView> {
        if node matches Node::AlterDomainStmt(a) && (a.subtype@ == "O"@ || (a.subtype@ == "C"@ && adds_not_null(a.def))) {
            seq![RuleHitView { message: MESSAGE@, guidance: GUIDANCE@, fix: None }]
        } else {
            Seq::empty()
        }
    }

    fn id(&self) -> (r: &'static str) {
        "add-domain-not-null"
    }

    fn severity(&self) -> (r: Severity) {
        Severity::Error
    }

    fn check(&self, node: &Node, out: &mut Vec<RuleHit>) {
        let flagged = match node {
            Node::AlterDomainStmt(a) => str_eq(a.subtype.as_str(), "O") || (str_eq(
                a.subtype.as_str(),
                "C",
            ) && match &a.def {
                Some(d) => match &**d {
                    Node::Constraint(c) => c.contype == ConstrType::NotNull,
                    _ => false,
                },
                None => false,
            }),
            _ => false,
        };
        if flagged {
            push_hit(out, MESSAGE, GUIDANCE, None);
        }
    }
}

} // verus!
