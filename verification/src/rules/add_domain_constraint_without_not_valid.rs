use vstd::prelude::*;

use super::{push_hit, Rule};
use crate::ast::{ConstrType, Node};
use crate::finding::{RuleHit, RuleHitView, Severity};
use crate::fix::{single_edit, FixAnchor, FixAnchorView, FixDraft};
use crate::text::str_eq;

verus! {

pub const MESSAGE: &'static str = "ALTER DOMAIN ... ADD CONSTRAINT without NOT VALID validates the new CHECK against every \
    existing value of the domain type across all dependent tables, scanning and locking them.";

pub const GUIDANCE: &'static str = "Add the constraint with NOT VALID, then run ALTER DOMAIN ... VALIDATE CONSTRAINT separately.";

/// Whether the action adds a `CHECK` that is validated at once.
pub open spec fn adds_unvalidated_check(def: Option<Box<Node>>) -> bool {
    match def {
        Some(d) => *d matches Node::Constraint(c) && c.contype == ConstrType::Check
            && !c.skip_validation,
        None => false,
    }
}

/// Flags `ALTER DOMAIN ... ADD CONSTRAINT ... CHECK` without `NOT VALID`. Validating and
/// dropping a constraint are not flagged. An `ALTER DOMAIN` carries exactly one action, so
/// appending `NOT VALID` is unambiguous.
pub struct AddDomainConstraintWithoutNotValid;

impl Rule for AddDomainConstraintWithoutNotValid {
    open spec fn id_spec(&self) -> Seq<char> {
        "add-domain-constraint-without-not-valid"@
    }

    open spec fn severity_spec(&self) -> Severity {
        Severity::Error
    }

    open spec fn hits(&self, node: Node) -> Seq<RuleHitView> {
        if node matches Node::AlterDomainStmt(a) && a.subtype@ == "C"@ && adds_unvalidated_check(a.def) {
            seq![RuleHitView { message: MESSAGE@, guidance: GUIDANCE@, fix: Some(single_edit("Add NOT VALID"@, FixAnchorView::StatementBodyEnd, " NOT VALID"@)) }]
        } else {
            Seq::empty()
        }
    }

    fn id(&self) -> (r: &'static str) {
        "add-domain-constraint-without-not-valid"
    }

    fn severity(&self) -> (r: Severity) {
        Severity::Error
    }

    fn check(&self, node: &Node, out: &mut Vec<RuleHit>) {
        let flagged = match node {
            Node::AlterDomainStmt(a) => str_eq(a.subtype.as_str(), "C") && match &a.def {
                Some(d) => match &**d {
                    Node::Constraint(c) => c.contype == ConstrType::Check && !c.skip_validation,
                    _ => false,
                },
                None => false,
            },
            _ => false,
        };
        if flagged {
            push_hit(out, MESSAGE, GUIDANCE, Some(
                FixDraft::single("Add NOT VALID", FixAnchor::StatementBodyEnd, " NOT VALID"),
            ));
        }
    }
}

} // verus!
