//! Forwarding of a child's approval requests to its parent.
use vstd::prelude::*;

verus! {

/// What the child asks approval for.
#[derive(Debug, Clone, Copy, PartialEq, Eq, Structural)]
pub enum ApprovalKind {
    Exec,
    Patch,
}

/// The parent's answer to an approval request.
#[derive(Debug, Clone, Copy, PartialEq, Eq, Structural)]
pub enum ReviewDecision {
    Approved,
    ApprovedForSession,
    Denied,
    Abort,
}

impl Default for ReviewDecision {
    fn default() -> (r: ReviewDecision)
        ensures
            r == ReviewDecision::Denied,
    {
        ReviewDecision::Denied
    }
}

pub open spec fn kind_name(kind: ApprovalKind) -> Seq<char> {
    match kind {
        ApprovalKind::Exec => "exec"@,
        ApprovalKind::Patch => "patch"@,
    }
}

/// The id under which the parent de-duplicates a forwarded request.
pub open spec fn approval_id_of(agent_id: Seq<char>, kind: ApprovalKind, turn_id: Seq<char>) -> Seq<
    char,
> {
    "subagent-"@ + agent_id + "-"@ + kind_name(kind) + "-"@ + turn_id
}

/// `"subagent-{agent_id}-{kind}-{turn_id}"`.
pub fn approval_id(agent_id: &str, kind: ApprovalKind, turn_id: &str) -> (r: String)
    ensures
        r@ == approval_id_of(agent_id@, kind, turn_id@),
{
    let mut r = String::from_str("subagent-");
    r.append(agent_id);
    r.append("-");
    match kind {
        ApprovalKind::Exec => r.append("exec"),
        ApprovalKind::Patch => r.append("patch"),
    }
    r.append("-");
    r.append(turn_id);
    r
}

/// The decision sent back to the child: the parent's, or the default
/// (`Denied`) when the parent dropped the request unanswered.
pub fn decision_or_default(answer: Option<ReviewDecision>) -> (r: ReviewDecision)
    ensures
        r == match answer {
            Some(d) => d,
            None => ReviewDecision::Denied,
        },
{
    match answer {
        Some(d) => d,
        None => ReviewDecision::Denied,
    }
}

/// Whether the decision also cancels the child: only `Abort` does.
pub fn cancels_child(decision: ReviewDecision) -> (r: bool)
    ensures
        r == (decision == ReviewDecision::Abort),
{
    match decision {
        ReviewDecision::Abort => true,
        _ => false,
    }
}

} // verus!
