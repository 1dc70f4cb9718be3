//! Subagent profiles and lifecycle statuses.
use vstd::prelude::*;
use crate::text::{lower, lower_all, same_chars, trim, trim_end, trim_start, trimmed_chars};

verus! {

/// The policy bundle applied to a child session.
#[derive(Debug, Clone, Copy, PartialEq, Eq, Structural)]
pub enum SubagentMode {
    /// Read-only, tool-light profile meant for exploration and planning.
    Explore,
    /// General-purpose profile that can edit and run tools (subject to approvals).
    General,
}

/// Where a subagent stands in its lifecycle.
#[derive(Debug, Clone, Copy, PartialEq, Eq, Structural)]
pub enum SubagentStatus {
    Queued,
    Running,
    Complete,
    Aborted,
    Error,
}

/// The words accepted for each mode, after trimming and ASCII lower-casing.
pub open spec fn mode_of_word(w: Seq<char>) -> Option<SubagentMode> {
    if w == "explore"@ || w == "explorer"@ || w == "read-only"@ || w == "readonly"@ {
        Some(SubagentMode::Explore)
    } else if w == "general"@ || w == "default"@ || w == "worker"@ {
        Some(SubagentMode::General)
    } else {
        None
    }
}

/// The mode that a free-form string names, if any.
pub open spec fn mode_of(s: Seq<char>) -> Option<SubagentMode> {
    mode_of_word(lower(trim(s)))
}

pub open spec fn mode_name(m: SubagentMode) -> Seq<char> {
    match m {
        SubagentMode::Explore => "explore"@,
        SubagentMode::General => "general"@,
    }
}

pub open spec fn is_terminal(s: SubagentStatus) -> bool {
    s == SubagentStatus::Complete || s == SubagentStatus::Aborted || s == SubagentStatus::Error
}

/// Position in the lifecycle order `Queued < Running < {Complete, Aborted, Error}`.
pub open spec fn status_rank(s: SubagentStatus) -> nat {
    match s {
        SubagentStatus::Queued => 0,
        SubagentStatus::Running => 1,
        _ => 2,
    }
}

pub open spec fn status_name(s: SubagentStatus) -> Seq<char> {
    match s {
        SubagentStatus::Queued => "queued"@,
        SubagentStatus::Running => "running"@,
        SubagentStatus::Complete => "complete"@,
        SubagentStatus::Aborted => "aborted"@,
        SubagentStatus::Error => "error"@,
    }
}

impl SubagentMode {
    /// Parses a mode name, accepting the usual synonyms in any ASCII case
    /// and with surrounding white space.
    pub fn from_str(mode: &str) -> (r: Option<SubagentMode>)
        ensures
            r == mode_of(mode@),
    {
        let w = lower_all(&trimmed_chars(mode));
        if same_chars(&w, "explore") || same_chars(&w, "explorer") || same_chars(&w, "read-only")
            || same_chars(&w, "readonly") {
            Some(SubagentMode::Explore)
        } else if same_chars(&w, "general") || same_chars(&w, "default") || same_chars(
            &w,
            "worker",
        ) {
            Some(SubagentMode::General)
        } else {
            None
        }
    }

    pub fn as_str(self) -> (r: &'static str)
        ensures
            r@ == mode_name(self),
    {
        match self {
            SubagentMode::Explore => "explore",
            SubagentMode::General => "general",
        }
    }
}

impl SubagentStatus {
    pub fn is_terminal(self) -> (r: bool)
        ensures
            r == is_terminal(self),
    {
        match self {
            SubagentStatus::Complete | SubagentStatus::Aborted | SubagentStatus::Error => true,
            _ => false,
        }
    }
}

impl Default for SubagentStatus {
    fn default() -> (r: SubagentStatus)
        ensures
            r == SubagentStatus::Queued,
    {
        SubagentStatus::Queued
    }
}

/// The wire name of a status.
pub fn status_str(status: SubagentStatus) -> (r: &'static str)
    ensures
        r@ == status_name(status),
{
    match status {
        SubagentStatus::Queued => "queued",
        SubagentStatus::Running => "running",
        SubagentStatus::Complete => "complete",
        SubagentStatus::Aborted => "aborted",
        SubagentStatus::Error => "error",
    }
}

/// Reading back the name of a mode gives the same mode.
pub proof fn lemma_mode_round_trip(m: SubagentMode)
    ensures
        mode_of(mode_name(m)) == Some(m),
{
    reveal_strlit("explore");
    reveal_strlit("explorer");
    reveal_strlit("read-only");
    reveal_strlit("readonly");
    reveal_strlit("general");
    reveal_strlit("default");
    reveal_strlit("worker");
    let s = mode_name(m);
    assert(trim_start(s) == s);
    assert(trim_end(s) == s);
    assert(lower(s) == s);
}

} // verus!
