//! The configuration a child session runs with, derived from its parent's,
//! and the developer instructions it is given.
use vstd::prelude::*;
use crate::mode::SubagentMode;

verus! {

/// A switchable capability of a session.
#[derive(Debug, Clone, Copy, PartialEq, Eq, Structural)]
pub enum Feature {
    Subagents,
    GhostCommit,
    ApplyPatchFreeform,
    UnifiedExec,
    ShellTool,
    ShellSnapshot,
    ViewImageTool,
    WebSearchRequest,
    Skills,
}

/// How far the session's commands may reach outside a sandbox.
#[derive(Debug, Clone, Copy, PartialEq, Eq, Structural)]
pub enum SandboxPolicy {
    ReadOnly,
    WorkspaceWrite,
    DangerFullAccess,
}

/// When the session asks before running a command.
#[derive(Debug, Clone, Copy, PartialEq, Eq, Structural)]
pub enum AskForApproval {
    UnlessTrusted,
    OnFailure,
    OnRequest,
    Never,
}

/// The set of enabled features.
pub struct Features {
    enabled: Vec<Feature>,
}

impl View for Features {
    type V = Set<Feature>;

    closed spec fn view(&self) -> Set<Feature> {
        self.enabled@.to_set()
    }
}

impl Features {
    pub fn new() -> (r: Features)
        ensures
            r@ == Set::<Feature>::empty(),
    {
        let r = Features { enabled: Vec::new() };
        assert(r@ =~= Set::<Feature>::empty());
        r
    }

    pub fn enabled(&self, f: Feature) -> (r: bool)
        ensures
            r == self@.contains(f),
    {
        let mut i: usize = 0;
        while i < self.enabled.len()
            invariant
                i <= self.enabled.len(),
                forall|j: int| 0 <= j < i ==> self.enabled@[j] != f,
            decreases self.enabled.len() - i,
        {
            if self.enabled[i] == f {
                assert(self.enabled@.to_set().contains(self.enabled@[i as int]));
                return true;
            }
            i += 1;
        }
        assert(!self.enabled@.contains(f));
        false
    }

    pub fn enable(&mut self, f: Feature)
        ensures
            final(self)@ == old(self)@.insert(f),
    {
        let ghost before = self.enabled@;
        self.enabled.push(f);
        assert(self.enabled@.to_set() =~= before.to_set().insert(f)) by {
            assert forall|x: Feature| self.enabled@.contains(x) <==> (before.contains(x) || x == f) by {
                if self.enabled@.contains(x) {
                    let i = choose|i: int| 0 <= i < self.enabled@.len() && self.enabled@[i] == x;
                    if i < before.len() {
                        assert(before[i] == x);
                    }
                }
                if before.contains(x) {
                    let i = choose|i: int| 0 <= i < before.len() && before[i] == x;
                    assert(self.enabled@[i] == x);
                }
                if x == f {
                    assert(self.enabled@[before.len() as int] == f);
                }
            }
        }
    }

    pub fn disable(&mut self, f: Feature)
        ensures
            final(self)@ == old(self)@.remove(f),
    {
        let ghost before = self.enabled@;
        let mut kept: Vec<Feature> = Vec::new();
        let mut i: usize = 0;
        while i < self.enabled.len()
            invariant
                i <= self.enabled.len(),
                self.enabled@ == before,
                forall|x: Feature|
                    kept@.contains(x) <==> (x != f && before.subrange(0, i as int).contains(x)),
            decreases self.enabled.len() - i,
        {
            let g = self.enabled[i];
            let ghost k0 = kept@;
            if g != f {
                kept.push(g);
            }
            assert forall|x: Feature|
                kept@.contains(x) <==> (x != f && before.subrange(0, i + 1).contains(x)) by {
                let p = before.subrange(0, i as int);
                let q = before.subrange(0, i + 1);
                assert(q == p.push(g));
                if kept@.contains(x) {
                    let j = choose|j: int| 0 <= j < kept@.len() && kept@[j] == x;
                    if j < k0.len() {
                        assert(k0[j] == x);
                    }
                }
                if k0.contains(x) {
                    let j = choose|j: int| 0 <= j < k0.len() && k0[j] == x;
                    assert(kept@[j] == x);
                }
                if q.contains(x) {
                    let j = choose|j: int| 0 <= j < q.len() && q[j] == x;
                    if j < p.len() {
                        assert(p[j] == x);
                    }
                }
                if p.contains(x) {
                    let j = choose|j: int| 0 <= j < p.len() && p[j] == x;
                    assert(q[j] == x);
                }
                if g != f && x == g {
                    assert(kept@[k0.len() as int] == g);
                    assert(q[i as int] == g);
                }
            }
            i += 1;
        }
        assert(before.subrange(0, before.len() as int) == before);
        self.enabled = kept;
        assert(self.enabled@.to_set() =~= before.to_set().remove(f));
    }
}

/// The parts of a session's configuration that delegation changes.
pub struct SessionConfig {
    pub features: Features,
    pub user_instructions: Option<String>,
    pub developer_instructions: Option<String>,
    pub project_doc_max_bytes: usize,
    pub sandbox_policy: SandboxPolicy,
    pub approval_policy: AskForApproval,
}

/// The tool features that a read-only child loses.
pub open spec fn tool_features() -> Set<Feature> {
    set![
        Feature::ApplyPatchFreeform,
        Feature::UnifiedExec,
        Feature::ShellTool,
        Feature::ShellSnapshot,
        Feature::ViewImageTool,
        Feature::WebSearchRequest,
    ]
}

/// The features of a child session: no recursion, no ghost commits, the
/// tool features dropped where `drop_tools`, and skills on where requested.
pub open spec fn child_features(parent: Set<Feature>, drop_tools: bool, has_skills: bool) -> Set<
    Feature,
> {
    let base = parent.remove(Feature::Subagents).remove(Feature::GhostCommit);
    let trimmed = if drop_tools {
        base.difference(tool_features())
    } else {
        base
    };
    if has_skills {
        trimmed.insert(Feature::Skills)
    } else {
        trimmed
    }
}

pub open spec fn subagent_instructions(label: Seq<char>, mode: SubagentMode) -> Seq<char> {
    "You are a focused subagent named \""@ + label
        + "\".\nYour job is to help the parent session by producing concise, actionable results.\n\nRequirements:\n- Output: respond with only your final answer (no meta commentary).\n"@
        + match mode {
        SubagentMode::Explore => "- Scope: read-only exploration; do not modify files.\n"@,
        SubagentMode::General => "- Scope: you may propose changes and (if tools are enabled) apply them.\n"@,
    } + "- Efficiency: keep responses short; prefer checklists and concrete next steps.\n"@
}

pub open spec fn delegate_instructions(label: Seq<char>, allow_tools: bool) -> Seq<char> {
    "You are a focused subagent named \""@ + label
        + "\".\nYour job is to help the parent session by producing a concise, actionable result.\n\nRequirements:\n- Output: respond with only your final answer (no meta commentary).\n- Scope: focus only on the delegated prompt.\n"@
        + if allow_tools {
        "- Tools: You may call tools if needed, but prefer minimal, read-only actions.\n"@
    } else {
        "- Tools: Do not call tools. If you need data, request specific files/commands from the parent.\n"@
    } + "- Efficiency: keep the response short; prefer checklists and concrete next steps.\n"@
}

/// The developer instructions of a one-shot subagent.
pub fn subagent_base_instructions(label: &str, mode: SubagentMode) -> (r: String)
    ensures
        r@ == subagent_instructions(label@, mode),
{
    let mut r = String::from_str("You are a focused subagent named \"");
    r.append(label);
    r.append(
        "\".\nYour job is to help the parent session by producing concise, actionable results.\n\nRequirements:\n- Output: respond with only your final answer (no meta commentary).\n",
    );
    match mode {
        SubagentMode::Explore => r.append("- Scope: read-only exploration; do not modify files.\n"),
        SubagentMode::General => r.append(
            "- Scope: you may propose changes and (if tools are enabled) apply them.\n",
        ),
    }
    r.append("- Efficiency: keep responses short; prefer checklists and concrete next steps.\n");
    r
}

/// The developer instructions of a delegated child.
pub fn delegate_base_instructions(label: &str, allow_tools: bool) -> (r: String)
    ensures
        r@ == delegate_instructions(label@, allow_tools),
{
    let mut r = String::from_str("You are a focused subagent named \"");
    r.append(label);
    r.append(
        "\".\nYour job is to help the parent session by producing a concise, actionable result.\n\nRequirements:\n- Output: respond with only your final answer (no meta commentary).\n- Scope: focus only on the delegated prompt.\n",
    );
    if allow_tools {
        r.append("- Tools: You may call tools if needed, but prefer minimal, read-only actions.\n");
    } else {
        r.append(
            "- Tools: Do not call tools. If you need data, request specific files/commands from the parent.\n",
        );
    }
    r.append("- Efficiency: keep the response short; prefer checklists and concrete next steps.\n");
    r
}

fn drop_tool_features(features: &mut Features)
    ensures
        final(features)@ == old(features)@.difference(tool_features()),
{
    features.disable(Feature::ApplyPatchFreeform);
    features.disable(Feature::UnifiedExec);
    features.disable(Feature::ShellTool);
    features.disable(Feature::ShellSnapshot);
    features.disable(Feature::ViewImageTool);
    features.disable(Feature::WebSearchRequest);
    assert(features@ =~= old(features)@.difference(tool_features()));
}

/// The configuration of a one-shot subagent, derived from its parent's.
pub fn child_config(
    parent: SessionConfig,
    label: &str,
    mode: SubagentMode,
    has_skills: bool,
) -> (r: SessionConfig)
    ensures
        r.features@ == child_features(
            parent.features@,
            mode == SubagentMode::Explore,
            has_skills,
        ),
        r.project_doc_max_bytes == 0,
        r.user_instructions.deep_view() == parent.user_instructions.deep_view(),
        r.developer_instructions.deep_view() == Some(
            match parent.developer_instructions {
                Some(d) => d@ + "\n\n"@ + subagent_instructions(label@, mode),
                None => subagent_instructions(label@, mode),
            },
        ),
        mode == SubagentMode::Explore ==> r.sandbox_policy == SandboxPolicy::ReadOnly
            && r.approval_policy == AskForApproval::OnRequest,
        mode == SubagentMode::General ==> r.sandbox_policy == parent.sandbox_policy
            && r.approval_policy == parent.approval_policy,
{
    let SessionConfig {
        mut features,
        user_instructions,
        developer_instructions,
        project_doc_max_bytes: _,
        sandbox_policy,
        approval_policy,
    } = parent;
    features.disable(Feature::Subagents);
    features.disable(Feature::GhostCommit);
    let base = subagent_base_instructions(label, mode);
    let developer = match developer_instructions {
        Some(existing) => {
            let mut d = existing;
            d.append("\n\n");
            d.append(base.as_str());
            d
        },
        None => base,
    };
    let (sandbox, approval) = match mode {
        SubagentMode::Explore => {
            drop_tool_features(&mut features);
            (SandboxPolicy::ReadOnly, AskForApproval::OnRequest)
        },
        SubagentMode::General => (sandbox_policy, approval_policy),
    };
    if has_skills {
        features.enable(Feature::Skills);
    }
    SessionConfig {
        features,
        user_instructions,
        developer_instructions: Some(developer),
        project_doc_max_bytes: 0,
        sandbox_policy: sandbox,
        approval_policy: approval,
    }
}

/// The configuration of a delegated child: stricter than a one-shot
/// subagent's, with the parent's instructions replaced and a read-only
/// sandbox.
pub fn delegate_config(
    parent: SessionConfig,
    label: &str,
    allow_tools: bool,
    has_skills: bool,
) -> (r: SessionConfig)
    ensures
        r.features@ == child_features(parent.features@, !allow_tools, has_skills),
        r.project_doc_max_bytes == 0,
        r.user_instructions is None,
        r.developer_instructions.deep_view() == Some(delegate_instructions(label@, allow_tools)),
        r.sandbox_policy == SandboxPolicy::ReadOnly,
        r.approval_policy == parent.approval_policy,
{
    let SessionConfig {
        mut features,
        user_instructions: _,
        developer_instructions: _,
        project_doc_max_bytes: _,
        sandbox_policy: _,
        approval_policy,
    } = parent;
    features.disable(Feature::Subagents);
    features.disable(Feature::GhostCommit);
    if !allow_tools {
        drop_tool_features(&mut features);
    }
    if has_skills {
        features.enable(Feature::Skills);
    }
    SessionConfig {
        features,
        user_instructions: None,
        developer_instructions: Some(delegate_base_instructions(label, allow_tools)),
        project_doc_max_bytes: 0,
        sandbox_policy: SandboxPolicy::ReadOnly,
        approval_policy,
    }
}

} // verus!
