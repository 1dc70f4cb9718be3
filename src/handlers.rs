//! The tools the parent conversation calls: the `subagent_*` family and
//! `delegate`. Argument checks, request building and response shaping.
use vstd::prelude::*;
use crate::config::{delegate_config, SessionConfig, child_features, delegate_instructions};
use crate::handle::{cap_text, EngineEvent, SubagentPollResponse};
use crate::mode::{mode_name, mode_of, status_name, status_str, SubagentMode};
use crate::names::{label_of, sanitize_label_or};
use crate::registry::{SubagentSpawnRequest, SubagentSpawnResponse};
use crate::skills::{
    first_occurrences, initial_inputs, in_catalog, names_of, resolve_unique_skills, resolves_to,
    Skill, UserInput,
};
use crate::text::{decimal, decimal_string, trim, trim_str, truncate_bytes};

verus! {

/// The label of a spawned subagent when the caller gives none.
pub const DEFAULT_SUBAGENT_LABEL: &'static str = "subagent";
/// The label of a delegated child when the caller gives none.
pub const DEFAULT_DELEGATE_LABEL: &'static str = "delegate";

/// How a tool call fails.
pub enum FunctionCallError {
    /// Reported back to the model, which may correct its call.
    RespondToModel(String),
    /// Ends the turn.
    Fatal(String),
}

pub open spec fn respond(e: FunctionCallError, text: Seq<char>) -> bool {
    e matches FunctionCallError::RespondToModel(m) && m@ == text
}

/// The tools of the subagent family.
#[derive(Debug, Clone, Copy, PartialEq, Eq, Structural)]
pub enum SubagentTool {
    Spawn,
    Resume,
    Poll,
    Cancel,
    List,
}

pub open spec fn tool_of(name: Seq<char>) -> Option<SubagentTool> {
    if name == "subagent_spawn"@ {
        Some(SubagentTool::Spawn)
    } else if name == "subagent_resume"@ {
        Some(SubagentTool::Resume)
    } else if name == "subagent_poll"@ {
        Some(SubagentTool::Poll)
    } else if name == "subagent_cancel"@ {
        Some(SubagentTool::Cancel)
    } else if name == "subagent_list"@ {
        Some(SubagentTool::List)
    } else {
        None
    }
}

/// Which tool a name calls; an unknown name is fatal.
pub fn subagent_tool(name: &str) -> (r: Result<SubagentTool, FunctionCallError>)
    ensures
        match tool_of(name@) {
            Some(t) => r matches Ok(u) && u == t,
            None => r matches Err(FunctionCallError::Fatal(m)) && m@ == "unknown subagent tool: "@
                + name@,
        },
{
    let v = crate::text::chars_of(name);
    if crate::text::same_chars(&v, "subagent_spawn") {
        Ok(SubagentTool::Spawn)
    } else if crate::text::same_chars(&v, "subagent_resume") {
        Ok(SubagentTool::Resume)
    } else if crate::text::same_chars(&v, "subagent_poll") {
        Ok(SubagentTool::Poll)
    } else if crate::text::same_chars(&v, "subagent_cancel") {
        Ok(SubagentTool::Cancel)
    } else if crate::text::same_chars(&v, "subagent_list") {
        Ok(SubagentTool::List)
    } else {
        let mut m = String::from_str("unknown subagent tool: ");
        m.append(name);
        Err(FunctionCallError::Fatal(m))
    }
}

/// The mode named by the caller, `general` when none is given.
pub open spec fn requested_mode(mode: Option<Seq<char>>) -> Option<SubagentMode> {
    match mode {
        Some(m) => mode_of(m),
        None => Some(SubagentMode::General),
    }
}

pub open spec fn unknown_mode_text() -> Seq<char> {
    "unknown subagent mode; expected one of: general, explore"@
}

/// Parses the caller's mode, defaulting to `general`.
pub fn mode_from_args(mode: Option<String>) -> (r: Result<SubagentMode, String>)
    ensures
        match requested_mode(mode.deep_view()) {
            Some(m) => r matches Ok(n) && n == m,
            None => r matches Err(e) && e@ == unknown_mode_text(),
        },
{
    let parsed = match &mode {
        Some(m) => SubagentMode::from_str(m.as_str()),
        None => Some(SubagentMode::General),
    };
    match parsed {
        Some(m) => Ok(m),
        None => Err(String::from_str("unknown subagent mode; expected one of: general, explore")),
    }
}

/// Sanitises a subagent label: `[a-z0-9._-]`, at most 48 characters,
/// `subagent` when nothing is left.
pub fn sanitize_label(label: &str) -> (r: String)
    ensures
        r@ == label_of(label@, DEFAULT_SUBAGENT_LABEL@),
{
    sanitize_label_or(label, DEFAULT_SUBAGENT_LABEL)
}

/// Sanitises a delegate label: `[a-z0-9._-]`, at most 48 characters,
/// `delegate` when nothing is left.
pub fn sanitize_subagent_label(label: &str) -> (r: String)
    ensures
        r@ == label_of(label@, DEFAULT_DELEGATE_LABEL@),
{
    sanitize_label_or(label, DEFAULT_DELEGATE_LABEL)
}

/// A final output cut to `max_output_chars` bytes at a character boundary.
pub fn cap_output(text: Option<String>, max_output_chars: usize) -> (r: Option<String>)
    ensures
        r.deep_view() == match text {
            Some(t) => Some(truncate_bytes(t@, max_output_chars as nat)),
            None => None,
        },
{
    match text {
        Some(t) => Some(cap_text(t.as_str(), max_output_chars)),
        None => None,
    }
}

/// Arguments of `subagent_spawn`, and of `subagent_resume` with its
/// `rollout_path`.
pub struct SpawnArgs {
    pub agent_id: Option<String>,
    pub prompt: String,
    pub label: Option<String>,
    pub mode: Option<String>,
    pub skills: Vec<String>,
    pub timeout_ms: Option<u64>,
    pub rollout_path: Option<String>,
}

/// What `subagent_spawn` and `subagent_resume` answer.
pub struct SpawnOutput {
    pub agent_id: String,
    pub status: String,
    pub label: String,
    pub mode: String,
}

/// What `subagent_poll` answers, and `subagent_list` for each subagent.
pub struct PollOutput {
    pub agent_id: String,
    pub status: String,
    pub label: String,
    pub mode: String,
    pub rollout_path: Option<String>,
    pub final_output: Option<String>,
    pub recent_events: Vec<String>,
}

/// The label used when the caller gives `label` (or none).
pub open spec fn spawn_label(label: Option<Seq<char>>) -> Seq<char> {
    label_of(
        match label {
            Some(l) => l,
            None => DEFAULT_SUBAGENT_LABEL@,
        },
        DEFAULT_SUBAGENT_LABEL@,
    )
}

/// The handler of the `subagent_*` tools.
pub struct SubagentHandler;

impl SubagentHandler {
    /// Checks the arguments of a spawn (`resume` false) or resume call and
    /// builds the request: prompt trimmed and non-empty, rollout path (for
    /// a resume) trimmed and non-empty, mode parsed, label sanitised.
    pub fn spawn_request(&self, resume: bool, args: SpawnArgs) -> (r: Result<
        SubagentSpawnRequest,
        FunctionCallError,
    >)
        requires
            resume ==> args.rollout_path is Some,
        ensures
            ({
                let prompt = trim(args.prompt@);
                let path = match args.rollout_path {
                    Some(p) => trim(p@),
                    None => Seq::empty(),
                };
                if prompt.len() == 0 {
                    r matches Err(e) && respond(
                        e,
                        if resume {
                            "subagent_resume.prompt must be non-empty"@
                        } else {
                            "subagent_spawn.prompt must be non-empty"@
                        },
                    )
                } else if resume && path.len() == 0 {
                    r matches Err(e) && respond(e, "subagent_resume.rollout_path must be non-empty"@)
                } else if requested_mode(args.mode.deep_view()) is None {
                    r matches Err(e) && respond(e, unknown_mode_text())
                } else {
                    r matches Ok(req) && {
                        &&& req.agent_id.deep_view() == args.agent_id.deep_view()
                        &&& Some(req.mode) == requested_mode(args.mode.deep_view())
                        &&& req.label@ == spawn_label(args.label.deep_view())
                        &&& req.prompt@ == prompt
                        &&& req.skills.deep_view() == args.skills.deep_view()
                        &&& req.timeout_ms == args.timeout_ms
                        &&& req.resume_rollout_path.deep_view() == if resume {
                            Some(path)
                        } else {
                            None
                        }
                    }
                }
            }),
    {
        let SpawnArgs { agent_id, prompt, label, mode, skills, timeout_ms, rollout_path } = args;
        let prompt = trim_str(prompt.as_str());
        if prompt.unicode_len() == 0 {
            let m = if resume {
                "subagent_resume.prompt must be non-empty"
            } else {
                "subagent_spawn.prompt must be non-empty"
            };
            return Err(FunctionCallError::RespondToModel(String::from_str(m)));
        }
        let resume_path = if resume {
            let p = match &rollout_path {
                Some(p) => trim_str(p.as_str()),
                None => String::new(),
            };
            if p.unicode_len() == 0 {
                return Err(
                    FunctionCallError::RespondToModel(
                        String::from_str("subagent_resume.rollout_path must be non-empty"),
                    ),
                );
            }
            Some(p)
        } else {
            None
        };
        let mode = match mode_from_args(mode) {
            Ok(m) => m,
            Err(e) => {
                return Err(FunctionCallError::RespondToModel(e));
            },
        };
        let label = match &label {
            Some(l) => sanitize_label(l.as_str()),
            None => sanitize_label(DEFAULT_SUBAGENT_LABEL),
        };
        Ok(
            SubagentSpawnRequest {
                agent_id,
                mode,
                label,
                prompt,
                skills,
                timeout_ms,
                resume_rollout_path: resume_path,
            },
        )
    }

    /// The answer to a successful spawn or resume.
    pub fn spawn_output(&self, resp: SubagentSpawnResponse) -> (r: SpawnOutput)
        ensures
            r.agent_id@ == resp.agent_id@,
            r.status@ == status_name(resp.status),
            r.label@ == resp.label@,
            r.mode@ == mode_name(resp.mode),
    {
        SpawnOutput {
            agent_id: resp.agent_id,
            status: String::from_str(status_str(resp.status)),
            label: resp.label,
            mode: String::from_str(resp.mode.as_str()),
        }
    }

    /// The answer to a poll: names for status and mode, and the final
    /// output cut to `max_output_chars` bytes.
    pub fn poll_output(&self, poll: SubagentPollResponse, max_output_chars: usize) -> (r: PollOutput)
        ensures
            r.agent_id@ == poll.agent_id@,
            r.status@ == status_name(poll.status),
            r.label@ == poll.label@,
            r.mode@ == mode_name(poll.mode),
            r.rollout_path.deep_view() == poll.rollout_path.deep_view(),
            r.final_output.deep_view() == match poll.final_output {
                Some(t) => Some(truncate_bytes(t@, max_output_chars as nat)),
                None => None,
            },
            r.recent_events.deep_view() == poll.recent_events.deep_view(),
    {
        let SubagentPollResponse {
            agent_id,
            status,
            label,
            mode,
            rollout_path,
            final_output,
            recent_events,
        } = poll;
        PollOutput {
            agent_id,
            status: String::from_str(status_str(status)),
            label,
            mode: String::from_str(mode.as_str()),
            rollout_path,
            final_output: cap_output(final_output, max_output_chars),
            recent_events,
        }
    }

    /// The error for an id that no subagent carries.
    pub fn unknown_agent(&self) -> (r: FunctionCallError)
        ensures
            respond(r, "unknown agent_id"@),
    {
        FunctionCallError::RespondToModel(String::from_str("unknown agent_id"))
    }
}

/// Arguments of the `delegate` tool.
pub struct DelegateArgs {
    pub prompt: String,
    pub label: Option<String>,
    pub skills: Vec<String>,
    pub allow_tools: bool,
    pub timeout_ms: Option<u64>,
}

/// The label used for a delegated child.
pub open spec fn delegate_label(label: Option<Seq<char>>) -> Seq<char> {
    label_of(
        match label {
            Some(l) => l,
            None => DEFAULT_DELEGATE_LABEL@,
        },
        DEFAULT_DELEGATE_LABEL@,
    )
}

/// `names` joined with `", "`.
pub open spec fn joined(names: Seq<Seq<char>>) -> Seq<char>
    decreases names.len(),
{
    if names.len() == 0 {
        Seq::empty()
    } else if names.len() == 1 {
        names[0]
    } else {
        joined(names.drop_last()) + ", "@ + names.last()
    }
}

fn join_names(names: &Vec<String>) -> (r: String)
    ensures
        r@ == joined(names_of(names@)),
{
    let mut r = String::new();
    let mut i: usize = 0;
    while i < names.len()
        invariant
            i <= names.len(),
            r@ == joined(names_of(names@.subrange(0, i as int))),
        decreases names.len() - i,
    {
        let ghost pre = names_of(names@.subrange(0, i as int));
        let ghost nxt = names_of(names@.subrange(0, i + 1));
        assert(nxt.drop_last() == pre);
        assert(nxt.last() == names@[i as int]@);
        if i > 0 {
            r.append(", ");
        } else {
            assert(pre.len() == 0);
        }
        r.append(names[i].as_str());
        i += 1;
    }
    assert(names@.subrange(0, names@.len() as int) == names@);
    r
}

/// What a delegation runs with once checked.
pub struct DelegatePlan {
    pub config: SessionConfig,
    pub inputs: Vec<UserInput>,
}

/// The handler of the `delegate` tool.
pub struct DelegateHandler;

impl DelegateHandler {
    /// The trimmed prompt (which must be non-empty) and the sanitised label.
    pub fn prompt_and_label(&self, args: &DelegateArgs) -> (r: Result<(String, String), FunctionCallError>)
        ensures
            trim(args.prompt@).len() == 0 ==> (r matches Err(e) && respond(
                e,
                "delegate.prompt must be non-empty"@,
            )),
            trim(args.prompt@).len() > 0 ==> (r matches Ok(p) && p.0@ == trim(args.prompt@) && p.1@
                == delegate_label(args.label.deep_view())),
    {
        let prompt = trim_str(args.prompt.as_str());
        if prompt.unicode_len() == 0 {
            return Err(
                FunctionCallError::RespondToModel(String::from_str("delegate.prompt must be non-empty")),
            );
        }
        let label = match &args.label {
            Some(l) => sanitize_subagent_label(l.as_str()),
            None => sanitize_subagent_label(DEFAULT_DELEGATE_LABEL),
        };
        Ok((prompt, label))
    }

    /// The child's configuration and initial input; refuses with the list
    /// of missing names when a requested skill is not in the catalog.
    pub fn plan(
        &self,
        prompt: String,
        label: &str,
        args: &DelegateArgs,
        parent: SessionConfig,
        catalog: &Vec<Skill>,
    ) -> (r: Result<DelegatePlan, FunctionCallError>)
        ensures
            ({
                let uniq = first_occurrences(names_of(args.skills@));
                let missing = uniq.filter(|n: Seq<char>| !in_catalog(catalog@, n));
                if missing.len() > 0 {
                    r matches Err(e) && respond(
                        e,
                        "unknown skills requested: "@ + joined(missing)
                            + "; check the available skills list"@,
                    )
                } else {
                    r matches Ok(plan) && {
                        &&& plan.config.features@ == child_features(
                            parent.features@,
                            !args.allow_tools,
                            args.skills@.len() > 0,
                        )
                        &&& plan.config.developer_instructions.deep_view() == Some(
                            delegate_instructions(label@, args.allow_tools),
                        )
                        &&& plan.config.user_instructions is None
                        &&& plan.config.project_doc_max_bytes == 0
                        &&& plan.config.sandbox_policy == crate::config::SandboxPolicy::ReadOnly
                        &&& plan.inputs@.len() == uniq.len() + 1
                        &&& (plan.inputs@[0] matches UserInput::Text { text } && text@ == prompt@)
                        &&& forall|i: int|
                            0 <= i < uniq.len() ==> ((#[trigger] plan.inputs@[i + 1]) matches UserInput::Skill { name, path }
                                && exists|s: Skill| resolves_to(s, catalog@, uniq[i]) && s.name@ == name@ && s.path@ == path@)
                    }
                }
            }),
    {
        let config = delegate_config(parent, label, args.allow_tools, args.skills.len() > 0);
        match resolve_unique_skills(&args.skills, catalog) {
            Ok(found) => {
                let ghost fs = found@;
                let inputs = initial_inputs(prompt, found);
                proof {
                    let uniq = first_occurrences(names_of(args.skills@));
                    assert forall|i: int| 0 <= i < uniq.len() implies ((#[trigger] inputs@[i + 1]) matches UserInput::Skill { name, path }
                        && exists|s: Skill| resolves_to(s, catalog@, uniq[i]) && s.name@ == name@ && s.path@ == path@) by {
                        assert(resolves_to(fs[i], catalog@, uniq[i]));
                    }
                    assert(uniq.filter(|n: Seq<char>| !in_catalog(catalog@, n)).len() == 0) by {
                        assert forall|k: int| 0 <= k < uniq.len() implies in_catalog(catalog@, #[trigger] uniq[k]) by {
                            assert(resolves_to(fs[k], catalog@, uniq[k]));
                        }
                        broadcast use vstd::seq_lib::group_filter_ensures;
                        let f = uniq.filter(|n: Seq<char>| !in_catalog(catalog@, n));
                        if f.len() > 0 {
                            assert(f.contains(f[0]));
                            uniq.lemma_filter_contains_rev(|n: Seq<char>| !in_catalog(catalog@, n), f[0]);
                            assert(uniq.contains(f[0]));
                        }
                    }
                }
                Ok(DelegatePlan { config, inputs })
            },
            Err(missing) => {
                let mut m = String::from_str("unknown skills requested: ");
                let names = join_names(&missing);
                m.append(names.as_str());
                m.append("; check the available skills list");
                Err(FunctionCallError::RespondToModel(m))
            },
        }
    }

    /// The error when the deadline passes first.
    pub fn timeout_error(&self, ms: u64) -> (r: FunctionCallError)
        ensures
            respond(r, "delegate timed out after "@ + decimal(ms as nat) + "ms"@),
    {
        let mut m = String::from_str("delegate timed out after ");
        let n = decimal_string(ms);
        m.append(n.as_str());
        m.append("ms");
        FunctionCallError::RespondToModel(m)
    }

    /// The child's answer, cut to `max_output_chars` bytes at a character
    /// boundary.
    pub fn final_output(&self, output: &str, max_output_chars: usize) -> (r: String)
        ensures
            r@ == truncate_bytes(output@, max_output_chars as nat),
    {
        crate::text::take_bytes_at_char_boundary(output, max_output_chars)
    }
}

/// The deadline of a delegation: the caller's, else the configured one.
pub fn delegate_timeout_ms(requested: Option<u64>, configured: u64) -> (r: u64)
    ensures
        r == match requested {
            Some(t) => t,
            None => configured,
        },
{
    match requested {
        Some(t) => t,
        None => configured,
    }
}

/// What a delegation has seen of its child so far.
pub struct DelegateRun {
    last_error: Option<String>,
}

pub open spec fn delegate_result(
    last_error: Option<Seq<char>>,
    event: EngineEvent,
) -> Option<Result<Seq<char>, Seq<char>>> {
    match event {
        EngineEvent::TaskComplete { last_agent_message } => match last_agent_message {
            Some(t) => Some(Ok(t@)),
            None => match last_error {
                Some(e) => Some(Err("delegate subagent failed: "@ + e)),
                None => Some(Err("delegate subagent produced no final output"@)),
            },
        },
        EngineEvent::TurnAborted => Some(Err("delegate subagent was aborted"@)),
        _ => None,
    }
}

pub open spec fn delegate_last_error(last_error: Option<Seq<char>>, event: EngineEvent) -> Option<
    Seq<char>,
> {
    match event {
        EngineEvent::Error { message } => Some(message@),
        EngineEvent::StreamError { message } => Some(message@),
        _ => last_error,
    }
}

impl View for DelegateRun {
    type V = Option<Seq<char>>;

    closed spec fn view(&self) -> Option<Seq<char>> {
        self.last_error.deep_view()
    }
}

impl DelegateRun {
    pub fn new() -> (r: DelegateRun)
        ensures
            r@ is None,
    {
        DelegateRun { last_error: None }
    }

    /// Records one event of the child; `Some` once the delegation has its
    /// answer (`Ok`) or has failed (`Err`, reported to the model).
    pub fn on_event(&mut self, event: EngineEvent) -> (r: Option<Result<String, FunctionCallError>>)
        ensures
            final(self)@ == delegate_last_error(old(self)@, event),
            match delegate_result(old(self)@, event) {
                Some(Ok(t)) => r matches Some(Ok(s)) && s@ == t,
                Some(Err(m)) => r matches Some(Err(e)) && respond(e, m),
                None => r is None,
            },
    {
        match event {
            EngineEvent::Error { message } => {
                self.last_error = Some(message);
                None
            },
            EngineEvent::StreamError { message } => {
                self.last_error = Some(message);
                None
            },
            EngineEvent::TaskComplete { last_agent_message } => match last_agent_message {
                Some(text) => Some(Ok(text)),
                None => match &self.last_error {
                    Some(err) => {
                        let mut m = String::from_str("delegate subagent failed: ");
                        m.append(err.as_str());
                        Some(Err(FunctionCallError::RespondToModel(m)))
                    },
                    None => Some(
                        Err(
                            FunctionCallError::RespondToModel(
                                String::from_str("delegate subagent produced no final output"),
                            ),
                        ),
                    ),
                },
            },
            EngineEvent::TurnAborted => Some(
                Err(FunctionCallError::RespondToModel(String::from_str("delegate subagent was aborted"))),
            ),
            _ => None,
        }
    }
}

} // verus!
