use subagents::config::{
    child_config, delegate_base_instructions, subagent_base_instructions, AskForApproval, Feature,
    Features, SandboxPolicy, SessionConfig,
};
use subagents::handle::{EngineEvent, SubagentPollResponse};
use subagents::handlers::{
    cap_output, delegate_timeout_ms, mode_from_args, subagent_tool, DelegateArgs, DelegateHandler,
    DelegateRun, FunctionCallError, SpawnArgs, SubagentHandler, SubagentTool,
};
use subagents::mode::{SubagentMode, SubagentStatus};
use subagents::registry::SubagentSpawnResponse;
use subagents::skills::{initial_inputs, resolve_skills, Skill, UserInput};

fn text(e: FunctionCallError) -> String {
    match e {
        FunctionCallError::RespondToModel(m) => m,
        FunctionCallError::Fatal(m) => format!("fatal: {m}"),
    }
}

fn spawn_args(prompt: &str) -> SpawnArgs {
    SpawnArgs {
        agent_id: Some("agent-1".to_string()),
        prompt: prompt.to_string(),
        label: Some("S".to_string()),
        mode: Some("explore".to_string()),
        skills: vec![],
        timeout_ms: Some(10),
        rollout_path: None,
    }
}

fn parent_config() -> SessionConfig {
    let mut features = Features::new();
    for f in [Feature::Subagents, Feature::GhostCommit, Feature::ShellTool, Feature::WebSearchRequest, Feature::UnifiedExec] {
        features.enable(f);
    }
    SessionConfig {
        features,
        user_instructions: Some("user".to_string()),
        developer_instructions: Some("dev".to_string()),
        project_doc_max_bytes: 4096,
        sandbox_policy: SandboxPolicy::WorkspaceWrite,
        approval_policy: AskForApproval::OnFailure,
    }
}

fn catalog() -> Vec<Skill> {
    vec![
        Skill { name: "lint".to_string(), path: "/s/lint.md".to_string() },
        Skill { name: "test".to_string(), path: "/s/test.md".to_string() },
        Skill { name: "lint".to_string(), path: "/s/other.md".to_string() },
    ]
}

#[test]
fn tool_names_dispatch() {
    assert_eq!(subagent_tool("subagent_spawn").ok(), Some(SubagentTool::Spawn));
    assert_eq!(subagent_tool("subagent_resume").ok(), Some(SubagentTool::Resume));
    assert_eq!(subagent_tool("subagent_poll").ok(), Some(SubagentTool::Poll));
    assert_eq!(subagent_tool("subagent_cancel").ok(), Some(SubagentTool::Cancel));
    assert_eq!(subagent_tool("subagent_list").ok(), Some(SubagentTool::List));
    assert_eq!(text(subagent_tool("other").err().unwrap()), "fatal: unknown subagent tool: other");
}

#[test]
fn spawn_request_checks_arguments() {
    let h = SubagentHandler;
    let req = h.spawn_request(false, spawn_args("  Summarize  ")).ok().unwrap();
    assert_eq!(req.prompt, "Summarize");
    assert_eq!(req.label, "s");
    assert_eq!(req.mode, SubagentMode::Explore);
    assert_eq!(req.agent_id.as_deref(), Some("agent-1"));
    assert_eq!(req.timeout_ms, Some(10));
    assert_eq!(req.resume_rollout_path, None);
    let e = h.spawn_request(false, spawn_args("   ")).err().unwrap();
    assert_eq!(text(e), "subagent_spawn.prompt must be non-empty");
    let mut bad_mode = spawn_args("p");
    bad_mode.mode = Some("planner".to_string());
    let e = h.spawn_request(false, bad_mode).err().unwrap();
    assert_eq!(text(e), "unknown subagent mode; expected one of: general, explore");
    let mut defaults = spawn_args("p");
    defaults.mode = None;
    defaults.label = None;
    let req = h.spawn_request(false, defaults).ok().unwrap();
    assert_eq!(req.mode, SubagentMode::General);
    assert_eq!(req.label, "subagent");
}

#[test]
fn resume_request_needs_rollout_path() {
    let h = SubagentHandler;
    let mut args = spawn_args("p");
    args.rollout_path = Some("  /r/x.jsonl ".to_string());
    let req = h.spawn_request(true, args).ok().unwrap();
    assert_eq!(req.resume_rollout_path.as_deref(), Some("/r/x.jsonl"));
    let mut args = spawn_args("p");
    args.rollout_path = Some("   ".to_string());
    assert_eq!(text(h.spawn_request(true, args).err().unwrap()), "subagent_resume.rollout_path must be non-empty");
    let mut args = spawn_args("");
    args.rollout_path = Some("/r".to_string());
    assert_eq!(text(h.spawn_request(true, args).err().unwrap()), "subagent_resume.prompt must be non-empty");
}

#[test]
fn mode_argument_defaults_to_general() {
    assert_eq!(mode_from_args(None), Ok(SubagentMode::General));
    assert_eq!(mode_from_args(Some("readonly".to_string())), Ok(SubagentMode::Explore));
    assert!(mode_from_args(Some("x".to_string())).is_err());
}

#[test]
fn outputs_use_wire_names() {
    let h = SubagentHandler;
    let out = h.spawn_output(SubagentSpawnResponse {
        agent_id: "agent-1".to_string(),
        status: SubagentStatus::Queued,
        label: "s".to_string(),
        mode: SubagentMode::Explore,
    });
    assert_eq!((out.agent_id.as_str(), out.status.as_str(), out.label.as_str(), out.mode.as_str()), ("agent-1", "queued", "s", "explore"));
    let poll = SubagentPollResponse {
        agent_id: "a".to_string(),
        status: SubagentStatus::Complete,
        label: "l".to_string(),
        mode: SubagentMode::General,
        rollout_path: Some("/r".to_string()),
        final_output: Some("abcdef".to_string()),
        recent_events: vec!["complete".to_string()],
    };
    let out = h.poll_output(poll, 3);
    assert_eq!(out.status, "complete");
    assert_eq!(out.mode, "general");
    assert_eq!(out.final_output.as_deref(), Some("abc"));
    assert_eq!(out.rollout_path.as_deref(), Some("/r"));
    assert_eq!(out.recent_events, vec!["complete"]);
    assert_eq!(text(h.unknown_agent()), "unknown agent_id");
    assert_eq!(cap_output(Some("héllo".to_string()), 2), Some("h".to_string()));
    assert_eq!(cap_output(None, 2), None);
}

#[test]
fn child_config_for_explore() {
    let c = child_config(parent_config(), "scout", SubagentMode::Explore, true);
    assert!(!c.features.enabled(Feature::Subagents));
    assert!(!c.features.enabled(Feature::GhostCommit));
    assert!(!c.features.enabled(Feature::ShellTool));
    assert!(!c.features.enabled(Feature::WebSearchRequest));
    assert!(c.features.enabled(Feature::Skills));
    assert_eq!(c.project_doc_max_bytes, 0);
    assert_eq!(c.sandbox_policy, SandboxPolicy::ReadOnly);
    assert_eq!(c.approval_policy, AskForApproval::OnRequest);
    let expected = format!("dev\n\n{}", subagent_base_instructions("scout", SubagentMode::Explore));
    assert_eq!(c.developer_instructions.as_deref(), Some(expected.as_str()));
    assert_eq!(c.user_instructions.as_deref(), Some("user"));
}

#[test]
fn child_config_for_general_inherits_policies() {
    let c = child_config(parent_config(), "w", SubagentMode::General, false);
    assert!(c.features.enabled(Feature::ShellTool));
    assert!(!c.features.enabled(Feature::Skills));
    assert!(!c.features.enabled(Feature::Subagents));
    assert_eq!(c.sandbox_policy, SandboxPolicy::WorkspaceWrite);
    assert_eq!(c.approval_policy, AskForApproval::OnFailure);
}

#[test]
fn instruction_templates() {
    let s = subagent_base_instructions("scout", SubagentMode::Explore);
    assert_eq!(
        s,
        "You are a focused subagent named \"scout\".\nYour job is to help the parent session by producing concise, actionable results.\n\nRequirements:\n- Output: respond with only your final answer (no meta commentary).\n- Scope: read-only exploration; do not modify files.\n- Efficiency: keep responses short; prefer checklists and concrete next steps.\n"
    );
    let g = subagent_base_instructions("w", SubagentMode::General);
    assert!(g.contains("- Scope: you may propose changes and (if tools are enabled) apply them.\n"));
    let d = delegate_base_instructions("d", false);
    assert!(d.contains("- Tools: Do not call tools."));
    assert!(delegate_base_instructions("d", true).contains("- Tools: You may call tools if needed"));
}

#[test]
fn delegate_plan_and_errors() {
    let h = DelegateHandler;
    let args = DelegateArgs {
        prompt: "  do it ".to_string(),
        label: None,
        skills: vec!["lint".to_string(), "test".to_string(), "lint".to_string()],
        allow_tools: false,
        timeout_ms: None,
    };
    let (prompt, label) = h.prompt_and_label(&args).ok().unwrap();
    assert_eq!(prompt, "do it");
    assert_eq!(label, "delegate");
    let plan = h.plan(prompt, &label, &args, parent_config(), &catalog()).ok().unwrap();
    assert_eq!(plan.inputs.len(), 3);
    match &plan.inputs[1] {
        UserInput::Skill { name, path } => assert_eq!((name.as_str(), path.as_str()), ("lint", "/s/lint.md")),
        _ => panic!("expected a skill"),
    }
    assert!(!plan.config.features.enabled(Feature::ShellTool));
    assert!(plan.config.features.enabled(Feature::Skills));
    assert_eq!(plan.config.user_instructions, None);
    assert_eq!(plan.config.sandbox_policy, SandboxPolicy::ReadOnly);
    let missing = DelegateArgs {
        prompt: "p".to_string(),
        label: Some("x".to_string()),
        skills: vec!["a".to_string(), "lint".to_string(), "b".to_string(), "a".to_string()],
        allow_tools: true,
        timeout_ms: Some(5),
    };
    let e = h.plan("p".to_string(), "x", &missing, parent_config(), &catalog()).err().unwrap();
    assert_eq!(text(e), "unknown skills requested: a, b; check the available skills list");
    let empty = DelegateArgs { prompt: " ".to_string(), label: None, skills: vec![], allow_tools: false, timeout_ms: None };
    assert_eq!(text(h.prompt_and_label(&empty).err().unwrap()), "delegate.prompt must be non-empty");
    assert_eq!(text(h.timeout_error(250)), "delegate timed out after 250ms");
    assert_eq!(h.final_output("héllo", 2), "h");
    assert_eq!(delegate_timeout_ms(Some(5), 100), 5);
    assert_eq!(delegate_timeout_ms(None, 100), 100);
}

#[test]
fn delegate_run_outcomes() {
    let mut run = DelegateRun::new();
    assert!(run.on_event(EngineEvent::Error { message: "e1".to_string() }).is_none());
    assert!(run.on_event(EngineEvent::Other).is_none());
    let r = run.on_event(EngineEvent::TaskComplete { last_agent_message: None }).unwrap();
    assert_eq!(text(r.err().unwrap()), "delegate subagent failed: e1");
    let mut run = DelegateRun::new();
    let r = run.on_event(EngineEvent::TaskComplete { last_agent_message: None }).unwrap();
    assert_eq!(text(r.err().unwrap()), "delegate subagent produced no final output");
    let mut run = DelegateRun::new();
    let r = run.on_event(EngineEvent::TaskComplete { last_agent_message: Some("ok".to_string()) }).unwrap();
    assert_eq!(r.ok(), Some("ok".to_string()));
    let mut run = DelegateRun::new();
    let r = run.on_event(EngineEvent::TurnAborted).unwrap();
    assert_eq!(text(r.err().unwrap()), "delegate subagent was aborted");
}

#[test]
fn driver_skill_resolution() {
    let found = resolve_skills(&vec!["test".to_string(), "lint".to_string()], &catalog()).ok().unwrap();
    assert_eq!(found.len(), 2);
    assert_eq!(found[1].path, "/s/lint.md");
    let missing = resolve_skills(&vec!["test".to_string(), "nope".to_string(), "gone".to_string()], &catalog());
    assert_eq!(missing.err(), Some("nope".to_string()));
    let inputs = initial_inputs("P".to_string(), found);
    assert_eq!(inputs.len(), 3);
    match &inputs[0] {
        UserInput::Text { text } => assert_eq!(text, "P"),
        _ => panic!("expected text first"),
    }
    match &inputs[2] {
        UserInput::Skill { name, .. } => assert_eq!(name, "lint"),
        _ => panic!("expected a skill"),
    }
}
