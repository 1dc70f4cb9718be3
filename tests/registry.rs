use subagents::approval::{approval_id, cancels_child, decision_or_default, ApprovalKind, ReviewDecision};
use subagents::handle::{EngineEvent, Failure, PumpAction};
use subagents::limits::{default_max_concurrency, limiter_permits, poll_budget, poll_step, remaining_after, PollStep};
use subagents::mode::{SubagentMode, SubagentStatus};
use subagents::registry::{DriverStep, SpawnError, SubagentLimits, SubagentManager, SubagentSpawnRequest};

fn limits(max_agents: usize) -> SubagentLimits {
    SubagentLimits { max_agents, max_events: 3, max_event_chars: 16, max_output_chars: 32 }
}

fn request(id: Option<&str>, label: &str) -> SubagentSpawnRequest {
    SubagentSpawnRequest {
        agent_id: id.map(|s| s.to_string()),
        mode: SubagentMode::Explore,
        label: label.to_string(),
        prompt: "P".to_string(),
        skills: vec![],
        timeout_ms: None,
        resume_rollout_path: None,
    }
}

fn complete(m: &mut SubagentManager, id: &str, now: u64) {
    assert_eq!(m.apply(id, DriverStep::Start, now), Some(PumpAction::Continue));
    let ev = EngineEvent::TaskComplete { last_agent_message: Some("done".to_string()) };
    assert_eq!(m.apply(id, DriverStep::Event(ev), now), Some(PumpAction::ShutdownAndStop));
}

#[test]
fn subagent_spawn_then_poll_waits_until_complete() {
    let mut m = SubagentManager::new();
    let resp = m
        .spawn_one_shot(&request(Some("agent-1"), "subagent-test"), limits(4), 1)
        .ok()
        .unwrap();
    assert_eq!(resp.agent_id, "agent-1");
    assert_eq!(resp.status, SubagentStatus::Queued);
    assert_eq!(m.poll("agent-1").unwrap().status, SubagentStatus::Queued);
    m.apply("agent-1", DriverStep::Start, 2);
    let msg = EngineEvent::AgentMessage { message: "Subagent output".to_string() };
    assert_eq!(m.apply("agent-1", DriverStep::Event(msg), 3), Some(PumpAction::Continue));
    let done = EngineEvent::TaskComplete { last_agent_message: Some("Subagent output".to_string()) };
    assert_eq!(m.apply("agent-1", DriverStep::Event(done), 4), Some(PumpAction::ShutdownAndStop));
    let poll = m.poll("agent-1").unwrap();
    assert_eq!(poll.agent_id, "agent-1");
    assert_eq!(poll.status, SubagentStatus::Complete);
    assert_eq!(poll.final_output.as_deref(), Some("Subagent output"));
    assert_eq!(poll.recent_events, vec!["running", "Subagent output", "complete"]);
}

#[test]
fn duplicate_id_rejected() {
    let mut m = SubagentManager::new();
    assert!(m.spawn_one_shot(&request(Some("x"), "s"), limits(4), 1).is_ok());
    let second = m.spawn_one_shot(&request(Some("x"), "s"), limits(4), 2);
    assert_eq!(second.err(), Some(SpawnError::AlreadyExists));
    assert_eq!(m.len(), 1);
    assert_eq!(SpawnError::AlreadyExists.message(), "agent_id already exists");
}

#[test]
fn invalid_agent_id_rejected() {
    let mut m = SubagentManager::new();
    let r = m.spawn_one_shot(&request(Some(" !! "), "s"), limits(4), 1);
    assert_eq!(r.err(), Some(SpawnError::InvalidAgentId));
    assert_eq!(m.len(), 0);
    assert_eq!(SpawnError::InvalidAgentId.message(), "invalid agent_id");
}

#[test]
fn generated_ids_are_uuids() {
    let mut m = SubagentManager::new();
    let a = m.spawn_one_shot(&request(None, "s"), limits(4), 1).ok().unwrap();
    let b = m.spawn_one_shot(&request(None, "s"), limits(4), 1).ok().unwrap();
    assert_eq!(a.agent_id.len(), 36);
    assert!(a.agent_id.chars().all(|c| c.is_ascii_hexdigit() && !c.is_ascii_uppercase() || c == '-'));
    assert_ne!(a.agent_id, b.agent_id);
    assert_eq!(m.len(), 2);
}

#[test]
fn zero_capacity_always_fails() {
    let mut m = SubagentManager::new();
    let r = m.spawn_one_shot(&request(Some("a"), "s"), limits(0), 1);
    assert_eq!(r.err(), Some(SpawnError::CapacityMisconfigured));
    let r = m.spawn_one_shot(&request(None, "s"), limits(0), 1);
    assert_eq!(r.err(), Some(SpawnError::CapacityMisconfigured));
    assert_eq!(SpawnError::CapacityMisconfigured.message(), "subagents.max_agents must be >= 1");
}

#[test]
fn capacity_pruning_removes_oldest_finished() {
    let mut m = SubagentManager::new();
    m.spawn_one_shot(&request(Some("a"), "s"), limits(2), 1).ok().unwrap();
    m.spawn_one_shot(&request(Some("b"), "s"), limits(2), 2).ok().unwrap();
    complete(&mut m, "a", 10);
    complete(&mut m, "b", 20);
    assert!(m.spawn_one_shot(&request(Some("c"), "s"), limits(2), 30).is_ok());
    assert!(m.poll("a").is_none());
    assert!(m.poll("b").is_some());
    assert!(m.poll("c").is_some());
    assert_eq!(m.len(), 2);
}

#[test]
fn full_registry_without_finished_entries_is_unchanged() {
    let mut m = SubagentManager::new();
    m.spawn_one_shot(&request(Some("a"), "s"), limits(2), 1).ok().unwrap();
    m.spawn_one_shot(&request(Some("b"), "s"), limits(2), 2).ok().unwrap();
    let r = m.spawn_one_shot(&request(Some("c"), "s"), limits(2), 3);
    assert_eq!(r.err(), Some(SpawnError::TooMany { max_agents: 2 }));
    assert_eq!(m.len(), 2);
    assert!(m.poll("a").is_some() && m.poll("b").is_some());
    let again = m.spawn_one_shot(&request(Some("c"), "s"), limits(2), 4);
    assert_eq!(again.err(), Some(SpawnError::TooMany { max_agents: 2 }));
    assert_eq!(m.len(), 2);
    assert_eq!(
        SpawnError::TooMany { max_agents: 2 }.message(),
        "too many subagents in this session (max 2); wait for some to finish or increase [subagents].max_agents"
    );
}

#[test]
fn registry_never_exceeds_capacity() {
    let mut m = SubagentManager::new();
    for i in 0..10u64 {
        let id = format!("id-{i}");
        let _ = m.spawn_one_shot(&request(Some(&id), "s"), limits(3), i);
        complete(&mut m, &id, i);
        assert!(m.len() <= 3);
    }
}

#[test]
fn cancel_trips_driver() {
    let mut m = SubagentManager::new();
    m.spawn_one_shot(&request(Some("agent-1"), "s"), limits(4), 1).ok().unwrap();
    m.apply("agent-1", DriverStep::Start, 2);
    assert_eq!(m.cancel("agent-1"), Some(()));
    assert_eq!(m.poll("agent-1").unwrap().status, SubagentStatus::Running);
    assert_eq!(m.apply("agent-1", DriverStep::Cancelled, 3), Some(PumpAction::ShutdownAndStop));
    let poll = m.poll("agent-1").unwrap();
    assert_eq!(poll.status, SubagentStatus::Aborted);
    assert_eq!(poll.recent_events.last().map(|s| s.as_str()), Some("cancelled"));
    assert_eq!(m.cancel("nobody"), None);
}

#[test]
fn cancel_before_permit_aborts() {
    let mut m = SubagentManager::new();
    m.spawn_one_shot(&request(Some("q"), "s"), limits(4), 1).ok().unwrap();
    m.cancel("q");
    assert_eq!(m.apply("q", DriverStep::AbortBeforeStart, 2), Some(PumpAction::ShutdownAndStop));
    assert_eq!(m.poll("q").unwrap().status, SubagentStatus::Aborted);
    assert_eq!(m.apply("q", DriverStep::Start, 3), None);
}

#[test]
fn cancel_after_finish_is_noop() {
    let mut m = SubagentManager::new();
    m.spawn_one_shot(&request(Some("f"), "s"), limits(4), 1).ok().unwrap();
    complete(&mut m, "f", 5);
    let before = m.poll("f").unwrap();
    assert_eq!(m.cancel("f"), Some(()));
    let after = m.poll("f").unwrap();
    assert_eq!(after.status, SubagentStatus::Complete);
    assert_eq!(after.recent_events, before.recent_events);
    assert_eq!(after.final_output, before.final_output);
}

#[test]
fn event_ring_is_bounded() {
    let mut m = SubagentManager::new();
    m.spawn_one_shot(&request(Some("r"), "s"), limits(4), 1).ok().unwrap();
    m.apply("r", DriverStep::Start, 1);
    for text in ["one", "two", "ééééééééééé"] {
        let ev = EngineEvent::AgentMessage { message: text.to_string() };
        m.apply("r", DriverStep::Event(ev), 2);
    }
    let poll = m.poll("r").unwrap();
    assert_eq!(poll.recent_events, vec!["one".to_string(), "two".to_string(), "éééééééé".to_string()]);
    for e in &poll.recent_events {
        assert!(e.len() <= 16);
    }
}

#[test]
fn stream_error_then_complete_keeps_error() {
    let mut m = SubagentManager::new();
    m.spawn_one_shot(&request(Some("e"), "s"), limits(4), 1).ok().unwrap();
    m.apply("e", DriverStep::Start, 1);
    let err = EngineEvent::StreamError { message: "boom".to_string() };
    assert_eq!(m.apply("e", DriverStep::Event(err), 2), Some(PumpAction::Continue));
    let done = EngineEvent::TaskComplete { last_agent_message: Some("late".to_string()) };
    m.apply("e", DriverStep::Event(done), 3);
    let poll = m.poll("e").unwrap();
    assert_eq!(poll.status, SubagentStatus::Error);
    assert_eq!(poll.final_output.as_deref(), Some("boom"));
    assert_eq!(poll.recent_events, vec!["running", "stream error: bo", "complete"]);
}

#[test]
fn error_stays_after_cancel_or_abort() {
    let mut m = SubagentManager::new();
    m.spawn_one_shot(&request(Some("e"), "s"), limits(4), 1).ok().unwrap();
    m.apply("e", DriverStep::Start, 1);
    let err = EngineEvent::Error { message: "bad".to_string() };
    m.apply("e", DriverStep::Event(err), 2);
    assert_eq!(m.poll("e").unwrap().status, SubagentStatus::Error);
    m.apply("e", DriverStep::Cancelled, 3);
    let poll = m.poll("e").unwrap();
    assert_eq!(poll.status, SubagentStatus::Error);
    assert_eq!(poll.final_output.as_deref(), Some("bad"));
    assert_eq!(poll.recent_events.last().map(|s| s.as_str()), Some("cancelled"));

    m.spawn_one_shot(&request(Some("f"), "s"), limits(4), 1).ok().unwrap();
    m.apply("f", DriverStep::Start, 1);
    m.apply("f", DriverStep::Event(EngineEvent::StreamError { message: "x".to_string() }), 2);
    assert_eq!(m.apply("f", DriverStep::Event(EngineEvent::TurnAborted), 3), Some(PumpAction::ShutdownAndStop));
    assert_eq!(m.poll("f").unwrap().status, SubagentStatus::Error);
}

#[test]
fn turn_aborted_while_running_clears_nothing() {
    let mut m = SubagentManager::new();
    m.spawn_one_shot(&request(Some("a"), "s"), limits(4), 1).ok().unwrap();
    m.apply("a", DriverStep::Start, 1);
    m.apply("a", DriverStep::Event(EngineEvent::TurnAborted), 2);
    let poll = m.poll("a").unwrap();
    assert_eq!(poll.status, SubagentStatus::Aborted);
    assert_eq!(poll.final_output, None);
}

#[test]
fn ring_of_no_entries_stores_nothing() {
    let mut m = SubagentManager::new();
    let lim = SubagentLimits { max_agents: 4, max_events: 0, max_event_chars: 64, max_output_chars: 64 };
    m.spawn_one_shot(&request(Some("z"), "s"), lim, 1).ok().unwrap();
    m.apply("z", DriverStep::Start, 1);
    m.apply("z", DriverStep::Event(EngineEvent::AgentMessage { message: "hi".to_string() }), 2);
    assert!(m.poll("z").unwrap().recent_events.is_empty());
}

#[test]
fn zero_timeout_ends_in_error() {
    let mut m = SubagentManager::new();
    let lim = SubagentLimits { max_agents: 4, max_events: 8, max_event_chars: 64, max_output_chars: 64 };
    m.spawn_one_shot(&request(Some("t"), "s"), lim, 1).ok().unwrap();
    m.apply("t", DriverStep::Start, 1);
    assert_eq!(m.apply("t", DriverStep::TimedOut(0), 2), Some(PumpAction::ShutdownAndStop));
    let poll = m.poll("t").unwrap();
    assert_eq!(poll.status, SubagentStatus::Error);
    assert_eq!(poll.recent_events.last().map(|s| s.as_str()), Some("timed out after 0ms"));
}

#[test]
fn timeout_after_completion_keeps_status() {
    let mut m = SubagentManager::new();
    m.spawn_one_shot(&request(Some("t"), "s"), limits(4), 1).ok().unwrap();
    complete(&mut m, "t", 1);
    m.apply("t", DriverStep::TimedOut(1500), 2);
    let poll = m.poll("t").unwrap();
    assert_eq!(poll.status, SubagentStatus::Complete);
    assert_eq!(poll.recent_events.last().map(|s| s.as_str()), Some("timed out after "));
}

#[test]
fn failures_end_in_error_with_their_text() {
    let cases = [
        (Failure::ResumeHistory("x".to_string()), "failed to resume subagent history: x"),
        (Failure::Spawn("x".to_string()), "failed to spawn subagent: x"),
        (Failure::UnknownSkill("lint".to_string()), "unknown skill requested: lint"),
        (Failure::Submit("x".to_string()), "failed to start subagent: x"),
        (Failure::Died("x".to_string()), "subagent died: x"),
    ];
    for (failure, text) in cases {
        let mut m = SubagentManager::new();
        let lim = SubagentLimits { max_agents: 1, max_events: 8, max_event_chars: 100, max_output_chars: 100 };
        m.spawn_one_shot(&request(Some("f"), "s"), lim, 1).ok().unwrap();
        m.apply("f", DriverStep::Start, 1);
        assert_eq!(m.apply("f", DriverStep::Fail(failure), 2), Some(PumpAction::ShutdownAndStop));
        let poll = m.poll("f").unwrap();
        assert_eq!(poll.status, SubagentStatus::Error);
        assert_eq!(poll.recent_events.last().map(|s| s.as_str()), Some(text));
    }
}

#[test]
fn rollout_path_and_turn_aborted() {
    let mut m = SubagentManager::new();
    m.spawn_one_shot(&request(Some("p"), "s"), limits(4), 1).ok().unwrap();
    m.apply("p", DriverStep::Start, 1);
    m.apply("p", DriverStep::RolloutPath("/r/one.jsonl".to_string()), 2);
    let ev = EngineEvent::SessionConfigured { rollout_path: "/r/two.jsonl".to_string() };
    m.apply("p", DriverStep::Event(ev), 3);
    assert_eq!(m.apply("p", DriverStep::Event(EngineEvent::ExecApprovalRequest), 3), Some(PumpAction::ForwardExecApproval));
    assert_eq!(m.apply("p", DriverStep::Event(EngineEvent::ApplyPatchApprovalRequest), 3), Some(PumpAction::ForwardPatchApproval));
    assert_eq!(m.apply("p", DriverStep::Event(EngineEvent::Other), 3), Some(PumpAction::Continue));
    assert_eq!(m.apply("p", DriverStep::Event(EngineEvent::TurnAborted), 4), Some(PumpAction::ShutdownAndStop));
    let poll = m.poll("p").unwrap();
    assert_eq!(poll.rollout_path.as_deref(), Some("/r/two.jsonl"));
    assert_eq!(poll.status, SubagentStatus::Aborted);
    assert_eq!(m.list().len(), 1);
}

#[test]
fn exec_approval_forwarded() {
    assert_eq!(approval_id("agent-1", ApprovalKind::Exec, "turn-7"), "subagent-agent-1-exec-turn-7");
    assert_eq!(approval_id("agent-1", ApprovalKind::Patch, "t"), "subagent-agent-1-patch-t");
    assert!(!cancels_child(ReviewDecision::Denied));
    assert!(!cancels_child(ReviewDecision::Approved));
    assert!(cancels_child(ReviewDecision::Abort));
    assert_eq!(decision_or_default(None), ReviewDecision::Denied);
    assert_eq!(decision_or_default(Some(ReviewDecision::ApprovedForSession)), ReviewDecision::ApprovedForSession);
}

#[test]
fn limiter_sizes() {
    assert_eq!(default_max_concurrency(Some(16)), 4);
    assert_eq!(default_max_concurrency(Some(3)), 3);
    assert_eq!(default_max_concurrency(None), 2);
    assert_eq!(default_max_concurrency(Some(0)), 1);
    assert_eq!(limiter_permits(Some(100), Some(8)), 64);
    assert_eq!(limiter_permits(Some(0), Some(8)), 1);
    assert_eq!(limiter_permits(Some(10), None), 10);
    assert_eq!(limiter_permits(None, Some(8)), 4);
}

#[test]
fn poll_budget_steps() {
    assert_eq!(poll_budget(Some(5000)), Some(5_000_000_000));
    assert_eq!(poll_budget(None), None);
    assert_eq!(poll_step(SubagentStatus::Running, None), PollStep::Return);
    assert_eq!(poll_step(SubagentStatus::Complete, Some(10)), PollStep::Return);
    assert_eq!(poll_step(SubagentStatus::Queued, Some(10)), PollStep::Wait(10));
    assert_eq!(remaining_after(10, 4), Some(6));
    assert_eq!(remaining_after(10, 10), Some(0));
    assert_eq!(remaining_after(10, 11), None);
}
