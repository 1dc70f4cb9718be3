use subagents::custom_agents::truncate_to_char_boundary;
use subagents::handlers::{sanitize_label, sanitize_subagent_label};
use subagents::mode::{status_str, SubagentMode, SubagentStatus};
use subagents::names::{sanitize_agent_id, sanitize_agent_name};
use subagents::text::{decimal_string, join_path_str, take_bytes_at_char_boundary, trim_str};

#[test]
fn sanitize_label_defaults_and_truncates() {
    assert_eq!(sanitize_subagent_label(""), "delegate");
    assert_eq!(sanitize_subagent_label("   "), "delegate");
    assert_eq!(sanitize_subagent_label("My Agent"), "my-agent");
    assert_eq!(sanitize_subagent_label("a/b:c"), "a-b-c");
    assert_eq!(sanitize_subagent_label("\u{1F605}"), "delegate");
    assert_eq!(sanitize_subagent_label(&"a".repeat(48 + 10)), "a".repeat(48));
}

#[test]
fn subagent_label_defaults_to_subagent() {
    assert_eq!(sanitize_label(""), "subagent");
    assert_eq!(sanitize_label("  Build.Step_1  "), "build.step_1");
    assert_eq!(sanitize_label("%%%"), "subagent");
}

#[test]
fn agent_id_keeps_narrow_charset() {
    assert_eq!(sanitize_agent_id("  Agent-1 "), Some("agent-1".to_string()));
    assert_eq!(sanitize_agent_id("a b/c:d.e"), Some("abcde".to_string()));
    assert_eq!(sanitize_agent_id("   "), None);
    assert_eq!(sanitize_agent_id("!!!"), None);
    assert_eq!(sanitize_agent_id(&"X".repeat(70)), Some("x".repeat(64)));
}

#[test]
fn agent_name_replaces_separators() {
    assert_eq!(sanitize_agent_name("Repo Scout/v2:x"), Some("repo-scout-v2-x".to_string()));
    assert_eq!(sanitize_agent_name("a.b"), Some("ab".to_string()));
    assert_eq!(sanitize_agent_name(""), None);
    assert_eq!(sanitize_agent_name(&"n".repeat(100)).map(|s| s.len()), Some(64));
}

#[test]
fn mode_names_round_trip() {
    for m in [SubagentMode::Explore, SubagentMode::General] {
        assert_eq!(SubagentMode::from_str(m.as_str()), Some(m));
    }
}

#[test]
fn mode_synonyms_parse() {
    assert_eq!(SubagentMode::from_str(" Explorer "), Some(SubagentMode::Explore));
    assert_eq!(SubagentMode::from_str("READ-ONLY"), Some(SubagentMode::Explore));
    assert_eq!(SubagentMode::from_str("readonly"), Some(SubagentMode::Explore));
    assert_eq!(SubagentMode::from_str("Default"), Some(SubagentMode::General));
    assert_eq!(SubagentMode::from_str("worker"), Some(SubagentMode::General));
    assert_eq!(SubagentMode::from_str("planner"), None);
    assert_eq!(SubagentMode::from_str(""), None);
}

#[test]
fn status_names() {
    assert_eq!(status_str(SubagentStatus::Queued), "queued");
    assert_eq!(status_str(SubagentStatus::Running), "running");
    assert_eq!(status_str(SubagentStatus::Complete), "complete");
    assert_eq!(status_str(SubagentStatus::Aborted), "aborted");
    assert_eq!(status_str(SubagentStatus::Error), "error");
    assert_eq!(SubagentStatus::default(), SubagentStatus::Queued);
}

#[test]
fn byte_truncation_backs_off_to_char_boundary() {
    assert_eq!(take_bytes_at_char_boundary("héllo", 2), "h");
    assert_eq!(take_bytes_at_char_boundary("héllo", 3), "hé");
    assert_eq!(take_bytes_at_char_boundary("héllo", 100), "héllo");
    assert_eq!(take_bytes_at_char_boundary("\u{1F605}x", 3), "");
    let mut s = String::from("ab\u{1F605}");
    truncate_to_char_boundary(&mut s, 5);
    assert_eq!(s, "ab");
    let mut t = String::from("abc");
    truncate_to_char_boundary(&mut t, 3);
    assert_eq!(t, "abc");
}

#[test]
fn trim_and_decimal() {
    assert_eq!(trim_str("\u{3000} x y \t\r\n"), "x y");
    assert_eq!(decimal_string(0), "0");
    assert_eq!(decimal_string(1200), "1200");
    assert_eq!(decimal_string(u64::MAX), u64::MAX.to_string());
}

#[test]
fn path_joining() {
    assert_eq!(join_path_str("/home/u", "agents"), "/home/u/agents");
    assert_eq!(join_path_str("/home/u/", "agents"), "/home/u/agents");
    assert_eq!(join_path_str("", "agents"), "agents");
}
