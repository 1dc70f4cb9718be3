use subagents::custom_agents::{
    agent_file_stem, agent_from_parts, merge_agents, parse_mode, parse_tools_policy,
    repo_agents_root, sanitize_description, sanitize_model, sanitize_prompt, split_frontmatter,
    user_agents_root, AgentScope, AgentToolsPolicy, CustomAgent, Frontmatter, ToolsValue,
};
use subagents::mode::SubagentMode;

fn agent(name: &str, path: &str, scope: AgentScope) -> CustomAgent {
    let fm = Frontmatter::empty();
    agent_from_parts(path.to_string(), name, scope, fm, "body".to_string()).unwrap()
}

#[test]
fn discovers_agents_from_repo_dir() {
    let content = "---\ndescription: repo agent\nmode: explore\ntools: none\n---\nHello";
    let (fm_text, body) = split_frontmatter(content).unwrap();
    assert_eq!(fm_text, "description: repo agent\nmode: explore\ntools: none\n");
    assert_eq!(body, "Hello");
    let stem = agent_file_stem(Some("md".to_string()), Some("repo-scout".to_string())).unwrap();
    let fm = Frontmatter {
        name: None,
        description: Some("repo agent".to_string()),
        role: None,
        model: None,
        mode: Some("explore".to_string()),
        tools: Some(ToolsValue::Str("none".to_string())),
    };
    let a = agent_from_parts("/r/.codex/agents/repo-scout.md".to_string(), &stem, AgentScope::Repo, fm, body)
        .unwrap();
    let found = merge_agents(vec![a]);
    assert_eq!(found.len(), 1);
    assert_eq!(found[0].name, "repo-scout");
    assert_eq!(found[0].description.as_deref(), Some("repo agent"));
    assert_eq!(found[0].mode, Some(SubagentMode::Explore));
    assert_eq!(found[0].tools, AgentToolsPolicy::Disabled);
    assert_eq!(found[0].prompt, "Hello");
}

#[test]
fn repo_overrides_user_agent_with_same_name() {
    let user = agent("a", "/home/agents/a.md", AgentScope::User);
    let repo = agent("a", "/repo/.codex/agents/a.md", AgentScope::Repo);
    let found = merge_agents(vec![user, repo]);
    assert_eq!(found.len(), 1);
    assert_eq!(found[0].path, "/repo/.codex/agents/a.md");
    assert_eq!(found[0].scope, AgentScope::Repo);
}

#[test]
fn user_agent_does_not_override_repo_agent() {
    let repo = agent("a", "/repo/.codex/agents/a.md", AgentScope::Repo);
    let user = agent("a", "/home/agents/a.md", AgentScope::User);
    let found = merge_agents(vec![repo, user]);
    assert_eq!(found.len(), 1);
    assert_eq!(found[0].path, "/repo/.codex/agents/a.md");
}

#[test]
fn first_user_agent_wins_among_users() {
    let one = agent("a", "/home/agents/a.md", AgentScope::User);
    let two = agent("A", "/home/agents/A.md", AgentScope::User);
    let found = merge_agents(vec![one, two]);
    assert_eq!(found.len(), 1);
    assert_eq!(found[0].path, "/home/agents/a.md");
}

#[test]
fn merged_agents_sorted_by_name() {
    let found = merge_agents(vec![
        agent("zeta", "/z.md", AgentScope::User),
        agent("alpha", "/a.md", AgentScope::Repo),
        agent("mid", "/m.md", AgentScope::User),
        agent("alpha-2", "/a2.md", AgentScope::User),
    ]);
    let names: Vec<&str> = found.iter().map(|a| a.name.as_str()).collect();
    assert_eq!(names, vec!["alpha", "alpha-2", "mid", "zeta"]);
}

#[test]
fn tools_allowlist_parses() {
    let content = "---\nname: a\ntools:\n  - read_file\n  - list_dir\n---\nbody";
    let (fm_text, body) = split_frontmatter(content).unwrap();
    assert_eq!(fm_text, "name: a\ntools:\n  - read_file\n  - list_dir\n");
    assert_eq!(body, "body");
    let tools = ToolsValue::List(vec![Some("read_file".to_string()), Some("list_dir".to_string())]);
    assert_eq!(
        parse_tools_policy(Some(tools)),
        AgentToolsPolicy::Allowlist(vec!["read_file".to_string(), "list_dir".to_string()])
    );
}

#[test]
fn tools_policy_shapes() {
    assert_eq!(parse_tools_policy(None), AgentToolsPolicy::Inherit);
    assert_eq!(parse_tools_policy(Some(ToolsValue::Bool(true))), AgentToolsPolicy::Inherit);
    assert_eq!(parse_tools_policy(Some(ToolsValue::Bool(false))), AgentToolsPolicy::Disabled);
    for w in ["none", " OFF ", "disabled", "Read-Only", "readonly"] {
        assert_eq!(parse_tools_policy(Some(ToolsValue::Str(w.to_string()))), AgentToolsPolicy::Disabled);
    }
    for w in ["", "inherit", "default", "all", "whatever"] {
        assert_eq!(parse_tools_policy(Some(ToolsValue::Str(w.to_string()))), AgentToolsPolicy::Inherit);
    }
    assert_eq!(parse_tools_policy(Some(ToolsValue::Other)), AgentToolsPolicy::Inherit);
    let items = vec![None, Some("  ".to_string()), Some("x".repeat(129)), Some(" Shell ".to_string())];
    assert_eq!(
        parse_tools_policy(Some(ToolsValue::List(items))),
        AgentToolsPolicy::Allowlist(vec!["shell".to_string()])
    );
    assert_eq!(parse_tools_policy(Some(ToolsValue::List(vec![None]))), AgentToolsPolicy::Inherit);
    let repeated = vec![Some("Read".to_string()), Some("read ".to_string()), Some("ls".to_string()), Some("ls".to_string())];
    assert_eq!(
        parse_tools_policy(Some(ToolsValue::List(repeated))),
        AgentToolsPolicy::Allowlist(vec!["read".to_string(), "ls".to_string()])
    );
    let wide = "é".repeat(128);
    assert_eq!(
        parse_tools_policy(Some(ToolsValue::List(vec![Some(wide.clone())]))),
        AgentToolsPolicy::Allowlist(vec![wide])
    );
    let many: Vec<Option<String>> = (0..200).map(|i| Some(format!("t{i}"))).collect();
    match parse_tools_policy(Some(ToolsValue::List(many))) {
        AgentToolsPolicy::Allowlist(v) => {
            assert_eq!(v.len(), 128);
            assert_eq!(v[127], "t127");
        }
        other => panic!("unexpected {other:?}"),
    }
}

#[test]
fn frontmatter_without_closing_is_prompt() {
    assert_eq!(split_frontmatter("---\nname: a\nbody text"), None);
    assert_eq!(split_frontmatter("no frontmatter\n---\n"), None);
    assert_eq!(split_frontmatter(""), None);
}

#[test]
fn frontmatter_tolerates_crlf() {
    let (fm, body) = split_frontmatter("---\r\nname: a\r\n---\r\nrest\r\n").unwrap();
    assert_eq!(fm, "name: a\n");
    assert_eq!(body, "rest\r\n");
    let (fm, body) = split_frontmatter("---\n---").unwrap();
    assert_eq!(fm, "");
    assert_eq!(body, "");
}

#[test]
fn fence_lines_are_exactly_three_dashes() {
    assert_eq!(split_frontmatter("---\n ---\n"), None);
    assert_eq!(split_frontmatter(" ---\nname: a\n---\n"), None);
    assert_eq!(split_frontmatter("---\nname: a\n--- \nbody"), None);
    let (fm, body) = split_frontmatter("---\n ---\n---\nbody").unwrap();
    assert_eq!(fm, " ---\n");
    assert_eq!(body, "body");
}

#[test]
fn prompt_of_64k_plus_one_is_truncated() {
    let prompt = format!("a{}", "é".repeat(32768));
    assert_eq!(prompt.len(), 65537);
    let out = sanitize_prompt(prompt.clone());
    assert!(out.len() <= 65536);
    assert_eq!(out.len(), 65535);
    assert!(prompt.starts_with(&out));
    let small = "x".repeat(65536);
    assert_eq!(sanitize_prompt(small.clone()), small);
}

#[test]
fn description_and_model_sanitised() {
    assert_eq!(sanitize_description(Some("  hi  ".to_string())), Some("hi".to_string()));
    assert_eq!(sanitize_description(Some("   ".to_string())), None);
    assert_eq!(sanitize_description(None), None);
    assert_eq!(sanitize_description(Some("d".repeat(2000))).map(|d| d.len()), Some(1024));
    assert_eq!(sanitize_model(Some(" gpt ".to_string())), Some("gpt".to_string()));
    assert_eq!(sanitize_model(Some("".to_string())), None);
    assert_eq!(parse_mode(Some("General".to_string())), Some(SubagentMode::General));
    assert_eq!(parse_mode(Some("nope".to_string())), None);
    assert_eq!(parse_mode(None), None);
}

#[test]
fn agent_file_checks() {
    assert_eq!(agent_file_stem(Some("MD".to_string()), Some("x".to_string())), Ok("x".to_string()));
    assert_eq!(agent_file_stem(Some("txt".to_string()), Some("x".to_string())), Err("not a markdown file".to_string()));
    assert_eq!(agent_file_stem(None, Some("x".to_string())), Err("not a markdown file".to_string()));
    assert_eq!(agent_file_stem(Some("md".to_string()), None), Err("invalid filename".to_string()));
}

#[test]
fn agent_name_falls_back_to_stem() {
    let mut fm = Frontmatter::empty();
    fm.name = Some("%%%".to_string());
    fm.role = Some("planner".to_string());
    fm.model = Some(" m1 ".to_string());
    let a = agent_from_parts("/p/Code Review.md".to_string(), "Code Review", AgentScope::User, fm, "b".to_string()).unwrap();
    assert_eq!(a.name, "code-review");
    assert_eq!(a.description.as_deref(), Some("planner"));
    assert_eq!(a.model.as_deref(), Some("m1"));
    assert_eq!(a.tools, AgentToolsPolicy::Inherit);
    let bad = agent_from_parts("/p/!.md".to_string(), "!", AgentScope::User, Frontmatter::empty(), String::new());
    assert_eq!(bad.err(), Some("missing or invalid agent name".to_string()));
}

#[test]
fn agent_roots() {
    assert_eq!(user_agents_root("/home/u/.codex"), "/home/u/.codex/agents");
    assert_eq!(repo_agents_root(Some("/repo".to_string())), Some("/repo/.codex/agents".to_string()));
    assert_eq!(repo_agents_root(None), None);
}
