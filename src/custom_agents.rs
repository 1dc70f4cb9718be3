//! Custom agent definitions: Markdown files with optional frontmatter,
//! sanitised into a registry where repo scope overrides user scope.
use vstd::prelude::*;
use crate::mode::{mode_of, SubagentMode};
use crate::names::{agent_name_of, sanitize_agent_name};
use crate::text::{
    byte_len, chars_of, join_path, join_path_str, lex_less, lower, lower_all, same_chars,
    string_of, take_bytes_at_char_boundary, trim, trim_bounds, trim_str, trimmed_chars,
    truncate_bytes,
};

verus! {

/// Directory name of custom agents under a configuration root.
pub const AGENTS_DIR_NAME: &'static str = "agents";
/// Directory of the repo-scoped configuration, under the repo root.
pub const REPO_ROOT_CONFIG_DIR_NAME: &'static str = ".codex";
/// Longest description kept, in bytes.
pub const MAX_DESCRIPTION_LEN: usize = 1024;
/// Longest prompt kept, in bytes.
pub const MAX_PROMPT_BYTES: usize = 65536;
/// Most allowlist entries read.
pub const MAX_ALLOWED_TOOLS: usize = 128;
/// Longest tool name kept, in characters.
pub const MAX_TOOL_NAME_LEN: usize = 128;

/// Where a definition was found.
#[derive(Debug, Clone, Copy, PartialEq, Eq, Structural)]
pub enum AgentScope {
    User,
    Repo,
}

/// Which tools an agent may use.
#[derive(Debug, PartialEq, Eq)]
pub enum AgentToolsPolicy {
    /// No extra restrictions (inherit the parent session's configured tools).
    Inherit,
    /// Disable all tools.
    Disabled,
    /// Restrict the tool registry to this allowlist of tool names.
    Allowlist(Vec<String>),
}

/// The mathematical content of an [`AgentToolsPolicy`].
pub enum ToolsPolicyView {
    Inherit,
    Disabled,
    Allowlist(Seq<Seq<char>>),
}

impl View for AgentToolsPolicy {
    type V = ToolsPolicyView;

    open spec fn view(&self) -> ToolsPolicyView {
        match self {
            AgentToolsPolicy::Inherit => ToolsPolicyView::Inherit,
            AgentToolsPolicy::Disabled => ToolsPolicyView::Disabled,
            AgentToolsPolicy::Allowlist(v) => ToolsPolicyView::Allowlist(v.deep_view()),
        }
    }
}

/// The shapes a frontmatter `tools` value can take.
pub enum ToolsValue {
    Bool(bool),
    Str(String),
    /// A sequence; each item is its text when it is a string.
    List(Vec<Option<String>>),
    /// Any other shape.
    Other,
}

pub open spec fn disabling_word(w: Seq<char>) -> bool {
    w == "none"@ || w == "off"@ || w == "disabled"@ || w == "read-only"@ || w == "readonly"@
}

/// One allowlist item: trimmed, non-empty, at most 128 characters, lower-cased.
pub open spec fn tool_name(item: Option<Seq<char>>) -> Option<Seq<char>> {
    match item {
        Some(t) => if trim(t).len() > 0 && trim(t).len() <= MAX_TOOL_NAME_LEN {
            Some(lower(trim(t)))
        } else {
            None
        },
        None => None,
    }
}

/// The names an allowlist yields, in order of first appearance, each once.
pub open spec fn tool_names(items: Seq<Option<Seq<char>>>) -> Seq<Seq<char>>
    decreases items.len(),
{
    if items.len() == 0 {
        Seq::empty()
    } else {
        let prev = tool_names(items.drop_last());
        match tool_name(items.last()) {
            Some(n) => if prev.contains(n) {
                prev
            } else {
                prev.push(n)
            },
            None => prev,
        }
    }
}

/// The policy that a `tools` value states; a missing value inherits.
pub open spec fn tools_policy_of(raw: Option<ToolsValue>) -> ToolsPolicyView {
    match raw {
        Some(ToolsValue::Bool(false)) => ToolsPolicyView::Disabled,
        Some(ToolsValue::Str(s)) => if disabling_word(lower(trim(s@))) {
            ToolsPolicyView::Disabled
        } else {
            ToolsPolicyView::Inherit
        },
        Some(ToolsValue::List(items)) => {
            let names = tool_names(items.deep_view().take(
                if items@.len() > MAX_ALLOWED_TOOLS {
                    MAX_ALLOWED_TOOLS as int
                } else {
                    items@.len() as int
                },
            ));
            if names.len() == 0 {
                ToolsPolicyView::Inherit
            } else {
                ToolsPolicyView::Allowlist(names)
            }
        },
        _ => ToolsPolicyView::Inherit,
    }
}

fn tool_name_of(item: &Option<String>) -> (r: Option<String>)
    ensures
        r.deep_view() == tool_name(item.deep_view()),
{
    match item {
        Some(t) => {
            let v = trimmed_chars(t.as_str());
            if v.len() > 0 && v.len() <= MAX_TOOL_NAME_LEN {
                let w = lower_all(&v);
                Some(string_of(&w, 0, w.len()))
            } else {
                None
            }
        },
        None => None,
    }
}

/// Reads the `tools` value of a frontmatter.
pub fn parse_tools_policy(raw: Option<ToolsValue>) -> (r: AgentToolsPolicy)
    ensures
        r@ == tools_policy_of(raw),
{
    match raw {
        None => AgentToolsPolicy::Inherit,
        Some(ToolsValue::Bool(b)) => if b {
            AgentToolsPolicy::Inherit
        } else {
            AgentToolsPolicy::Disabled
        },
        Some(ToolsValue::Str(s)) => {
            let w = lower_all(&trimmed_chars(s.as_str()));
            if same_chars(&w, "none") || same_chars(&w, "off") || same_chars(&w, "disabled")
                || same_chars(&w, "read-only") || same_chars(&w, "readonly") {
                AgentToolsPolicy::Disabled
            } else {
                AgentToolsPolicy::Inherit
            }
        },
        Some(ToolsValue::List(items)) => {
            let n = if items.len() > MAX_ALLOWED_TOOLS {
                MAX_ALLOWED_TOOLS
            } else {
                items.len()
            };
            let ghost its = items.deep_view().take(n as int);
            let mut out: Vec<String> = Vec::new();
            let mut i: usize = 0;
            while i < n
                invariant
                    n <= items.len(),
                    i <= n,
                    its == items.deep_view().take(n as int),
                    out.deep_view() == tool_names(its.take(i as int)),
                decreases n - i,
            {
                proof {
                    assert(its.take(i + 1).drop_last() == its.take(i as int));
                    assert(its.take(i + 1).last() == items[i as int].deep_view());
                }
                let ghost before = out.deep_view();
                match tool_name_of(&items[i]) {
                    Some(name) => {
                        let mut seen = false;
                        let mut k: usize = 0;
                        while k < out.len()
                            invariant
                                k <= out.len(),
                                out.deep_view() == before,
                                seen == exists|j: int| 0 <= j < k && before[j] == name@,
                            decreases out.len() - k,
                        {
                            assert(before[k as int] == out@[k as int]@);
                            if out[k] == name {
                                seen = true;
                            }
                            proof {
                                if out@[k as int]@ == name@ {
                                    assert(before[k as int] == name@);
                                }
                            }
                            k += 1;
                        }
                        proof {
                            if seen {
                                let j = choose|j: int| 0 <= j < k && before[j] == name@;
                                assert(before.contains(name@));
                            }
                            if before.contains(name@) {
                                let j = choose|j: int| 0 <= j < before.len() && before[j] == name@;
                                assert(before[j] == name@);
                            }
                        }
                        if !seen {
                            out.push(name);
                            assert(out.deep_view() =~= before.push(name@));
                        }
                    },
                    None => {},
                }
                i += 1;
            }
            assert(its.take(n as int) == its);
            if out.len() == 0 {
                AgentToolsPolicy::Inherit
            } else {
                AgentToolsPolicy::Allowlist(out)
            }
        },
        Some(ToolsValue::Other) => AgentToolsPolicy::Inherit,
    }
}

/// A description: trimmed, `None` when empty, cut to 1024 bytes at a
/// character boundary.
pub fn sanitize_description(raw: Option<String>) -> (r: Option<String>)
    ensures
        r.deep_view() == match raw {
            Some(t) => if trim(t@).len() == 0 {
                None
            } else {
                Some(truncate_bytes(trim(t@), MAX_DESCRIPTION_LEN as nat))
            },
            None => None,
        },
{
    match raw {
        Some(text) => {
            let t = trim_str(text.as_str());
            if t.unicode_len() == 0 {
                None
            } else {
                Some(take_bytes_at_char_boundary(t.as_str(), MAX_DESCRIPTION_LEN))
            }
        },
        None => None,
    }
}

/// A model name: trimmed, `None` when empty.
pub fn sanitize_model(raw: Option<String>) -> (r: Option<String>)
    ensures
        r.deep_view() == match raw {
            Some(t) => if trim(t@).len() == 0 {
                None
            } else {
                Some(trim(t@))
            },
            None => None,
        },
{
    match raw {
        Some(text) => {
            let t = trim_str(text.as_str());
            if t.unicode_len() == 0 {
                None
            } else {
                Some(t)
            }
        },
        None => None,
    }
}

/// A mode name; `None` when absent or not a known mode.
pub fn parse_mode(raw: Option<String>) -> (r: Option<SubagentMode>)
    ensures
        r == match raw {
            Some(t) => mode_of(t@),
            None => None,
        },
{
    match raw {
        Some(text) => SubagentMode::from_str(text.as_str()),
        None => None,
    }
}

/// A prompt body cut to 64 KiB at a character boundary.
pub fn sanitize_prompt(prompt: String) -> (r: String)
    ensures
        r@ == truncate_bytes(prompt@, MAX_PROMPT_BYTES as nat),
{
    take_bytes_at_char_boundary(prompt.as_str(), MAX_PROMPT_BYTES)
}

/// A prompt body is kept whole up to 64 KiB; a longer one is cut to its
/// longest prefix that fits in 64 KiB, which ends at a character boundary.
pub proof fn lemma_prompt_within_limit(body: Seq<char>)
    ensures
        byte_len(truncate_bytes(body, MAX_PROMPT_BYTES as nat)) <= MAX_PROMPT_BYTES,
        truncate_bytes(body, MAX_PROMPT_BYTES as nat) == body.take(
            truncate_bytes(body, MAX_PROMPT_BYTES as nat).len() as int,
        ),
        byte_len(body) <= MAX_PROMPT_BYTES ==> truncate_bytes(body, MAX_PROMPT_BYTES as nat)
            == body,
{
    crate::text::lemma_truncate_fits(body, MAX_PROMPT_BYTES as nat);
    crate::text::lemma_fit_all(body, MAX_PROMPT_BYTES as nat);
    if byte_len(body) <= MAX_PROMPT_BYTES {
        assert(body.subrange(0, body.len() as int) == body);
    }
}

/// Cuts `s` to at most `max_bytes` bytes, backing off to a character
/// boundary.
pub fn truncate_to_char_boundary(s: &mut String, max_bytes: usize)
    ensures
        final(s)@ == truncate_bytes(old(s)@, max_bytes as nat),
{
    let t = take_bytes_at_char_boundary(s.as_str(), max_bytes);
    *s = t;
}

/// The length of the first line of `s`, its `\n` included.
pub open spec fn line_len(s: Seq<char>) -> nat
    decreases s.len(),
{
    if s.len() == 0 {
        0
    } else if s[0] == '\n' {
        1
    } else {
        1 + line_len(s.drop_first())
    }
}

/// `s` without trailing `\r` and `\n`.
pub open spec fn strip_line_end(s: Seq<char>) -> Seq<char>
    decreases s.len(),
{
    if s.len() > 0 && (s.last() == '\r' || s.last() == '\n') {
        strip_line_end(s.drop_last())
    } else {
        s
    }
}

/// A line that, without its `\r` / `\n` ending, is exactly `---`.
pub open spec fn is_fence(line: Seq<char>) -> bool {
    strip_line_end(line) == "---"@
}

/// Reads frontmatter lines from `rest` up to a closing fence; `acc` holds
/// the lines read so far, each ended by `\n`.
pub open spec fn scan_frontmatter(rest: Seq<char>, acc: Seq<char>) -> Option<(Seq<char>, Seq<char>)>
    decreases rest.len(),
{
    if rest.len() == 0 {
        None
    } else {
        let n = line_len(rest);
        let line = rest.take(n as int);
        if is_fence(line) {
            Some((acc, rest.skip(n as int)))
        } else if n == 0 || n > rest.len() {
            None
        } else {
            scan_frontmatter(rest.skip(n as int), acc + strip_line_end(line) + seq!['\n'])
        }
    }
}

/// The frontmatter and body of a file: present when the first line is a
/// fence and a later line closes it.
pub open spec fn frontmatter_split(content: Seq<char>) -> Option<(Seq<char>, Seq<char>)> {
    if content.len() == 0 {
        None
    } else {
        let n = line_len(content);
        if !is_fence(content.take(n as int)) {
            None
        } else {
            scan_frontmatter(content.skip(n as int), Seq::empty())
        }
    }
}

/// No line of `rest` is a fence.
pub open spec fn no_fence(rest: Seq<char>) -> bool
    decreases rest.len(),
{
    rest.len() == 0 || (0 < line_len(rest) <= rest.len() && !is_fence(
        rest.take(line_len(rest) as int),
    ) && no_fence(rest.skip(line_len(rest) as int)))
}

proof fn lemma_line_len(s: Seq<char>)
    ensures
        line_len(s) <= s.len(),
        s.len() > 0 ==> line_len(s) > 0,
        forall|k: int| 0 <= k < line_len(s) - 1 ==> s[k] != '\n',
        line_len(s) > 0 && line_len(s) < s.len() ==> s[line_len(s) - 1] == '\n',
        line_len(s) > 0 && s[line_len(s) - 1] != '\n' ==> line_len(s) == s.len(),
    decreases s.len(),
{
    if s.len() > 0 && s[0] != '\n' {
        lemma_line_len(s.drop_first());
        assert forall|k: int| 0 <= k < line_len(s) - 1 implies s[k] != '\n' by {
            if k > 0 {
                assert(s[k] == s.drop_first()[k - 1]);
            }
        }
    }
}

proof fn lemma_unclosed_scan(rest: Seq<char>, acc: Seq<char>)
    requires
        no_fence(rest),
    ensures
        scan_frontmatter(rest, acc) is None,
    decreases rest.len(),
{
    if rest.len() > 0 {
        lemma_line_len(rest);
        lemma_unclosed_scan(
            rest.skip(line_len(rest) as int),
            acc + strip_line_end(rest.take(line_len(rest) as int)) + seq!['\n'],
        );
    }
}

/// A file that opens a frontmatter block and never closes it has no
/// frontmatter: all of it is the prompt.
pub proof fn lemma_unclosed_frontmatter(content: Seq<char>)
    requires
        content.len() > 0,
        no_fence(content.skip(line_len(content) as int)),
    ensures
        frontmatter_split(content) is None,
{
    lemma_unclosed_scan(content.skip(line_len(content) as int), Seq::empty());
}

/// The end of the line that starts at `i`, its `\n` included.
fn line_end(v: &Vec<char>, i: usize) -> (r: usize)
    requires
        i < v.len(),
    ensures
        i < r <= v.len(),
        r - i == line_len(v@.skip(i as int)),
{
    let mut j = i;
    proof {
        lemma_line_len(v@.skip(i as int));
    }
    while j < v.len() && v[j] != '\n'
        invariant
            i <= j <= v.len(),
            forall|k: int| i <= k < j ==> v@[k] != '\n',
            line_len(v@.skip(i as int)) == (j - i) + line_len(v@.skip(j as int)),
        decreases v.len() - j,
    {
        assert(v@.skip(j as int).drop_first() == v@.skip(j + 1));
        assert(v@.skip(j as int)[0] == v@[j as int]);
        j += 1;
    }
    if j < v.len() {
        assert(v@.skip(j as int)[0] == '\n');
        j + 1
    } else {
        assert(v@.skip(j as int).len() == 0);
        j
    }
}

/// The end of `v[from..to]` without trailing `\r` and `\n`.
fn strip_end(v: &Vec<char>, from: usize, to: usize) -> (r: usize)
    requires
        from <= to <= v.len(),
    ensures
        from <= r <= to,
        v@.subrange(from as int, r as int) == strip_line_end(v@.subrange(from as int, to as int)),
{
    let mut e = to;
    while e > from && (v[e - 1] == '\r' || v[e - 1] == '\n')
        invariant
            from <= e <= to <= v.len(),
            strip_line_end(v@.subrange(from as int, to as int)) == strip_line_end(
                v@.subrange(from as int, e as int),
            ),
        decreases e,
    {
        assert(v@.subrange(from as int, e as int).drop_last() == v@.subrange(from as int, e - 1));
        e -= 1;
    }
    proof {
        let s = v@.subrange(from as int, e as int);
        if s.len() > 0 {
            assert(s.last() == v@[e - 1]);
        }
    }
    e
}

/// Whether `v[from..to]` is a fence line.
fn is_fence_at(v: &Vec<char>, from: usize, to: usize) -> (r: bool)
    requires
        from <= to <= v.len(),
    ensures
        r == is_fence(v@.subrange(from as int, to as int)),
{
    let e = strip_end(v, from, to);
    let mut line: Vec<char> = Vec::new();
    let mut k = from;
    while k < e
        invariant
            from <= k <= e <= v.len(),
            line@ == v@.subrange(from as int, k as int),
        decreases e - k,
    {
        line.push(v[k]);
        assert(v@.subrange(from as int, k + 1) == v@.subrange(from as int, k as int).push(v@[k as int]));
        k += 1;
    }
    same_chars(&line, "---")
}

/// Splits a Markdown file into its frontmatter (each line ended by `\n`)
/// and its body; `None` when the file does not open with a fence line or
/// the block is never closed.
pub fn split_frontmatter(content: &str) -> (r: Option<(String, String)>)
    ensures
        match frontmatter_split(content@) {
            Some((fm, body)) => r matches Some(p) && p.0@ == fm && p.1@ == body,
            None => r is None,
        },
{
    let v = chars_of(content);
    if v.len() == 0 {
        return None;
    }
    let first = line_end(&v, 0);
    assert(v@.skip(0) == v@);
    assert(v@.subrange(0, first as int) == v@.take(first as int));
    if !is_fence_at(&v, 0, first) {
        return None;
    }
    let mut fm: Vec<char> = Vec::new();
    let mut pos = first;
    while pos < v.len()
        invariant
            0 < first <= pos <= v.len(),
            frontmatter_split(content@) == scan_frontmatter(v@.skip(pos as int), fm@),
            v@ == content@,
        decreases v.len() - pos,
    {
        let end = line_end(&v, pos);
        let ghost rest = v@.skip(pos as int);
        assert(v@.subrange(pos as int, end as int) == rest.take((end - pos) as int));
        assert(rest.skip((end - pos) as int) == v@.skip(end as int));
        if is_fence_at(&v, pos, end) {
            let body = string_of(&v, end, v.len());
            let fm_text = string_of(&fm, 0, fm.len());
            assert(fm@.subrange(0, fm@.len() as int) == fm@);
            assert(v@.subrange(end as int, v.len() as int) == v@.skip(end as int));
            return Some((fm_text, body));
        }
        let stop = strip_end(&v, pos, end);
        let ghost before = fm@;
        let mut k = pos;
        while k < stop
            invariant
                pos <= k <= stop <= v.len(),
                fm@ == before + v@.subrange(pos as int, k as int),
            decreases stop - k,
        {
            fm.push(v[k]);
            assert(v@.subrange(pos as int, k + 1) == v@.subrange(pos as int, k as int).push(v@[k as int]));
            k += 1;
        }
        fm.push('\n');
        assert(fm@ == before + strip_line_end(rest.take((end - pos) as int)) + seq!['\n']);
        pos = end;
    }
    assert(v@.skip(pos as int).len() == 0);
    None
}

/// `{codex_home}/agents`.
pub fn user_agents_root(codex_home: &str) -> (r: String)
    ensures
        r@ == join_path(codex_home@, AGENTS_DIR_NAME@),
{
    join_path_str(codex_home, AGENTS_DIR_NAME)
}

/// `{repo_root}/.codex/agents`, when the working directory lies in a
/// trusted repository.
pub fn repo_agents_root(repo_root: Option<String>) -> (r: Option<String>)
    ensures
        r.deep_view() == match repo_root {
            Some(root) => Some(
                join_path(join_path(root@, REPO_ROOT_CONFIG_DIR_NAME@), AGENTS_DIR_NAME@),
            ),
            None => None,
        },
{
    match repo_root {
        Some(root) => {
            let dir = join_path_str(root.as_str(), REPO_ROOT_CONFIG_DIR_NAME);
            Some(join_path_str(dir.as_str(), AGENTS_DIR_NAME))
        },
        None => None,
    }
}

} // verus!

verus! {

/// The recognised fields of a definition's frontmatter.
pub struct Frontmatter {
    pub name: Option<String>,
    pub description: Option<String>,
    pub role: Option<String>,
    pub model: Option<String>,
    pub mode: Option<String>,
    pub tools: Option<ToolsValue>,
}

impl Frontmatter {
    /// The frontmatter of a file that has none.
    pub fn empty() -> (r: Frontmatter)
        ensures
            r.name is None && r.description is None && r.role is None && r.model is None
                && r.mode is None && r.tools is None,
    {
        Frontmatter { name: None, description: None, role: None, model: None, mode: None, tools: None }
    }
}

/// A predefined agent profile.
#[derive(Debug)]
pub struct CustomAgent {
    pub name: String,
    pub description: Option<String>,
    pub path: String,
    pub scope: AgentScope,
    pub model: Option<String>,
    pub mode: Option<SubagentMode>,
    pub tools: AgentToolsPolicy,
    pub prompt: String,
}

/// The mathematical content of a [`CustomAgent`].
pub struct CustomAgentView {
    pub name: Seq<char>,
    pub description: Option<Seq<char>>,
    pub path: Seq<char>,
    pub scope: AgentScope,
    pub model: Option<Seq<char>>,
    pub mode: Option<SubagentMode>,
    pub tools: ToolsPolicyView,
    pub prompt: Seq<char>,
}

impl View for CustomAgent {
    type V = CustomAgentView;

    open spec fn view(&self) -> CustomAgentView {
        CustomAgentView {
            name: self.name@,
            description: self.description.deep_view(),
            path: self.path@,
            scope: self.scope,
            model: self.model.deep_view(),
            mode: self.mode,
            tools: self.tools@,
            prompt: self.prompt@,
        }
    }
}

/// A definition that could not be loaded.
#[derive(Debug)]
pub struct AgentLoadError {
    pub path: String,
    pub message: String,
}

/// What discovery found: the agents, sorted by name, and the files that
/// failed.
#[derive(Debug)]
pub struct AgentLoadOutcome {
    pub agents: Vec<CustomAgent>,
    pub errors: Vec<AgentLoadError>,
}

pub open spec fn is_md(ext: Seq<char>) -> bool {
    lower(ext) == "md"@
}

/// The file stem of a definition file, which must have the `.md`
/// extension (in any case) and a readable stem.
pub fn agent_file_stem(extension: Option<String>, file_stem: Option<String>) -> (r: Result<
    String,
    String,
>)
    ensures
        match extension {
            Some(e) if is_md(e@) => match file_stem {
                Some(s) => r matches Ok(t) && t@ == s@,
                None => r matches Err(m) && m@ == "invalid filename"@,
            },
            _ => r matches Err(m) && m@ == "not a markdown file"@,
        },
{
    let md = match &extension {
        Some(e) => same_chars(&lower_all(&chars_of(e.as_str())), "md"),
        None => false,
    };
    if !md {
        return Err(String::from_str("not a markdown file"));
    }
    match file_stem {
        Some(s) => Ok(s),
        None => Err(String::from_str("invalid filename")),
    }
}

/// The name of an agent: its frontmatter name when that survives
/// sanitising, else its file stem's.
pub open spec fn agent_name_from(fm_name: Option<Seq<char>>, stem: Seq<char>) -> Option<Seq<char>> {
    match fm_name {
        Some(n) if agent_name_of(n) is Some => agent_name_of(n),
        _ => agent_name_of(stem),
    }
}

/// Builds an agent from its file's parts. Fails only when no name
/// survives sanitising.
pub fn agent_from_parts(
    path: String,
    file_stem: &str,
    scope: AgentScope,
    frontmatter: Frontmatter,
    body: String,
) -> (r: Result<CustomAgent, String>)
    ensures
        match agent_name_from(frontmatter.name.deep_view(), file_stem@) {
            None => r matches Err(m) && m@ == "missing or invalid agent name"@,
            Some(name) => r matches Ok(a) && {
                &&& a@.name == name
                &&& a@.path == path@
                &&& a@.scope == scope
                &&& a@.description == match (
                    if frontmatter.description is Some {
                        frontmatter.description
                    } else {
                        frontmatter.role
                    }
                ) {
                    Some(t) => if trim(t@).len() == 0 {
                        None
                    } else {
                        Some(truncate_bytes(trim(t@), MAX_DESCRIPTION_LEN as nat))
                    },
                    None => None,
                }
                &&& a@.model == match frontmatter.model {
                    Some(t) => if trim(t@).len() == 0 {
                        None
                    } else {
                        Some(trim(t@))
                    },
                    None => None,
                }
                &&& a@.mode == match frontmatter.mode {
                    Some(t) => mode_of(t@),
                    None => None,
                }
                &&& a@.tools == tools_policy_of(frontmatter.tools)
                &&& a@.prompt == truncate_bytes(body@, MAX_PROMPT_BYTES as nat)
            },
        },
{
    let Frontmatter { name, description, role, model, mode, tools } = frontmatter;
    let from_fm = match &name {
        Some(n) => sanitize_agent_name(n.as_str()),
        None => None,
    };
    let name = match from_fm {
        Some(n) => n,
        None => match sanitize_agent_name(file_stem) {
            Some(n) => n,
            None => {
                return Err(String::from_str("missing or invalid agent name"));
            },
        },
    };
    let desc = match description {
        Some(d) => Some(d),
        None => role,
    };
    Ok(
        CustomAgent {
            name,
            description: sanitize_description(desc),
            path,
            scope,
            model: sanitize_model(model),
            mode: parse_mode(mode),
            tools: parse_tools_policy(tools),
            prompt: sanitize_prompt(body),
        },
    )
}

pub open spec fn has_repo_named(f: Seq<CustomAgentView>, n: Seq<char>) -> bool {
    exists|j: int| 0 <= j < f.len() && (#[trigger] f[j]).name == n && f[j].scope == AgentScope::Repo
}

/// Among the definitions named `f[i].name`, `f[i]` is the last repo-scoped
/// one when there is any, else the first one.
#[verifier::opaque]
pub open spec fn prevails(f: Seq<CustomAgentView>, n: Seq<char>, i: int) -> bool {
    if has_repo_named(f, n) {
        &&& f[i].scope == AgentScope::Repo
        &&& forall|j: int|
            i < j < f.len() && (#[trigger] f[j]).name == n ==> f[j].scope != AgentScope::Repo
    } else {
        forall|j: int| 0 <= j < i ==> (#[trigger] f[j]).name != n
    }
}

/// `f[i]` is the definition that wins name `n`.
pub open spec fn wins(f: Seq<CustomAgentView>, n: Seq<char>, i: int) -> bool {
    &&& 0 <= i < f.len()
    &&& f[i].name == n
    &&& prevails(f, n, i)
}

pub open spec fn sorted_by_name(r: Seq<CustomAgentView>) -> bool {
    forall|i: int, j: int| 0 <= i < j < r.len() ==> crate::text::lex_lt(r[i].name, r[j].name)
}

/// `r[k]` is the winning definition of its name in `f`.
pub open spec fn entry_wins(r: Seq<CustomAgentView>, f: Seq<CustomAgentView>, k: int) -> bool {
    exists|i: int| wins(f, r[k].name, i) && r[k] == f[i]
}

/// The name of `f[i]` has an entry in `r`.
pub open spec fn name_kept(r: Seq<CustomAgentView>, f: Seq<CustomAgentView>, i: int) -> bool {
    exists|k: int| 0 <= k < r.len() && r[k].name == f[i].name
}

/// The result of merging `f`, in scan order: one entry per name, the
/// winning definition, sorted by name.
#[verifier::opaque]
pub open spec fn merged_from(r: Seq<CustomAgentView>, f: Seq<CustomAgentView>) -> bool {
    &&& sorted_by_name(r)
    &&& forall|k: int| 0 <= k < r.len() ==> #[trigger] entry_wins(r, f, k)
    &&& forall|i: int| 0 <= i < f.len() ==> #[trigger] name_kept(r, f, i)
}

pub open spec fn views(v: Seq<CustomAgent>) -> Seq<CustomAgentView> {
    v.map_values(|a: CustomAgent| a@)
}

proof fn lemma_wins_step(suf: Seq<CustomAgentView>, a: CustomAgentView, n: Seq<char>, i: int)
    requires
        0 <= i < suf.len(),
        wins(suf, n, i),
    ensures
        n != a.name ==> wins(seq![a] + suf, n, i + 1),
        n == a.name && suf[i].scope == AgentScope::Repo ==> wins(seq![a] + suf, n, i + 1),
        n == a.name && suf[i].scope != AgentScope::Repo ==> wins(seq![a] + suf, n, 0),
{
    reveal(prevails);
    let g = seq![a] + suf;
    assert forall|j: int| 0 <= j < suf.len() implies g[j + 1] == suf[j] by {}
    assert(g[0] == a);
    if n != a.name {
        if has_repo_named(suf, n) {
            let j = choose|j: int| 0 <= j < suf.len() && (#[trigger] suf[j]).name == n && suf[j].scope == AgentScope::Repo;
            assert(g[j + 1] == suf[j]);
        }
        if has_repo_named(g, n) {
            let j = choose|j: int| 0 <= j < g.len() && (#[trigger] g[j]).name == n && g[j].scope == AgentScope::Repo;
            assert(suf[j - 1] == g[j]);
        }
        assert forall|j: int| i + 1 < j < g.len() && (#[trigger] g[j]).name == n implies g[j].scope != AgentScope::Repo || !has_repo_named(suf, n) by {
            assert(g[j] == suf[j - 1]);
        }
        assert forall|j: int| 0 <= j < i + 1 && !has_repo_named(suf, n) implies (#[trigger] g[j]).name != n by {
            if j > 0 {
                assert(g[j] == suf[j - 1]);
            }
        }
    } else if suf[i].scope == AgentScope::Repo {
        assert(has_repo_named(suf, n));
        assert(has_repo_named(g, n)) by {
            assert(g[i + 1] == suf[i]);
        }
        assert forall|j: int| i + 1 < j < g.len() && (#[trigger] g[j]).name == n implies g[j].scope != AgentScope::Repo by {
            assert(g[j] == suf[j - 1]);
        }
    } else {
        assert(!has_repo_named(suf, n));
        if a.scope == AgentScope::Repo {
            assert(has_repo_named(g, n)) by {
                assert(g[0].name == n);
            }
            assert forall|j: int| 0 < j < g.len() && (#[trigger] g[j]).name == n implies g[j].scope != AgentScope::Repo by {
                assert(g[j] == suf[j - 1]);
            }
        } else {
            assert(!has_repo_named(g, n)) by {
                if has_repo_named(g, n) {
                    let j = choose|j: int| 0 <= j < g.len() && (#[trigger] g[j]).name == n && g[j].scope == AgentScope::Repo;
                    assert(j > 0);
                    assert(suf[j - 1] == g[j]);
                }
            }
        }
    }
}

proof fn lemma_wins_new(suf: Seq<CustomAgentView>, a: CustomAgentView)
    requires
        forall|i: int| 0 <= i < suf.len() ==> (#[trigger] suf[i]).name != a.name,
    ensures
        wins(seq![a] + suf, a.name, 0),
{
    reveal(prevails);
    let g = seq![a] + suf;
    assert(g[0] == a);
    if a.scope == AgentScope::Repo {
        assert(has_repo_named(g, a.name));
        assert forall|j: int| 0 < j < g.len() && (#[trigger] g[j]).name == a.name implies g[j].scope != AgentScope::Repo by {
            assert(g[j] == suf[j - 1]);
        }
    } else {
        assert(!has_repo_named(g, a.name)) by {
            if has_repo_named(g, a.name) {
                let j = choose|j: int| 0 <= j < g.len() && (#[trigger] g[j]).name == a.name && g[j].scope == AgentScope::Repo;
                assert(suf[j - 1] == g[j]);
            }
        }
    }
}

proof fn lemma_sorted_names_distinct(ov: Seq<CustomAgentView>, k: int, p: int)
    requires
        sorted_by_name(ov),
        0 <= k < ov.len(),
        0 <= p < ov.len(),
        ov[k].name == ov[p].name,
    ensures
        k == p,
{
    if k < p {
        assert(crate::text::lex_lt(ov[k].name, ov[p].name));
        crate::text::lemma_lex_irreflexive(ov[k].name);
    } else if p < k {
        assert(crate::text::lex_lt(ov[p].name, ov[k].name));
        crate::text::lemma_lex_irreflexive(ov[k].name);
    }
}

proof fn lemma_merge_keep_entry(ov: Seq<CustomAgentView>, suf: Seq<CustomAgentView>, av: CustomAgentView, p: int, k: int)
    requires
        sorted_by_name(ov),
        0 <= p < ov.len(),
        0 <= k < ov.len(),
        ov[p].name == av.name,
        ov[p].scope == AgentScope::Repo,
        entry_wins(ov, suf, k),
    ensures
        entry_wins(ov, seq![av] + suf, k),
{
    assert(entry_wins(ov, suf, k));
        let i = choose|i: int| wins(suf, ov[k].name, i) && ov[k] == suf[i];
    if ov[k].name == av.name {
        lemma_sorted_names_distinct(ov, k, p);
        assert(suf[i].scope == AgentScope::Repo);
    }
    lemma_wins_step(suf, av, ov[k].name, i);
    assert((seq![av] + suf)[i + 1] == suf[i]);
}

proof fn lemma_merge_keep(ov: Seq<CustomAgentView>, suf: Seq<CustomAgentView>, av: CustomAgentView, p: int)
    requires
        merged_from(ov, suf),
        0 <= p < ov.len(),
        ov[p].name == av.name,
        ov[p].scope == AgentScope::Repo,
    ensures
        merged_from(ov, seq![av] + suf),
{
    reveal(merged_from);
    let suf2 = seq![av] + suf;
    assert forall|k: int| 0 <= k < ov.len() implies #[trigger] entry_wins(ov, suf2, k) by {
        lemma_merge_keep_entry(ov, suf, av, p, k);
    }
    assert forall|i: int| 0 <= i < suf2.len() implies #[trigger] name_kept(ov, suf2, i) by {
        if i == 0 {
            assert(ov[p].name == suf2[0].name);
        } else {
            assert(suf2[i] == suf[i - 1]);
            assert(name_kept(ov, suf, i - 1));
            let k = choose|k: int| 0 <= k < ov.len() && ov[k].name == suf[i - 1].name;
            assert(ov[k].name == suf2[i].name);
        }
    }
}

proof fn lemma_merge_replace(ov: Seq<CustomAgentView>, suf: Seq<CustomAgentView>, av: CustomAgentView, p: int)
    requires
        merged_from(ov, suf),
        0 <= p < ov.len(),
        ov[p].name == av.name,
        ov[p].scope != AgentScope::Repo,
    ensures
        merged_from(ov.update(p, av), seq![av] + suf),
{
    reveal(merged_from);
    let suf2 = seq![av] + suf;
    let nv = ov.update(p, av);
    assert(entry_wins(ov, suf, p));
    let i0 = choose|i: int| wins(suf, ov[p].name, i) && ov[p] == suf[i];
    lemma_wins_step(suf, av, av.name, i0);
    assert(suf2[0] == av);
    assert forall|k: int| 0 <= k < nv.len() implies #[trigger] entry_wins(nv, suf2, k) by {
        if k != p {
            assert(nv[k] == ov[k]);
            assert(entry_wins(ov, suf, k));
        let i = choose|i: int| wins(suf, ov[k].name, i) && ov[k] == suf[i];
            assert(ov[k].name != av.name) by {
                if ov[k].name == av.name {
                    crate::text::lemma_lex_irreflexive(av.name);
                }
            }
            lemma_wins_step(suf, av, ov[k].name, i);
            assert(suf2[i + 1] == suf[i]);
        }
    }
    assert forall|x: int, y: int| 0 <= x < y < nv.len() implies crate::text::lex_lt(nv[x].name, nv[y].name) by {
        assert(nv[x].name == ov[x].name);
        assert(nv[y].name == ov[y].name);
    }
    assert forall|i: int| 0 <= i < suf2.len() implies #[trigger] name_kept(nv, suf2, i) by {
        if i == 0 {
            assert(nv[p].name == suf2[0].name);
        } else {
            assert(suf2[i] == suf[i - 1]);
            assert(name_kept(ov, suf, i - 1));
            let k = choose|k: int| 0 <= k < ov.len() && ov[k].name == suf[i - 1].name;
            assert(nv[k].name == ov[k].name);
        }
    }
}

proof fn lemma_merge_insert(ov: Seq<CustomAgentView>, suf: Seq<CustomAgentView>, av: CustomAgentView, p: int)
    requires
        merged_from(ov, suf),
        0 <= p <= ov.len(),
        forall|j: int| 0 <= j < p ==> crate::text::lex_lt(ov[j].name, av.name),
        p < ov.len() ==> crate::text::lex_lt(av.name, ov[p].name),
    ensures
        merged_from(ov.insert(p, av), seq![av] + suf),
{
    reveal(merged_from);
    let suf2 = seq![av] + suf;
    let nv = ov.insert(p, av);
    assert forall|i: int| 0 <= i < suf.len() implies (#[trigger] suf[i]).name != av.name by {
        assert(name_kept(ov, suf, i));
        let k = choose|k: int| 0 <= k < ov.len() && ov[k].name == suf[i].name;
        crate::text::lemma_lex_irreflexive(av.name);
        if k > p {
            crate::text::lemma_lex_transitive(av.name, ov[p].name, ov[k].name);
        }
    }
    lemma_wins_new(suf, av);
    assert forall|x: int, y: int| 0 <= x < y < nv.len() implies crate::text::lex_lt(nv[x].name, nv[y].name) by {
        if y < p {
            assert(nv[x] == ov[x] && nv[y] == ov[y]);
        } else if y == p {
            assert(nv[x] == ov[x]);
        } else if x < p {
            assert(nv[x] == ov[x] && nv[y] == ov[y - 1]);
            if p < y - 1 {
                crate::text::lemma_lex_transitive(av.name, ov[p].name, ov[y - 1].name);
            }
            crate::text::lemma_lex_transitive(ov[x].name, av.name, ov[y - 1].name);
        } else if x == p {
            assert(nv[y] == ov[y - 1]);
            if p < y - 1 {
                crate::text::lemma_lex_transitive(av.name, ov[p].name, ov[y - 1].name);
            }
        } else {
            assert(nv[x] == ov[x - 1] && nv[y] == ov[y - 1]);
        }
    }
    assert forall|k: int| 0 <= k < nv.len() implies #[trigger] entry_wins(nv, suf2, k) by {
        if k == p {
            assert(suf2[0] == av);
        } else {
            let k0 = if k < p { k } else { k - 1 };
            assert(nv[k] == ov[k0]);
            assert(entry_wins(ov, suf, k0));
            let i = choose|i: int| wins(suf, ov[k0].name, i) && ov[k0] == suf[i];
            lemma_wins_step(suf, av, ov[k0].name, i);
            assert(suf2[i + 1] == suf[i]);
        }
    }
    assert forall|i: int| 0 <= i < suf2.len() implies #[trigger] name_kept(nv, suf2, i) by {
        if i == 0 {
            assert(nv[p].name == suf2[0].name);
        } else {
            assert(suf2[i] == suf[i - 1]);
            assert(name_kept(ov, suf, i - 1));
            let k = choose|k: int| 0 <= k < ov.len() && ov[k].name == suf[i - 1].name;
            if k < p {
                assert(nv[k] == ov[k]);
            } else {
                assert(nv[k + 1] == ov[k]);
            }
        }
    }
}

/// Adds one definition, scanned before all of `suf`, to `out`, the merge of `suf`.
fn merge_one(out: &mut Vec<CustomAgent>, a: CustomAgent, suf: Ghost<Seq<CustomAgentView>>)
    requires
        merged_from(views(old(out)@), suf@),
    ensures
        merged_from(views(final(out)@), seq![a@] + suf@),
{
    let ghost ov = views(out@);
    let ghost av = a@;
    let key = chars_of(a.name.as_str());
    let mut p: usize = 0;
    while p < out.len() && lex_less(&chars_of(out[p].name.as_str()), &key)
        invariant
            p <= out.len(),
            views(out@) == ov,
            key@ == av.name,
            forall|j: int| 0 <= j < p ==> crate::text::lex_lt(ov[j].name, av.name),
        decreases out.len() - p,
    {
        assert(ov[p as int] == out@[p as int]@);
        p += 1;
    }
    if p < out.len() && out[p].name == a.name {
        assert(ov[p as int] == out@[p as int]@);
        if out[p].scope == AgentScope::User {
            proof {
                lemma_merge_replace(ov, suf@, av, p as int);
            }
            out.remove(p);
            out.insert(p, a);
            assert(views(out@) == ov.update(p as int, av));
        } else {
            proof {
                lemma_merge_keep(ov, suf@, av, p as int);
            }
        }
    } else {
        proof {
            if p < out.len() {
                assert(ov[p as int] == out@[p as int]@);
                crate::text::lemma_lex_total(ov[p as int].name, av.name);
            }
            lemma_merge_insert(ov, suf@, av, p as int);
        }
        out.insert(p, a);
        assert(views(out@) == ov.insert(p as int, av));
    }
}

/// Merges definitions given in scan order (user scope first, then repo
/// scope) into one per name, where a repo-scoped definition overrides a
/// user-scoped one, sorted by name.
pub fn merge_agents(found: Vec<CustomAgent>) -> (r: Vec<CustomAgent>)
    ensures
        merged_from(views(r@), views(found@)),
{
    let ghost orig = views(found@);
    let mut found = found;
    let mut out: Vec<CustomAgent> = Vec::new();
    assert(orig.skip(orig.len() as int) == Seq::<CustomAgentView>::empty());
    assert(views(out@) == Seq::<CustomAgentView>::empty());
    assert(merged_from(Seq::empty(), Seq::empty())) by {
        reveal(merged_from);
    }
    while found.len() > 0
        invariant
            found@.len() <= orig.len(),
            views(found@) == orig.take(found@.len() as int),
            merged_from(views(out@), orig.skip(found@.len() as int)),
        decreases found@.len(),
    {
        let ghost m = found@.len() as int;
        let ghost before = found@;
        let a = found.pop().unwrap();
        proof {
            assert(views(before)[m - 1] == orig.take(m)[m - 1]);
            assert(a@ == orig[m - 1]);
            assert(orig.skip(m - 1) == seq![a@] + orig.skip(m));
            assert(views(found@) == orig.take(m - 1));
        }
        merge_one(&mut out, a, Ghost(orig.skip(m)));
    }
    assert(orig.skip(0) == orig);
    out
}

/// When both scopes define a name, the merged registry keeps the repo
/// definition.
pub proof fn lemma_repo_overrides_user(
    r: Seq<CustomAgentView>,
    f: Seq<CustomAgentView>,
    u: int,
    p: int,
)
    requires
        merged_from(r, f),
        0 <= u < f.len(),
        0 <= p < f.len(),
        f[u].scope == AgentScope::User,
        f[p].scope == AgentScope::Repo,
        f[u].name == f[p].name,
    ensures
        exists|k: int|
            0 <= k < r.len() && (#[trigger] r[k]).name == f[p].name && r[k].scope
                == AgentScope::Repo,
{
    reveal(merged_from);
    reveal(prevails);
    assert(name_kept(r, f, p));
    let k = choose|k: int| 0 <= k < r.len() && r[k].name == f[p].name;
    assert(entry_wins(r, f, k));
    let i = choose|i: int| wins(f, r[k].name, i) && r[k] == f[i];
    assert(has_repo_named(f, f[p].name));
}

} // verus!
