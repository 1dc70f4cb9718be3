//! Sanitisation of identifiers, agent names and labels into a narrow
//! character set.
use vstd::prelude::*;
use crate::text::{lower_ascii, string_of, trim, trimmed_chars};

verus! {

/// Longest sanitised agent id, in characters (all of them ASCII).
pub const MAX_AGENT_ID_LEN: usize = 64;
/// Longest sanitised custom-agent name.
pub const MAX_NAME_LEN: usize = 64;
/// Longest sanitised label.
pub const MAX_LABEL_LEN: usize = 48;

/// Which character set a sanitiser keeps.
#[derive(Debug, Clone, Copy, PartialEq, Eq, Structural)]
pub enum NameRule {
    /// `[a-z0-9_-]`; everything else is dropped.
    AgentId,
    /// `[a-z0-9_-]`; space, `/` and `:` become `-`.
    AgentName,
    /// `[a-z0-9._-]`; space, `/` and `:` become `-`.
    Label,
}

/// What a sanitiser makes of one character: kept, replaced, or dropped.
pub open spec fn map_char(rule: NameRule, c: char) -> Option<char> {
    if ('a' <= c <= 'z') || ('0' <= c <= '9') || c == '-' || c == '_' {
        Some(c)
    } else if 'A' <= c <= 'Z' {
        Some(((c as u32 + 32) as u8) as char)
    } else if rule == NameRule::Label && c == '.' {
        Some(c)
    } else if rule != NameRule::AgentId && (c == ' ' || c == '/' || c == ':') {
        Some('-')
    } else {
        None
    }
}

/// Every character of `s` mapped by the rule, dropped ones left out.
pub open spec fn mapped(rule: NameRule, s: Seq<char>) -> Seq<char>
    decreases s.len(),
{
    if s.len() == 0 {
        Seq::empty()
    } else {
        match map_char(rule, s.last()) {
            Some(d) => mapped(rule, s.drop_last()).push(d),
            None => mapped(rule, s.drop_last()),
        }
    }
}

/// The sanitised form of `s`: trimmed, mapped, and cut to `max` characters.
pub open spec fn sanitized(rule: NameRule, s: Seq<char>, max: nat) -> Seq<char> {
    let m = mapped(rule, trim(s));
    if m.len() > max {
        m.take(max as int)
    } else {
        m
    }
}

/// Whether every character of `s` is one a sanitiser may produce.
pub open spec fn in_charset(rule: NameRule, s: Seq<char>) -> bool {
    forall|i: int|
        0 <= i < s.len() ==> {
            let c = #[trigger] s[i];
            ('a' <= c <= 'z') || ('0' <= c <= '9') || c == '-' || c == '_' || (rule
                == NameRule::Label && c == '.')
        }
}

pub open spec fn agent_id_of(s: Seq<char>) -> Option<Seq<char>> {
    let t = sanitized(NameRule::AgentId, s, MAX_AGENT_ID_LEN as nat);
    if t.len() == 0 {
        None
    } else {
        Some(t)
    }
}

pub open spec fn agent_name_of(s: Seq<char>) -> Option<Seq<char>> {
    let t = sanitized(NameRule::AgentName, s, MAX_NAME_LEN as nat);
    if t.len() == 0 {
        None
    } else {
        Some(t)
    }
}

/// A sanitised label, or `default` where nothing is left of `s`.
pub open spec fn label_of(s: Seq<char>, default: Seq<char>) -> Seq<char> {
    let t = sanitized(NameRule::Label, s, MAX_LABEL_LEN as nat);
    if t.len() == 0 {
        default
    } else {
        t
    }
}

proof fn lemma_mapped_prefix(rule: NameRule, s: Seq<char>, j: int)
    requires
        0 <= j <= s.len(),
    ensures
        mapped(rule, s.subrange(0, j)).len() <= mapped(rule, s).len(),
        mapped(rule, s.subrange(0, j)) == mapped(rule, s).take(
            mapped(rule, s.subrange(0, j)).len() as int,
        ),
    decreases s.len(),
{
    if j == s.len() {
        assert(s.subrange(0, j) == s);
        assert(mapped(rule, s).take(mapped(rule, s).len() as int) == mapped(rule, s));
    } else {
        assert(s.drop_last().subrange(0, j) == s.subrange(0, j));
        lemma_mapped_prefix(rule, s.drop_last(), j);
        let p = mapped(rule, s.subrange(0, j));
        let q = mapped(rule, s.drop_last());
        match map_char(rule, s.last()) {
            Some(d) => {
                assert(q.push(d).take(p.len() as int) == q.take(p.len() as int));
            },
            None => {},
        }
    }
}

proof fn lemma_mapped_charset(rule: NameRule, s: Seq<char>)
    ensures
        in_charset(rule, mapped(rule, s)),
    decreases s.len(),
{
    if s.len() > 0 {
        lemma_mapped_charset(rule, s.drop_last());
        let c = s.last();
        if 'A' <= c <= 'Z' {
            let d = ((c as u32 + 32) as u8) as char;
            assert('a' <= d <= 'z');
        }
    }
}

/// `sanitized` stays inside its character set and its length bound.
pub proof fn lemma_sanitized_shape(rule: NameRule, s: Seq<char>, max: nat)
    ensures
        in_charset(rule, sanitized(rule, s, max)),
        sanitized(rule, s, max).len() <= max,
{
    let m = mapped(rule, trim(s));
    lemma_mapped_charset(rule, trim(s));
    if m.len() > max {
        assert forall|i: int| 0 <= i < m.take(max as int).len() implies {
            let c = #[trigger] m.take(max as int)[i];
            ('a' <= c <= 'z') || ('0' <= c <= '9') || c == '-' || c == '_' || (rule
                == NameRule::Label && c == '.')
        } by {
            assert(m.take(max as int)[i] == m[i]);
        }
    }
}

fn map_char_exec(rule: NameRule, c: char) -> (r: Option<char>)
    ensures
        r == map_char(rule, c),
{
    if ('a' <= c && c <= 'z') || ('0' <= c && c <= '9') || c == '-' || c == '_' {
        Some(c)
    } else if 'A' <= c && c <= 'Z' {
        Some(lower_ascii(c))
    } else if rule == NameRule::Label && c == '.' {
        Some(c)
    } else if rule != NameRule::AgentId && (c == ' ' || c == '/' || c == ':') {
        Some('-')
    } else {
        None
    }
}

/// The sanitised characters of `raw` under `rule`, at most `max` of them.
pub fn sanitize_with(rule: NameRule, raw: &str, max: usize) -> (r: Vec<char>)
    ensures
        r@ == sanitized(rule, raw@, max as nat),
{
    let v = trimmed_chars(raw);
    let ghost t = v@;
    let mut out: Vec<char> = Vec::new();
    let mut i: usize = 0;
    while i < v.len() && out.len() < max
        invariant
            i <= v.len(),
            t == v@,
            t == trim(raw@),
            out@ == mapped(rule, t.subrange(0, i as int)),
            out.len() <= max,
        decreases v.len() - i,
    {
        let c = v[i];
        proof {
            assert(t.subrange(0, i + 1).drop_last() == t.subrange(0, i as int));
            assert(t.subrange(0, i + 1).last() == c);
        }
        match map_char_exec(rule, c) {
            Some(d) => out.push(d),
            None => {},
        }
        i += 1;
    }
    proof {
        lemma_mapped_prefix(rule, t, i as int);
        if i == v.len() {
            assert(t.subrange(0, i as int) == t);
        }
        let m = mapped(rule, t);
        if out.len() >= max {
            if m.len() > max {
                assert(out@ == m.take(out.len() as int));
            } else {
                assert(m.take(out.len() as int) == m);
            }
        } else {
            assert(i == v.len());
        }
    }
    out
}

/// Sanitises a caller-supplied agent id: `None` when nothing is left.
pub fn sanitize_agent_id(agent_id: &str) -> (r: Option<String>)
    ensures
        r matches Some(s) ==> agent_id_of(agent_id@) == Some(s@),
        r is None <==> agent_id_of(agent_id@) is None,
{
    let v = sanitize_with(NameRule::AgentId, agent_id, MAX_AGENT_ID_LEN);
    if v.len() == 0 {
        None
    } else {
        Some(string_of(&v, 0, v.len()))
    }
}

/// Sanitises a custom-agent name: `None` when nothing is left.
pub fn sanitize_agent_name(raw: &str) -> (r: Option<String>)
    ensures
        r matches Some(s) ==> agent_name_of(raw@) == Some(s@),
        r is None <==> agent_name_of(raw@) is None,
{
    let v = sanitize_with(NameRule::AgentName, raw, MAX_NAME_LEN);
    if v.len() == 0 {
        None
    } else {
        Some(string_of(&v, 0, v.len()))
    }
}

/// Sanitises a label, falling back to `default` when nothing is left.
pub fn sanitize_label_or(label: &str, default: &str) -> (r: String)
    ensures
        r@ == label_of(label@, default@),
{
    let v = sanitize_with(NameRule::Label, label, MAX_LABEL_LEN);
    if v.len() == 0 {
        String::from_str(default)
    } else {
        string_of(&v, 0, v.len())
    }
}

} // verus!
