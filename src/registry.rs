//! The registry of a session's subagents: admission with bounded capacity,
//! pruning of terminated entries, and poll / cancel / list.
use vstd::prelude::*;
use crate::handle::{
    events_bounded, lemma_events_stay_bounded, lemma_output_stays_consistent, next_view,
    output_consistent, snapshot_of, stamp_of, EngineEvent, Failure, HandleView, PumpAction,
    Step, SubagentHandle, SubagentPollResponse, failure_message,
};
use crate::mode::{is_terminal, SubagentMode, SubagentStatus};
use crate::names::{agent_id_of, in_charset, lemma_sanitized_shape, sanitize_agent_id, NameRule, MAX_AGENT_ID_LEN};
use crate::text::decimal_string;

verus! {

/// Relies on `uuid::Uuid::new_v4` and its `Display`: a random version-4
/// UUID in hyphenated lower-case form, 36 characters of `[0-9a-f-]`.
#[verifier::external_body]
fn new_uuid_string() -> (r: String)
    ensures
        r@.len() == 36,
        forall|i: int|
            0 <= i < r@.len() ==> {
                let c = #[trigger] r@[i];
                ('0' <= c <= '9') || ('a' <= c <= 'f') || c == '-'
            },
{
    uuid::Uuid::new_v4().to_string()
}

/// Per-session caps that apply to every subagent.
#[derive(Debug, Clone, Copy)]
pub struct SubagentLimits {
    /// Most entries the registry holds.
    pub max_agents: usize,
    /// Most entries of a subagent's event ring.
    pub max_events: usize,
    /// Byte budget of one event.
    pub max_event_chars: usize,
    /// Byte budget of a final output.
    pub max_output_chars: usize,
}

/// A request to start one subagent.
pub struct SubagentSpawnRequest {
    pub agent_id: Option<String>,
    pub mode: SubagentMode,
    pub label: String,
    pub prompt: String,
    pub skills: Vec<String>,
    pub timeout_ms: Option<u64>,
    pub resume_rollout_path: Option<String>,
}

/// What a successful spawn reports.
pub struct SubagentSpawnResponse {
    pub agent_id: String,
    pub status: SubagentStatus,
    pub label: String,
    pub mode: SubagentMode,
}

/// Why a spawn was refused.
#[derive(Debug, Clone, Copy, PartialEq, Eq, Structural)]
pub enum SpawnError {
    /// Nothing is left of the requested id after sanitising.
    InvalidAgentId,
    /// `max_agents` is zero.
    CapacityMisconfigured,
    /// An entry with this id exists.
    AlreadyExists,
    /// The registry is full and not enough entries could be pruned.
    TooMany { max_agents: usize },
}

impl SpawnError {
    /// The error text reported to the caller.
    pub fn message(&self) -> (r: String)
        ensures
            r@ == spawn_error_text(*self),
    {
        match self {
            SpawnError::InvalidAgentId => String::from_str("invalid agent_id"),
            SpawnError::CapacityMisconfigured => String::from_str(
                "subagents.max_agents must be >= 1",
            ),
            SpawnError::AlreadyExists => String::from_str("agent_id already exists"),
            SpawnError::TooMany { max_agents } => {
                let mut r = String::from_str("too many subagents in this session (max ");
                let n = decimal_string(*max_agents as u64);
                r.append(n.as_str());
                r.append(
                    "); wait for some to finish or increase [subagents].max_agents",
                );
                r
            },
        }
    }
}

pub open spec fn spawn_error_text(e: SpawnError) -> Seq<char> {
    match e {
        SpawnError::InvalidAgentId => "invalid agent_id"@,
        SpawnError::CapacityMisconfigured => "subagents.max_agents must be >= 1"@,
        SpawnError::AlreadyExists => "agent_id already exists"@,
        SpawnError::TooMany { max_agents } => "too many subagents in this session (max "@
            + crate::text::decimal(max_agents as nat)
            + "); wait for some to finish or increase [subagents].max_agents"@,
    }
}

/// One transition the driver asks the registry to make on a subagent.
pub enum DriverStep {
    Start,
    AbortBeforeStart,
    Fail(Failure),
    RolloutPath(String),
    Event(EngineEvent),
    Cancelled,
    TimedOut(u64),
}

pub open spec fn step_of(d: DriverStep, now: u64) -> Step {
    match d {
        DriverStep::Start => Step::Started { now },
        DriverStep::AbortBeforeStart => Step::AbortedBeforeStart,
        DriverStep::Fail(f) => Step::Failed { message: failure_message(f) },
        DriverStep::RolloutPath(p) => Step::RolloutRecorded { path: p@, now },
        DriverStep::Event(e) => Step::Event { event: e, now },
        DriverStep::Cancelled => Step::Cancelled,
        DriverStep::TimedOut(ms) => Step::TimedOut { ms },
    }
}

pub open spec fn has_id(s: Seq<HandleView>, id: Seq<char>) -> bool {
    exists|i: int| 0 <= i < s.len() && (#[trigger] s[i]).id == id
}

pub open spec fn has_terminal(s: Seq<HandleView>) -> bool {
    exists|i: int| 0 <= i < s.len() && is_terminal((#[trigger] s[i]).status)
}

/// `i` is the terminated entry with the oldest stamp, the first such on ties.
pub open spec fn is_oldest_terminal(s: Seq<HandleView>, i: int) -> bool {
    &&& 0 <= i < s.len()
    &&& is_terminal(s[i].status)
    &&& forall|j: int|
        0 <= j < s.len() && is_terminal((#[trigger] s[j]).status) ==> stamp_of(s[i]) <= stamp_of(
            s[j],
        )
    &&& forall|j: int|
        0 <= j < i && is_terminal((#[trigger] s[j]).status) ==> stamp_of(s[i]) < stamp_of(s[j])
}

pub open spec fn oldest_terminal(s: Seq<HandleView>) -> int {
    choose|i: int| is_oldest_terminal(s, i)
}

/// The registry after pruning room for one more entry: while full, the
/// oldest terminated entry leaves, until none is left.
pub open spec fn pruned(s: Seq<HandleView>, max_agents: nat) -> Seq<HandleView>
    decreases s.len(),
{
    if s.len() + 1 > max_agents && has_terminal(s) {
        proof {
            lemma_oldest_exists(s);
        }
        pruned(s.remove(oldest_terminal(s)), max_agents)
    } else {
        s
    }
}

/// A registry with a terminated entry has an oldest one.
pub proof fn lemma_oldest_exists(s: Seq<HandleView>)
    requires
        has_terminal(s),
    ensures
        is_oldest_terminal(s, oldest_terminal(s)),
    decreases s.len(),
{
    let t = s.drop_last();
    let last = s.len() - 1;
    assert forall|j: int| 0 <= j < t.len() implies t[j] == s[j] by {}
    if has_terminal(t) {
        lemma_oldest_exists(t);
        let i0 = oldest_terminal(t);
        if is_terminal(s[last].status) && stamp_of(s[last]) < stamp_of(s[i0]) {
            assert(is_oldest_terminal(s, last));
        } else {
            assert(is_oldest_terminal(s, i0));
        }
    } else {
        let w = choose|i: int| 0 <= i < s.len() && is_terminal((#[trigger] s[i]).status);
        if w < last {
            assert(t[w] == s[w]);
        }
        assert(is_oldest_terminal(s, last));
    }
}

/// The outcome of admitting `id`: the registry it goes into, or the error.
pub open spec fn admission(s: Seq<HandleView>, id: Seq<char>, max_agents: nat) -> Result<
    Seq<HandleView>,
    SpawnError,
> {
    if max_agents == 0 {
        Err(SpawnError::CapacityMisconfigured)
    } else if has_id(s, id) {
        Err(SpawnError::AlreadyExists)
    } else if pruned(s, max_agents).len() + 1 > max_agents {
        Err(SpawnError::TooMany { max_agents: max_agents as usize })
    } else {
        Ok(pruned(s, max_agents))
    }
}

/// The registry after a refused spawn: pruning that ran stays done.
pub open spec fn after_refusal(s: Seq<HandleView>, e: SpawnError, max_agents: nat) -> Seq<
    HandleView,
> {
    match e {
        SpawnError::TooMany { .. } => pruned(s, max_agents),
        _ => s,
    }
}

pub open spec fn fresh_view(
    id: Seq<char>,
    label: Seq<char>,
    mode: SubagentMode,
    now: u64,
    limits: SubagentLimits,
) -> HandleView {
    HandleView {
        id,
        label,
        mode,
        created_at: now,
        max_events: limits.max_events as nat,
        max_event_chars: limits.max_event_chars as nat,
        max_output_chars: limits.max_output_chars as nat,
        status: SubagentStatus::Queued,
        rollout_path: None,
        final_output: None,
        recent_events: Seq::empty(),
        last_update: None,
        cancelled: false,
    }
}

/// What a spawn under `id` returns and leaves behind: the admitted record
/// appended to the pruned registry, or the refusal that `admission` gives.
pub open spec fn spawn_outcome(
    old: Seq<HandleView>,
    new: Seq<HandleView>,
    r: Result<SubagentSpawnResponse, SpawnError>,
    id: Seq<char>,
    label: Seq<char>,
    mode: SubagentMode,
    limits: SubagentLimits,
    now: u64,
) -> bool {
    match admission(old, id, limits.max_agents as nat) {
        Ok(p) => r matches Ok(resp) && {
            &&& resp.agent_id@ == id
            &&& resp.status == SubagentStatus::Queued
            &&& resp.label@ == label
            &&& resp.mode == mode
            &&& new == p.push(fresh_view(id, label, mode, now, limits))
        },
        Err(e) => r matches Err(f) && f == e && new == after_refusal(old, e, limits.max_agents as nat),
    }
}

/// The shape of a generated id: a hyphenated lower-case UUID.
pub open spec fn uuid_shaped(id: Seq<char>) -> bool {
    &&& id.len() == 36
    &&& forall|i: int|
        0 <= i < id.len() ==> {
            let c = #[trigger] id[i];
            ('0' <= c <= '9') || ('a' <= c <= 'f') || c == '-'
        }
}

pub open spec fn ids_unique(s: Seq<HandleView>) -> bool {
    forall|i: int, j: int| 0 <= i < s.len() && 0 <= j < s.len() && i != j ==> s[i].id != s[j].id
}

/// Every record keeps its event ring within its bounds, and holds a final
/// output only once it has completed or failed.
pub open spec fn rings_bounded(s: Seq<HandleView>) -> bool {
    forall|i: int|
        0 <= i < s.len() ==> events_bounded(#[trigger] s[i]) && output_consistent(s[i])
}

/// The registry's invariant.
pub open spec fn registry_ok(s: Seq<HandleView>) -> bool {
    ids_unique(s) && rings_bounded(s)
}

proof fn lemma_oldest_unique(s: Seq<HandleView>, i: int, j: int)
    requires
        is_oldest_terminal(s, i),
        is_oldest_terminal(s, j),
    ensures
        i == j,
{
    if i < j {
        assert(stamp_of(s[j]) < stamp_of(s[i]));
    } else if j < i {
        assert(stamp_of(s[i]) < stamp_of(s[j]));
    }
}

proof fn lemma_remove_keeps_unique(s: Seq<HandleView>, k: int)
    requires
        registry_ok(s),
        0 <= k < s.len(),
    ensures
        registry_ok(s.remove(k)),
        forall|id: Seq<char>| has_id(s.remove(k), id) ==> has_id(s, id),
{
    let t = s.remove(k);
    assert forall|i: int| 0 <= i < t.len() implies events_bounded(#[trigger] t[i]) && output_consistent(t[i]) by {
        let a = if i < k { i } else { i + 1 };
        assert(t[i] == s[a]);
    }
    assert forall|i: int, j: int| 0 <= i < t.len() && 0 <= j < t.len() && i != j implies t[i].id
        != t[j].id by {
        let a = if i < k { i } else { i + 1 };
        let b = if j < k { j } else { j + 1 };
        assert(t[i] == s[a]);
        assert(t[j] == s[b]);
    }
    assert forall|id: Seq<char>| has_id(t, id) implies has_id(s, id) by {
        let i = choose|i: int| 0 <= i < t.len() && (#[trigger] t[i]).id == id;
        let a = if i < k { i } else { i + 1 };
        assert(s[a] == t[i]);
    }
}

proof fn lemma_pruned_keeps_unique(s: Seq<HandleView>, max_agents: nat)
    requires
        registry_ok(s),
    ensures
        registry_ok(pruned(s, max_agents)),
        pruned(s, max_agents).len() <= s.len(),
        forall|id: Seq<char>| has_id(pruned(s, max_agents), id) ==> has_id(s, id),
    decreases s.len(),
{
    if s.len() + 1 > max_agents && has_terminal(s) {
        lemma_oldest_exists(s);
        let k = oldest_terminal(s);
        lemma_remove_keeps_unique(s, k);
        lemma_pruned_keeps_unique(s.remove(k), max_agents);
    }
}

/// Once a subagent is admitted under an id, a second spawn under the same
/// id is refused as a duplicate and leaves the registry as it is.
pub proof fn lemma_duplicate_id_refused(
    s: Seq<HandleView>,
    id: Seq<char>,
    label: Seq<char>,
    mode: SubagentMode,
    limits: SubagentLimits,
    now: u64,
)
    requires
        admission(s, id, limits.max_agents as nat) is Ok,
    ensures
        ({
            let t = pruned(s, limits.max_agents as nat).push(fresh_view(id, label, mode, now, limits));
            &&& admission(t, id, limits.max_agents as nat) == Err::<Seq<HandleView>, SpawnError>(
                SpawnError::AlreadyExists,
            )
            &&& after_refusal(t, SpawnError::AlreadyExists, limits.max_agents as nat) == t
        }),
{
    let t = pruned(s, limits.max_agents as nat).push(fresh_view(id, label, mode, now, limits));
    assert(t[t.len() - 1].id == id);
}

/// Of two spawns under the same id, one after the other, at most one
/// succeeds; once the first has succeeded, the second is refused as a
/// duplicate and leaves the registry as it was.
pub proof fn lemma_one_of_two_spawns(
    s0: Seq<HandleView>,
    s1: Seq<HandleView>,
    s2: Seq<HandleView>,
    r1: Result<SubagentSpawnResponse, SpawnError>,
    r2: Result<SubagentSpawnResponse, SpawnError>,
    id: Seq<char>,
    label1: Seq<char>,
    label2: Seq<char>,
    mode1: SubagentMode,
    mode2: SubagentMode,
    limits: SubagentLimits,
    now1: u64,
    now2: u64,
)
    requires
        spawn_outcome(s0, s1, r1, id, label1, mode1, limits, now1),
        spawn_outcome(s1, s2, r2, id, label2, mode2, limits, now2),
    ensures
        !(r1 is Ok && r2 is Ok),
        r1 is Ok ==> (r2 matches Err(e) && e == SpawnError::AlreadyExists) && s2 == s1,
{
    if r1 is Ok {
        assert(s1[s1.len() - 1].id == id);
    }
}

/// After a successful spawn the registry holds at most `max_agents` entries.
pub proof fn lemma_admitted_within_capacity(s: Seq<HandleView>, id: Seq<char>, max_agents: nat)
    requires
        admission(s, id, max_agents) is Ok,
    ensures
        admission(s, id, max_agents)->Ok_0.len() + 1 <= max_agents,
{
}

/// With `max_agents == 0` every spawn is refused.
pub proof fn lemma_zero_capacity_refused(s: Seq<HandleView>, id: Seq<char>)
    ensures
        admission(s, id, 0) == Err::<Seq<HandleView>, SpawnError>(
            SpawnError::CapacityMisconfigured,
        ),
{
}

/// A spawn into a full registry with nothing to prune is refused and
/// leaves the registry as it is.
pub proof fn lemma_full_without_terminal_refused(s: Seq<HandleView>, id: Seq<char>, max_agents: nat)
    requires
        max_agents > 0,
        !has_id(s, id),
        s.len() >= max_agents,
        !has_terminal(s),
    ensures
        admission(s, id, max_agents) == Err::<Seq<HandleView>, SpawnError>(
            SpawnError::TooMany { max_agents: max_agents as usize },
        ),
        after_refusal(s, SpawnError::TooMany { max_agents: max_agents as usize }, max_agents)
            == s,
{
}

/// The subagents of one session.
pub struct SubagentManager {
    agents: Vec<SubagentHandle>,
}

impl View for SubagentManager {
    type V = Seq<HandleView>;

    closed spec fn view(&self) -> Seq<HandleView> {
        self.agents@.map_values(|h: SubagentHandle| h@)
    }
}

impl SubagentManager {
    /// The registry's invariant: no two entries share an id, and every
    /// event ring is within its bounds.
    pub open spec fn wf(&self) -> bool {
        registry_ok(self@)
    }

    pub fn new() -> (r: SubagentManager)
        ensures
            r@ == Seq::<HandleView>::empty(),
            r.wf(),
    {
        let r = SubagentManager { agents: Vec::new() };
        assert(r@ =~= Seq::<HandleView>::empty());
        r
    }

    pub fn len(&self) -> (r: usize)
        ensures
            r == self@.len(),
    {
        self.agents.len()
    }

    /// Where the entry with this id stands, if any.
    fn find(&self, id: &String) -> (r: Option<usize>)
        ensures
            match r {
                Some(i) => i < self@.len() && self@[i as int].id == id@,
                None => !has_id(self@, id@),
            },
    {
        let mut i: usize = 0;
        while i < self.agents.len()
            invariant
                i <= self.agents.len(),
                self@.len() == self.agents@.len(),
                forall|j: int| 0 <= j < i ==> (#[trigger] self@[j]).id != id@,
            decreases self.agents.len() - i,
        {
            let hid = String::from_str(self.agents[i].id());
            if hid == *id {
                return Some(i);
            }
            i += 1;
        }
        None
    }

    /// The terminated entry that pruning removes first, if any.
    fn find_oldest_terminal(&self) -> (r: Option<usize>)
        ensures
            match r {
                Some(i) => is_oldest_terminal(self@, i as int),
                None => !has_terminal(self@),
            },
    {
        let mut best: Option<usize> = None;
        let mut i: usize = 0;
        while i < self.agents.len()
            invariant
                i <= self.agents.len(),
                self@.len() == self.agents@.len(),
                match best {
                    Some(b) => is_oldest_terminal(self@.subrange(0, i as int), b as int) && b < i,
                    None => forall|j: int| 0 <= j < i ==> !is_terminal((#[trigger] self@[j]).status),
                },
            decreases self.agents.len() - i,
        {
            let ghost pre = self@.subrange(0, i as int);
            let ghost next = self@.subrange(0, i + 1);
            assert(self@[i as int] == self.agents@[i as int]@);
            if self.agents[i].status().is_terminal() {
                match best {
                    Some(b) => {
                        assert(pre[b as int] == self@[b as int]);
                        if self.agents[i].stamp() < self.agents[b].stamp() {
                            best = Some(i);
                            assert forall|j: int|
                                0 <= j < next.len() && is_terminal(
                                    (#[trigger] next[j]).status,
                                ) implies stamp_of(next[i as int]) <= stamp_of(next[j]) by {
                                if j < i {
                                    assert(next[j] == pre[j]);
                                }
                            }
                            assert forall|j: int|
                                0 <= j < i && is_terminal((#[trigger] next[j]).status) implies stamp_of(
                                    next[i as int],
                                ) < stamp_of(next[j]) by {
                                assert(next[j] == pre[j]);
                            }
                        } else {
                            assert forall|j: int|
                                0 <= j < next.len() && is_terminal(
                                    (#[trigger] next[j]).status,
                                ) implies stamp_of(next[b as int]) <= stamp_of(next[j]) by {
                                if j < i {
                                    assert(next[j] == pre[j]);
                                }
                            }
                            assert forall|j: int|
                                0 <= j < b && is_terminal((#[trigger] next[j]).status) implies stamp_of(
                                    next[b as int],
                                ) < stamp_of(next[j]) by {
                                assert(next[j] == pre[j]);
                            }
                        }
                    },
                    None => {
                        best = Some(i);
                        assert forall|j: int|
                            0 <= j < next.len() && is_terminal(
                                (#[trigger] next[j]).status,
                            ) implies stamp_of(next[i as int]) <= stamp_of(next[j]) by {
                            if j < i {
                                assert(next[j] == self@[j]);
                            }
                        }
                    },
                }
            } else {
                match best {
                    Some(b) => {
                        assert forall|j: int|
                            0 <= j < next.len() && is_terminal(
                                (#[trigger] next[j]).status,
                            ) implies stamp_of(next[b as int]) <= stamp_of(next[j]) by {
                            if j < i {
                                assert(next[j] == pre[j]);
                            }
                        }
                        assert forall|j: int|
                            0 <= j < b && is_terminal((#[trigger] next[j]).status) implies stamp_of(
                                next[b as int],
                            ) < stamp_of(next[j]) by {
                            assert(next[j] == pre[j]);
                        }
                    },
                    None => {},
                }
            }
            i += 1;
        }
        assert(self@.subrange(0, i as int) == self@);
        best
    }

    /// Removes the oldest terminated entry while the registry has no room
    /// for one more.
    fn prune_for_one_more(&mut self, max_agents: usize)
        requires
            old(self).wf(),
        ensures
            final(self)@ == pruned(old(self)@, max_agents as nat),
            final(self).wf(),
    {
        loop
            invariant
                self.wf(),
                pruned(self@, max_agents as nat) == pruned(old(self)@, max_agents as nat),
            decreases self@.len(),
        {
            if self.agents.len() < max_agents {
                return;
            }
            match self.find_oldest_terminal() {
                Some(k) => {
                    let ghost before = self@;
                    proof {
                        lemma_oldest_unique(before, k as int, oldest_terminal(before));
                        lemma_remove_keeps_unique(before, k as int);
                    }
                    self.agents.remove(k);
                    assert(self@ =~= before.remove(k as int));
                },
                None => {
                    return;
                },
            }
        }
    }

    /// Admits a subagent under an already resolved id. Refuses when
    /// `max_agents` is zero or the id is taken; when full, prunes the
    /// oldest terminated entries first and refuses if still full.
    pub fn spawn_with_id(
        &mut self,
        agent_id: String,
        label: String,
        mode: SubagentMode,
        limits: SubagentLimits,
        now: u64,
    ) -> (r: Result<SubagentSpawnResponse, SpawnError>)
        requires
            old(self).wf(),
        ensures
            final(self).wf(),
            spawn_outcome(old(self)@, final(self)@, r, agent_id@, label@, mode, limits, now),
    {
        let max_agents = limits.max_agents;
        if max_agents == 0 {
            return Err(SpawnError::CapacityMisconfigured);
        }
        if self.find(&agent_id).is_some() {
            return Err(SpawnError::AlreadyExists);
        }
        proof {
            lemma_pruned_keeps_unique(self@, max_agents as nat);
        }
        if self.agents.len() >= max_agents {
            self.prune_for_one_more(max_agents);
        } else {
            assert(pruned(self@, max_agents as nat) == self@);
        }
        if self.agents.len() >= max_agents {
            return Err(SpawnError::TooMany { max_agents });
        }
        let ghost before = self@;
        let resp = SubagentSpawnResponse {
            agent_id: agent_id.clone(),
            status: SubagentStatus::Queued,
            label: label.clone(),
            mode,
        };
        let h = SubagentHandle::new(
            agent_id,
            label,
            mode,
            now,
            limits.max_events,
            limits.max_event_chars,
            limits.max_output_chars,
        );
        self.agents.push(h);
        assert(self@ =~= before.push(h@));
        proof {
            assert forall|i: int, j: int|
                0 <= i < self@.len() && 0 <= j < self@.len() && i != j implies self@[i].id
                != self@[j].id by {
                if i == before.len() as int {
                    assert(self@[j] == before[j]);
                } else if j == before.len() as int {
                    assert(self@[i] == before[i]);
                }
            }
            assert forall|i: int| 0 <= i < self@.len() implies events_bounded(#[trigger] self@[i]) && output_consistent(self@[i]) by {
                if i < before.len() {
                    assert(self@[i] == before[i]);
                }
            }
        }
        Ok(resp)
    }

    /// Resolves the requested id (sanitised, or a fresh UUID when none is
    /// given) and admits the subagent under it.
    pub fn spawn_one_shot(
        &mut self,
        req: &SubagentSpawnRequest,
        limits: SubagentLimits,
        now: u64,
    ) -> (r: Result<SubagentSpawnResponse, SpawnError>)
        requires
            old(self).wf(),
        ensures
            final(self).wf(),
            match req.agent_id {
                Some(a) => match agent_id_of(a@) {
                    None => (r matches Err(e) && e == SpawnError::InvalidAgentId) && final(self)@
                        == old(self)@,
                    Some(id) => spawn_outcome(
                        old(self)@,
                        final(self)@,
                        r,
                        id,
                        req.label@,
                        req.mode,
                        limits,
                        now,
                    ),
                },
                None => exists|id: Seq<char>|
                    uuid_shaped(id) && spawn_outcome(
                        old(self)@,
                        final(self)@,
                        r,
                        id,
                        req.label@,
                        req.mode,
                        limits,
                        now,
                    ),
            },
            (r matches Err(e) && e == SpawnError::InvalidAgentId) <==> (req.agent_id matches Some(a)
                && agent_id_of(a@) is None),
            r matches Ok(resp) ==> in_charset(NameRule::AgentId, resp.agent_id@) && 0
                < resp.agent_id@.len() <= MAX_AGENT_ID_LEN,
    {
        let agent_id = match &req.agent_id {
            Some(requested) => match sanitize_agent_id(requested.as_str()) {
                Some(id) => {
                    proof {
                        lemma_sanitized_shape(NameRule::AgentId, requested@, MAX_AGENT_ID_LEN as nat);
                    }
                    id
                },
                None => {
                    return Err(SpawnError::InvalidAgentId);
                },
            },
            None => {
                let id = new_uuid_string();
                assert(uuid_shaped(id@));
                assert(in_charset(NameRule::AgentId, id@));
                id
            },
        };
        self.spawn_with_id(agent_id, req.label.clone(), req.mode, limits, now)
    }

    /// A snapshot of the subagent with this id, or `None` when unknown.
    pub fn poll(&self, agent_id: &str) -> (r: Option<SubagentPollResponse>)
        ensures
            match r {
                Some(p) => exists|i: int|
                    0 <= i < self@.len() && self@[i].id == agent_id@ && snapshot_of(p, #[trigger] self@[i]),
                None => !has_id(self@, agent_id@),
            },
    {
        let id = String::from_str(agent_id);
        match self.find(&id) {
            Some(i) => {
                assert(self@[i as int] == self.agents@[i as int]@);
                Some(self.agents[i].snapshot())
            },
            None => None,
        }
    }

    /// Trips the cancellation signal of the subagent with this id; `None`
    /// when unknown. Nothing waits for it to stop.
    pub fn cancel(&mut self, agent_id: &str) -> (r: Option<()>)
        requires
            old(self).wf(),
        ensures
            final(self).wf(),
            r is Some <==> has_id(old(self)@, agent_id@),
            r is None ==> final(self)@ == old(self)@,
            r is Some ==> exists|i: int|
                0 <= i < old(self)@.len() && old(self)@[i].id == agent_id@ && final(self)@
                    == old(self)@.update(i, next_view(#[trigger] old(self)@[i], Step::CancelRequested)),
    {
        let id = String::from_str(agent_id);
        match self.find(&id) {
            Some(i) => {
                let ghost before = self@;
                self.agents[i].request_cancel();
                assert(self@ =~= before.update(i as int, next_view(before[i as int], Step::CancelRequested)));
                assert(self.wf()) by {
                    assert forall|a: int, b: int|
                        0 <= a < self@.len() && 0 <= b < self@.len() && a != b implies self@[a].id
                        != self@[b].id by {
                        assert(self@[a].id == before[a].id);
                        assert(self@[b].id == before[b].id);
                    }
                    assert forall|a: int| 0 <= a < self@.len() implies events_bounded(#[trigger] self@[a]) && output_consistent(self@[a]) by {
                        if a != i {
                            assert(self@[a] == before[a]);
                        } else {
                            assert(events_bounded(before[a]) && output_consistent(before[a]));
                        }
                    }
                }
                Some(())
            },
            None => None,
        }
    }

    /// Snapshots of every subagent, in registry order.
    pub fn list(&self) -> (r: Vec<SubagentPollResponse>)
        ensures
            r@.len() == self@.len(),
            forall|i: int| 0 <= i < r@.len() ==> snapshot_of(#[trigger] r@[i], self@[i]),
    {
        let mut out: Vec<SubagentPollResponse> = Vec::new();
        let mut i: usize = 0;
        while i < self.agents.len()
            invariant
                i <= self.agents.len(),
                self@.len() == self.agents@.len(),
                out@.len() == i,
                forall|j: int| 0 <= j < i ==> snapshot_of(#[trigger] out@[j], self@[j]),
            decreases self.agents.len() - i,
        {
            assert(self@[i as int] == self.agents@[i as int]@);
            out.push(self.agents[i].snapshot());
            i += 1;
        }
        out
    }

    /// Makes one driver transition on the subagent with this id. Returns
    /// `None`, changing nothing, when the id is unknown or the transition
    /// does not apply in the subagent's current status; for an engine
    /// event, returns what the driver does next.
    pub fn apply(&mut self, agent_id: &str, step: DriverStep, now: u64) -> (r: Option<PumpAction>)
        requires
            old(self).wf(),
        ensures
            final(self).wf(),
            r is None ==> final(self)@ == old(self)@,
            r is Some ==> exists|i: int|
                0 <= i < old(self)@.len() && old(self)@[i].id == agent_id@
                    && crate::handle::step_allowed(#[trigger] old(self)@[i], step_of(step, now))
                    && final(self)@ == old(self)@.update(i, next_view(old(self)@[i], step_of(step, now))),
            (r is Some && step is Event) ==> r == Some(crate::handle::action_of(step->Event_0)),
            r is None ==> !has_id(old(self)@, agent_id@) || forall|i: int|
                0 <= i < old(self)@.len() && old(self)@[i].id == agent_id@ ==> !crate::handle::step_allowed(#[trigger] old(self)@[i], step_of(step, now)),
    {
        let id = String::from_str(agent_id);
        let i = match self.find(&id) {
            Some(i) => i,
            None => {
                return None;
            },
        };
        let ghost before = self@;
        let ghost st = step_of(step, now);
        assert(before[i as int] == self.agents@[i as int]@);
        let status = self.agents[i].status();
        let r = match step {
            DriverStep::Start => {
                if status != SubagentStatus::Queued {
                    return None;
                }
                self.agents[i].start(now);
                PumpAction::Continue
            },
            DriverStep::AbortBeforeStart => {
                if status != SubagentStatus::Queued {
                    return None;
                }
                self.agents[i].abort_before_start();
                PumpAction::ShutdownAndStop
            },
            DriverStep::Fail(f) => {
                if !(status == SubagentStatus::Running || status == SubagentStatus::Error) {
                    return None;
                }
                self.agents[i].fail(f);
                PumpAction::ShutdownAndStop
            },
            DriverStep::RolloutPath(p) => {
                self.agents[i].record_rollout_path(p, now);
                PumpAction::Continue
            },
            DriverStep::Event(e) => {
                if !(status == SubagentStatus::Running || status == SubagentStatus::Error) {
                    return None;
                }
                self.agents[i].on_event(e, now)
            },
            DriverStep::Cancelled => {
                if !(status == SubagentStatus::Running || status == SubagentStatus::Error) {
                    return None;
                }
                self.agents[i].on_cancelled();
                PumpAction::ShutdownAndStop
            },
            DriverStep::TimedOut(ms) => {
                if status == SubagentStatus::Queued {
                    return None;
                }
                self.agents[i].on_timeout(ms);
                PumpAction::ShutdownAndStop
            },
        };
        assert(self@ =~= before.update(i as int, next_view(before[i as int], st)));
        assert(self.wf()) by {
            assert forall|a: int, b: int|
                0 <= a < self@.len() && 0 <= b < self@.len() && a != b implies self@[a].id
                != self@[b].id by {
                assert(self@[a].id == before[a].id);
                assert(self@[b].id == before[b].id);
            }
            assert forall|a: int| 0 <= a < self@.len() implies events_bounded(#[trigger] self@[a]) && output_consistent(self@[a]) by {
                if a != i {
                    assert(self@[a] == before[a]);
                } else {
                    assert(events_bounded(before[a]) && output_consistent(before[a]));
                    lemma_events_stay_bounded(before[a], st);
                    lemma_output_stays_consistent(before[a], st);
                }
            }
        }
        Some(r)
    }
}

} // verus!
