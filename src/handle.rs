//! One subagent's observable record and the transitions the one-shot
//! driver makes on it.
use vstd::prelude::*;
use crate::mode::{is_terminal, status_rank, SubagentMode, SubagentStatus};
use crate::text::{
    byte_len, chars_of, decimal, decimal_string, fit_count_of, lemma_truncate_fits, string_of,
    truncate_bytes,
};

verus! {

/// What the engine of a child session reports, reduced to what the driver reads.
pub enum EngineEvent {
    SessionConfigured { rollout_path: String },
    ExecApprovalRequest,
    ApplyPatchApprovalRequest,
    AgentMessage { message: String },
    Error { message: String },
    StreamError { message: String },
    TaskComplete { last_agent_message: Option<String> },
    TurnAborted,
    Other,
}

/// What the driver does after an engine event has been recorded.
#[derive(Debug, Clone, Copy, PartialEq, Eq, Structural)]
pub enum PumpAction {
    /// Read the next event.
    Continue,
    /// Ask the parent to decide on an exec approval, then read on.
    ForwardExecApproval,
    /// Ask the parent to decide on a patch approval, then read on.
    ForwardPatchApproval,
    /// Send `Interrupt` and `Shutdown` to the engine and stop.
    ShutdownAndStop,
}

/// A failure that ends a subagent with status `Error`.
pub enum Failure {
    /// The rollout to resume from could not be read.
    ResumeHistory(String),
    /// The engine could not be spawned.
    Spawn(String),
    /// A requested skill is not in the catalog.
    UnknownSkill(String),
    /// The initial input could not be submitted.
    Submit(String),
    /// Reading the engine's next event failed.
    Died(String),
}

/// The mathematical content of a [`SubagentHandle`].
pub struct HandleView {
    pub id: Seq<char>,
    pub label: Seq<char>,
    pub mode: SubagentMode,
    pub created_at: u64,
    pub max_events: nat,
    pub max_event_chars: nat,
    pub max_output_chars: nat,
    pub status: SubagentStatus,
    pub rollout_path: Option<Seq<char>>,
    pub final_output: Option<Seq<char>>,
    pub recent_events: Seq<Seq<char>>,
    pub last_update: Option<u64>,
    pub cancelled: bool,
}

/// One transition of a subagent's record.
pub enum Step {
    /// A concurrency permit was granted.
    Started { now: u64 },
    /// Cancellation won the race against the permit.
    AbortedBeforeStart,
    /// The run failed with this event text.
    Failed { message: Seq<char> },
    /// The engine announced its rollout file.
    RolloutRecorded { path: Seq<char>, now: u64 },
    /// The engine emitted an event while the driver pumps.
    Event { event: EngineEvent, now: u64 },
    /// The driver saw the cancellation signal while pumping.
    Cancelled,
    /// The deadline expired after this many milliseconds.
    TimedOut { ms: u64 },
    /// Somebody tripped the cancellation signal.
    CancelRequested,
}

pub open spec fn failure_message(f: Failure) -> Seq<char> {
    match f {
        Failure::ResumeHistory(e) => "failed to resume subagent history: "@ + e@,
        Failure::Spawn(e) => "failed to spawn subagent: "@ + e@,
        Failure::UnknownSkill(name) => "unknown skill requested: "@ + name@,
        Failure::Submit(e) => "failed to start subagent: "@ + e@,
        Failure::Died(e) => "subagent died: "@ + e@,
    }
}

pub open spec fn timeout_message(ms: u64) -> Seq<char> {
    "timed out after "@ + decimal(ms as nat) + "ms"@
}

/// The event ring after appending `msg`, cut to the per-event byte budget;
/// when the ring is full its oldest entry leaves first. A ring of no
/// entries stores nothing.
pub open spec fn ring_push(
    events: Seq<Seq<char>>,
    msg: Seq<char>,
    max_events: nat,
    max_event_chars: nat,
) -> Seq<Seq<char>> {
    if max_events == 0 {
        events
    } else {
        let kept = if events.len() >= max_events && events.len() > 0 {
            events.drop_first()
        } else {
            events
        };
        kept.push(truncate_bytes(msg, max_event_chars))
    }
}

/// `Aborted`, unless the run already ended in `Error`, which stays.
pub open spec fn aborted_unless_error(s: SubagentStatus) -> SubagentStatus {
    if s == SubagentStatus::Error {
        SubagentStatus::Error
    } else {
        SubagentStatus::Aborted
    }
}

pub open spec fn with_event(v: HandleView, msg: Seq<char>) -> HandleView {
    HandleView {
        recent_events: ring_push(v.recent_events, msg, v.max_events, v.max_event_chars),
        ..v
    }
}

pub open spec fn capped(v: HandleView, m: Option<String>) -> Option<Seq<char>> {
    match m {
        Some(t) => Some(truncate_bytes(t@, v.max_output_chars)),
        None => None,
    }
}

/// The record after an engine event. A stream error followed by task
/// completion leaves the run in `Error`, keeping the error's text as the
/// final output (the completion's message fills it only when it is empty);
/// a turn abort or cancellation after an error keeps `Error` as well.
pub open spec fn after_event(v: HandleView, event: EngineEvent, now: u64) -> HandleView {
    match event {
        EngineEvent::SessionConfigured { rollout_path } => HandleView {
            rollout_path: Some(rollout_path@),
            last_update: Some(now),
            ..v
        },
        EngineEvent::AgentMessage { message } => with_event(
            HandleView { last_update: Some(now), ..v },
            message@,
        ),
        EngineEvent::Error { message } => with_event(
            HandleView {
                status: SubagentStatus::Error,
                final_output: Some(truncate_bytes(message@, v.max_output_chars)),
                last_update: Some(now),
                ..v
            },
            "error: "@ + message@,
        ),
        EngineEvent::StreamError { message } => with_event(
            HandleView {
                status: SubagentStatus::Error,
                final_output: Some(truncate_bytes(message@, v.max_output_chars)),
                last_update: Some(now),
                ..v
            },
            "stream error: "@ + message@,
        ),
        EngineEvent::TaskComplete { last_agent_message } => {
            let out = capped(v, last_agent_message);
            let v1 = if v.status != SubagentStatus::Error {
                HandleView { status: SubagentStatus::Complete, final_output: out, ..v }
            } else if v.final_output is None {
                HandleView { final_output: out, ..v }
            } else {
                v
            };
            with_event(HandleView { last_update: Some(now), ..v1 }, "complete"@)
        },
        EngineEvent::TurnAborted => with_event(
            HandleView { status: aborted_unless_error(v.status), last_update: Some(now), ..v },
            "aborted"@,
        ),
        _ => v,
    }
}

pub open spec fn action_of(event: EngineEvent) -> PumpAction {
    match event {
        EngineEvent::ExecApprovalRequest => PumpAction::ForwardExecApproval,
        EngineEvent::ApplyPatchApprovalRequest => PumpAction::ForwardPatchApproval,
        EngineEvent::TaskComplete { .. } => PumpAction::ShutdownAndStop,
        EngineEvent::TurnAborted => PumpAction::ShutdownAndStop,
        _ => PumpAction::Continue,
    }
}

/// The record after one transition.
pub open spec fn next_view(v: HandleView, step: Step) -> HandleView {
    match step {
        Step::Started { now } => with_event(
            HandleView { status: SubagentStatus::Running, last_update: Some(now), ..v },
            "running"@,
        ),
        Step::AbortedBeforeStart => HandleView { status: SubagentStatus::Aborted, ..v },
        Step::Failed { message } => with_event(
            HandleView { status: SubagentStatus::Error, ..v },
            message,
        ),
        Step::RolloutRecorded { path, now } => HandleView {
            rollout_path: Some(path),
            last_update: Some(now),
            ..v
        },
        Step::Event { event, now } => after_event(v, event, now),
        Step::Cancelled => with_event(
            HandleView { status: aborted_unless_error(v.status), ..v },
            "cancelled"@,
        ),
        Step::TimedOut { ms } => with_event(
            HandleView {
                cancelled: true,
                status: if v.status == SubagentStatus::Running {
                    SubagentStatus::Error
                } else {
                    v.status
                },
                ..v
            },
            timeout_message(ms),
        ),
        Step::CancelRequested => HandleView { cancelled: true, ..v },
    }
}

/// The driver is past its permit and has not stopped pumping.
pub open spec fn in_flight(s: SubagentStatus) -> bool {
    s == SubagentStatus::Running || s == SubagentStatus::Error
}

/// The states from which the driver takes each transition.
pub open spec fn step_allowed(v: HandleView, step: Step) -> bool {
    match step {
        Step::Started { .. } => v.status == SubagentStatus::Queued,
        Step::AbortedBeforeStart => v.status == SubagentStatus::Queued,
        Step::Failed { .. } => in_flight(v.status),
        Step::Event { .. } => in_flight(v.status),
        Step::Cancelled => in_flight(v.status),
        Step::TimedOut { .. } => v.status != SubagentStatus::Queued,
        _ => true,
    }
}

/// The ring holds at most `max_events` entries, each within the byte budget.
pub open spec fn events_bounded(v: HandleView) -> bool {
    &&& v.recent_events.len() <= v.max_events
    &&& forall|i: int|
        0 <= i < v.recent_events.len() ==> byte_len(#[trigger] v.recent_events[i])
            <= v.max_event_chars
}

proof fn lemma_with_event_bounded(v: HandleView, msg: Seq<char>)
    requires
        events_bounded(v),
    ensures
        events_bounded(with_event(v, msg)),
{
    if v.max_events == 0 {
        return;
    }
    let w = with_event(v, msg);
    lemma_truncate_fits(msg, v.max_event_chars);
    let kept = if v.recent_events.len() >= v.max_events && v.recent_events.len() > 0 {
        v.recent_events.drop_first()
    } else {
        v.recent_events
    };
    assert forall|i: int| 0 <= i < w.recent_events.len() implies byte_len(
        #[trigger] w.recent_events[i],
    ) <= w.max_event_chars by {
        if i < kept.len() {
            if v.recent_events.len() >= v.max_events && v.recent_events.len() > 0 {
                assert(kept[i] == v.recent_events[i + 1]);
            }
        }
    }
}

/// Every transition keeps the ring within its bounds.
pub proof fn lemma_events_stay_bounded(v: HandleView, step: Step)
    requires
        events_bounded(v),
    ensures
        events_bounded(next_view(v, step)),
{
    match step {
        Step::Event { event, now } => {
            match event {
                EngineEvent::TaskComplete { last_agent_message } => {
                    let out = capped(v, last_agent_message);
                    let v1 = if v.status != SubagentStatus::Error {
                        HandleView { status: SubagentStatus::Complete, final_output: out, ..v }
                    } else if v.final_output is None {
                        HandleView { final_output: out, ..v }
                    } else {
                        v
                    };
                    lemma_with_event_bounded(HandleView { last_update: Some(now), ..v1 }, "complete"@);
                },
                EngineEvent::AgentMessage { message } => {
                    lemma_with_event_bounded(HandleView { last_update: Some(now), ..v }, message@);
                },
                EngineEvent::Error { message } => {
                    let v1 = HandleView {
                        status: SubagentStatus::Error,
                        final_output: Some(truncate_bytes(message@, v.max_output_chars)),
                        last_update: Some(now),
                        ..v
                    };
                    lemma_with_event_bounded(v1, "error: "@ + message@);
                },
                EngineEvent::StreamError { message } => {
                    let v1 = HandleView {
                        status: SubagentStatus::Error,
                        final_output: Some(truncate_bytes(message@, v.max_output_chars)),
                        last_update: Some(now),
                        ..v
                    };
                    lemma_with_event_bounded(v1, "stream error: "@ + message@);
                },
                EngineEvent::TurnAborted => {
                    lemma_with_event_bounded(
                        HandleView { status: aborted_unless_error(v.status), last_update: Some(now), ..v },
                        "aborted"@,
                    );
                },
                _ => {},
            }
        },
        Step::Started { now } => {
            lemma_with_event_bounded(
                HandleView { status: SubagentStatus::Running, last_update: Some(now), ..v },
                "running"@,
            );
        },
        Step::Failed { message } => {
            lemma_with_event_bounded(HandleView { status: SubagentStatus::Error, ..v }, message);
        },
        Step::Cancelled => {
            lemma_with_event_bounded(HandleView { status: aborted_unless_error(v.status), ..v }, "cancelled"@);
        },
        Step::TimedOut { ms } => {
            let v1 = HandleView {
                cancelled: true,
                status: if v.status == SubagentStatus::Running {
                    SubagentStatus::Error
                } else {
                    v.status
                },
                ..v
            };
            lemma_with_event_bounded(v1, timeout_message(ms));
        },
        _ => {},
    }
}

/// Status only moves forward along `Queued < Running < terminal`, and a
/// terminal status never changes.
pub proof fn lemma_status_monotone(v: HandleView, step: Step)
    requires
        step_allowed(v, step),
    ensures
        status_rank(v.status) <= status_rank(next_view(v, step).status),
        is_terminal(v.status) ==> next_view(v, step).status == v.status,
{
}

/// A final output is present only once the run has completed or failed.
pub open spec fn output_consistent(v: HandleView) -> bool {
    v.final_output is Some ==> (v.status == SubagentStatus::Complete || v.status
        == SubagentStatus::Error)
}

/// Every transition keeps a final output tied to `Complete` or `Error`.
pub proof fn lemma_output_stays_consistent(v: HandleView, step: Step)
    requires
        step_allowed(v, step),
        output_consistent(v),
    ensures
        output_consistent(next_view(v, step)),
{
}

/// The driver's stopping transitions leave a terminal status behind.
pub proof fn lemma_stops_are_terminal(v: HandleView, step: Step)
    requires
        step_allowed(v, step),
        match step {
            Step::Event { event, .. } => action_of(event) == PumpAction::ShutdownAndStop,
            Step::Started { .. } | Step::RolloutRecorded { .. } | Step::CancelRequested => false,
            _ => true,
        },
    ensures
        is_terminal(next_view(v, step).status),
{
}

/// Cancelling a subagent that has already finished changes nothing but the
/// cancellation signal itself.
pub proof fn lemma_cancel_after_finish_is_noop(v: HandleView)
    requires
        is_terminal(v.status),
    ensures
        next_view(v, Step::CancelRequested) == (HandleView { cancelled: true, ..v }),
        next_view(v, Step::CancelRequested).status == v.status,
        next_view(v, Step::CancelRequested).recent_events == v.recent_events,
        next_view(v, Step::CancelRequested).final_output == v.final_output,
{
}

/// A deadline that expires while the run is going ends it in `Error`, with
/// the timeout as its latest event.
pub proof fn lemma_timeout_ends_in_error(v: HandleView, ms: u64)
    requires
        v.status == SubagentStatus::Running,
    ensures
        next_view(v, Step::TimedOut { ms }).status == SubagentStatus::Error,
        next_view(v, Step::TimedOut { ms }).cancelled,
        v.max_events > 0 ==> next_view(v, Step::TimedOut { ms }).recent_events.last() == truncate_bytes(
            timeout_message(ms),
            v.max_event_chars,
        ),
{
}

/// A subagent's record: identity, ring-buffer caps and mutable state.
pub struct SubagentHandle {
    id: String,
    label: String,
    mode: SubagentMode,
    created_at: u64,
    max_events: usize,
    max_event_chars: usize,
    max_output_chars: usize,
    status: SubagentStatus,
    rollout_path: Option<String>,
    final_output: Option<String>,
    recent_events: Vec<String>,
    last_update: Option<u64>,
    cancelled: bool,
}

impl View for SubagentHandle {
    type V = HandleView;

    closed spec fn view(&self) -> HandleView {
        HandleView {
            id: self.id@,
            label: self.label@,
            mode: self.mode,
            created_at: self.created_at,
            max_events: self.max_events as nat,
            max_event_chars: self.max_event_chars as nat,
            max_output_chars: self.max_output_chars as nat,
            status: self.status,
            rollout_path: self.rollout_path.deep_view(),
            final_output: self.final_output.deep_view(),
            recent_events: self.recent_events.deep_view(),
            last_update: self.last_update,
            cancelled: self.cancelled,
        }
    }
}

/// A snapshot of a subagent, as `poll` and `list` report it.
pub struct SubagentPollResponse {
    pub agent_id: String,
    pub status: SubagentStatus,
    pub label: String,
    pub mode: SubagentMode,
    pub rollout_path: Option<String>,
    pub final_output: Option<String>,
    pub recent_events: Vec<String>,
}

/// The snapshot agrees with the record.
pub open spec fn snapshot_of(r: SubagentPollResponse, v: HandleView) -> bool {
    &&& r.agent_id@ == v.id
    &&& r.status == v.status
    &&& r.label@ == v.label
    &&& r.mode == v.mode
    &&& r.rollout_path.deep_view() == v.rollout_path
    &&& r.final_output.deep_view() == v.final_output
    &&& r.recent_events.deep_view() == v.recent_events
}

fn clone_opt(o: &Option<String>) -> (r: Option<String>)
    ensures
        r.deep_view() == o.deep_view(),
{
    match o {
        Some(s) => Some(s.clone()),
        None => None,
    }
}

fn clone_all(v: &Vec<String>) -> (r: Vec<String>)
    ensures
        r.deep_view() == v.deep_view(),
{
    let mut r: Vec<String> = Vec::new();
    let mut i: usize = 0;
    while i < v.len()
        invariant
            i <= v.len(),
            r.len() == i,
            forall|j: int| 0 <= j < i ==> r@[j]@ == v@[j]@,
        decreases v.len() - i,
    {
        r.push(v[i].clone());
        i += 1;
    }
    assert(r.deep_view() =~= v.deep_view());
    r
}

/// `prefix` followed by `s`.
fn prefixed(prefix: &str, s: &str) -> (r: String)
    ensures
        r@ == prefix@ + s@,
{
    let mut r = String::from_str(prefix);
    r.append(s);
    r
}

/// `msg` cut to at most `max` bytes at a character boundary.
pub fn cap_text(msg: &str, max: usize) -> (r: String)
    ensures
        r@ == truncate_bytes(msg@, max as nat),
{
    let v = chars_of(msg);
    let n = fit_count_of(&v, max);
    string_of(&v, 0, n)
}

impl SubagentHandle {
    /// A fresh record in status `Queued`, with no events.
    pub fn new(
        id: String,
        label: String,
        mode: SubagentMode,
        created_at: u64,
        max_events: usize,
        max_event_chars: usize,
        max_output_chars: usize,
    ) -> (r: SubagentHandle)
        ensures
            r@ == (HandleView {
                id: id@,
                label: label@,
                mode,
                created_at,
                max_events: max_events as nat,
                max_event_chars: max_event_chars as nat,
                max_output_chars: max_output_chars as nat,
                status: SubagentStatus::Queued,
                rollout_path: None,
                final_output: None,
                recent_events: Seq::empty(),
                last_update: None,
                cancelled: false,
            }),
    {
        let r = SubagentHandle {
            id,
            label,
            mode,
            created_at,
            max_events,
            max_event_chars,
            max_output_chars,
            status: SubagentStatus::Queued,
            rollout_path: None,
            final_output: None,
            recent_events: Vec::new(),
            last_update: None,
            cancelled: false,
        };
        assert(r.recent_events.deep_view() =~= Seq::<Seq<char>>::empty());
        r
    }

    pub fn id(&self) -> (r: &str)
        ensures
            r@ == self@.id,
    {
        self.id.as_str()
    }

    pub fn status(&self) -> (r: SubagentStatus)
        ensures
            r == self@.status,
    {
        self.status
    }

    /// When the record last changed, falling back to its creation time:
    /// the age by which terminated records are pruned.
    pub fn stamp(&self) -> (r: u64)
        ensures
            r == stamp_of(self@),
    {
        match self.last_update {
            Some(t) => t,
            None => self.created_at,
        }
    }

    /// Appends `message` to the event ring.
    fn push_event(&mut self, message: &str)
        ensures
            final(self)@ == with_event(old(self)@, message@),
    {
        if self.max_events == 0 {
            return;
        }
        let e = cap_text(message, self.max_event_chars);
        let ghost before = self.recent_events.deep_view();
        if self.recent_events.len() >= self.max_events && self.recent_events.len() > 0 {
            self.recent_events.remove(0);
            assert(self.recent_events.deep_view() =~= before.drop_first());
        }
        let ghost mid = self.recent_events.deep_view();
        self.recent_events.push(e);
        assert(self.recent_events.deep_view() =~= mid.push(e@));
    }

    /// The permit was granted: the run starts.
    pub fn start(&mut self, now: u64)
        requires
            old(self)@.status == SubagentStatus::Queued,
        ensures
            final(self)@ == next_view(old(self)@, Step::Started { now }),
    {
        self.status = SubagentStatus::Running;
        self.last_update = Some(now);
        self.push_event("running");
    }

    /// Cancellation came before the permit.
    pub fn abort_before_start(&mut self)
        requires
            old(self)@.status == SubagentStatus::Queued,
        ensures
            final(self)@ == next_view(old(self)@, Step::AbortedBeforeStart),
    {
        self.status = SubagentStatus::Aborted;
    }

    /// The run failed; the failure's text goes to the ring.
    pub fn fail(&mut self, failure: Failure)
        requires
            in_flight(old(self)@.status),
        ensures
            final(self)@ == next_view(
                old(self)@,
                Step::Failed { message: failure_message(failure) },
            ),
    {
        self.status = SubagentStatus::Error;
        let msg = match failure {
            Failure::ResumeHistory(e) => prefixed("failed to resume subagent history: ", &e),
            Failure::Spawn(e) => prefixed("failed to spawn subagent: ", &e),
            Failure::UnknownSkill(name) => prefixed("unknown skill requested: ", &name),
            Failure::Submit(e) => prefixed("failed to start subagent: ", &e),
            Failure::Died(e) => prefixed("subagent died: ", &e),
        };
        self.push_event(msg.as_str());
    }

    /// The engine announced its rollout file.
    pub fn record_rollout_path(&mut self, path: String, now: u64)
        ensures
            final(self)@ == next_view(
                old(self)@,
                Step::RolloutRecorded { path: path@, now },
            ),
    {
        self.rollout_path = Some(path);
        self.last_update = Some(now);
    }

    /// Records one engine event and says what the driver does next.
    pub fn on_event(&mut self, event: EngineEvent, now: u64) -> (r: PumpAction)
        requires
            in_flight(old(self)@.status),
        ensures
            final(self)@ == next_view(old(self)@, Step::Event { event, now }),
            r == action_of(event),
    {
        let ghost ev = event;
        match event {
            EngineEvent::SessionConfigured { rollout_path } => {
                self.rollout_path = Some(rollout_path);
                self.last_update = Some(now);
                PumpAction::Continue
            },
            EngineEvent::ExecApprovalRequest => PumpAction::ForwardExecApproval,
            EngineEvent::ApplyPatchApprovalRequest => PumpAction::ForwardPatchApproval,
            EngineEvent::AgentMessage { message } => {
                self.last_update = Some(now);
                self.push_event(message.as_str());
                PumpAction::Continue
            },
            EngineEvent::Error { message } => {
                self.status = SubagentStatus::Error;
                self.final_output = Some(cap_text(message.as_str(), self.max_output_chars));
                self.last_update = Some(now);
                let text = prefixed("error: ", message.as_str());
                self.push_event(text.as_str());
                PumpAction::Continue
            },
            EngineEvent::StreamError { message } => {
                self.status = SubagentStatus::Error;
                self.final_output = Some(cap_text(message.as_str(), self.max_output_chars));
                self.last_update = Some(now);
                let text = prefixed("stream error: ", message.as_str());
                self.push_event(text.as_str());
                PumpAction::Continue
            },
            EngineEvent::TaskComplete { last_agent_message } => {
                let out = match &last_agent_message {
                    Some(t) => Some(cap_text(t.as_str(), self.max_output_chars)),
                    None => None,
                };
                if self.status != SubagentStatus::Error {
                    self.status = SubagentStatus::Complete;
                    self.final_output = out;
                } else if self.final_output.is_none() {
                    self.final_output = out;
                }
                self.last_update = Some(now);
                self.push_event("complete");
                PumpAction::ShutdownAndStop
            },
            EngineEvent::TurnAborted => {
                if self.status != SubagentStatus::Error {
                    self.status = SubagentStatus::Aborted;
                }
                self.last_update = Some(now);
                self.push_event("aborted");
                PumpAction::ShutdownAndStop
            },
            EngineEvent::Other => PumpAction::Continue,
        }
    }

    /// The driver saw the cancellation signal while pumping: a running
    /// subagent ends `Aborted`, one that already failed stays `Error`.
    pub fn on_cancelled(&mut self)
        requires
            in_flight(old(self)@.status),
        ensures
            final(self)@ == next_view(old(self)@, Step::Cancelled),
    {
        if self.status != SubagentStatus::Error {
            self.status = SubagentStatus::Aborted;
        }
        self.push_event("cancelled");
    }

    /// The deadline expired: the run is cancelled, and a run still going is
    /// marked `Error`.
    pub fn on_timeout(&mut self, ms: u64)
        requires
            old(self)@.status != SubagentStatus::Queued,
        ensures
            final(self)@ == next_view(old(self)@, Step::TimedOut { ms }),
    {
        self.cancelled = true;
        if self.status == SubagentStatus::Running {
            self.status = SubagentStatus::Error;
        }
        let mut text = String::from_str("timed out after ");
        let digits = decimal_string(ms);
        text.append(digits.as_str());
        text.append("ms");
        self.push_event(text.as_str());
    }

    /// Trips the cancellation signal; nothing else changes.
    pub fn request_cancel(&mut self)
        ensures
            final(self)@ == next_view(old(self)@, Step::CancelRequested),
    {
        self.cancelled = true;
    }

    /// The record as `poll` reports it.
    pub fn snapshot(&self) -> (r: SubagentPollResponse)
        ensures
            snapshot_of(r, self@),
    {
        SubagentPollResponse {
            agent_id: self.id.clone(),
            status: self.status,
            label: self.label.clone(),
            mode: self.mode,
            rollout_path: clone_opt(&self.rollout_path),
            final_output: clone_opt(&self.final_output),
            recent_events: clone_all(&self.recent_events),
        }
    }
}

pub open spec fn stamp_of(v: HandleView) -> u64 {
    match v.last_update {
        Some(t) => t,
        None => v.created_at,
    }
}

} // verus!
