//! The size of the process-wide concurrency limiter, and the time budget of
//! a waiting poll.
use vstd::prelude::*;
use crate::mode::{is_terminal, SubagentStatus};

verus! {

/// Most permits when none are configured.
pub const DEFAULT_MAX_PERMITS: usize = 4;
/// Most permits that can be configured.
pub const MAX_CONFIGURED_PERMITS: usize = 64;

pub open spec fn clamp(x: nat, lo: nat, hi: nat) -> nat {
    if x < lo {
        lo
    } else if x > hi {
        hi
    } else {
        x
    }
}

/// The permits when none are configured: the machine's parallelism (2
/// when it cannot be read), between 1 and 4.
pub fn default_max_concurrency(available_parallelism: Option<usize>) -> (r: usize)
    ensures
        r == clamp(
            match available_parallelism {
                Some(n) => n as nat,
                None => 2,
            },
            1,
            DEFAULT_MAX_PERMITS as nat,
        ),
        1 <= r <= DEFAULT_MAX_PERMITS,
{
    let n = match available_parallelism {
        Some(n) => n,
        None => 2,
    };
    if n < 1 {
        1
    } else if n > DEFAULT_MAX_PERMITS {
        DEFAULT_MAX_PERMITS
    } else {
        n
    }
}

/// The permits of the limiter: the configured count, else the default,
/// between 1 and 64.
pub fn limiter_permits(configured: Option<usize>, available_parallelism: Option<usize>) -> (r: usize)
    ensures
        r == clamp(
            match configured {
                Some(n) => n as nat,
                None => clamp(
                    match available_parallelism {
                        Some(p) => p as nat,
                        None => 2,
                    },
                    1,
                    DEFAULT_MAX_PERMITS as nat,
                ),
            },
            1,
            MAX_CONFIGURED_PERMITS as nat,
        ),
        1 <= r <= MAX_CONFIGURED_PERMITS,
{
    let n = match configured {
        Some(n) => n,
        None => default_max_concurrency(available_parallelism),
    };
    if n < 1 {
        1
    } else if n > MAX_CONFIGURED_PERMITS {
        MAX_CONFIGURED_PERMITS
    } else {
        n
    }
}

/// What a poll does after taking a snapshot.
#[derive(Debug, Clone, Copy, PartialEq, Eq, Structural)]
pub enum PollStep {
    /// Return the snapshot.
    Return,
    /// Wait for a change, at most this many nanoseconds, then look again.
    Wait(u128),
}

/// The poll's budget in nanoseconds: `None` for an immediate snapshot.
pub fn poll_budget(await_ms: Option<u64>) -> (r: Option<u128>)
    ensures
        r == match await_ms {
            Some(ms) => Some((ms as nat * 1_000_000) as u128),
            None => None::<u128>,
        },
{
    match await_ms {
        Some(ms) => Some(ms as u128 * 1_000_000),
        None => None,
    }
}

/// Returns at once without a budget or once the subagent has finished;
/// otherwise waits for at most the remaining budget.
pub fn poll_step(status: SubagentStatus, remaining: Option<u128>) -> (r: PollStep)
    ensures
        r == match remaining {
            Some(left) => if is_terminal(status) {
                PollStep::Return
            } else {
                PollStep::Wait(left)
            },
            None => PollStep::Return,
        },
{
    match remaining {
        Some(left) => if status.is_terminal() {
            PollStep::Return
        } else {
            PollStep::Wait(left)
        },
        None => PollStep::Return,
    }
}

/// The budget after a wait of `elapsed`: `None` once it is overspent.
pub fn remaining_after(left: u128, elapsed: u128) -> (r: Option<u128>)
    ensures
        match budget_after(left as nat, seq![elapsed as nat]) {
            Some(n) => r == Some(n as u128),
            None => r is None,
        },
{
    assert(seq![elapsed as nat].drop_first() == Seq::<nat>::empty());
    if elapsed > left {
        None
    } else {
        assert(budget_after((left - elapsed) as nat, Seq::<nat>::empty()) == Some(
            (left - elapsed) as nat,
        ));
        Some(left - elapsed)
    }
}

/// The budget left after waits of `es`, in order: `None` once a wait
/// overspends it.
pub open spec fn budget_after(b: nat, es: Seq<nat>) -> Option<nat>
    decreases es.len(),
{
    if es.len() == 0 {
        Some(b)
    } else if es[0] > b {
        None
    } else {
        budget_after((b - es[0]) as nat, es.drop_first())
    }
}

pub open spec fn total(es: Seq<nat>) -> nat
    decreases es.len(),
{
    if es.len() == 0 {
        0
    } else {
        es[0] + total(es.drop_first())
    }
}

/// While a poll keeps a budget, the time it has waited and the budget
/// left add up to what it was given: it never waits past its deadline,
/// and it returns at the first snapshot after a wait overspends it.
pub proof fn lemma_poll_within_budget(b: nat, es: Seq<nat>)
    ensures
        budget_after(b, es) matches Some(r) ==> total(es) + r == b,
        budget_after(b, es) is None ==> total(es) > b,
    decreases es.len(),
{
    if es.len() > 0 && es[0] <= b {
        lemma_poll_within_budget((b - es[0]) as nat, es.drop_first());
    }
}

} // verus!
