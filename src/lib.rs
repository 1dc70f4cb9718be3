//! Subagent orchestration: a registry of short-lived child sessions with
//! bounded capacity and pruning, the transitions a one-shot driver makes on
//! each child's record, the derivation of a child's configuration, approval
//! forwarding, the `subagent_*` and `delegate` tools, and custom agent
//! definitions with repo-over-user precedence.

pub mod approval;
pub mod config;
pub mod custom_agents;
pub mod handle;
pub mod handlers;
pub mod limits;
pub mod mode;
pub mod names;
pub mod registry;
pub mod skills;
pub mod text;
