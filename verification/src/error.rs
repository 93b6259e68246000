//! Failures that the state machine reports to its driver.

use vstd::prelude::*;

use crate::entry::NodeId;

verus! {

/// Why a command, or a step inside one, was not carried out.
#[derive(Debug, Clone, Copy, PartialEq, Eq, Structural)]
pub enum Error {
    /// The command is served by the leader alone; `leader_hint` names the
    /// leader this node last heard from, if any.
    NotLeader { leader_hint: Option<NodeId> },
    /// A term that is older than the node's own.
    StaleTerm,
    /// The log does not hold the entry that an append builds on.
    LogInconsistency,
    /// Durable storage failed; the node must halt.
    Persistence,
    /// The command is malformed; the node ignored it.
    InvalidCommand,
}

} // verus!
