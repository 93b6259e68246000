//! The three roles by name.

use vstd::prelude::*;

use crate::model::RoleSpec;

verus! {

/// The role that a node plays.
#[derive(Debug, Clone, Copy, PartialEq, Eq, Structural)]
pub enum Role {
    /// Takes in what a leader sends.
    Follower,
    /// Seeks election.
    Candidate,
    /// Drives replication.
    Leader,
}

/// The name of the role that holds `role`.
pub open spec fn name_of(role: RoleSpec) -> Role {
    match role {
        RoleSpec::Follower { .. } => Role::Follower,
        RoleSpec::Candidate { .. } => Role::Candidate,
        RoleSpec::Leader { .. } => Role::Leader,
    }
}

} // verus!
