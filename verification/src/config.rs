//! The settings a node starts with.

use vstd::prelude::*;

use crate::entry::NodeId;
use crate::raft::{IpAddress, Node, State};

verus! {

/// What is wrong with a configuration.
#[derive(Debug, Clone, Copy, PartialEq, Eq, Structural)]
pub enum ConfigError {
    /// The heartbeat timeout is zero.
    NoHeartbeat,
    /// The shortest election timeout is not longer than the heartbeat
    /// timeout: followers would give a healthy leader up.
    ElectionTooEarly,
    /// The longest election timeout is shorter than the shortest.
    EmptyElectionWindow,
    /// What is to be restored is not the log of a node of its term: its
    /// entries are not numbered from 1 without a gap, or a term goes down
    /// from one entry to the next, or is above the node's.
    CorruptLog,
}

/// The settings of one node.
#[derive(Debug)]
pub struct RaftConfig {
    /// The id of the node.
    pub id: NodeId,
    /// The address the node listens on.
    pub ip: IpAddress,
    /// The port the node listens on.
    pub port: u32,
    /// The other nodes of the cluster.
    pub nodes: Vec<Node>,
    /// How long a leader waits between two heartbeats.
    pub heartbeat_timeout: u64,
    /// The shortest wait before a node without a leader seeks election.
    pub min_election_timeout: u64,
    /// The longest wait before a node without a leader seeks election.
    pub max_election_timeout: u64,
}

/// What is wrong with these timeouts, if anything: the heartbeat timeout is
/// looked at first, then the start of the election window, then its end.
pub open spec fn fault(heartbeat: u64, min_election: u64, max_election: u64) -> Option<
    ConfigError,
> {
    if heartbeat == 0 {
        Some(ConfigError::NoHeartbeat)
    } else if min_election <= heartbeat {
        Some(ConfigError::ElectionTooEarly)
    } else if max_election < min_election {
        Some(ConfigError::EmptyElectionWindow)
    } else {
        None
    }
}

impl RaftConfig {
    /// What is wrong with the configuration, if anything.
    pub open spec fn fault(&self) -> Option<ConfigError> {
        fault(self.heartbeat_timeout, self.min_election_timeout, self.max_election_timeout)
    }

    /// The settings of a node that is alone in its cluster, with the
    /// timeouts of [`State::default`]: a heartbeat every 2 and an election
    /// window from 10 to 1000.
    pub fn new(id: NodeId, ip: IpAddress, port: u32) -> (config: RaftConfig)
        ensures
            config.id == id,
            config.ip == ip,
            config.port == port,
            config.nodes@ == Seq::<Node>::empty(),
            config.heartbeat_timeout == 2,
            config.min_election_timeout == 10,
            config.max_election_timeout == 1000,
            config.fault() is None,
    {
        let timeouts = State::default();
        RaftConfig {
            id,
            ip,
            port,
            nodes: Vec::new(),
            heartbeat_timeout: timeouts.heartbeat_timeout,
            min_election_timeout: timeouts.min_election_timeout,
            max_election_timeout: timeouts.max_election_timeout,
        }
    }

    /// Checks the timeouts: the heartbeat timeout is positive and shorter
    /// than every election timeout, and the election window is not empty.
    pub fn validate(&self) -> (r: Result<(), ConfigError>)
        ensures
            match r {
                Ok(()) => self.fault() is None,
                Err(e) => self.fault() == Some(e),
            },
    {
        if self.heartbeat_timeout == 0 {
            Err(ConfigError::NoHeartbeat)
        } else if self.min_election_timeout <= self.heartbeat_timeout {
            Err(ConfigError::ElectionTooEarly)
        } else if self.max_election_timeout < self.min_election_timeout {
            Err(ConfigError::EmptyElectionWindow)
        } else {
            Ok(())
        }
    }
}

impl Default for RaftConfig {
    /// The settings of node 1 at 127.0.0.1, port 6669, alone in its cluster.
    fn default() -> (config: RaftConfig)
        ensures
            config.id == 1,
            config.ip == IpAddress::V4(0x7f00_0001),
            config.port == 6669,
            config.nodes@ == Seq::<Node>::empty(),
            config.fault() is None,
    {
        RaftConfig::new(1, IpAddress::V4(0x7f00_0001), 6669)
    }
}

} // verus!
