//! A node as its driver holds it: it outlives the commands it turns down,
//! and halts when storage fails.

use vstd::prelude::*;

use crate::config::RaftConfig;
use crate::error::Error;
use crate::model::{in_window, initial_node, outcome, refusal, wf};
use crate::raft::{Command, CommandSpec, Io, Node, RaftHandle};
use crate::timer::election_timeout;

verus! {

/// A participant in the cluster: the node, as long as it runs.
pub struct Participant<I: Io> {
    /// The node; `None` once storage has failed and the node has halted.
    pub handle: Option<RaftHandle<I>>,
}

/// What applying a command to a participant may do, given the length of the
/// next election timeout. A participant that has halted stays halted and
/// reports a persistence error. A command that the node turns down gives
/// the error of the refusal and leaves the participant as it is. Else the
/// node takes the step and stores what it changed, as [`outcome`] says; a
/// persistence error halts it.
pub open spec fn applied<I: Io>(
    before: Participant<I>,
    c: CommandSpec,
    draw: u64,
    after: Participant<I>,
    r: Result<(), Error>,
) -> bool {
    match before.handle {
        None => r == Err::<(), Error>(Error::Persistence) && after.handle is None,
        Some(node) => match refusal(node@, c) {
            Some(e) => r == Err::<(), Error>(e) && after == before,
            None => match r {
                Ok(()) => after.handle matches Some(next) && outcome(node@, c, draw, Ok(next@)),
                Err(e) => e == Error::Persistence && after.handle is None && outcome(
                    node@,
                    c,
                    draw,
                    Err(e),
                ),
            },
        },
    }
}

impl<I: Io> Participant<I> {
    /// The invariant: the node, while it runs, is well formed.
    pub open spec fn wf(&self) -> bool {
        self.handle matches Some(node) ==> wf(node@)
    }

    /// A participant that runs a new node with these settings, which must
    /// be valid.
    pub fn new(config: RaftConfig, io: I) -> (participant: Participant<I>)
        requires
            config.fault() is None,
        ensures
            participant.handle matches Some(node) && node is Follower && exists|draw: u64|
                config.min_election_timeout <= draw <= config.max_election_timeout && node@
                    == #[trigger] initial_node(
                    Node { id: config.id, ip: config.ip, port: config.port },
                    config.nodes@,
                    config.heartbeat_timeout,
                    config.min_election_timeout,
                    config.max_election_timeout,
                    draw,
                    io.stored(),
                    io.reliable(),
                ),
            participant.wf(),
    {
        Participant { handle: Some(RaftHandle::new(config, io)) }
    }

    /// Whether the node has halted.
    pub fn halted(&self) -> (yes: bool)
        ensures
            yes == self.handle is None,
    {
        self.handle.is_none()
    }

    /// Applies `command` with the length of the next election timeout
    /// given: see [`applied`].
    pub fn step(&mut self, command: Command, draw: u64) -> (r: Result<(), Error>)
        requires
            old(self).wf(),
        ensures
            applied(*old(self), command@, draw, *final(self), r),
            final(self).wf(),
    {
        let refused = match &self.handle {
            None => Some(Error::Persistence),
            Some(node) => node.refuses(&command),
        };
        match refused {
            Some(e) => Err(e),
            None => {
                let node = self.handle.take();
                match node {
                    Some(node) => match node.step(command, draw) {
                        Ok(next) => {
                            self.handle = Some(next);
                            Ok(())
                        },
                        Err(e) => Err(e),
                    },
                    None => Err(Error::Persistence),
                }
            },
        }
    }

    /// Applies `command`; the length of the next election timeout is drawn
    /// from the node's election window.
    pub fn apply(&mut self, command: Command) -> (r: Result<(), Error>)
        requires
            old(self).wf(),
        ensures
            old(self).handle is None ==> applied(*old(self), command@, 0, *final(self), r),
            old(self).handle matches Some(node) ==> exists|draw: u64|
                in_window(node@, draw) && #[trigger] applied(
                    *old(self),
                    command@,
                    draw,
                    *final(self),
                    r,
                ),
            final(self).wf(),
    {
        let draw = match &self.handle {
            None => 0,
            Some(node) => {
                let state = node.state();
                election_timeout(state.min_election_timeout, state.max_election_timeout)
            },
        };
        let r = self.step(command, draw);
        proof {
            if old(self).handle is Some {
                assert(in_window(old(self).handle.unwrap()@, draw) && applied(
                    *old(self),
                    command@,
                    draw,
                    *self,
                    r,
                ));
            }
        }
        r
    }
}

} // verus!
