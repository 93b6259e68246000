//! The messages a node hands to its driver for delivery to other nodes.

use vstd::prelude::*;

use crate::entry::{clone_from, view_of, Entry, EntrySpec, NodeId};
use crate::raft::{Command, CommandSpec};

verus! {

/// A message for the node `to`. Each is delivered by applying the command of
/// the same name, with the same fields, to that node.
#[derive(Debug, PartialEq, Eq)]
pub enum Response {
    /// A candidate asks `to` for its vote.
    VoteRequest { to: NodeId, term: u64, candidate_id: NodeId, last_log_index: u64, last_log_term: u64 },
    /// A node answers the candidate `to`.
    VoteResponse { to: NodeId, term: u64, voter_id: NodeId, granted: bool },
    /// A leader sends entries, or none as a heartbeat, to the follower `to`.
    AppendEntries {
        to: NodeId,
        term: u64,
        leader_id: NodeId,
        prev_log_index: u64,
        prev_log_term: u64,
        entries: Vec<Entry>,
        leader_commit: u64,
    },
    /// A node answers an append of the leader `to`.
    AppendResponse { to: NodeId, term: u64, follower_id: NodeId, success: bool, match_index: u64 },
}

/// The mathematical value of a [`Response`].
pub enum ResponseSpec {
    VoteRequest { to: NodeId, term: u64, candidate_id: NodeId, last_log_index: u64, last_log_term: u64 },
    VoteResponse { to: NodeId, term: u64, voter_id: NodeId, granted: bool },
    AppendEntries {
        to: NodeId,
        term: u64,
        leader_id: NodeId,
        prev_log_index: u64,
        prev_log_term: u64,
        entries: Seq<EntrySpec>,
        leader_commit: u64,
    },
    AppendResponse { to: NodeId, term: u64, follower_id: NodeId, success: bool, match_index: u64 },
}

impl View for Response {
    type V = ResponseSpec;

    open spec fn view(&self) -> ResponseSpec {
        match *self {
            Response::VoteRequest { to, term, candidate_id, last_log_index, last_log_term } =>
                ResponseSpec::VoteRequest { to, term, candidate_id, last_log_index, last_log_term },
            Response::VoteResponse { to, term, voter_id, granted } => ResponseSpec::VoteResponse {
                to,
                term,
                voter_id,
                granted,
            },
            Response::AppendEntries {
                to,
                term,
                leader_id,
                prev_log_index,
                prev_log_term,
                entries,
                leader_commit,
            } => ResponseSpec::AppendEntries {
                to,
                term,
                leader_id,
                prev_log_index,
                prev_log_term,
                entries: view_of(entries@),
                leader_commit,
            },
            Response::AppendResponse { to, term, follower_id, success, match_index } =>
                ResponseSpec::AppendResponse { to, term, follower_id, success, match_index },
        }
    }
}

/// The values of a sequence of messages, in order.
pub open spec fn views(messages: Seq<Response>) -> Seq<ResponseSpec> {
    messages.map_values(|m: Response| m@)
}

/// The node that a message is for.
pub open spec fn receiver(m: ResponseSpec) -> NodeId {
    match m {
        ResponseSpec::VoteRequest { to, .. } => to,
        ResponseSpec::VoteResponse { to, .. } => to,
        ResponseSpec::AppendEntries { to, .. } => to,
        ResponseSpec::AppendResponse { to, .. } => to,
    }
}

/// The command that delivers a message to its receiver.
pub open spec fn delivery(m: ResponseSpec) -> CommandSpec {
    match m {
        ResponseSpec::VoteRequest { term, candidate_id, last_log_index, last_log_term, .. } =>
            CommandSpec::VoteRequest { term, candidate_id, last_log_index, last_log_term },
        ResponseSpec::VoteResponse { term, voter_id, granted, .. } => CommandSpec::VoteResponse {
            term,
            voter_id,
            granted,
        },
        ResponseSpec::AppendEntries {
            term,
            leader_id,
            prev_log_index,
            prev_log_term,
            entries,
            leader_commit,
            ..
        } => CommandSpec::AppendEntries {
            term,
            leader_id,
            prev_log_index,
            prev_log_term,
            entries,
            leader_commit,
        },
        ResponseSpec::AppendResponse { term, follower_id, success, match_index, .. } =>
            CommandSpec::AppendResponse { term, follower_id, success, match_index },
    }
}

impl Clone for Response {
    fn clone(&self) -> (copy: Response)
        ensures
            copy@ == self@,
    {
        match self {
            Response::VoteRequest { to, term, candidate_id, last_log_index, last_log_term } =>
                Response::VoteRequest {
                    to: *to,
                    term: *term,
                    candidate_id: *candidate_id,
                    last_log_index: *last_log_index,
                    last_log_term: *last_log_term,
                },
            Response::VoteResponse { to, term, voter_id, granted } => Response::VoteResponse {
                to: *to,
                term: *term,
                voter_id: *voter_id,
                granted: *granted,
            },
            Response::AppendEntries {
                to,
                term,
                leader_id,
                prev_log_index,
                prev_log_term,
                entries,
                leader_commit,
            } => {
                let copied = clone_from(entries, 0);
                assert(view_of(entries@).skip(0) =~= view_of(entries@));
                Response::AppendEntries {
                    to: *to,
                    term: *term,
                    leader_id: *leader_id,
                    prev_log_index: *prev_log_index,
                    prev_log_term: *prev_log_term,
                    entries: copied,
                    leader_commit: *leader_commit,
                }
            },
            Response::AppendResponse { to, term, follower_id, success, match_index } =>
                Response::AppendResponse {
                    to: *to,
                    term: *term,
                    follower_id: *follower_id,
                    success: *success,
                    match_index: *match_index,
                },
        }
    }
}

impl Response {
    /// The node that the message is for.
    pub fn to(&self) -> (id: NodeId)
        ensures
            id == receiver(self@),
    {
        match self {
            Response::VoteRequest { to, .. } => *to,
            Response::VoteResponse { to, .. } => *to,
            Response::AppendEntries { to, .. } => *to,
            Response::AppendResponse { to, .. } => *to,
        }
    }

    /// The command by which the receiver takes the message in.
    pub fn command(self) -> (command: Command)
        ensures
            command@ == delivery(self@),
    {
        match self {
            Response::VoteRequest { term, candidate_id, last_log_index, last_log_term, .. } =>
                Command::VoteRequest { term, candidate_id, last_log_index, last_log_term },
            Response::VoteResponse { term, voter_id, granted, .. } => Command::VoteResponse {
                term,
                voter_id,
                granted,
            },
            Response::AppendEntries {
                term,
                leader_id,
                prev_log_index,
                prev_log_term,
                entries,
                leader_commit,
                ..
            } => Command::AppendEntries {
                term,
                leader_id,
                prev_log_index,
                prev_log_term,
                entries,
                leader_commit,
            },
            Response::AppendResponse { term, follower_id, success, match_index, .. } =>
                Command::AppendResponse { term, follower_id, success, match_index },
        }
    }
}

} // verus!
