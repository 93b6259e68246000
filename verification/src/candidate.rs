//! The candidate: it asks the cluster for votes and counts them.

use vstd::prelude::*;
use vstd::std_specs::convert::FromSpecImpl;

use crate::election::{Election, ElectionStatus, Vote};
use crate::entry::{view_of, Entry, EntrySpec, NodeId};
use crate::error::Error;
use crate::follower::{acceptable_entries, Follower};
use crate::leader::Leader;
use crate::model::{
    acceptable, appended, campaign, concluded, counted, kept, knows, next_after, others,
    outcome, refusal, step, vote_request, wf, NodeSpec, RoleSpec,
};
use crate::progress::{initial, ReplicationProgress};
use crate::raft::{entered, seen, Command, Io, Raft, RaftHandle, Role, Write};
use crate::rpc::{views, Response};
use crate::timer::deadline_after;

verus! {

/// What a candidate holds.
#[derive(Debug)]
pub struct Candidate {
    /// The election that the node is running.
    pub election: Election,
}

impl Role for Candidate {
    open spec fn model(&self) -> RoleSpec {
        RoleSpec::Candidate { votes: self.election.votes@, deadline: self.election.deadline }
    }

    fn term(&mut self, _term: u64) {
        self.election.reset();
    }
}

impl<I: Io> From<Raft<Follower, I>> for Raft<Candidate, I> {
    /// A follower turns candidate: it has no votes yet, and its election
    /// ends when the follower would have sought election.
    fn from(val: Raft<Follower, I>) -> (raft: Raft<Candidate, I>)
        ensures
            raft@ == (NodeSpec {
                role: RoleSpec::Candidate {
                    votes: Seq::empty(),
                    deadline: val.role.election_deadline,
                },
                ..val@
            }),
            raft.io == val.io,
    {
        let election = Election::new(val.role.election_deadline);
        Raft {
            id: val.id,
            nodes: val.nodes,
            state: val.state,
            log: val.log,
            clock: val.clock,
            outbox: val.outbox,
            applied: val.applied,
            pending: val.pending,
            io: val.io,
            role: Candidate { election },
        }
    }
}

/// What the conversion returns is stated by the `ensures` of `from`, over
/// views; as a value it has no name in specifications.
impl<I: Io> FromSpecImpl<Raft<Follower, I>> for Raft<Candidate, I> {
    open spec fn obeys_from_spec() -> bool {
        false
    }

    open spec fn from_spec(val: Raft<Follower, I>) -> Raft<Candidate, I> {
        arbitrary()
    }
}

impl<I: Io> From<Raft<Candidate, I>> for Raft<Follower, I> {
    /// A candidate gives up: it is a follower without a leader, and seeks
    /// election again when its election would have ended.
    fn from(val: Raft<Candidate, I>) -> (raft: Raft<Follower, I>)
        ensures
            raft@ == (NodeSpec {
                role: RoleSpec::Follower {
                    leader_id: None,
                    election_deadline: val.role.election.deadline,
                },
                ..val@
            }),
            raft.io == val.io,
    {
        Raft {
            id: val.id,
            nodes: val.nodes,
            state: val.state,
            log: val.log,
            clock: val.clock,
            outbox: val.outbox,
            applied: val.applied,
            pending: val.pending,
            io: val.io,
            role: Follower { leader_id: None, election_deadline: val.role.election.deadline },
        }
    }
}

/// What the conversion returns is stated by the `ensures` of `from`, over
/// views; as a value it has no name in specifications.
impl<I: Io> FromSpecImpl<Raft<Candidate, I>> for Raft<Follower, I> {
    open spec fn obeys_from_spec() -> bool {
        false
    }

    open spec fn from_spec(val: Raft<Candidate, I>) -> Raft<Follower, I> {
        arbitrary()
    }
}

impl<I: Io> From<Raft<Candidate, I>> for Raft<Leader, I> {
    /// A candidate becomes the leader: it tracks every other node from the
    /// entry after its last, and its heartbeat is due now.
    fn from(val: Raft<Candidate, I>) -> (raft: Raft<Leader, I>)
        ensures
            raft@ == (NodeSpec {
                role: RoleSpec::Leader {
                    progress: initial(others(val@.nodes, val@.id), next_after(val@.log.len())),
                    next_heartbeat: val@.clock,
                },
                ..val@
            }),
            raft.io == val.io,
    {
        let followers = val.others();
        let last = val.log.last_index();
        let next = if last < u64::MAX {
            last + 1
        } else {
            u64::MAX
        };
        let progress = ReplicationProgress::new(&followers, next);
        Raft {
            id: val.id,
            nodes: val.nodes,
            state: val.state,
            log: val.log,
            clock: val.clock,
            outbox: val.outbox,
            applied: val.applied,
            pending: val.pending,
            io: val.io,
            role: Leader { progress, next_heartbeat: val.clock },
        }
    }
}

/// What the conversion returns is stated by the `ensures` of `from`, over
/// views; as a value it has no name in specifications.
impl<I: Io> FromSpecImpl<Raft<Candidate, I>> for Raft<Leader, I> {
    open spec fn obeys_from_spec() -> bool {
        false
    }

    open spec fn from_spec(val: Raft<Candidate, I>) -> Raft<Leader, I> {
        arbitrary()
    }
}

impl<I: Io> Raft<Candidate, I> {
    /// Set the current term. A term above the node's own becomes its term:
    /// the vote is free again, the election starts anew without a vote,
    /// and term and free vote are to be stored. A term that is not above
    /// the node's own changes nothing: the term never goes back, and
    /// within a term the vote stands.
    ///
    /// A leader has no such setter: it enters a higher term by stepping
    /// down.
    pub fn term(&mut self, term: u64)
        ensures
            final(self)@ == entered(old(self)@, term),
            final(self)@.state.current_term >= old(self)@.state.current_term,
            wf(old(self)@) ==> wf(final(self)@),
    {
        if term > self.state.current_term {
            self.enter(term);
        }
    }

    /// Applies `command` to a candidate and stores what the step changes
    /// of term, vote and log; `draw` is the length of the next election
    /// timeout.
    pub fn step(self, command: Command, draw: u64) -> (r: Result<RaftHandle<I>, Error>)
        requires
            wf(self@),
        ensures
            outcome(self@, command@, draw, seen(r)),
            r matches Ok(handle) ==> wf(handle@),
    {
        proof {
            if refusal(self@, command@) is None {
                crate::safety::term_never_decreases(self@, command@, draw);
                if kept(self@) {
                    crate::safety::storage_stays_in_step(self@, command@, draw);
                    if self@.pending.len() == 0 {
                        crate::safety::noted_writes_can_be_stored(self@, command@, draw);
                    }
                }
            }
        }
        match self.plan(command, draw) {
            Ok(handle) => handle.flush(),
            Err(e) => Err(e),
        }
    }

    /// Takes the step that `command` asks of a candidate, but stores
    /// nothing: what the step changes of term, vote and log waits in
    /// `pending`. `draw` is the length of the next election timeout.
    ///
    /// The candidate counts votes and becomes leader on a majority, starts
    /// over when its election times out, and becomes a follower when it
    /// sees a higher term or a leader of its own term. It denies its vote
    /// to candidates of its own term, and takes no proposal.
    pub fn plan(self, command: Command, draw: u64) -> (r: Result<RaftHandle<I>, Error>)
        requires
            wf(self@),
        ensures
            match r {
                Ok(handle) => refusal(self@, command@) is None && handle@ == step(
                    self@,
                    command@,
                    draw,
                ) && wf(handle@),
                Err(e) => refusal(self@, command@) == Some(e),
            },
    {
        proof {
            if refusal(self@, command@) is None {
                crate::upkeep::step_preserves_wf(self@, command@, draw);
            }
        }
        let mut raft = self;
        match command {
            Command::Noop => Ok(RaftHandle::Candidate(raft)),
            Command::Tick { now } => {
                if now <= raft.clock {
                    Ok(RaftHandle::Candidate(raft))
                } else {
                    raft.clock = now;
                    if raft.role.election.deadline <= now {
                        if raft.state.current_term == u64::MAX {
                            return Err(Error::InvalidCommand);
                        }
                        Ok(raft.seek_election(draw))
                    } else {
                        Ok(RaftHandle::Candidate(raft))
                    }
                }
            },
            Command::Timeout => {
                if raft.state.current_term == u64::MAX {
                    return Err(Error::InvalidCommand);
                }
                Ok(raft.seek_election(draw))
            },
            Command::VoteRequest { term, candidate_id, last_log_index, last_log_term } => {
                if term > raft.state.current_term {
                    let mut follower: Raft<Follower, I> = Raft::from(raft);
                    follower.term(term);
                    follower.vote(term, candidate_id, last_log_index, last_log_term, draw);
                    Ok(RaftHandle::Follower(follower))
                } else {
                    raft.send(
                        Response::VoteResponse {
                            to: candidate_id,
                            term: raft.state.current_term,
                            voter_id: raft.id,
                            granted: false,
                        },
                    );
                    Ok(RaftHandle::Candidate(raft))
                }
            },
            Command::VoteResponse { term, voter_id, granted } => {
                if term > raft.state.current_term {
                    let mut follower: Raft<Follower, I> = Raft::from(raft);
                    follower.term(term);
                    Ok(RaftHandle::Follower(follower))
                } else {
                    Ok(raft.count(term, voter_id, granted))
                }
            },
            Command::AppendResponse { term, .. } => {
                if term > raft.state.current_term {
                    let mut follower: Raft<Follower, I> = Raft::from(raft);
                    follower.term(term);
                    Ok(RaftHandle::Follower(follower))
                } else {
                    Ok(RaftHandle::Candidate(raft))
                }
            },
            Command::AppendEntries {
                term,
                leader_id,
                prev_log_index,
                prev_log_term,
                entries,
                leader_commit,
            } => {
                if !acceptable_entries(term, prev_log_index, prev_log_term, &entries) {
                    return Err(Error::InvalidCommand);
                }
                Ok(
                    raft.yield_to(
                        term,
                        leader_id,
                        prev_log_index,
                        prev_log_term,
                        entries,
                        leader_commit,
                        draw,
                    ),
                )
            },
            Command::Heartbeat { term, leader_id, leader_commit } => {
                let entries: Vec<Entry> = Vec::new();
                assert(view_of(entries@) =~= Seq::<EntrySpec>::empty());
                Ok(raft.yield_to(term, leader_id, 0, 0, entries, leader_commit, draw))
            },
            Command::Propose { payload } => {
                if payload.len() == 0 {
                    Err(Error::InvalidCommand)
                } else {
                    Err(Error::NotLeader { leader_hint: None })
                }
            },
            Command::AddPeer { peer } => {
                raft.add_node_to_cluster(peer);
                Ok(RaftHandle::Candidate(raft))
            },
        }
    }

    /// Handles an append of any term: one of an older term is answered with
    /// a failure; else the candidate becomes a follower of the sender and
    /// takes the append in as one.
    pub fn yield_to(
        self,
        term: u64,
        leader_id: NodeId,
        prev_log_index: u64,
        prev_log_term: u64,
        entries: Vec<Entry>,
        leader_commit: u64,
        draw: u64,
    ) -> (handle: RaftHandle<I>)
        requires
            wf(self@),
            acceptable(term, prev_log_index, prev_log_term, view_of(entries@)),
        ensures
            handle@ == appended(
                self@,
                term,
                leader_id,
                prev_log_index,
                prev_log_term,
                view_of(entries@),
                leader_commit,
                draw,
            ),
            wf(handle@),
    {
        proof {
            crate::upkeep::appended_preserves_wf(
                self@,
                term,
                leader_id,
                prev_log_index,
                prev_log_term,
                view_of(entries@),
                leader_commit,
                draw,
            );
        }
        let mut raft = self;
        if raft.check_term(term).is_err() {
            raft.send(
                Response::AppendResponse {
                    to: leader_id,
                    term: raft.state.current_term,
                    follower_id: raft.id,
                    success: false,
                    match_index: 0,
                },
            );
            return RaftHandle::Candidate(raft);
        }
        let follower: Raft<Follower, I> = Raft::from(raft);
        follower.take_in(term, leader_id, prev_log_index, prev_log_term, entries, leader_commit, draw)
    }

    /// Whether the node's invariant holds: the common part, and of the
    /// votes that each node has answered once and is of the cluster.
    pub fn is_well_formed(&self) -> (yes: bool)
        ensures
            yes == wf(self@),
    {
        if !self.is_sound() || !self.role.election.one_vote_each() {
            return false;
        }
        let mut i: usize = 0;
        while i < self.role.election.votes.len()
            invariant
                i <= self.role.election.votes.len(),
                forall|k: int|
                    0 <= k < i ==> knows(self@.nodes, (#[trigger] self.role.election.votes@[k]).id),
            decreases self.role.election.votes.len() - i,
        {
            if !self.knows(self.role.election.votes[i].id) {
                return false;
            }
            i += 1;
        }
        true
    }

    /// Starts an election: the term is one higher and the node votes for
    /// itself, which is to be stored; it asks every other node for its
    /// vote, and gives the election up `draw` from now. Where its own vote
    /// is a majority the node is leader at once.
    pub fn seek_election(self, draw: u64) -> (handle: RaftHandle<I>)
        requires
            wf(self@),
            self@.state.current_term < u64::MAX,
        ensures
            handle@ == campaign(self@, draw),
            wf(handle@),
    {
        proof {
            crate::upkeep::campaign_preserves_wf(self@, draw);
        }
        let ghost n = self@;
        let mut raft = self;
        let term = raft.state.current_term + 1;
        raft.state.current_term = term;
        raft.state.voted_for = Some(raft.id);
        raft.role.election.reset();
        raft.role.election.vote(raft.id, true);
        raft.role.election.deadline = deadline_after(raft.clock, draw);
        raft.note(Write::Save { term, voted_for: Some(raft.id) });
        assert(raft.role.election.votes@ =~= seq![Vote { id: n.id, granted: true }]);
        let ghost candidate = raft@;
        let peers = raft.others();
        let last_log_index = raft.log.last_index();
        let last_log_term = raft.log.last_term();
        let mut batch: Vec<Response> = Vec::new();
        let mut i: usize = 0;
        while i < peers.len()
            invariant
                i <= peers.len(),
                raft@ == candidate,
                last_log_index == candidate.log.len(),
                last_log_term == crate::log::last_term(candidate.log),
                term == candidate.state.current_term,
                batch@.len() == i,
                forall|k: int|
                    0 <= k < i ==> (#[trigger] batch@[k])@ == vote_request(candidate, peers@[k]),
            decreases peers.len() - i,
        {
            batch.push(
                Response::VoteRequest {
                    to: peers[i],
                    term,
                    candidate_id: raft.id,
                    last_log_index,
                    last_log_term,
                },
            );
            i += 1;
        }
        assert(views(batch@) =~= peers@.map_values(|to: NodeId| vote_request(candidate, to)));
        raft.send_all(batch);
        raft.conclude()
    }

    /// The node as leader, with an append sent to every follower, if a
    /// majority of the cluster has granted its vote; else the candidate as
    /// it is.
    pub fn conclude(self) -> (handle: RaftHandle<I>)
        requires
            wf(self@),
        ensures
            handle@ == concluded(self@),
            wf(handle@),
    {
        proof {
            crate::upkeep::concluded_preserves_wf(self@);
        }
        match self.role.election.election_status(self.nodes.len()) {
            ElectionStatus::Elected => {
                let mut leader: Raft<Leader, I> = Raft::from(self);
                proof {
                    crate::upkeep::leader_is_well_formed(self@);
                }
                leader.heartbeat();
                RaftHandle::Leader(leader)
            },
            _ => RaftHandle::Candidate(self),
        }
    }

    /// Takes in the answer to a request for a vote, of a term that is not
    /// above the node's own: an answer of the node's term from a node of
    /// the cluster is recorded, and a majority of granted votes makes the
    /// node leader.
    pub fn count(self, term: u64, voter_id: NodeId, granted: bool) -> (handle: RaftHandle<I>)
        requires
            wf(self@),
        ensures
            handle@ == counted(self@, term, voter_id, granted),
            wf(handle@),
    {
        if term == self.state.current_term && self.knows(voter_id) {
            let mut raft = self;
            raft.role.election.vote(voter_id, granted);
            proof {
                crate::upkeep::recorded_is_well_formed(self@, voter_id, granted);
            }
            raft.conclude()
        } else {
            RaftHandle::Candidate(self)
        }
    }
}

} // verus!
