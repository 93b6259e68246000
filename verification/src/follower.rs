//! The follower: it takes in what a leader sends, votes, and seeks election
//! when it hears of no leader.

use vstd::prelude::*;

use crate::candidate::Candidate;
use crate::config::{ConfigError, RaftConfig};
use crate::entry::{clone_from, view_of, Entry, EntrySpec, NodeId};
use crate::error::Error;
use crate::log::{continues, Log};
use crate::model::{
    acceptable, agreement, appended, cluster, consistent, followed, held, initial_node, kept,
    merge_writes, merged, outcome, polled, refusal, restorable, restored_node, step, wf,
    NodeSpec, RoleSpec, Stored,
};
use crate::raft::{entered, seen, Command, Io, Node, Raft, RaftHandle, Role, State, Write};
use crate::rpc::Response;
use crate::upkeep::{agreement_counts, merged_well_formed};
use crate::timer::deadline_after;

verus! {

/// What a follower holds.
#[derive(Debug)]
pub struct Follower {
    /// The leader that the node follows, once it has heard of one.
    pub leader_id: Option<NodeId>,
    /// The time at which the node seeks election, unless it hears of a
    /// leader before.
    pub election_deadline: u64,
}

impl Role for Follower {
    open spec fn model(&self) -> RoleSpec {
        RoleSpec::Follower { leader_id: self.leader_id, election_deadline: self.election_deadline }
    }

    fn term(&mut self, _term: u64) {
        self.leader_id = None;
    }
}

/// The number of leading `entries` that `log` already holds behind index
/// `prev`, each with the term it has in `entries`.
pub fn agreement_with(log: &Log, prev: u64, entries: &Vec<Entry>) -> (same: usize)
    requires
        prev + entries.len() <= u64::MAX,
    ensures
        same == agreement(log@, prev as int, view_of(entries@), 0),
        same <= entries.len(),
{
    let ghost es = view_of(entries@);
    let last = log.last_index();
    let mut same: usize = 0;
    while same < entries.len()
        invariant
            same <= entries.len(),
            es == view_of(entries@),
            last == log@.len(),
            prev + entries.len() <= u64::MAX,
            agreement(log@, prev as int, es, 0) == agreement(log@, prev as int, es, same as int),
        decreases entries.len() - same,
    {
        let at: u64 = prev + same as u64;
        if at >= last || log.term_at(at + 1) != entries[same].term {
            assert(!held(log@, prev as int, es, same as int));
            return same;
        }
        assert(held(log@, prev as int, es, same as int));
        same += 1;
    }
    same
}

/// Whether `entries`, sent in `term` to follow the entry of `prev_term` at
/// `prev`, are such as a leader sends: numbered from `prev + 1` without a
/// gap, with terms that start at `prev_term` or above, never decrease and
/// do not exceed `term`.
pub fn acceptable_entries(term: u64, prev: u64, prev_term: u64, entries: &Vec<Entry>) -> (yes:
    bool)
    ensures
        yes == acceptable(term, prev, prev_term, view_of(entries@)),
{
    if !continues(entries, prev, prev_term) {
        return false;
    }
    let count = entries.len();
    if count == 0 {
        true
    } else {
        let ghost es = view_of(entries@);
        assert(es[count - 1] == entries@[count - 1]@);
        assert(forall|k: int| 0 <= k < es.len() ==> (#[trigger] es[k]).term <= es[count - 1].term);
        entries[count - 1].term <= term
    }
}

impl<I: Io> Raft<Follower, I> {
    /// Set the current term. A term above the node's own becomes its term:
    /// the vote is free again, the node knows no leader, and term and free
    /// vote are to be stored. A term that is not above the node's own
    /// changes nothing: the term never goes back, and within a term the
    /// vote stands.
    pub fn term(&mut self, term: u64)
        ensures
            final(self)@ == entered(old(self)@, term),
            final(self)@.state.current_term >= old(self)@.state.current_term,
            wf(old(self)@) ==> wf(final(self)@),
    {
        if term > self.state.current_term {
            self.enter(term);
        }
    }

    /// A new node with these settings, which are checked first; the first
    /// election deadline is drawn from the election window.
    pub fn new(config: RaftConfig, io: I) -> (r: Result<Raft<Follower, I>, ConfigError>)
        ensures
            match r {
                Ok(raft) => config.fault() is None && wf(raft@) && exists|draw: u64|
                    config.min_election_timeout <= draw <= config.max_election_timeout && raft@
                        == #[trigger] initial_node(
                        Node { id: config.id, ip: config.ip, port: config.port },
                        config.nodes@,
                        config.heartbeat_timeout,
                        config.min_election_timeout,
                        config.max_election_timeout,
                        draw,
                        io.stored(),
                        io.reliable(),
                    ),
                Err(e) => config.fault() == Some(e),
            },
    {
        match config.validate() {
            Ok(()) => {},
            Err(e) => {
                return Err(e);
            },
        }
        let draw = crate::timer::election_timeout(
            config.min_election_timeout,
            config.max_election_timeout,
        );
        Raft::start(config, io, draw)
    }

    /// A new node with these settings, which are checked first, and with
    /// its first election deadline at `draw`.
    pub fn start(config: RaftConfig, io: I, draw: u64) -> (r: Result<
        Raft<Follower, I>,
        ConfigError,
    >)
        ensures
            match r {
                Ok(raft) => config.fault() is None && wf(raft@) && raft@ == initial_node(
                    Node { id: config.id, ip: config.ip, port: config.port },
                    config.nodes@,
                    config.heartbeat_timeout,
                    config.min_election_timeout,
                    config.max_election_timeout,
                    draw,
                    io.stored(),
                    io.reliable(),
                ),
                Err(e) => config.fault() == Some(e),
            },
    {
        match config.validate() {
            Ok(()) => Ok(Raft::boot(config, io, draw)),
            Err(e) => Err(e),
        }
    }

    /// A node that starts again with these settings, which are checked
    /// first, over the term, the vote and the log that it had stored, which
    /// are checked next; its first election deadline is at `draw`.
    pub fn restore(
        config: RaftConfig,
        io: I,
        term: u64,
        voted_for: Option<NodeId>,
        entries: Vec<Entry>,
        draw: u64,
    ) -> (r: Result<Raft<Follower, I>, ConfigError>)
        ensures
            match r {
                Ok(raft) => config.fault() is None && restorable(term, view_of(entries@)) && wf(
                    raft@,
                ) && raft@ == restored_node(
                    initial_node(
                        Node { id: config.id, ip: config.ip, port: config.port },
                        config.nodes@,
                        config.heartbeat_timeout,
                        config.min_election_timeout,
                        config.max_election_timeout,
                        draw,
                        io.stored(),
                        io.reliable(),
                    ),
                    Stored { term, voted_for, log: view_of(entries@) },
                ),
                Err(e) => if config.fault() is Some {
                    config.fault() == Some(e)
                } else {
                    e == ConfigError::CorruptLog && !restorable(term, view_of(entries@))
                },
            },
    {
        match config.validate() {
            Ok(()) => {},
            Err(e) => {
                return Err(e);
            },
        }
        let ghost log = view_of(entries@);
        let count = entries.len();
        let chained = continues(&entries, 0, 0);
        proof {
            crate::log::follows_iff_chained(Seq::empty(), log);
            assert(Seq::<EntrySpec>::empty() + log =~= log);
            if crate::log::well_formed(log) && log.len() > 0 {
                assert(forall|i: int|
                    0 <= i < log.len() ==> (#[trigger] log[i]).term <= log[log.len() - 1].term);
                assert(log[count - 1] == entries@[count - 1]@);
            }
        }
        if !chained || (count > 0 && entries[count - 1].term > term) {
            return Err(ConfigError::CorruptLog);
        }
        let mut raft = Raft::boot(config, io, draw);
        raft.state.current_term = term;
        raft.state.voted_for = voted_for;
        raft.log.append(entries);
        assert(raft.log@ =~= log);
        Ok(raft)
    }

    /// A new node with these settings, which must be valid, and with its
    /// first election deadline at `draw`: a follower of term 0 with an
    /// empty log, in a cluster of itself and the nodes of the settings.
    pub fn boot(config: RaftConfig, io: I, draw: u64) -> (raft: Raft<Follower, I>)
        requires
            config.fault() is None,
        ensures
            wf(raft@),
            raft@ == initial_node(
                Node { id: config.id, ip: config.ip, port: config.port },
                config.nodes@,
                config.heartbeat_timeout,
                config.min_election_timeout,
                config.max_election_timeout,
                draw,
                io.stored(),
                io.reliable(),
            ),
    {
        let own = Node { id: config.id, ip: config.ip, port: config.port };
        let mut nodes: Vec<Node> = Vec::new();
        nodes.push(own);
        let mut raft = Raft {
            id: config.id,
            nodes,
            state: State {
                heartbeat_timeout: config.heartbeat_timeout,
                min_election_timeout: config.min_election_timeout,
                max_election_timeout: config.max_election_timeout,
                ..State::default()
            },
            log: Log::new(),
            clock: 0,
            outbox: Vec::new(),
            applied: Vec::new(),
            pending: Vec::new(),
            io,
            role: Follower { leader_id: None, election_deadline: draw },
        };
        let ghost first = raft@;
        assert(first.nodes =~= cluster(own, config.nodes@.take(0)));
        assert(first.outbox =~= Seq::empty());
        assert(first.applied =~= Seq::empty());
        assert(first.pending =~= Seq::empty());
        assert(first.stored == io.stored() && first.reliable == io.reliable());
        let mut i: usize = 0;
        while i < config.nodes.len()
            invariant
                i <= config.nodes.len(),
                raft@ == (NodeSpec { nodes: cluster(own, config.nodes@.take(i as int)), ..first }),
            decreases config.nodes.len() - i,
        {
            assert(config.nodes@.take(i + 1).drop_last() =~= config.nodes@.take(i as int));
            raft.add_node_to_cluster(config.nodes[i]);
            i += 1;
        }
        assert(config.nodes@.take(i as int) =~= config.nodes@);
        proof {
            crate::upkeep::cluster_is_cluster(own, config.nodes@);
        }
        raft
    }

    /// Applies `command` to a follower and stores what the step changes
    /// of term, vote and log; `draw` is the length of the next election
    /// timeout.
    pub fn step(self, command: Command, draw: u64) -> (r: Result<RaftHandle<I>, Error>)
        requires
            wf(self@),
        ensures
            outcome(self@, command@, draw, seen(r)),
            r matches Ok(handle) ==> wf(handle@),
    {
        proof {
            if refusal(self@, command@) is None {
                crate::safety::term_never_decreases(self@, command@, draw);
                if kept(self@) {
                    crate::safety::storage_stays_in_step(self@, command@, draw);
                    if self@.pending.len() == 0 {
                        crate::safety::noted_writes_can_be_stored(self@, command@, draw);
                    }
                }
            }
        }
        match self.plan(command, draw) {
            Ok(handle) => handle.flush(),
            Err(e) => Err(e),
        }
    }

    /// Takes the step that `command` asks of a follower, but stores
    /// nothing: what the step changes of term, vote and log waits in
    /// `pending`. `draw` is the length of the next election timeout.
    ///
    /// The follower takes in what a leader sends, votes, and seeks election
    /// when its deadline passes. It takes no proposal.
    pub fn plan(self, command: Command, draw: u64) -> (r: Result<RaftHandle<I>, Error>)
        requires
            wf(self@),
        ensures
            match r {
                Ok(handle) => refusal(self@, command@) is None && handle@ == step(
                    self@,
                    command@,
                    draw,
                ) && wf(handle@),
                Err(e) => refusal(self@, command@) == Some(e),
            },
    {
        proof {
            if refusal(self@, command@) is None {
                crate::upkeep::step_preserves_wf(self@, command@, draw);
            }
        }
        let mut raft = self;
        match command {
            Command::Noop => Ok(RaftHandle::Follower(raft)),
            Command::Tick { now } => {
                if now <= raft.clock {
                    Ok(RaftHandle::Follower(raft))
                } else {
                    raft.clock = now;
                    if raft.role.election_deadline <= now {
                        if raft.state.current_term == u64::MAX {
                            return Err(Error::InvalidCommand);
                        }
                        let candidate: Raft<Candidate, I> = Raft::from(raft);
                        Ok(candidate.seek_election(draw))
                    } else {
                        Ok(RaftHandle::Follower(raft))
                    }
                }
            },
            Command::Timeout => {
                if raft.state.current_term == u64::MAX {
                    return Err(Error::InvalidCommand);
                }
                let candidate: Raft<Candidate, I> = Raft::from(raft);
                Ok(candidate.seek_election(draw))
            },
            Command::VoteRequest { term, candidate_id, last_log_index, last_log_term } => {
                if term > raft.state.current_term {
                    raft.term(term);
                }
                raft.vote(term, candidate_id, last_log_index, last_log_term, draw);
                Ok(RaftHandle::Follower(raft))
            },
            Command::VoteResponse { term, .. } => {
                if term > raft.state.current_term {
                    raft.term(term);
                }
                Ok(RaftHandle::Follower(raft))
            },
            Command::AppendResponse { term, .. } => {
                if term > raft.state.current_term {
                    raft.term(term);
                }
                Ok(RaftHandle::Follower(raft))
            },
            Command::AppendEntries {
                term,
                leader_id,
                prev_log_index,
                prev_log_term,
                entries,
                leader_commit,
            } => {
                if !acceptable_entries(term, prev_log_index, prev_log_term, &entries) {
                    return Err(Error::InvalidCommand);
                }
                Ok(
                    raft.take_in(
                        term,
                        leader_id,
                        prev_log_index,
                        prev_log_term,
                        entries,
                        leader_commit,
                        draw,
                    ),
                )
            },
            Command::Heartbeat { term, leader_id, leader_commit } => {
                let entries: Vec<Entry> = Vec::new();
                assert(view_of(entries@) =~= Seq::<EntrySpec>::empty());
                Ok(raft.take_in(term, leader_id, 0, 0, entries, leader_commit, draw))
            },
            Command::Propose { payload } => {
                if payload.len() == 0 {
                    Err(Error::InvalidCommand)
                } else {
                    Err(Error::NotLeader { leader_hint: raft.role.leader_id })
                }
            },
            Command::AddPeer { peer } => {
                raft.add_node_to_cluster(peer);
                Ok(RaftHandle::Follower(raft))
            },
        }
    }

    /// Handles an append of any term: one of an older term is answered with
    /// a failure; else the follower takes the term in and follows the
    /// sender.
    pub fn take_in(
        self,
        term: u64,
        leader_id: NodeId,
        prev_log_index: u64,
        prev_log_term: u64,
        entries: Vec<Entry>,
        leader_commit: u64,
        draw: u64,
    ) -> (handle: RaftHandle<I>)
        requires
            wf(self@),
            acceptable(term, prev_log_index, prev_log_term, view_of(entries@)),
        ensures
            handle@ == appended(
                self@,
                term,
                leader_id,
                prev_log_index,
                prev_log_term,
                view_of(entries@),
                leader_commit,
                draw,
            ),
            wf(handle@),
    {
        proof {
            crate::upkeep::appended_preserves_wf(
                self@,
                term,
                leader_id,
                prev_log_index,
                prev_log_term,
                view_of(entries@),
                leader_commit,
                draw,
            );
        }
        let mut raft = self;
        if raft.check_term(term).is_err() {
            raft.send(
                Response::AppendResponse {
                    to: leader_id,
                    term: raft.state.current_term,
                    follower_id: raft.id,
                    success: false,
                    match_index: 0,
                },
            );
            return RaftHandle::Follower(raft);
        }
        if term > raft.state.current_term {
            raft.term(term);
        }
        raft.follow(leader_id, prev_log_index, prev_log_term, entries, leader_commit, draw);
        RaftHandle::Follower(raft)
    }

    /// Whether the node can take in `entries` behind the entry of
    /// `prev_log_term` at `prev_log_index`: its log holds that entry, and
    /// no entry at or below the commit index would be replaced. If so, the
    /// number of leading entries that the log holds already comes back.
    pub fn check_append(&self, prev_log_index: u64, prev_log_term: u64, entries: &Vec<Entry>) -> (r:
        Result<usize, Error>)
        requires
            prev_log_index + entries.len() <= u64::MAX,
        ensures
            match r {
                Ok(same) => consistent(
                    self@.log,
                    self@.state.commit_index,
                    prev_log_index,
                    prev_log_term,
                    view_of(entries@),
                ) && same == agreement(self@.log, prev_log_index as int, view_of(entries@), 0)
                    && same <= entries.len(),
                Err(e) => e == Error::LogInconsistency && !consistent(
                    self@.log,
                    self@.state.commit_index,
                    prev_log_index,
                    prev_log_term,
                    view_of(entries@),
                ),
            },
    {
        let holds = prev_log_index == 0 || (prev_log_index <= self.log.last_index()
            && self.log.term_at(prev_log_index) == prev_log_term);
        if !holds {
            return Err(Error::LogInconsistency);
        }
        let same = agreement_with(&self.log, prev_log_index, entries);
        if same < entries.len() && prev_log_index + (same as u64) < self.state.commit_index {
            return Err(Error::LogInconsistency);
        }
        Ok(same)
    }

    /// Takes in an append of the node's own term. The node follows the
    /// sender, with an election deadline `draw` from now. Where its log
    /// holds the entry that the append builds on, and no committed entry
    /// would be replaced, it cuts its log behind the last entry on which
    /// both agree, appends the rest, raises its commit index to the
    /// leader's (but not beyond the last entry sent), answers with success
    /// and queues what is newly committed; else it answers with a failure.
    /// What it cuts and appends is to be stored.
    pub fn follow(
        &mut self,
        leader_id: NodeId,
        prev_log_index: u64,
        prev_log_term: u64,
        entries: Vec<Entry>,
        leader_commit: u64,
        draw: u64,
    )
        requires
            wf(old(self)@),
            acceptable(
                old(self)@.state.current_term,
                prev_log_index,
                prev_log_term,
                view_of(entries@),
            ),
        ensures
            final(self)@ == followed(
                old(self)@,
                leader_id,
                prev_log_index,
                prev_log_term,
                view_of(entries@),
                leader_commit,
                draw,
            ),
            wf(final(self)@),
    {
        proof {
            crate::upkeep::followed_preserves_wf(
                self@,
                leader_id,
                prev_log_index,
                prev_log_term,
                view_of(entries@),
                leader_commit,
                draw,
            );
        }
        let ghost es = view_of(entries@);
        let ghost log = self.log@;
        proof {
            if es.len() > 0 {
                assert(es[es.len() - 1].index == prev_log_index + es.len());
            }
            agreement_counts(log, prev_log_index as int, es, 0);
        }
        self.role.leader_id = Some(leader_id);
        self.role.election_deadline = deadline_after(self.clock, draw);
        let last = self.log.last_index();
        let same = match self.check_append(prev_log_index, prev_log_term, &entries) {
            Ok(same) => same,
            Err(_) => {
                self.send(
                    Response::AppendResponse {
                        to: leader_id,
                        term: self.state.current_term,
                        follower_id: self.id,
                        success: false,
                        match_index: 0,
                    },
                );
                return;
            },
        };
        let count = entries.len();
        let keep: u64 = prev_log_index + same as u64;
        proof {
            merged_well_formed(log, prev_log_index, prev_log_term, es);
        }
        let last_new: u64 = prev_log_index + count as u64;
        if same < count {
            let mut entries = entries;
            let rest = entries.split_off(same);
            assert(view_of(rest@) =~= es.skip(same as int));
            if keep < last {
                self.note(Write::Truncate { index: keep + 1 });
                self.log.truncate_from(keep + 1);
            }
            proof {
                if same > 0 {
                    assert(held(log, prev_log_index as int, es, same - 1));
                }
            }
            assert(self.log@ =~= log.take(keep as int));
            let copy = clone_from(&rest, 0);
            assert(view_of(copy@) =~= es.skip(same as int));
            self.note(Write::Append { entries: copy });
            self.log.append(rest);
        }
        assert(self.log@ == merged(log, prev_log_index as int, es));
        assert(self@.pending =~= old(self)@.pending + merge_writes(
            log,
            prev_log_index as int,
            es,
        ));
        let reach = if leader_commit < last_new {
            leader_commit
        } else {
            last_new
        };
        if reach > self.state.commit_index {
            self.state.commit_index = reach;
        }
        self.send(
            Response::AppendResponse {
                to: leader_id,
                term: self.state.current_term,
                follower_id: self.id,
                success: true,
                match_index: last_new,
            },
        );
        self.deliver();
    }

    /// Answers a request for a vote of a term that is not above the node's
    /// own. The node grants its vote to a candidate of its own term whose
    /// log is at least as up to date as its own, unless it has voted for
    /// another node in that term. A new vote is to be stored; granting
    /// moves the election deadline to `draw` from now.
    pub fn vote(
        &mut self,
        term: u64,
        candidate_id: NodeId,
        last_log_index: u64,
        last_log_term: u64,
        draw: u64,
    )
        ensures
            final(self)@ == polled(
                old(self)@,
                term,
                candidate_id,
                last_log_index,
                last_log_term,
                draw,
            ),
            wf(old(self)@) ==> wf(final(self)@),
    {
        let free = match self.state.voted_for {
            None => true,
            Some(id) => id == candidate_id,
        };
        let mine = self.log.last_term();
        let current = last_log_term > mine || (last_log_term == mine && last_log_index
            >= self.log.last_index());
        let yes = term == self.state.current_term && free && current;
        if yes {
            if self.state.voted_for.is_none() {
                self.note(
                    Write::Save { term: self.state.current_term, voted_for: Some(candidate_id) },
                );
            }
            self.state.voted_for = Some(candidate_id);
            self.role.election_deadline = deadline_after(self.clock, draw);
        }
        self.send(
            Response::VoteResponse {
                to: candidate_id,
                term: self.state.current_term,
                voter_id: self.id,
                granted: yes,
            },
        );
    }
}

} // verus!
