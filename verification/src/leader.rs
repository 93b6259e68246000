//! The leader: it takes proposals, replicates its log and commits what a
//! majority holds.

use vstd::prelude::*;

use crate::entry::{clone_from, view_of, Entry, EntrySpec, NodeId};
use crate::error::Error;
use crate::follower::{acceptable_entries, Follower};
use crate::log::follows_iff_chained;
use crate::model::{
    acceptable, append_for, appended, appends, committed, confirmed, enlarged, heartbeat, kept,
    observed, outcome, proposed, refusal, sound, step, wf, NodeSpec, RoleSpec,
};
use crate::progress::{commit_target_is_highest, Progress, ReplicationProgress};
use crate::raft::{seen, Command, Io, Node, Raft, RaftHandle, Role, Write};
use crate::rpc::{views, Response};
use crate::timer::deadline_after;

verus! {

/// What a leader holds.
#[derive(Debug)]
pub struct Leader {
    /// What the leader knows of each follower's log.
    pub progress: ReplicationProgress,
    /// The time at which the leader sends its next heartbeat.
    pub next_heartbeat: u64,
}

impl Role for Leader {
    open spec fn model(&self) -> RoleSpec {
        RoleSpec::Leader { progress: self.progress@, next_heartbeat: self.next_heartbeat }
    }

    fn term(&mut self, _term: u64) {
    }
}

impl<I: Io> Raft<Leader, I> {
    /// Applies `command` to a leader and stores what the step changes of
    /// term, vote and log; `draw` is the length of the election timeout
    /// that the node gets where it steps down.
    pub fn step(self, command: Command, draw: u64) -> (r: Result<RaftHandle<I>, Error>)
        requires
            wf(self@),
        ensures
            outcome(self@, command@, draw, seen(r)),
            r matches Ok(handle) ==> wf(handle@),
    {
        proof {
            if refusal(self@, command@) is None {
                crate::safety::term_never_decreases(self@, command@, draw);
                if kept(self@) {
                    crate::safety::storage_stays_in_step(self@, command@, draw);
                    if self@.pending.len() == 0 {
                        crate::safety::noted_writes_can_be_stored(self@, command@, draw);
                    }
                }
            }
        }
        match self.plan(command, draw) {
            Ok(handle) => handle.flush(),
            Err(e) => Err(e),
        }
    }

    /// Takes the step that `command` asks of a leader, but stores nothing:
    /// what the step changes of term, vote and log waits in `pending`.
    /// `draw` is the length of the election timeout that the node gets
    /// where it steps down.
    ///
    /// The leader appends proposals to its log, sends appends when its
    /// heartbeat is due, moves the cursor of a follower that answers and
    /// commits what a majority holds. It becomes a follower when it sees a
    /// higher term.
    pub fn plan(self, command: Command, draw: u64) -> (r: Result<RaftHandle<I>, Error>)
        requires
            wf(self@),
        ensures
            match r {
                Ok(handle) => refusal(self@, command@) is None && handle@ == step(
                    self@,
                    command@,
                    draw,
                ) && wf(handle@),
                Err(e) => refusal(self@, command@) == Some(e),
            },
    {
        proof {
            if refusal(self@, command@) is None {
                crate::upkeep::step_preserves_wf(self@, command@, draw);
            }
        }
        let mut raft = self;
        match command {
            Command::Noop => Ok(RaftHandle::Leader(raft)),
            Command::Tick { now } => {
                if now > raft.clock {
                    raft.clock = now;
                    if raft.role.next_heartbeat <= now {
                        raft.heartbeat();
                    }
                }
                Ok(RaftHandle::Leader(raft))
            },
            Command::Timeout => {
                raft.heartbeat();
                Ok(RaftHandle::Leader(raft))
            },
            Command::VoteRequest { term, candidate_id, last_log_index, last_log_term } => {
                if term > raft.state.current_term {
                    let mut follower = raft.step_down(term, draw);
                    follower.vote(term, candidate_id, last_log_index, last_log_term, draw);
                    Ok(RaftHandle::Follower(follower))
                } else {
                    raft.send(
                        Response::VoteResponse {
                            to: candidate_id,
                            term: raft.state.current_term,
                            voter_id: raft.id,
                            granted: false,
                        },
                    );
                    Ok(RaftHandle::Leader(raft))
                }
            },
            Command::VoteResponse { term, .. } => {
                if term > raft.state.current_term {
                    Ok(RaftHandle::Follower(raft.step_down(term, draw)))
                } else {
                    Ok(RaftHandle::Leader(raft))
                }
            },
            Command::AppendResponse { term, follower_id, success, match_index } => {
                if term > raft.state.current_term {
                    Ok(RaftHandle::Follower(raft.step_down(term, draw)))
                } else {
                    raft.confirm(term, follower_id, success, match_index);
                    Ok(RaftHandle::Leader(raft))
                }
            },
            Command::AppendEntries {
                term,
                leader_id,
                prev_log_index,
                prev_log_term,
                entries,
                leader_commit,
            } => {
                if !acceptable_entries(term, prev_log_index, prev_log_term, &entries) {
                    return Err(Error::InvalidCommand);
                }
                Ok(
                    raft.defer_to(
                        term,
                        leader_id,
                        prev_log_index,
                        prev_log_term,
                        entries,
                        leader_commit,
                        draw,
                    ),
                )
            },
            Command::Heartbeat { term, leader_id, leader_commit } => {
                let entries: Vec<Entry> = Vec::new();
                assert(view_of(entries@) =~= Seq::<EntrySpec>::empty());
                Ok(raft.defer_to(term, leader_id, 0, 0, entries, leader_commit, draw))
            },
            Command::Propose { payload } => {
                if payload.len() == 0 || raft.log.last_index() == u64::MAX {
                    Err(Error::InvalidCommand)
                } else {
                    raft.propose(payload);
                    Ok(RaftHandle::Leader(raft))
                }
            },
            Command::AddPeer { peer } => {
                raft.enlarge(peer);
                Ok(RaftHandle::Leader(raft))
            },
        }
    }

    /// The leader as a follower of the higher term `term`: term and free
    /// vote are to be stored, the progress is dropped, and the node seeks
    /// election `draw` from now.
    pub fn step_down(self, term: u64, draw: u64) -> (follower: Raft<Follower, I>)
        requires
            term > self@.state.current_term,
        ensures
            follower@ == observed(self@, term, draw),
            wf(self@) ==> wf(follower@),
    {
        let election_deadline = deadline_after(self.clock, draw);
        let mut follower = self.into_follower(election_deadline);
        follower.term(term);
        follower
    }

    /// Handles an append of any term: one of an older term is answered with
    /// a failure, one of the leader's own term is ignored, and one of a
    /// higher term makes the leader a follower of the sender.
    pub fn defer_to(
        self,
        term: u64,
        leader_id: NodeId,
        prev_log_index: u64,
        prev_log_term: u64,
        entries: Vec<Entry>,
        leader_commit: u64,
        draw: u64,
    ) -> (handle: RaftHandle<I>)
        requires
            wf(self@),
            acceptable(term, prev_log_index, prev_log_term, view_of(entries@)),
        ensures
            handle@ == appended(
                self@,
                term,
                leader_id,
                prev_log_index,
                prev_log_term,
                view_of(entries@),
                leader_commit,
                draw,
            ),
            wf(handle@),
    {
        proof {
            crate::upkeep::appended_preserves_wf(
                self@,
                term,
                leader_id,
                prev_log_index,
                prev_log_term,
                view_of(entries@),
                leader_commit,
                draw,
            );
        }
        let mut raft = self;
        if raft.check_term(term).is_err() {
            raft.send(
                Response::AppendResponse {
                    to: leader_id,
                    term: raft.state.current_term,
                    follower_id: raft.id,
                    success: false,
                    match_index: 0,
                },
            );
            RaftHandle::Leader(raft)
        } else if term == raft.state.current_term {
            RaftHandle::Leader(raft)
        } else {
            let mut follower = raft.step_down(term, draw);
            proof {
                crate::upkeep::observed_preserves_wf(self@, term, draw);
            }
            follower.follow(leader_id, prev_log_index, prev_log_term, entries, leader_commit, draw);
            RaftHandle::Follower(follower)
        }
    }

    /// Whether the node's invariant holds: the common part, and of the
    /// progress that it has one cursor for each other node, in the order of
    /// the cluster, and each within the log.
    pub fn is_well_formed(&self) -> (yes: bool)
        ensures
            yes == wf(self@),
    {
        if !self.is_sound() {
            return false;
        }
        let ids = self.others();
        let ghost cursor_ids = self.role.progress@.map_values(|p: Progress| p.id);
        if ids.len() != self.role.progress.peers.len() {
            assert(cursor_ids.len() != ids@.len());
            return false;
        }
        let last = self.log.last_index();
        let mut i: usize = 0;
        while i < ids.len()
            invariant
                i <= ids.len(),
                last == self@.log.len(),
                ids.len() == self.role.progress.peers.len(),
                ids@ == crate::model::others(self@.nodes, self@.id),
                sound(self@),
                cursor_ids == self.role.progress@.map_values(|p: Progress| p.id),
                forall|k: int| 0 <= k < i ==> cursor_ids[k] == #[trigger] ids@[k],
                forall|k: int|
                    0 <= k < i ==> 1 <= (#[trigger] self.role.progress@[k]).next_index <= last + 1
                        && self.role.progress@[k].match_index <= last,
            decreases ids.len() - i,
        {
            let p = self.role.progress.peers[i];
            if p.id != ids[i] {
                assert(self.role.progress@[i as int] == p);
                assert(cursor_ids[i as int] != ids@[i as int]);
                return false;
            }
            if p.next_index < 1 || p.next_index - 1 > last || p.match_index > last {
                assert(self.role.progress@[i as int] == p);
                return false;
            }
            i += 1;
        }
        assert(cursor_ids =~= ids@);
        true
    }

    /// Sends every follower the entries from its cursor's next index on,
    /// behind the entry before it, and sets the next heartbeat one
    /// heartbeat timeout from now.
    pub fn heartbeat(&mut self)
        requires
            wf(old(self)@),
        ensures
            final(self)@ == heartbeat(old(self)@),
            wf(final(self)@),
    {
        let ghost n = self@;
        let mut batch: Vec<Response> = Vec::new();
        let mut i: usize = 0;
        while i < self.role.progress.peers.len()
            invariant
                i <= self.role.progress.peers.len(),
                self@ == n,
                wf(n),
                batch@.len() == i,
                forall|k: int|
                    0 <= k < i ==> (#[trigger] batch@[k])@ == append_for(
                        n,
                        self.role.progress.peers@[k],
                    ),
            decreases self.role.progress.peers.len() - i,
        {
            let p = self.role.progress.peers[i];
            assert(p == self@.role->Leader_progress[i as int]);
            let prev: u64 = p.next_index - 1;
            let len = self.log.entries.len();
            assert(self.log@.len() == len);
            let entries = clone_from(&self.log.entries, prev as usize);
            batch.push(
                Response::AppendEntries {
                    to: p.id,
                    term: self.state.current_term,
                    leader_id: self.id,
                    prev_log_index: prev,
                    prev_log_term: self.log.term_at(prev),
                    entries,
                    leader_commit: self.state.commit_index,
                },
            );
            i += 1;
        }
        assert(views(batch@) =~= appends(n, self.role.progress@));
        self.role.next_heartbeat = deadline_after(self.clock, self.state.heartbeat_timeout);
        self.send_all(batch);
    }

    /// Raises the commit index to the highest index that holds an entry of
    /// the leader's term on a majority of the cluster, the leader counted,
    /// if that is higher, and queues the newly committed entries for the
    /// state machine.
    pub fn commit(&mut self)
        requires
            wf(old(self)@),
        ensures
            final(self)@ == committed(old(self)@),
            wf(final(self)@),
    {
        let target = self.role.progress.commit_index(
            &self.log,
            self.state.current_term,
            self.nodes.len(),
            self.state.commit_index,
        );
        proof {
            commit_target_is_highest(
                self@.log,
                self.role.progress@,
                self.state.current_term,
                self.nodes@.len(),
                self@.log.len(),
            );
        }
        if target > self.state.commit_index {
            self.state.commit_index = target;
            self.deliver();
        }
    }

    /// Appends `payload` to the log as an entry of the leader's term,
    /// which is to be stored, and commits it where the leader alone is a
    /// majority.
    pub fn propose(&mut self, payload: Vec<u8>)
        requires
            wf(old(self)@),
            old(self)@.log.len() < u64::MAX,
        ensures
            final(self)@ == proposed(old(self)@, payload@),
            wf(final(self)@),
    {
        let ghost longer = old(self)@.log.push(
            EntrySpec {
                term: old(self)@.state.current_term,
                index: (old(self)@.log.len() + 1) as u64,
                data: payload@,
            },
        );
        let entry = Entry {
            term: self.state.current_term,
            index: self.log.last_index() + 1,
            data: payload,
        };
        let mut copy: Vec<Entry> = Vec::new();
        copy.push(entry.clone());
        let mut fresh: Vec<Entry> = Vec::new();
        fresh.push(entry);
        assert(view_of(fresh@) =~= seq![entry@]);
        assert(view_of(copy@) =~= seq![entry@]);
        assert(self.log@ + view_of(fresh@) =~= longer);
        proof {
            follows_iff_chained(self.log@, view_of(fresh@));
            if self.log@.len() > 0 {
                assert(self.log@[self.log@.len() - 1].term <= self.state.current_term);
            }
        }
        self.note(Write::Append { entries: copy });
        self.log.append(fresh);
        assert(wf(self@));
        self.commit();
    }

    /// Takes in the answer of a follower to an append, of a term that is
    /// not above the leader's own. An answer of the leader's term from a
    /// follower it tracks moves that follower's cursor, unless it claims a
    /// match beyond the leader's log; then the leader commits what a
    /// majority holds.
    pub fn confirm(&mut self, term: u64, follower_id: NodeId, success: bool, match_index: u64)
        requires
            wf(old(self)@),
        ensures
            final(self)@ == confirmed(old(self)@, term, follower_id, success, match_index),
            wf(final(self)@),
    {
        if term == self.state.current_term && self.role.progress.tracks(follower_id) && (!success
            || match_index <= self.log.last_index()) {
            self.role.progress.acknowledge(follower_id, success, match_index);
            proof {
                crate::upkeep::acknowledged_in_bounds(
                    old(self)@,
                    follower_id,
                    success,
                    match_index,
                );
            }
            self.commit();
        }
    }

    /// Takes a node into the record of the cluster, and tracks it from the
    /// entry after the leader's last if it is new.
    pub fn enlarge(&mut self, peer: Node)
        ensures
            final(self)@ == enlarged(old(self)@, peer),
            wf(old(self)@) ==> wf(final(self)@),
    {
        proof {
            if wf(self@) {
                crate::upkeep::enlarged_preserves_wf(self@, peer);
            }
        }
        let known = self.knows(peer.id);
        self.add_node_to_cluster(peer);
        if !known {
            let last = self.log.last_index();
            let next = if last < u64::MAX {
                last + 1
            } else {
                u64::MAX
            };
            self.role.progress.track(peer.id, next);
        }
    }

    /// The node as a follower without a leader that seeks election at
    /// `election_deadline`; the progress is dropped.
    pub fn into_follower(self, election_deadline: u64) -> (raft: Raft<Follower, I>)
        ensures
            raft@ == (NodeSpec {
                role: RoleSpec::Follower { leader_id: None, election_deadline },
                ..self@
            }),
            raft.io == self.io,
    {
        Raft {
            id: self.id,
            nodes: self.nodes,
            state: self.state,
            log: self.log,
            clock: self.clock,
            outbox: self.outbox,
            applied: self.applied,
            pending: self.pending,
            io: self.io,
            role: Follower { leader_id: None, election_deadline },
        }
    }
}

} // verus!
