//! Cluster members, common node state and the commands a node consumes.

use vstd::prelude::*;

use crate::candidate::Candidate;
use crate::config::RaftConfig;
use crate::entry::{view_of, Entry, EntrySpec, NodeId};
use crate::error::Error;
use crate::follower::Follower;
use crate::leader::Leader;
use crate::log::{continues, follows_iff_chained, Log};
use crate::model::{
    can_take, delivered, distinct, in_window, initial_node, joined, kept, knows, noted, others,
    outcome, refusal, replayed, sent, settled, sound, step, takes_all, wf, written, NodeSpec,
    RoleSpec, Stored,
};
use crate::rpc::{views, Response};
use crate::timer::election_timeout;

verus! {

/// A network address, as the integer that stands for it.
#[derive(Debug, Clone, Copy, PartialEq, Eq, Structural)]
pub enum IpAddress {
    /// The four octets of an IPv4 address, the first in the highest byte.
    V4(u32),
    /// The sixteen octets of an IPv6 address, the first in the highest byte.
    V6(u128),
}

/// Contains information about a node of the cluster.
#[derive(Debug, Clone, Copy, PartialEq, Eq, Structural)]
pub struct Node {
    /// The id of the node.
    pub id: NodeId,
    /// The ip address of the node.
    pub ip: IpAddress,
    /// The port the node is listening on.
    pub port: u32,
}

impl Node {
    /// The record of the node `id` that listens at `ip` on `port`.
    pub fn new(id: NodeId, ip: IpAddress, port: u32) -> (node: Node)
        ensures
            node == (Node { id, ip, port }),
    {
        Node { id, ip, port }
    }
}

/// Volatile and persistent state that is common to all roles.
#[derive(Debug, Clone, Copy, PartialEq, Eq, Structural)]
pub struct State {
    /// The current term of the node; it never decreases.
    pub current_term: u64,
    /// Who the node has voted for in the current term.
    pub voted_for: Option<NodeId>,
    /// The highest log index known to be committed.
    pub commit_index: u64,
    /// The highest log index handed to the state machine.
    pub last_applied: u64,
    /// How long a leader waits between two heartbeats.
    pub heartbeat_timeout: u64,
    /// The shortest wait before a node without a leader seeks election.
    pub min_election_timeout: u64,
    /// The longest wait before a node without a leader seeks election.
    pub max_election_timeout: u64,
}

impl Default for State {
    fn default() -> (state: State)
        ensures
            state == (State {
                current_term: 0,
                voted_for: None,
                commit_index: 0,
                last_applied: 0,
                heartbeat_timeout: 2,
                min_election_timeout: 10,
                max_election_timeout: 1000,
            }),
    {
        State {
            current_term: 0,
            voted_for: None,
            commit_index: 0,
            last_applied: 0,
            heartbeat_timeout: 2,
            min_election_timeout: 10,
            max_election_timeout: 1000,
        }
    }
}

/// Commands that can be applied to the state machine.
#[derive(Debug, PartialEq, Eq)]
pub enum Command {
    /// The driver's clock reads `now`; a deadline that has passed takes
    /// effect.
    Tick { now: u64 },
    /// The deadline of the node's role has passed, whatever its clock says.
    Timeout,
    /// A candidate asks for this node's vote.
    VoteRequest {
        /// The term of the candidate.
        term: u64,
        /// The id of the candidate.
        candidate_id: NodeId,
        /// The index of the candidate's last log entry.
        last_log_index: u64,
        /// The term of the candidate's last log entry.
        last_log_term: u64,
    },
    /// A node answers this node's request for its vote.
    VoteResponse {
        /// The term of the voter.
        term: u64,
        /// The id of the voter.
        voter_id: NodeId,
        /// Whether the vote was granted.
        granted: bool,
    },
    /// A leader sends entries to append to this node's log.
    AppendEntries {
        /// The term of the leader.
        term: u64,
        /// The id of the leader.
        leader_id: NodeId,
        /// The index of the entry that precedes the new ones.
        prev_log_index: u64,
        /// The term of that entry.
        prev_log_term: u64,
        /// The entries to append.
        entries: Vec<Entry>,
        /// The commit index of the leader.
        leader_commit: u64,
    },
    /// A follower answers an append of this node.
    AppendResponse {
        /// The term of the follower.
        term: u64,
        /// The id of the follower.
        follower_id: NodeId,
        /// Whether the follower's log held the preceding entry.
        success: bool,
        /// The index up to which the follower's log now equals the leader's.
        match_index: u64,
    },
    /// A leader asserts its leadership: an append without entries that
    /// builds on the position before the log.
    Heartbeat {
        /// The term of the leader.
        term: u64,
        /// The id of the leader.
        leader_id: NodeId,
        /// The commit index of the leader.
        leader_commit: u64,
    },
    /// A client submits a payload for the log.
    Propose { payload: Vec<u8> },
    /// A node joins the cluster.
    AddPeer { peer: Node },
    /// Don't do anything.
    Noop,
}

/// The mathematical value of a [`Command`].
pub enum CommandSpec {
    Tick { now: u64 },
    Timeout,
    VoteRequest { term: u64, candidate_id: NodeId, last_log_index: u64, last_log_term: u64 },
    VoteResponse { term: u64, voter_id: NodeId, granted: bool },
    AppendEntries {
        term: u64,
        leader_id: NodeId,
        prev_log_index: u64,
        prev_log_term: u64,
        entries: Seq<EntrySpec>,
        leader_commit: u64,
    },
    AppendResponse { term: u64, follower_id: NodeId, success: bool, match_index: u64 },
    Heartbeat { term: u64, leader_id: NodeId, leader_commit: u64 },
    Propose { payload: Seq<u8> },
    AddPeer { peer: Node },
    Noop,
}

impl View for Command {
    type V = CommandSpec;

    open spec fn view(&self) -> CommandSpec {
        match *self {
            Command::Tick { now } => CommandSpec::Tick { now },
            Command::Timeout => CommandSpec::Timeout,
            Command::VoteRequest { term, candidate_id, last_log_index, last_log_term } =>
                CommandSpec::VoteRequest { term, candidate_id, last_log_index, last_log_term },
            Command::VoteResponse { term, voter_id, granted } => CommandSpec::VoteResponse {
                term,
                voter_id,
                granted,
            },
            Command::AppendEntries {
                term,
                leader_id,
                prev_log_index,
                prev_log_term,
                entries,
                leader_commit,
            } => CommandSpec::AppendEntries {
                term,
                leader_id,
                prev_log_index,
                prev_log_term,
                entries: view_of(entries@),
                leader_commit,
            },
            Command::AppendResponse { term, follower_id, success, match_index } =>
                CommandSpec::AppendResponse { term, follower_id, success, match_index },
            Command::Heartbeat { term, leader_id, leader_commit } => CommandSpec::Heartbeat {
                term,
                leader_id,
                leader_commit,
            },
            Command::Propose { payload } => CommandSpec::Propose { payload: payload@ },
            Command::AddPeer { peer } => CommandSpec::AddPeer { peer },
            Command::Noop => CommandSpec::Noop,
        }
    }
}

/// A change of what the node keeps across restarts, as it is handed to
/// storage.
#[derive(Debug, PartialEq, Eq)]
pub enum Write {
    /// Store the term and the vote cast in it.
    Save { term: u64, voted_for: Option<NodeId> },
    /// Remove the entry at `index` and every entry after it.
    Truncate { index: u64 },
    /// Store the entries behind those already stored.
    Append { entries: Vec<Entry> },
}

/// The mathematical value of a [`Write`].
pub enum WriteSpec {
    Save { term: u64, voted_for: Option<NodeId> },
    Truncate { index: u64 },
    Append { entries: Seq<EntrySpec> },
}

impl View for Write {
    type V = WriteSpec;

    open spec fn view(&self) -> WriteSpec {
        match *self {
            Write::Save { term, voted_for } => WriteSpec::Save { term, voted_for },
            Write::Truncate { index } => WriteSpec::Truncate { index },
            Write::Append { entries } => WriteSpec::Append { entries: view_of(entries@) },
        }
    }
}

/// The values of a sequence of writes, in order.
pub open spec fn writes(pending: Seq<Write>) -> Seq<WriteSpec> {
    pending.map_values(|w: Write| w@)
}

/// Shared behavior that all roles of the state machine must implement.
pub trait Role {
    /// What the role holds.
    spec fn model(&self) -> RoleSpec;

    /// Enters a new term: what the role knew of the old term's leader and
    /// election is reset.
    fn term(&mut self, term: u64)
        ensures
            final(self).model() == renewed(old(self).model()),
    ;
}

/// The node after `term` became its term: a higher term frees the vote,
/// lets the role start anew and is to be stored with the free vote; a term
/// that is not higher than the node's changes nothing.
pub open spec fn entered(n: NodeSpec, term: u64) -> NodeSpec {
    if term > n.state.current_term {
        noted(
            NodeSpec {
                state: State { current_term: term, voted_for: None, ..n.state },
                role: renewed(n.role),
                ..n
            },
            WriteSpec::Save { term, voted_for: None },
        )
    } else {
        n
    }
}

/// A role at the start of a term: a follower knows no leader, a candidate
/// has no votes, a leader is as it was.
pub open spec fn renewed(role: RoleSpec) -> RoleSpec {
    match role {
        RoleSpec::Follower { election_deadline, .. } => RoleSpec::Follower {
            leader_id: None,
            election_deadline,
        },
        RoleSpec::Candidate { deadline, .. } => RoleSpec::Candidate {
            votes: Seq::empty(),
            deadline,
        },
        RoleSpec::Leader { progress, next_heartbeat } => RoleSpec::Leader {
            progress,
            next_heartbeat,
        },
    }
}

/// Defines all IO (i.e. persistence) related behavior. The state machine
/// writes through it before it lets a change of term, vote or log show; an
/// error of any method makes the step fail with [`Error::Persistence`].
///
/// An implementation answers for what it holds: a write that it reports as
/// done has changed what it holds as [`written`] says, entries are stored
/// only where they continue the stored log, and storage that never fails
/// does every write that it can take.
pub trait Io {
    /// What storage holds. An implementation that does not say holds
    /// something unknown.
    open spec fn stored(&self) -> Stored {
        arbitrary()
    }

    /// Whether storage never fails. An implementation that does not say may
    /// fail.
    open spec fn reliable(&self) -> bool {
        false
    }

    /// Stores the provided entries behind those already stored.
    fn append(&mut self, entries: &mut Vec<Entry>) -> (r: Result<(), Error>)
        ensures
            done(
                old(self).stored(),
                old(self).reliable(),
                WriteSpec::Append { entries: view_of(old(entries)@) },
                final(self).stored(),
                final(self).reliable(),
                r,
            ),
    ;

    /// Removes the stored entry at `index` and every entry after it.
    fn truncate(&mut self, index: u64) -> (r: Result<(), Error>)
        ensures
            done(
                old(self).stored(),
                old(self).reliable(),
                WriteSpec::Truncate { index },
                final(self).stored(),
                final(self).reliable(),
                r,
            ),
    ;

    /// Stores the term and the vote cast in it.
    fn save(&mut self, term: u64, voted_for: Option<NodeId>) -> (r: Result<(), Error>)
        ensures
            done(
                old(self).stored(),
                old(self).reliable(),
                WriteSpec::Save { term, voted_for },
                final(self).stored(),
                final(self).reliable(),
                r,
            ),
    ;
}

/// What a write to storage answers for, given what storage held and whether
/// it never fails, before and after: if the write reports success, storage
/// could take it, holds what [`written`] says and is as reliable as before;
/// and storage that never fails succeeds with every write that it can take.
pub open spec fn done(
    before: Stored,
    reliable: bool,
    w: WriteSpec,
    after: Stored,
    still_reliable: bool,
    r: Result<(), Error>,
) -> bool {
    &&& r is Ok ==> can_take(before, w) && after == written(before, w) && still_reliable
        == reliable
    &&& reliable && can_take(before, w) ==> r is Ok
}

/// Simple IO impl used for mocking + testing.
#[derive(Debug)]
pub struct MemoryIo {
    /// The log as an in memory list of entries.
    pub entries: Vec<Entry>,
    /// The term last stored.
    pub current_term: u64,
    /// The vote last stored.
    pub voted_for: Option<NodeId>,
}

impl MemoryIo {
    /// Obtain a new instance of the memory io implementation: it holds
    /// term 0, no vote and no entries.
    pub fn new() -> (io: MemoryIo)
        ensures
            io.stored() == (Stored { term: 0, voted_for: None, log: Seq::empty() }),
    {
        let io = MemoryIo { entries: Vec::new(), current_term: 0, voted_for: None };
        assert(view_of(io.entries@) =~= Seq::empty());
        io
    }
}

impl Io for MemoryIo {
    open spec fn stored(&self) -> Stored {
        Stored { term: self.current_term, voted_for: self.voted_for, log: view_of(self.entries@) }
    }

    open spec fn reliable(&self) -> bool {
        true
    }

    /// Entries that do not continue the stored log are turned down with
    /// [`Error::InvalidCommand`], and nothing is stored.
    fn append(&mut self, entries: &mut Vec<Entry>) -> (r: Result<(), Error>)
        ensures
            r is Err ==> r == Err::<(), Error>(Error::InvalidCommand) && *final(self) == *old(
                self,
            ) && *final(entries) == *old(entries),
            r is Ok ==> final(entries)@.len() == 0,
    {
        let count = self.entries.len();
        let last_term = if count == 0 {
            0
        } else {
            self.entries[count - 1].term
        };
        assert(last_term == crate::log::last_term(view_of(self.entries@)));
        if !continues(entries, count as u64, last_term) {
            return Err(Error::InvalidCommand);
        }
        self.entries.append(entries);
        assert(view_of(self.entries@) =~= view_of(old(self).entries@) + view_of(old(entries)@));
        Ok(())
    }

    fn truncate(&mut self, index: u64) -> (r: Result<(), Error>) {
        if index <= 1 {
            self.entries.truncate(0);
        } else if index <= self.entries.len() as u64 {
            self.entries.truncate((index - 1) as usize);
        }
        assert(view_of(self.entries@) =~= crate::log::truncated(
            view_of(old(self).entries@),
            index as int,
        ));
        Ok(())
    }

    fn save(&mut self, term: u64, voted_for: Option<NodeId>) -> (r: Result<(), Error>) {
        self.current_term = term;
        self.voted_for = voted_for;
        Ok(())
    }
}

/// The primary struct representing the state machine. Contains fields
/// common to all roles.
pub struct Raft<S: Role, I: Io> {
    /// The identifier for this node.
    pub id: NodeId,
    /// The known nodes in the cluster, this node among them.
    pub nodes: Vec<Node>,
    /// Volatile and persistent state for the state machine.
    pub state: State,
    /// The replicated log.
    pub log: Log,
    /// The latest time that a tick has brought.
    pub clock: u64,
    /// The messages for other nodes that no one has collected yet.
    pub outbox: Vec<Response>,
    /// The committed entries that no one has collected for the state
    /// machine yet.
    pub applied: Vec<Entry>,
    /// What the step at hand has changed of term, vote and log and has not
    /// stored yet.
    pub pending: Vec<Write>,
    /// The IO implementation used for persisting state.
    pub io: I,
    /// An instance containing role specific state and behavior.
    pub role: S,
}

impl<S: Role, I: Io> View for Raft<S, I> {
    type V = NodeSpec;

    open spec fn view(&self) -> NodeSpec {
        NodeSpec {
            id: self.id,
            nodes: self.nodes@,
            state: self.state,
            log: self.log@,
            clock: self.clock,
            role: self.role.model(),
            outbox: views(self.outbox@),
            applied: view_of(self.applied@),
            pending: writes(self.pending@),
            stored: self.io.stored(),
            reliable: self.io.reliable(),
        }
    }
}

/// Storage that can take some writes can take the first `k` of them.
pub proof fn taken_so_far(s: Stored, ws: Seq<WriteSpec>, k: int)
    requires
        takes_all(s, ws),
        0 <= k <= ws.len(),
    ensures
        takes_all(s, ws.take(k)),
    decreases ws.len(),
{
    if k == ws.len() {
        assert(ws.take(k) =~= ws);
    } else {
        taken_so_far(s, ws.drop_last(), k);
        assert(ws.drop_last().take(k) =~= ws.take(k));
    }
}

/// What the node makes of the answer of storage: whatever went wrong, the
/// write did not persist.
pub fn persisted(answer: Result<(), Error>) -> (r: Result<(), Error>)
    ensures
        r == match answer {
            Ok(()) => Ok::<(), Error>(()),
            Err(_) => Err::<(), Error>(Error::Persistence),
        },
{
    match answer {
        Ok(()) => Ok(()),
        Err(_) => Err(Error::Persistence),
    }
}

/// Whether no two of `nodes` have the same id.
pub fn distinct_ids(nodes: &Vec<Node>) -> (yes: bool)
    ensures
        yes == distinct(nodes@),
{
    let mut j: usize = 0;
    while j < nodes.len()
        invariant
            j <= nodes.len(),
            forall|a: int, b: int|
                0 <= a < b < j ==> (#[trigger] nodes@[a]).id != (#[trigger] nodes@[b]).id,
        decreases nodes.len() - j,
    {
        let mut i: usize = 0;
        while i < j
            invariant
                i <= j < nodes.len(),
                forall|a: int| 0 <= a < i ==> (#[trigger] nodes@[a]).id != nodes@[j as int].id,
            decreases j - i,
        {
            if nodes[i].id == nodes[j].id {
                return false;
            }
            i += 1;
        }
        j += 1;
    }
    true
}

// Base methods for general operations.
impl<S: Role, I: Io> Raft<S, I> {
    /// Whether the node's invariant holds as far as it speaks of no role.
    pub fn is_sound(&self) -> (yes: bool)
        ensures
            yes == sound(self@),
    {
        let chained = continues(&self.log.entries, 0, 0);
        proof {
            let log = self.log@;
            follows_iff_chained(Seq::empty(), log);
            assert(Seq::<EntrySpec>::empty() + log =~= log);
            if crate::log::well_formed(log) && log.len() > 0 {
                assert(forall|i: int|
                    0 <= i < log.len() ==> (#[trigger] log[i]).term <= log[log.len() - 1].term);
            }
        }
        distinct_ids(&self.nodes) && self.knows(self.id) && self.state.min_election_timeout
            <= self.state.max_election_timeout && chained && self.log.last_term()
            <= self.state.current_term && self.state.last_applied <= self.state.commit_index
            && self.state.commit_index <= self.log.last_index()
    }

    /// Add the provided node to our record of the cluster: it takes the
    /// place of a node with its id, or else the last place.
    pub fn add_node_to_cluster(&mut self, node: Node)
        ensures
            final(self)@ == (NodeSpec { nodes: joined(old(self)@.nodes, node), ..old(self)@ }),
            sound(old(self)@) ==> sound(final(self)@),
    {
        proof {
            if distinct(self@.nodes) {
                crate::upkeep::joined_is_cluster(self@.nodes, node);
            }
        }
        let mut found = false;
        let mut i: usize = 0;
        while i < self.nodes.len()
            invariant
                i <= self.nodes.len(),
                self.nodes.len() == old(self).nodes.len(),
                found <==> exists|k: int| 0 <= k < i && (#[trigger] old(self).nodes@[k]).id == node.id,
                forall|k: int|
                    0 <= k < i ==> #[trigger] self.nodes@[k] == if old(self).nodes@[k].id
                        == node.id {
                        node
                    } else {
                        old(self).nodes@[k]
                    },
                forall|k: int|
                    i <= k < self.nodes.len() ==> #[trigger] self.nodes@[k] == old(self).nodes@[k],
                self.id == old(self).id,
                self.state == old(self).state,
                self.log == old(self).log,
                self.clock == old(self).clock,
                self.outbox == old(self).outbox,
                self.applied == old(self).applied,
                self.pending == old(self).pending,
                self.io == old(self).io,
                self.role == old(self).role,
            decreases self.nodes.len() - i,
        {
            if self.nodes[i].id == node.id {
                self.nodes.set(i, node);
                found = true;
            }
            i += 1;
        }
        if !found {
            self.nodes.push(node);
        }
        assert(self.nodes@ =~= joined(old(self).nodes@, node));
    }

    /// Whether a node with this id is in our record of the cluster.
    pub fn knows(&self, id: NodeId) -> (yes: bool)
        ensures
            yes == knows(self@.nodes, id),
    {
        let mut i: usize = 0;
        while i < self.nodes.len()
            invariant
                i <= self.nodes.len(),
                forall|k: int| 0 <= k < i ==> (#[trigger] self.nodes@[k]).id != id,
            decreases self.nodes.len() - i,
        {
            if self.nodes[i].id == id {
                return true;
            }
            i += 1;
        }
        false
    }

    /// Tells a term that is older than the node's own: a message of such a
    /// term comes from a node that is behind.
    pub fn check_term(&self, term: u64) -> (r: Result<(), Error>)
        ensures
            match r {
                Ok(()) => term >= self@.state.current_term,
                Err(e) => e == Error::StaleTerm && term < self@.state.current_term,
            },
    {
        if term < self.state.current_term {
            Err(Error::StaleTerm)
        } else {
            Ok(())
        }
    }

    /// Enters the higher term `term`: the vote is free again, the role
    /// starts the term anew, and term and free vote are to be stored.
    pub(crate) fn enter(&mut self, term: u64)
        requires
            term > old(self)@.state.current_term,
        ensures
            final(self)@ == entered(old(self)@, term),
    {
        self.state.voted_for = None;
        self.state.current_term = term;
        self.role.term(term);
        self.note(Write::Save { term, voted_for: None });
    }

    /// Adds a change to what is to be stored.
    pub fn note(&mut self, write: Write)
        ensures
            final(self)@ == noted(old(self)@, write@),
    {
        self.pending.push(write);
        assert(writes(self.pending@) =~= writes(old(self).pending@).push(write@));
    }

    /// Stores what is to be stored, in order, through [`Io`]. The node
    /// comes back with nothing left to store, over storage that holds what
    /// the writes make of what it held. The first failure of storage ends
    /// the node; storage that never fails and can take the writes does not
    /// fail.
    pub fn flush(self) -> (r: Result<Raft<S, I>, Error>)
        ensures
            match r {
                Ok(raft) => raft@ == settled(self@) && takes_all(self@.stored, self@.pending),
                Err(e) => e == Error::Persistence && self@.pending.len() > 0 && !(self@.reliable
                    && takes_all(self@.stored, self@.pending)),
            },
    {
        let ghost all = self@.pending;
        let ghost first = self@.stored;
        let mut raft = self;
        let mut pending: Vec<Write> = Vec::new();
        std::mem::swap(&mut raft.pending, &mut pending);
        assert(writes(raft.pending@) =~= Seq::empty());
        let ghost mut stored: int = 0;
        assert(all.take(0) =~= Seq::empty());
        while pending.len() > 0
            invariant
                0 <= stored <= all.len(),
                all == self@.pending,
                first == self@.stored,
                writes(pending@) == all.skip(stored),
                takes_all(first, all.take(stored)),
                raft@ == (NodeSpec {
                    pending: Seq::empty(),
                    stored: replayed(first, all.take(stored)),
                    ..self@
                }),
            decreases pending.len(),
        {
            let ghost waiting = pending@;
            assert(writes(waiting).len() == waiting.len());
            assert(stored < all.len());
            let ghost w = all[stored];
            assert(all.skip(stored)[0] == w);
            assert(waiting[0]@ == w);
            let write = pending.remove(0);
            assert(write@ == w);
            assert(writes(pending@) =~= all.skip(stored + 1)) by {
                assert forall|k: int| 0 <= k < pending@.len() implies writes(pending@)[k]
                    == all.skip(stored + 1)[k] by {
                    assert(pending@[k] == waiting[k + 1]);
                    assert(writes(waiting)[k + 1] == all.skip(stored)[k + 1]);
                }
            }
            assert(all.take(stored + 1).drop_last() =~= all.take(stored));
            let answer = match write {
                Write::Save { term, voted_for } => raft.io.save(term, voted_for),
                Write::Truncate { index } => raft.io.truncate(index),
                Write::Append { entries } => {
                    let mut entries = entries;
                    raft.io.append(&mut entries)
                },
            };
            match persisted(answer) {
                Ok(()) => {},
                Err(e) => {
                    proof {
                        if takes_all(first, all) {
                            taken_so_far(first, all, stored + 1);
                        }
                    }
                    return Err(e);
                },
            }
            proof {
                stored = stored + 1;
            }
        }
        assert(all.take(stored) =~= all);
        Ok(raft)
    }

    /// Puts a message for another node into the outbox.
    pub fn send(&mut self, message: Response)
        ensures
            final(self)@ == sent(old(self)@, message@),
    {
        self.outbox.push(message);
        assert(views(self.outbox@) =~= views(old(self).outbox@).push(message@));
    }

    /// Puts messages for other nodes into the outbox, in their order.
    pub fn send_all(&mut self, messages: Vec<Response>)
        ensures
            final(self)@ == (NodeSpec {
                outbox: old(self)@.outbox + views(messages@),
                ..old(self)@
            }),
    {
        let ghost added = views(messages@);
        let mut messages = messages;
        self.outbox.append(&mut messages);
        assert(views(self.outbox@) =~= views(old(self).outbox@) + added);
    }

    /// The ids of the other nodes of the cluster, in the order of our
    /// record.
    pub fn others(&self) -> (ids: Vec<NodeId>)
        ensures
            ids@ == others(self@.nodes, self@.id),
    {
        let mut ids: Vec<NodeId> = Vec::new();
        let mut i: usize = 0;
        while i < self.nodes.len()
            invariant
                i <= self.nodes.len(),
                ids@ == others(self.nodes@.take(i as int), self.id),
            decreases self.nodes.len() - i,
        {
            assert(self.nodes@.take(i + 1).drop_last() =~= self.nodes@.take(i as int));
            if self.nodes[i].id != self.id {
                ids.push(self.nodes[i].id);
            }
            i += 1;
        }
        assert(self.nodes@.take(i as int) =~= self.nodes@);
        ids
    }

    /// Queues the committed entries that were not yet handed out for the
    /// state machine, in index order.
    pub fn deliver(&mut self)
        requires
            old(self)@.state.commit_index <= old(self)@.log.len(),
        ensures
            final(self)@ == delivered(old(self)@),
    {
        if self.state.last_applied < self.state.commit_index {
            let ghost before = view_of(self.applied@);
            let len = self.log.entries.len();
            assert(self.log@.len() == len);
            let mut i: usize = self.state.last_applied as usize;
            let end: usize = self.state.commit_index as usize;
            while i < end
                invariant
                    old(self).state.last_applied <= i <= end,
                    end == old(self).state.commit_index,
                    end <= self.log.entries@.len(),
                    self.log == old(self).log,
                    self.applied@.len() == old(self).applied@.len() + i
                        - old(self).state.last_applied,
                    forall|k: int|
                        0 <= k < old(self).applied@.len() ==> (#[trigger] self.applied@[k])@
                            == old(self).applied@[k]@,
                    forall|k: int|
                        old(self).applied@.len() <= k < self.applied@.len() ==> (
                        #[trigger] self.applied@[k])@ == old(self).log.entries@[k - old(
                            self,
                        ).applied@.len() + old(self).state.last_applied]@,
                    self.id == old(self).id,
                    self.nodes == old(self).nodes,
                    self.state == old(self).state,
                    self.clock == old(self).clock,
                    self.outbox == old(self).outbox,
                    self.pending == old(self).pending,
                    self.io == old(self).io,
                    self.role == old(self).role,
                decreases end - i,
            {
                let entry = self.log.entries[i].clone();
                self.applied.push(entry);
                i += 1;
            }
            self.state.last_applied = self.state.commit_index;
            assert(view_of(self.applied@) =~= before + old(self)@.log.subrange(
                old(self).state.last_applied as int,
                old(self).state.commit_index as int,
            ));
        }
    }

    /// Hands over the messages for other nodes, oldest first, and empties
    /// the outbox.
    pub fn take_outbox(&mut self) -> (messages: Vec<Response>)
        ensures
            views(messages@) == old(self)@.outbox,
            final(self)@ == (NodeSpec { outbox: Seq::empty(), ..old(self)@ }),
    {
        let mut messages: Vec<Response> = Vec::new();
        std::mem::swap(&mut self.outbox, &mut messages);
        assert(views(self.outbox@) =~= Seq::empty());
        messages
    }

    /// Hands over the committed entries for the state machine, in index
    /// order, and empties the queue.
    pub fn take_applied(&mut self) -> (entries: Vec<Entry>)
        ensures
            view_of(entries@) == old(self)@.applied,
            final(self)@ == (NodeSpec { applied: Seq::empty(), ..old(self)@ }),
    {
        let mut entries: Vec<Entry> = Vec::new();
        std::mem::swap(&mut self.applied, &mut entries);
        assert(view_of(self.applied@) =~= Seq::empty());
        entries
    }
}

/// Since applying a command to the state machine can result in any role,
/// the result holds the node in whichever role it has.
pub enum RaftHandle<I: Io> {
    /// An instance of the state machine in the follower role.
    Follower(Raft<Follower, I>),
    /// An instance of the state machine in the candidate role.
    Candidate(Raft<Candidate, I>),
    /// An instance of the state machine in the leader role.
    Leader(Raft<Leader, I>),
}

impl<I: Io> View for RaftHandle<I> {
    type V = NodeSpec;

    open spec fn view(&self) -> NodeSpec {
        match self {
            RaftHandle::Follower(raft) => raft@,
            RaftHandle::Candidate(raft) => raft@,
            RaftHandle::Leader(raft) => raft@,
        }
    }
}

/// What a step returned, with the node taken by its value.
pub open spec fn seen<I: Io>(r: Result<RaftHandle<I>, Error>) -> Result<NodeSpec, Error> {
    match r {
        Ok(handle) => Ok(handle@),
        Err(e) => Err(e),
    }
}

impl<I: Io> RaftHandle<I> {
    /// Obtain a new instance of raft initialized in the default follower
    /// state; the configuration must be valid. The first election deadline
    /// is drawn from the election window.
    pub fn new(config: RaftConfig, io: I) -> (handle: RaftHandle<I>)
        requires
            config.fault() is None,
        ensures
            handle is Follower,
            wf(handle@),
            exists|draw: u64|
                config.min_election_timeout <= draw <= config.max_election_timeout && handle@
                    == #[trigger] initial_node(
                    Node { id: config.id, ip: config.ip, port: config.port },
                    config.nodes@,
                    config.heartbeat_timeout,
                    config.min_election_timeout,
                    config.max_election_timeout,
                    draw,
                    io.stored(),
                    io.reliable(),
                ),
    {
        let draw = election_timeout(config.min_election_timeout, config.max_election_timeout);
        RaftHandle::Follower(Raft::boot(config, io, draw))
    }

    /// Whether the node's invariant holds. It holds of every node that
    /// `new` or a step has returned; this tells whether it holds of one
    /// that was put together by hand.
    pub fn is_well_formed(&self) -> (yes: bool)
        ensures
            yes == wf(self@),
    {
        match self {
            RaftHandle::Follower(raft) => raft.is_sound(),
            RaftHandle::Candidate(raft) => raft.is_well_formed(),
            RaftHandle::Leader(raft) => raft.is_well_formed(),
        }
    }

    /// The identifier of the node.
    pub fn id(&self) -> (id: NodeId)
        ensures
            id == self@.id,
    {
        match self {
            RaftHandle::Follower(raft) => raft.id,
            RaftHandle::Candidate(raft) => raft.id,
            RaftHandle::Leader(raft) => raft.id,
        }
    }

    /// The name of the role that the node plays.
    pub fn role(&self) -> (role: crate::role::Role)
        ensures
            role == crate::role::name_of(self@.role),
    {
        match self {
            RaftHandle::Follower(_) => crate::role::Role::Follower,
            RaftHandle::Candidate(_) => crate::role::Role::Candidate,
            RaftHandle::Leader(_) => crate::role::Role::Leader,
        }
    }

    /// Term, vote, commit position and timeouts of the node.
    pub fn state(&self) -> (state: State)
        ensures
            state == self@.state,
    {
        match self {
            RaftHandle::Follower(raft) => raft.state,
            RaftHandle::Candidate(raft) => raft.state,
            RaftHandle::Leader(raft) => raft.state,
        }
    }

    /// The log of the node.
    pub fn log(&self) -> (log: &Log)
        ensures
            log@ == self@.log,
    {
        match self {
            RaftHandle::Follower(raft) => &raft.log,
            RaftHandle::Candidate(raft) => &raft.log,
            RaftHandle::Leader(raft) => &raft.log,
        }
    }

    /// The leader that the node follows, if it is a follower that knows
    /// one.
    pub fn leader_id(&self) -> (leader: Option<NodeId>)
        ensures
            leader == crate::model::leader_of(self@),
    {
        match self {
            RaftHandle::Follower(raft) => raft.role.leader_id,
            RaftHandle::Candidate(_) => None,
            RaftHandle::Leader(_) => None,
        }
    }

    /// Hands over the messages for other nodes, oldest first, and empties
    /// the outbox.
    pub fn take_outbox(&mut self) -> (messages: Vec<Response>)
        ensures
            views(messages@) == old(self)@.outbox,
            final(self)@ == (NodeSpec { outbox: Seq::empty(), ..old(self)@ }),
    {
        match self {
            RaftHandle::Follower(raft) => raft.take_outbox(),
            RaftHandle::Candidate(raft) => raft.take_outbox(),
            RaftHandle::Leader(raft) => raft.take_outbox(),
        }
    }

    /// Hands over the committed entries for the state machine, in index
    /// order, and empties the queue.
    pub fn take_applied(&mut self) -> (entries: Vec<Entry>)
        ensures
            view_of(entries@) == old(self)@.applied,
            final(self)@ == (NodeSpec { applied: Seq::empty(), ..old(self)@ }),
    {
        match self {
            RaftHandle::Follower(raft) => raft.take_applied(),
            RaftHandle::Candidate(raft) => raft.take_applied(),
            RaftHandle::Leader(raft) => raft.take_applied(),
        }
    }

    /// The time at which the node's role acts next: the election deadline
    /// of a follower or candidate, the next heartbeat of a leader.
    pub fn deadline(&self) -> (at: u64)
        ensures
            at == match self@.role {
                RoleSpec::Follower { election_deadline, .. } => election_deadline,
                RoleSpec::Candidate { deadline, .. } => deadline,
                RoleSpec::Leader { next_heartbeat, .. } => next_heartbeat,
            },
    {
        match self {
            RaftHandle::Follower(raft) => raft.role.election_deadline,
            RaftHandle::Candidate(raft) => raft.role.election.deadline,
            RaftHandle::Leader(raft) => raft.role.next_heartbeat,
        }
    }

    /// The latest time that a tick has brought.
    pub fn clock(&self) -> (now: u64)
        ensures
            now == self@.clock,
    {
        match self {
            RaftHandle::Follower(raft) => raft.clock,
            RaftHandle::Candidate(raft) => raft.clock,
            RaftHandle::Leader(raft) => raft.clock,
        }
    }

    /// Why the node turns `command` down, if it does. A step with a command
    /// that is turned down returns this error and no node: who wants to
    /// keep the node asks here first.
    pub fn refuses(&self, command: &Command) -> (r: Option<Error>)
        ensures
            r == refusal(self@, command@),
    {
        let leads = match self {
            RaftHandle::Leader(_) => true,
            _ => false,
        };
        let last_term = self.state().current_term == u64::MAX;
        match command {
            Command::Propose { payload } => {
                if payload.len() == 0 {
                    Some(Error::InvalidCommand)
                } else if !leads {
                    Some(Error::NotLeader { leader_hint: self.leader_id() })
                } else if self.log().last_index() == u64::MAX {
                    Some(Error::InvalidCommand)
                } else {
                    None
                }
            },
            Command::AppendEntries { term, prev_log_index, prev_log_term, entries, .. } => {
                if crate::follower::acceptable_entries(
                    *term,
                    *prev_log_index,
                    *prev_log_term,
                    entries,
                ) {
                    None
                } else {
                    Some(Error::InvalidCommand)
                }
            },
            Command::Timeout => {
                if !leads && last_term {
                    Some(Error::InvalidCommand)
                } else {
                    None
                }
            },
            Command::Tick { now } => {
                if *now > self.clock() && !leads && self.deadline() <= *now && last_term {
                    Some(Error::InvalidCommand)
                } else {
                    None
                }
            },
            _ => None,
        }
    }

    /// Takes the step that `command` asks for, but stores nothing: what
    /// the step changes of term, vote and log waits in `pending`. `draw`
    /// is the length of the next election timeout. A command that the node
    /// turns down gives the error of the refusal and no node.
    pub fn plan(self, command: Command, draw: u64) -> (r: Result<RaftHandle<I>, Error>)
        requires
            wf(self@),
        ensures
            match r {
                Ok(handle) => refusal(self@, command@) is None && handle@ == step(
                    self@,
                    command@,
                    draw,
                ) && wf(handle@),
                Err(e) => refusal(self@, command@) == Some(e),
            },
    {
        match self {
            RaftHandle::Follower(raft) => raft.plan(command, draw),
            RaftHandle::Candidate(raft) => raft.plan(command, draw),
            RaftHandle::Leader(raft) => raft.plan(command, draw),
        }
    }

    /// Stores what is to be stored, in order. The node comes back with
    /// nothing left to store; the first failure of storage ends the node.
    pub fn flush(self) -> (r: Result<RaftHandle<I>, Error>)
        ensures
            match r {
                Ok(handle) => handle@ == settled(self@) && takes_all(
                    self@.stored,
                    self@.pending,
                ),
                Err(e) => e == Error::Persistence && self@.pending.len() > 0 && !(self@.reliable
                    && takes_all(self@.stored, self@.pending)),
            },
    {
        match self {
            RaftHandle::Follower(raft) => match raft.flush() {
                Ok(raft) => Ok(RaftHandle::Follower(raft)),
                Err(e) => Err(e),
            },
            RaftHandle::Candidate(raft) => match raft.flush() {
                Ok(raft) => Ok(RaftHandle::Candidate(raft)),
                Err(e) => Err(e),
            },
            RaftHandle::Leader(raft) => match raft.flush() {
                Ok(raft) => Ok(RaftHandle::Leader(raft)),
                Err(e) => Err(e),
            },
        }
    }

    /// Applies `command` to the node in whichever role it has; `draw` is
    /// the length of the next election timeout.
    ///
    /// Returns the node that the command leads to, after what the step
    /// changed of term, vote and log has been stored. A command that the
    /// node turns down gives the error of the refusal and no node. A
    /// failure of storage gives [`Error::Persistence`] and no node; it can
    /// come only where the step has something to store.
    pub fn step(self, command: Command, draw: u64) -> (r: Result<RaftHandle<I>, Error>)
        requires
            wf(self@),
        ensures
            outcome(self@, command@, draw, seen(r)),
            r matches Ok(handle) ==> wf(handle@),
    {
        proof {
            if refusal(self@, command@) is None {
                crate::safety::term_never_decreases(self@, command@, draw);
                if kept(self@) {
                    crate::safety::storage_stays_in_step(self@, command@, draw);
                    if self@.pending.len() == 0 {
                        crate::safety::noted_writes_can_be_stored(self@, command@, draw);
                    }
                }
            }
        }
        match self.plan(command, draw) {
            Ok(handle) => handle.flush(),
            Err(e) => Err(e),
        }
    }
}

/// Applying a command is the basic way the state machine is moved forward.
/// Each role implements this trait to handle how it responds (or does not
/// respond) to particular commands.
pub trait Apply<I: Io>: Sized {
    /// The value of the node.
    spec fn model(&self) -> NodeSpec;

    /// Apply a command to the raft state machine, which may result in a new
    /// role. The length of the next election timeout is drawn from the
    /// node's election window; what is returned is what a step with that
    /// draw returns.
    fn apply(self, command: Command) -> (r: Result<RaftHandle<I>, Error>)
        requires
            wf(self.model()),
        ensures
            exists|draw: u64|
                in_window(self.model(), draw) && #[trigger] outcome(
                    self.model(),
                    command@,
                    draw,
                    seen(r),
                ),
            r matches Ok(handle) ==> wf(handle@),
    ;
}

impl<I: Io> Apply<I> for RaftHandle<I> {
    open spec fn model(&self) -> NodeSpec {
        self@
    }

    fn apply(self, command: Command) -> (r: Result<RaftHandle<I>, Error>) {
        match self {
            RaftHandle::Follower(raft) => raft.apply(command),
            RaftHandle::Candidate(raft) => raft.apply(command),
            RaftHandle::Leader(raft) => raft.apply(command),
        }
    }
}

impl<I: Io> Apply<I> for Raft<Follower, I> {
    open spec fn model(&self) -> NodeSpec {
        self@
    }

    fn apply(self, command: Command) -> (r: Result<RaftHandle<I>, Error>) {
        let draw = election_timeout(
            self.state.min_election_timeout,
            self.state.max_election_timeout,
        );
        let r = RaftHandle::Follower(self).step(command, draw);
        assert(in_window(self@, draw) && outcome(self@, command@, draw, seen(r)));
        r
    }
}

impl<I: Io> Apply<I> for Raft<Candidate, I> {
    open spec fn model(&self) -> NodeSpec {
        self@
    }

    fn apply(self, command: Command) -> (r: Result<RaftHandle<I>, Error>) {
        let draw = election_timeout(
            self.state.min_election_timeout,
            self.state.max_election_timeout,
        );
        let r = RaftHandle::Candidate(self).step(command, draw);
        assert(in_window(self@, draw) && outcome(self@, command@, draw, seen(r)));
        r
    }
}

impl<I: Io> Apply<I> for Raft<Leader, I> {
    open spec fn model(&self) -> NodeSpec {
        self@
    }

    fn apply(self, command: Command) -> (r: Result<RaftHandle<I>, Error>) {
        let draw = election_timeout(
            self.state.min_election_timeout,
            self.state.max_election_timeout,
        );
        let r = RaftHandle::Leader(self).step(command, draw);
        assert(in_window(self@, draw) && outcome(self@, command@, draw, seen(r)));
        r
    }
}

} // verus!
