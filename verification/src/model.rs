//! The role machine as mathematics: the value of a node, and the node that
//! each command leads to.
//!
//! A step takes the node, the command and one number drawn from the
//! election window; the draw is used where the step sets a new election
//! deadline.

use vstd::prelude::*;

use crate::election::{granted, one_vote_each, recorded, spec_majority, Vote};
use crate::entry::{EntrySpec, NodeId};
use crate::error::Error;
use crate::log::{chained, last_term, term_at, truncated, well_formed};
use crate::progress::{acknowledged, commit_target, initial, tracks, Progress};
use crate::raft::{CommandSpec, Node, State, WriteSpec};
use crate::rpc::ResponseSpec;

verus! {

/// What a node holds beyond the common state, by role.
pub enum RoleSpec {
    /// Follows `leader_id`, if it knows a leader, and seeks election at
    /// `election_deadline`.
    Follower { leader_id: Option<NodeId>, election_deadline: u64 },
    /// Seeks election with these `votes` and starts over at `deadline`.
    Candidate { votes: Seq<Vote>, deadline: u64 },
    /// Replicates its log as `progress` says and sends appends again at
    /// `next_heartbeat`.
    Leader { progress: Seq<Progress>, next_heartbeat: u64 },
}

/// The value of a node.
pub struct NodeSpec {
    /// The node's own id.
    pub id: NodeId,
    /// The members of the cluster, the node itself among them.
    pub nodes: Seq<Node>,
    /// Term, vote, commit position and timeouts.
    pub state: State,
    /// The log.
    pub log: Seq<EntrySpec>,
    /// The latest time that a tick has brought.
    pub clock: u64,
    /// The role and what belongs to it.
    pub role: RoleSpec,
    /// The messages not yet collected by the driver, oldest first.
    pub outbox: Seq<ResponseSpec>,
    /// The committed entries not yet collected for the state machine, in
    /// index order.
    pub applied: Seq<EntrySpec>,
    /// What the step at hand has changed of term, vote and log and has not
    /// stored yet, in the order in which it is to be stored.
    pub pending: Seq<WriteSpec>,
    /// What the node's storage holds.
    pub stored: Stored,
    /// Whether the node's storage never fails.
    pub reliable: bool,
}

/// The time `wait` after `now`; the end of time if that is beyond it.
pub open spec fn deadline(now: u64, wait: u64) -> u64 {
    if now + wait > u64::MAX {
        u64::MAX
    } else {
        (now + wait) as u64
    }
}

/// Whether `nodes` hold a node with this id.
pub open spec fn knows(nodes: Seq<Node>, id: NodeId) -> bool {
    exists|i: int| 0 <= i < nodes.len() && (#[trigger] nodes[i]).id == id
}

/// No two of `nodes` have the same id.
pub open spec fn distinct(nodes: Seq<Node>) -> bool {
    forall|i: int, j: int|
        0 <= i < j < nodes.len() ==> (#[trigger] nodes[i]).id != (#[trigger] nodes[j]).id
}

/// The ids of `nodes` without `id`, in order.
pub open spec fn others(nodes: Seq<Node>, id: NodeId) -> Seq<NodeId>
    decreases nodes.len(),
{
    if nodes.len() == 0 {
        Seq::empty()
    } else if nodes.last().id == id {
        others(nodes.drop_last(), id)
    } else {
        others(nodes.drop_last(), id).push(nodes.last().id)
    }
}

/// `nodes` after `peer` joined: it takes the place of a node with its id,
/// or else the last place.
pub open spec fn joined(nodes: Seq<Node>, peer: Node) -> Seq<Node> {
    if knows(nodes, peer.id) {
        nodes.map_values(
            |n: Node|
                if n.id == peer.id {
                    peer
                } else {
                    n
                },
        )
    } else {
        nodes.push(peer)
    }
}

/// Whether a log that ends with an entry of `last_log_term` at
/// `last_log_index` is at least as up to date as `log`: its last term is
/// higher, or the same and its last index is not lower.
pub open spec fn up_to_date(log: Seq<EntrySpec>, last_log_term: u64, last_log_index: u64) -> bool {
    last_log_term > last_term(log) || (last_log_term == last_term(log) && last_log_index
        >= log.len())
}

/// Whether `log` holds an entry of `term` at `index`; the position before
/// the log matches any term.
pub open spec fn matches_at(log: Seq<EntrySpec>, index: u64, term: u64) -> bool {
    index == 0 || (index <= log.len() && term_at(log, index as int) == term)
}

/// Whether `log` holds, at position `prev + i` counted from 0, an entry of
/// the term of `entries[i]`.
pub open spec fn held(log: Seq<EntrySpec>, prev: int, entries: Seq<EntrySpec>, i: int) -> bool {
    &&& 0 <= i < entries.len()
    &&& 0 <= prev + i < log.len()
    &&& log[prev + i].term == entries[i].term
}

/// Counting from `from`, the number of `entries` that `log` already holds
/// behind index `prev`: the first that is absent from the log, or has
/// another term there, ends the count.
pub open spec fn agreement(log: Seq<EntrySpec>, prev: int, entries: Seq<EntrySpec>, from: int) -> int
    decreases entries.len() - from,
{
    if held(log, prev, entries, from) {
        agreement(log, prev, entries, from + 1)
    } else {
        from
    }
}

/// `log` after the `entries` that follow index `prev` were taken in: if the
/// log holds them all it stays as it is; else it is cut behind the last
/// entry on which both agree and the rest of `entries` is appended.
pub open spec fn merged(log: Seq<EntrySpec>, prev: int, entries: Seq<EntrySpec>) -> Seq<EntrySpec> {
    let same = agreement(log, prev, entries, 0);
    if same >= entries.len() {
        log
    } else {
        log.take(prev + same) + entries.skip(same)
    }
}

/// What is to be stored when `log` takes in the `entries` that follow index
/// `prev`: nothing if the log holds them all; else the removal of what is
/// cut, if anything is, and then what is appended.
pub open spec fn merge_writes(log: Seq<EntrySpec>, prev: int, entries: Seq<EntrySpec>) -> Seq<
    WriteSpec,
> {
    let same = agreement(log, prev, entries, 0);
    let rest = WriteSpec::Append { entries: entries.skip(same) };
    if same >= entries.len() {
        Seq::empty()
    } else if prev + same < log.len() {
        seq![WriteSpec::Truncate { index: (prev + same + 1) as u64 }, rest]
    } else {
        seq![rest]
    }
}

/// Whether a follower can take in `entries` behind the entry of `prev_term`
/// at `prev`: its log holds that entry, and taking them in would replace no
/// entry at or below `commit_index`.
pub open spec fn consistent(
    log: Seq<EntrySpec>,
    commit_index: u64,
    prev: u64,
    prev_term: u64,
    entries: Seq<EntrySpec>,
) -> bool {
    &&& matches_at(log, prev, prev_term)
    &&& (agreement(log, prev as int, entries, 0) >= entries.len() || prev + agreement(
        log,
        prev as int,
        entries,
        0,
    ) >= commit_index)
}

/// Whether `entries`, sent in `term` to follow the entry of `prev_term` at
/// `prev`, are such as a leader sends: numbered from `prev + 1` without a
/// gap, with terms that start at `prev_term` or above, never decrease and
/// do not exceed `term`.
pub open spec fn acceptable(term: u64, prev: u64, prev_term: u64, entries: Seq<EntrySpec>) -> bool {
    &&& chained(entries, prev + 1, prev_term)
    &&& forall|k: int| 0 <= k < entries.len() ==> (#[trigger] entries[k]).term <= term
}

/// The request for a vote that a candidate sends to `to`.
pub open spec fn vote_request(n: NodeSpec, to: NodeId) -> ResponseSpec {
    ResponseSpec::VoteRequest {
        to,
        term: n.state.current_term,
        candidate_id: n.id,
        last_log_index: n.log.len() as u64,
        last_log_term: last_term(n.log),
    }
}

/// The append that a leader sends to the follower of cursor `p`: all
/// entries from the cursor's next index on, behind the entry before it.
pub open spec fn append_for(n: NodeSpec, p: Progress) -> ResponseSpec {
    ResponseSpec::AppendEntries {
        to: p.id,
        term: n.state.current_term,
        leader_id: n.id,
        prev_log_index: (p.next_index - 1) as u64,
        prev_log_term: term_at(n.log, p.next_index - 1),
        entries: n.log.skip(p.next_index - 1),
        leader_commit: n.state.commit_index,
    }
}

/// The appends that a leader sends, one to each follower.
pub open spec fn appends(n: NodeSpec, progress: Seq<Progress>) -> Seq<ResponseSpec> {
    progress.map_values(|p: Progress| append_for(n, p))
}

/// The part of the node's invariant that speaks of no role: the cluster has
/// one node per id and holds the node itself, the election window is not
/// empty, the log is well formed and holds no entry of a term above the
/// node's, and what is handed out is committed and what is committed is in
/// the log.
pub open spec fn sound(n: NodeSpec) -> bool {
    &&& distinct(n.nodes)
    &&& knows(n.nodes, n.id)
    &&& n.state.min_election_timeout <= n.state.max_election_timeout
    &&& well_formed(n.log)
    &&& forall|i: int| 0 <= i < n.log.len() ==> (#[trigger] n.log[i]).term <= n.state.current_term
    &&& n.state.last_applied <= n.state.commit_index <= n.log.len()
}

/// The votes of a candidate are in order: one answer per node, each from a
/// node of the cluster.
pub open spec fn votes_fit(n: NodeSpec, votes: Seq<Vote>) -> bool {
    &&& one_vote_each(votes)
    &&& forall|i: int| 0 <= i < votes.len() ==> knows(n.nodes, (#[trigger] votes[i]).id)
}

/// The progress of a leader is in order: one cursor for each other node of
/// the cluster, in the order of the cluster, and each within the log.
pub open spec fn progress_fits(n: NodeSpec, progress: Seq<Progress>) -> bool {
    &&& progress.map_values(|p: Progress| p.id) == others(n.nodes, n.id)
    &&& forall|i: int|
        0 <= i < progress.len() ==> 1 <= (#[trigger] progress[i]).next_index <= n.log.len() + 1
    &&& forall|i: int|
        0 <= i < progress.len() ==> (#[trigger] progress[i]).match_index <= n.log.len()
}

/// The node's invariant.
pub open spec fn wf(n: NodeSpec) -> bool {
    &&& sound(n)
    &&& match n.role {
        RoleSpec::Follower { .. } => true,
        RoleSpec::Candidate { votes, .. } => votes_fit(n, votes),
        RoleSpec::Leader { progress, .. } => progress_fits(n, progress),
    }
}

/// Whether `log` can be the log of a node of term `term`: it is well formed
/// and holds no entry of a higher term.
pub open spec fn restorable(term: u64, log: Seq<EntrySpec>) -> bool {
    &&& well_formed(log)
    &&& forall|i: int| 0 <= i < log.len() ==> (#[trigger] log[i]).term <= term
}

/// A node as it starts again: as it starts, but with the term, vote and log
/// that it had stored. What it had committed it learns anew.
pub open spec fn restored_node(fresh: NodeSpec, stored: Stored) -> NodeSpec {
    NodeSpec {
        state: State { current_term: stored.term, voted_for: stored.voted_for, ..fresh.state },
        log: stored.log,
        ..fresh
    }
}

/// Whether `draw` lies in the node's election window.
pub open spec fn in_window(n: NodeSpec, draw: u64) -> bool {
    n.state.min_election_timeout <= draw <= n.state.max_election_timeout
}

/// The cluster that the node with these settings starts in: the node
/// itself, then the others as they join in the order given.
pub open spec fn cluster(own: Node, peers: Seq<Node>) -> Seq<Node>
    decreases peers.len(),
{
    if peers.len() == 0 {
        seq![own]
    } else {
        joined(cluster(own, peers.drop_last()), peers.last())
    }
}

/// A node as it starts: a follower of term 0 that has not voted and knows
/// no leader, with an empty log, at time 0, and an election deadline at
/// `draw`, over the storage it is given.
pub open spec fn initial_node(
    own: Node,
    peers: Seq<Node>,
    heartbeat_timeout: u64,
    min_election_timeout: u64,
    max_election_timeout: u64,
    draw: u64,
    stored: Stored,
    reliable: bool,
) -> NodeSpec {
    NodeSpec {
        id: own.id,
        nodes: cluster(own, peers),
        state: State {
            current_term: 0,
            voted_for: None,
            commit_index: 0,
            last_applied: 0,
            heartbeat_timeout,
            min_election_timeout,
            max_election_timeout,
        },
        log: Seq::empty(),
        clock: 0,
        role: RoleSpec::Follower { leader_id: None, election_deadline: draw },
        outbox: Seq::empty(),
        applied: Seq::empty(),
        pending: Seq::empty(),
        stored,
        reliable,
    }
}

/// The progress of a leader; no other role has any.
pub open spec fn progress_of(n: NodeSpec) -> Seq<Progress> {
    match n.role {
        RoleSpec::Leader { progress, .. } => progress,
        _ => Seq::empty(),
    }
}

/// The leader that a follower knows; no other role knows one.
pub open spec fn leader_of(n: NodeSpec) -> Option<NodeId> {
    match n.role {
        RoleSpec::Follower { leader_id, .. } => leader_id,
        _ => None,
    }
}

/// The node with message `m` added to its outbox.
pub open spec fn sent(n: NodeSpec, m: ResponseSpec) -> NodeSpec {
    NodeSpec { outbox: n.outbox.push(m), ..n }
}

/// The node with `w` added to what is to be stored.
pub open spec fn noted(n: NodeSpec, w: WriteSpec) -> NodeSpec {
    NodeSpec { pending: n.pending.push(w), ..n }
}

/// The node after all that was to be stored has been stored: storage holds
/// what the writes that waited make of what it held.
pub open spec fn settled(n: NodeSpec) -> NodeSpec {
    NodeSpec { pending: Seq::empty(), stored: replayed(n.stored, n.pending), ..n }
}

/// Whether storage can take the write `w`: entries are appended only where
/// they continue the stored log, so that no log with a gap is ever stored.
pub open spec fn can_take(s: Stored, w: WriteSpec) -> bool {
    match w {
        WriteSpec::Append { entries } => chained(
            entries,
            s.log.len() as int + 1,
            last_term(s.log),
        ),
        _ => true,
    }
}

/// Whether storage can take the writes `ws`, one after the other.
pub open spec fn takes_all(s: Stored, ws: Seq<WriteSpec>) -> bool
    decreases ws.len(),
{
    ws.len() == 0 || (takes_all(s, ws.drop_last()) && can_take(
        replayed(s, ws.drop_last()),
        ws.last(),
    ))
}

/// Whether storage is in step with the node: the writes that wait, made on
/// what storage holds, give the node's term, vote and log.
pub open spec fn kept(n: NodeSpec) -> bool {
    replayed(n.stored, n.pending) == durable(n)
}

/// The node after the committed entries that were not yet handed out have
/// been queued for the state machine.
pub open spec fn delivered(n: NodeSpec) -> NodeSpec {
    if n.state.last_applied < n.state.commit_index <= n.log.len() {
        NodeSpec {
            state: State { last_applied: n.state.commit_index, ..n.state },
            applied: n.applied + n.log.subrange(
                n.state.last_applied as int,
                n.state.commit_index as int,
            ),
            ..n
        }
    } else {
        n
    }
}

/// A leader after it sent an append to each follower: the next heartbeat is
/// due one heartbeat timeout from now.
pub open spec fn heartbeat(n: NodeSpec) -> NodeSpec {
    match n.role {
        RoleSpec::Leader { progress, .. } => NodeSpec {
            role: RoleSpec::Leader {
                progress,
                next_heartbeat: deadline(n.clock, n.state.heartbeat_timeout),
            },
            outbox: n.outbox + appends(n, progress),
            ..n
        },
        _ => n,
    }
}

/// The index after `index`; the largest index there is has none after it
/// and stands for itself.
pub open spec fn next_after(index: nat) -> u64 {
    if index < u64::MAX {
        (index + 1) as u64
    } else {
        u64::MAX
    }
}

/// The node as leader: it tracks every other node from the entry after its
/// last, has sent each an append without entries, and sends the next
/// heartbeat one heartbeat timeout from now.
pub open spec fn lead(n: NodeSpec) -> NodeSpec {
    heartbeat(
        NodeSpec {
            role: RoleSpec::Leader {
                progress: initial(others(n.nodes, n.id), next_after(n.log.len())),
                next_heartbeat: n.clock,
            },
            ..n
        },
    )
}

/// A candidate becomes leader once a majority of the cluster has granted
/// its vote; else the node stays as it is.
pub open spec fn concluded(n: NodeSpec) -> NodeSpec {
    match n.role {
        RoleSpec::Candidate { votes, .. } => if granted(votes) >= spec_majority(n.nodes.len()) {
            lead(n)
        } else {
            n
        },
        _ => n,
    }
}

/// The node after it started an election: the term is one higher, the node
/// has voted for itself, which is to be stored, and asked every other node
/// for its vote, and the election ends `draw` from now. Where its own vote
/// is a majority, it is leader at once.
pub open spec fn campaign(n: NodeSpec, draw: u64) -> NodeSpec {
    let term = (n.state.current_term + 1) as u64;
    let candidate = NodeSpec {
        state: State { current_term: term, voted_for: Some(n.id), ..n.state },
        role: RoleSpec::Candidate {
            votes: seq![Vote { id: n.id, granted: true }],
            deadline: deadline(n.clock, draw),
        },
        pending: n.pending.push(WriteSpec::Save { term, voted_for: Some(n.id) }),
        ..n
    };
    concluded(
        NodeSpec {
            outbox: n.outbox + others(n.nodes, n.id).map_values(
                |to: NodeId| vote_request(candidate, to),
            ),
            ..candidate
        },
    )
}

/// The node after its deadline passed: a follower or candidate starts an
/// election, a leader sends its heartbeat.
pub open spec fn timed_out(n: NodeSpec, draw: u64) -> NodeSpec {
    match n.role {
        RoleSpec::Leader { .. } => heartbeat(n),
        _ => campaign(n, draw),
    }
}

/// Whether the deadline of the node's role has been reached.
pub open spec fn due(n: NodeSpec) -> bool {
    match n.role {
        RoleSpec::Follower { election_deadline, .. } => election_deadline <= n.clock,
        RoleSpec::Candidate { deadline, .. } => deadline <= n.clock,
        RoleSpec::Leader { next_heartbeat, .. } => next_heartbeat <= n.clock,
    }
}

/// The node after the clock read `now`. Time that does not advance changes
/// nothing; else the clock is set, and a deadline that has been reached
/// takes effect.
pub open spec fn ticked(n: NodeSpec, now: u64, draw: u64) -> NodeSpec {
    if now <= n.clock {
        n
    } else {
        let later = NodeSpec { clock: now, ..n };
        if due(later) {
            timed_out(later, draw)
        } else {
            later
        }
    }
}

/// The node after it saw `term` in a message. A higher term becomes the
/// node's own: its vote is free again, both are to be stored, and it is a
/// follower without a leader. A follower or candidate keeps its election
/// deadline, a leader gets one `draw` from now.
pub open spec fn observed(n: NodeSpec, term: u64, draw: u64) -> NodeSpec {
    if term > n.state.current_term {
        NodeSpec {
            state: State { current_term: term, voted_for: None, ..n.state },
            role: RoleSpec::Follower {
                leader_id: None,
                election_deadline: match n.role {
                    RoleSpec::Follower { election_deadline, .. } => election_deadline,
                    RoleSpec::Candidate { deadline, .. } => deadline,
                    RoleSpec::Leader { .. } => deadline(n.clock, draw),
                },
            },
            pending: n.pending.push(WriteSpec::Save { term, voted_for: None }),
            ..n
        }
    } else {
        n
    }
}

/// Whether the node gives its vote: it is a follower, the request is of its
/// own term, it has not voted for another node in that term, and the
/// candidate's log is at least as up to date as its own.
pub open spec fn grants(
    n: NodeSpec,
    term: u64,
    candidate_id: NodeId,
    last_log_index: u64,
    last_log_term: u64,
) -> bool {
    &&& n.role is Follower
    &&& term == n.state.current_term
    &&& (n.state.voted_for is None || n.state.voted_for == Some(candidate_id))
    &&& up_to_date(n.log, last_log_term, last_log_index)
}

/// The node after it answered a request for a vote of a term that is not
/// above its own. Granting records the vote, which is to be stored if it is
/// new, and moves the election deadline to `draw` from now.
pub open spec fn polled(
    n: NodeSpec,
    term: u64,
    candidate_id: NodeId,
    last_log_index: u64,
    last_log_term: u64,
    draw: u64,
) -> NodeSpec {
    let yes = grants(n, term, candidate_id, last_log_index, last_log_term);
    let answer = ResponseSpec::VoteResponse {
        to: candidate_id,
        term: n.state.current_term,
        voter_id: n.id,
        granted: yes,
    };
    if yes {
        sent(
            NodeSpec {
                state: State { voted_for: Some(candidate_id), ..n.state },
                role: RoleSpec::Follower {
                    leader_id: leader_of(n),
                    election_deadline: deadline(n.clock, draw),
                },
                pending: if n.state.voted_for is None {
                    n.pending.push(
                        WriteSpec::Save {
                            term: n.state.current_term,
                            voted_for: Some(candidate_id),
                        },
                    )
                } else {
                    n.pending
                },
                ..n
            },
            answer,
        )
    } else {
        sent(n, answer)
    }
}

/// The node after a request for its vote: it takes the term in, then
/// answers.
pub open spec fn voted(
    n: NodeSpec,
    term: u64,
    candidate_id: NodeId,
    last_log_index: u64,
    last_log_term: u64,
    draw: u64,
) -> NodeSpec {
    polled(observed(n, term, draw), term, candidate_id, last_log_index, last_log_term, draw)
}

/// The node after an answer to a request for a vote, of a term that is not
/// above its own. A candidate records an answer of its own term from a node
/// of the cluster, and becomes leader once a majority has granted.
pub open spec fn counted(n: NodeSpec, term: u64, voter_id: NodeId, yes: bool) -> NodeSpec {
    match n.role {
        RoleSpec::Candidate { votes, deadline } => if term == n.state.current_term && knows(
            n.nodes,
            voter_id,
        ) {
            concluded(
                NodeSpec {
                    role: RoleSpec::Candidate { votes: recorded(votes, voter_id, yes), deadline },
                    ..n
                },
            )
        } else {
            n
        },
        _ => n,
    }
}

/// The node after an answer to a request for a vote: it takes the term in,
/// then the answer.
pub open spec fn tallied(n: NodeSpec, term: u64, voter_id: NodeId, yes: bool, draw: u64) -> NodeSpec {
    counted(observed(n, term, draw), term, voter_id, yes)
}

/// The answer to an append.
pub open spec fn append_response(n: NodeSpec, to: NodeId, success: bool, match_index: u64) -> ResponseSpec {
    ResponseSpec::AppendResponse {
        to,
        term: n.state.current_term,
        follower_id: n.id,
        success,
        match_index,
    }
}

/// A node that is no leader after an append of its own term. It follows
/// the sender from now on, with an election deadline `draw` from now; where
/// its log is consistent with the append it takes the entries in, which is
/// to be stored, raises its commit index to the leader's (but not beyond
/// the last entry sent) and answers with success and the index of the last
/// entry sent; else it answers with a failure.
pub open spec fn followed(
    n: NodeSpec,
    leader_id: NodeId,
    prev_log_index: u64,
    prev_log_term: u64,
    entries: Seq<EntrySpec>,
    leader_commit: u64,
    draw: u64,
) -> NodeSpec {
    let f = NodeSpec {
        role: RoleSpec::Follower {
            leader_id: Some(leader_id),
            election_deadline: deadline(n.clock, draw),
        },
        ..n
    };
    if consistent(f.log, f.state.commit_index, prev_log_index, prev_log_term, entries) {
        let last_new = (prev_log_index + entries.len()) as u64;
        let reach = if leader_commit < last_new {
            leader_commit
        } else {
            last_new
        };
        let commit_index = if reach > f.state.commit_index {
            reach
        } else {
            f.state.commit_index
        };
        delivered(
            sent(
                NodeSpec {
                    state: State { commit_index, ..f.state },
                    log: merged(f.log, prev_log_index as int, entries),
                    pending: f.pending + merge_writes(f.log, prev_log_index as int, entries),
                    ..f
                },
                append_response(f, leader_id, true, last_new),
            ),
        )
    } else {
        sent(f, append_response(f, leader_id, false, 0))
    }
}

/// The node after an append of a leader. An append of an older term is
/// answered with a failure and changes nothing else. Else the node takes
/// the term in; a leader ignores an append of its own term, any other node
/// follows the sender.
pub open spec fn appended(
    n: NodeSpec,
    term: u64,
    leader_id: NodeId,
    prev_log_index: u64,
    prev_log_term: u64,
    entries: Seq<EntrySpec>,
    leader_commit: u64,
    draw: u64,
) -> NodeSpec {
    if term < n.state.current_term {
        sent(n, append_response(n, leader_id, false, 0))
    } else {
        let n = observed(n, term, draw);
        if n.role is Leader {
            n
        } else {
            followed(n, leader_id, prev_log_index, prev_log_term, entries, leader_commit, draw)
        }
    }
}

/// A leader after it raised its commit index to the highest committable
/// index, if that is higher, and queued the newly committed entries for the
/// state machine.
pub open spec fn committed(n: NodeSpec) -> NodeSpec {
    let target = commit_target(
        n.log,
        progress_of(n),
        n.state.current_term,
        n.nodes.len(),
        n.log.len(),
    );
    if n.role is Leader && target > n.state.commit_index {
        delivered(NodeSpec { state: State { commit_index: target as u64, ..n.state }, ..n })
    } else {
        n
    }
}

/// The node after a follower's answer to an append, of a term that is not
/// above its own. A leader takes in an answer of its own term from a
/// follower it tracks, unless the answer claims a match beyond the leader's
/// log, and commits what a majority now holds.
pub open spec fn confirmed(
    n: NodeSpec,
    term: u64,
    follower_id: NodeId,
    success: bool,
    match_index: u64,
) -> NodeSpec {
    match n.role {
        RoleSpec::Leader { progress, next_heartbeat } => if term == n.state.current_term && tracks(
            progress,
            follower_id,
        ) && (!success || match_index <= n.log.len()) {
            committed(
                NodeSpec {
                    role: RoleSpec::Leader {
                        progress: acknowledged(progress, follower_id, success, match_index),
                        next_heartbeat,
                    },
                    ..n
                },
            )
        } else {
            n
        },
        _ => n,
    }
}

/// The node after a follower's answer to an append: it takes the term in,
/// then the answer.
pub open spec fn acked(
    n: NodeSpec,
    term: u64,
    follower_id: NodeId,
    success: bool,
    match_index: u64,
    draw: u64,
) -> NodeSpec {
    confirmed(observed(n, term, draw), term, follower_id, success, match_index)
}

/// A leader after it appended `payload` to its log as an entry of its term,
/// which is to be stored, and committed it where the leader alone is a
/// majority.
pub open spec fn proposed(n: NodeSpec, payload: Seq<u8>) -> NodeSpec {
    let entry = EntrySpec {
        term: n.state.current_term,
        index: (n.log.len() + 1) as u64,
        data: payload,
    };
    committed(
        NodeSpec {
            log: n.log.push(entry),
            pending: n.pending.push(WriteSpec::Append { entries: seq![entry] }),
            ..n
        },
    )
}

/// The node after `peer` joined the cluster. A leader tracks a new node
/// from the entry after its last.
pub open spec fn enlarged(n: NodeSpec, peer: Node) -> NodeSpec {
    let nodes = joined(n.nodes, peer);
    match n.role {
        RoleSpec::Leader { progress, next_heartbeat } => if knows(n.nodes, peer.id) {
            NodeSpec { nodes, ..n }
        } else {
            NodeSpec {
                nodes,
                role: RoleSpec::Leader {
                    progress: progress.push(
                        Progress {
                            id: peer.id,
                            next_index: next_after(n.log.len()),
                            match_index: 0,
                        },
                    ),
                    next_heartbeat,
                },
                ..n
            }
        },
        _ => NodeSpec { nodes, ..n },
    }
}

/// Whether command `c` would raise a counter of the node beyond the largest
/// number there is: an election needs a term above the node's, a proposal
/// an index above the log's last.
pub open spec fn exhausted(n: NodeSpec, c: CommandSpec) -> bool {
    match c {
        CommandSpec::Timeout => !(n.role is Leader) && n.state.current_term == u64::MAX,
        CommandSpec::Tick { now } => now > n.clock && !(n.role is Leader) && due(
            NodeSpec { clock: now, ..n },
        ) && n.state.current_term == u64::MAX,
        CommandSpec::Propose { .. } => n.role is Leader && n.log.len() >= u64::MAX,
        _ => false,
    }
}

/// Why the node turns a command down, if it does: a proposal without
/// payload and an append with entries that no leader would send are
/// invalid, a node that is not the leader takes no proposal, and a command
/// that would raise a counter beyond the largest number cannot be carried
/// out.
pub open spec fn refusal(n: NodeSpec, c: CommandSpec) -> Option<Error> {
    match c {
        CommandSpec::Propose { payload } => if payload.len() == 0 {
            Some(Error::InvalidCommand)
        } else if !(n.role is Leader) {
            Some(Error::NotLeader { leader_hint: leader_of(n) })
        } else if exhausted(n, c) {
            Some(Error::InvalidCommand)
        } else {
            None
        },
        CommandSpec::AppendEntries { term, prev_log_index, prev_log_term, entries, .. } =>
            if acceptable(term, prev_log_index, prev_log_term, entries) {
                None
            } else {
                Some(Error::InvalidCommand)
            },
        _ => if exhausted(n, c) {
            Some(Error::InvalidCommand)
        } else {
            None
        },
    }
}

/// The node that command `c` leads to, where the node does not turn it
/// down, before what the step changes of term, vote and log is stored.
/// `draw` is the length of the next election timeout.
pub open spec fn step(n: NodeSpec, c: CommandSpec, draw: u64) -> NodeSpec {
    match c {
        CommandSpec::Noop => n,
        CommandSpec::Tick { now } => ticked(n, now, draw),
        CommandSpec::Timeout => timed_out(n, draw),
        CommandSpec::VoteRequest { term, candidate_id, last_log_index, last_log_term } => voted(
            n,
            term,
            candidate_id,
            last_log_index,
            last_log_term,
            draw,
        ),
        CommandSpec::VoteResponse { term, voter_id, granted } => tallied(
            n,
            term,
            voter_id,
            granted,
            draw,
        ),
        CommandSpec::AppendEntries {
            term,
            leader_id,
            prev_log_index,
            prev_log_term,
            entries,
            leader_commit,
        } => appended(
            n,
            term,
            leader_id,
            prev_log_index,
            prev_log_term,
            entries,
            leader_commit,
            draw,
        ),
        CommandSpec::Heartbeat { term, leader_id, leader_commit } => appended(
            n,
            term,
            leader_id,
            0,
            0,
            Seq::empty(),
            leader_commit,
            draw,
        ),
        CommandSpec::AppendResponse { term, follower_id, success, match_index } => acked(
            n,
            term,
            follower_id,
            success,
            match_index,
            draw,
        ),
        CommandSpec::Propose { payload } => proposed(n, payload),
        CommandSpec::AddPeer { peer } => enlarged(n, peer),
    }
}

/// What a call of a step function may return. Where the node turns the
/// command down: the error of the refusal. Else: the node that the step
/// leads to, at a term that is not lower, with everything stored that was
/// to be, so that storage that was in step with the node still is; or a
/// persistence error. That error
/// can come only where there is something to store, and not from storage
/// that never fails and can take what is to be stored, as storage can that
/// is in step with a node at rest.
pub open spec fn outcome(n: NodeSpec, c: CommandSpec, draw: u64, r: Result<NodeSpec, Error>) -> bool {
    let planned = step(n, c, draw);
    match r {
        Ok(after) => {
            &&& refusal(n, c) is None
            &&& after == settled(planned)
            &&& takes_all(planned.stored, planned.pending)
            &&& kept(n) ==> kept(after)
            &&& after.state.current_term >= n.state.current_term
        },
        Err(e) => if refusal(n, c) is Some {
            refusal(n, c) == Some(e)
        } else {
            &&& e == Error::Persistence
            &&& planned.pending.len() > 0
            &&& !(planned.reliable && takes_all(planned.stored, planned.pending))
            &&& !(n.reliable && kept(n) && n.pending.len() == 0)
        },
    }
}

/// What storage holds of a node: what the node must keep across restarts.
pub struct Stored {
    /// The term.
    pub term: u64,
    /// The vote cast in that term.
    pub voted_for: Option<NodeId>,
    /// The log.
    pub log: Seq<EntrySpec>,
}

/// What a node must keep across restarts: its term, its vote and its log.
pub open spec fn durable(n: NodeSpec) -> Stored {
    Stored { term: n.state.current_term, voted_for: n.state.voted_for, log: n.log }
}

/// What storage holds after the write `w`.
pub open spec fn written(s: Stored, w: WriteSpec) -> Stored {
    match w {
        WriteSpec::Save { term, voted_for } => Stored { term, voted_for, ..s },
        WriteSpec::Truncate { index } => Stored { log: truncated(s.log, index as int), ..s },
        WriteSpec::Append { entries } => Stored { log: s.log + entries, ..s },
    }
}

/// What storage holds after the writes `ws`, the first of them first.
pub open spec fn replayed(s: Stored, ws: Seq<WriteSpec>) -> Stored
    decreases ws.len(),
{
    if ws.len() == 0 {
        s
    } else {
        written(replayed(s, ws.drop_last()), ws.last())
    }
}

/// Whether a step changes what a node must keep across restarts: its term,
/// its vote or its log.
pub open spec fn durable_change(before: NodeSpec, after: NodeSpec) -> bool {
    ||| before.state.current_term != after.state.current_term
    ||| before.state.voted_for != after.state.voted_for
    ||| before.log != after.log
}

} // verus!
