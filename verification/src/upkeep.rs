//! The node's invariant holds of a new node and after every step.

use vstd::prelude::*;

use crate::election::{recorded, recorded_one_vote_each, Vote};
use crate::entry::{EntrySpec, NodeId};
use crate::log::{chained, well_formed};
use crate::model::{
    acceptable, acked, agreement, appended, campaign, cluster, committed, concluded, consistent,
    deadline, distinct, enlarged, exhausted, followed, heartbeat, held, joined, knows, lead, matches_at,
    merged, next_after, observed, others, progress_of, proposed, refusal, step, tallied, ticked,
    timed_out, vote_request, wf, NodeSpec, RoleSpec,
};
use crate::progress::{acknowledged, answered, commit_target_is_highest, initial, Progress};
use crate::raft::{CommandSpec, Node, State, WriteSpec};

verus! {

/// What `agreement` counts: every entry before the count is in the log with
/// its term, and the entry at the count, if there is one, is not.
pub proof fn agreement_counts(log: Seq<EntrySpec>, prev: int, entries: Seq<EntrySpec>, from: int)
    requires
        0 <= from <= entries.len(),
        0 <= prev,
    ensures
        from <= agreement(log, prev, entries, from) <= entries.len(),
        forall|i: int|
            from <= i < agreement(log, prev, entries, from) ==> #[trigger] held(
                log,
                prev,
                entries,
                i,
            ),
        !held(log, prev, entries, agreement(log, prev, entries, from)),
    decreases entries.len() - from,
{
    if held(log, prev, entries, from) {
        agreement_counts(log, prev, entries, from + 1);
    }
}

/// Taking in entries that a leader sends, behind an entry that the log
/// holds, leaves the log well formed, and as long as the last entry sent or
/// longer.
pub proof fn merged_well_formed(
    log: Seq<EntrySpec>,
    prev: u64,
    prev_term: u64,
    entries: Seq<EntrySpec>,
)
    requires
        well_formed(log),
        matches_at(log, prev, prev_term),
        chained(entries, prev + 1, prev_term),
    ensures
        well_formed(merged(log, prev as int, entries)),
        merged(log, prev as int, entries).len() >= prev + entries.len(),
        agreement(log, prev as int, entries, 0) < entries.len() ==> merged(
            log,
            prev as int,
            entries,
        ).len() == prev + entries.len(),
        forall|i: int|
            0 <= i < merged(log, prev as int, entries).len() ==> (exists|j: int|
                0 <= j < log.len() && log[j] == #[trigger] merged(log, prev as int, entries)[i])
                || (exists|j: int|
                0 <= j < entries.len() && entries[j] == merged(log, prev as int, entries)[i]),
{
    let same = agreement(log, prev as int, entries, 0);
    agreement_counts(log, prev as int, entries, 0);
    let after = merged(log, prev as int, entries);
    if same >= entries.len() {
        if entries.len() > 0 {
            assert(held(log, prev as int, entries, entries.len() - 1));
        }
        assert forall|i: int| 0 <= i < after.len() implies (exists|j: int|
            0 <= j < log.len() && log[j] == #[trigger] after[i]) || (exists|j: int|
            0 <= j < entries.len() && entries[j] == after[i]) by {
            assert(log[i] == after[i]);
        }
    } else {
        if same > 0 {
            assert(held(log, prev as int, entries, same - 1));
        }
        let head = log.take(prev + same);
        let tail = entries.skip(same);
        assert forall|i: int| 0 <= i < after.len() implies (#[trigger] after[i]).index == i
            + 1 by {
            if i >= head.len() {
                assert(after[i] == entries[i - head.len() + same]);
            }
        }
        assert forall|i: int, j: int| 0 <= i <= j < after.len() implies (#[trigger] after[i]).term
            <= (#[trigger] after[j]).term by {
            if j < head.len() {
            } else if i >= head.len() {
                assert(after[i] == entries[i - head.len() + same]);
                assert(after[j] == entries[j - head.len() + same]);
            } else {
                assert(after[j] == entries[j - head.len() + same]);
                assert(after[i] == log[i]);
                if same > 0 {
                    assert(log[i].term <= log[prev + same - 1].term);
                    assert(log[prev + (same - 1)].term == entries[same - 1].term);
                    assert(entries[same - 1].term <= entries[j - head.len() + same].term);
                } else {
                    assert(prev >= 1);
                    assert(log[i].term <= log[prev - 1].term);
                    assert(prev_term <= entries[j - head.len() + same].term);
                }
            }
        }
        assert forall|i: int| 0 <= i < after.len() implies (exists|j: int|
            0 <= j < log.len() && log[j] == #[trigger] after[i]) || (exists|j: int|
            0 <= j < entries.len() && entries[j] == after[i]) by {
            if i < head.len() {
                assert(log[i] == after[i]);
            } else {
                assert(entries[i - head.len() + same] == after[i]);
            }
        }
    }
}

/// The other nodes are nodes of the cluster, and all of them but the node
/// itself.
pub proof fn others_are_known(nodes: Seq<Node>, id: NodeId)
    ensures
        forall|k: int|
            0 <= k < others(nodes, id).len() ==> (#[trigger] others(nodes, id)[k]) != id && knows(
                nodes,
                others(nodes, id)[k],
            ),
        others(nodes, id).len() <= nodes.len(),
        distinct(nodes) && knows(nodes, id) ==> others(nodes, id).len() == nodes.len() - 1,
        !knows(nodes, id) ==> others(nodes, id).len() == nodes.len(),
    decreases nodes.len(),
{
    if nodes.len() > 0 {
        let front = nodes.drop_last();
        others_are_known(front, id);
        assert forall|k: int| 0 <= k < others(nodes, id).len() implies (#[trigger] others(
            nodes,
            id,
        )[k]) != id && knows(nodes, others(nodes, id)[k]) by {
            if k < others(front, id).len() {
                let i = choose|i: int|
                    0 <= i < front.len() && (#[trigger] front[i]).id == others(front, id)[k];
                assert(nodes[i].id == others(nodes, id)[k]);
            } else {
                assert(nodes[nodes.len() - 1].id == others(nodes, id)[k]);
            }
        }
        if knows(front, id) {
            let i = choose|i: int| 0 <= i < front.len() && (#[trigger] front[i]).id == id;
            assert(nodes[i].id == id);
        }
        if knows(nodes, id) && !knows(front, id) {
            let i = choose|i: int| 0 <= i < nodes.len() && (#[trigger] nodes[i]).id == id;
            if i < front.len() {
                assert(front[i].id == id);
            }
        }
        if distinct(nodes) {
            assert forall|i: int, j: int| 0 <= i < j < front.len() implies (#[trigger] front[i]).id
                != (#[trigger] front[j]).id by {
                assert(nodes[i].id != nodes[j].id);
            }
            if knows(front, id) {
                let i = choose|i: int| 0 <= i < front.len() && (#[trigger] front[i]).id == id;
                assert(nodes[i].id != nodes[nodes.len() - 1].id);
            }
        }
    }
}

/// Who the other nodes are depends on the ids alone.
pub proof fn others_by_ids(a: Seq<Node>, b: Seq<Node>, id: NodeId)
    requires
        a.len() == b.len(),
        forall|i: int| 0 <= i < a.len() ==> (#[trigger] a[i]).id == b[i].id,
    ensures
        others(a, id) == others(b, id),
    decreases a.len(),
{
    if a.len() > 0 {
        others_by_ids(a.drop_last(), b.drop_last(), id);
    }
}

/// A cluster that a node joined has one node per id, holds the nodes it
/// held and the new one, and counts no fewer nodes.
pub proof fn joined_is_cluster(nodes: Seq<Node>, peer: Node)
    requires
        distinct(nodes),
    ensures
        distinct(joined(nodes, peer)),
        knows(joined(nodes, peer), peer.id),
        forall|id: NodeId| knows(nodes, id) ==> knows(joined(nodes, peer), id),
        joined(nodes, peer).len() >= nodes.len(),
        forall|id: NodeId|
            others(joined(nodes, peer), id) == if knows(nodes, peer.id) || peer.id == id {
                others(nodes, id)
            } else {
                others(nodes, id).push(peer.id)
            },
{
    let after = joined(nodes, peer);
    assert forall|id: NodeId| knows(nodes, id) implies knows(after, id) by {
        let i = choose|i: int| 0 <= i < nodes.len() && (#[trigger] nodes[i]).id == id;
        assert(after[i].id == id);
    }
    if knows(nodes, peer.id) {
        assert forall|id: NodeId| others(after, id) == others(nodes, id) by {
            others_by_ids(after, nodes, id);
        }
    } else {
        assert(after[nodes.len() as int].id == peer.id);
        assert(after.drop_last() == nodes);
    }
}

/// The cluster that a node starts in has one node per id and holds the
/// node itself.
pub proof fn cluster_is_cluster(own: Node, peers: Seq<Node>)
    ensures
        distinct(cluster(own, peers)),
        knows(cluster(own, peers), own.id),
        cluster(own, peers).len() >= 1,
    decreases peers.len(),
{
    if peers.len() == 0 {
        assert(cluster(own, peers)[0].id == own.id);
    } else {
        cluster_is_cluster(own, peers.drop_last());
        joined_is_cluster(cluster(own, peers.drop_last()), peers.last());
    }
}

/// Every step that the node does not turn down leaves it well formed.
pub proof fn step_preserves_wf(n: NodeSpec, c: CommandSpec, draw: u64)
    requires
        wf(n),
        refusal(n, c) is None,
    ensures
        wf(step(n, c, draw)),
{
    match c {
        CommandSpec::Noop => {},
        CommandSpec::Tick { now } => {
            ticked_preserves_wf(n, now, draw);
        },
        CommandSpec::Timeout => {
            timed_out_preserves_wf(n, draw);
        },
        CommandSpec::VoteRequest { term, candidate_id, last_log_index, last_log_term } => {
            observed_preserves_wf(n, term, draw);
        },
        CommandSpec::VoteResponse { term, voter_id, granted } => {
            tallied_preserves_wf(n, term, voter_id, granted, draw);
        },
        CommandSpec::AppendEntries {
            term,
            leader_id,
            prev_log_index,
            prev_log_term,
            entries,
            leader_commit,
        } => {
            appended_preserves_wf(
                n,
                term,
                leader_id,
                prev_log_index,
                prev_log_term,
                entries,
                leader_commit,
                draw,
            );
        },
        CommandSpec::Heartbeat { term, leader_id, leader_commit } => {
            appended_preserves_wf(n, term, leader_id, 0, 0, Seq::empty(), leader_commit, draw);
        },
        CommandSpec::AppendResponse { term, follower_id, success, match_index } => {
            acked_preserves_wf(n, term, follower_id, success, match_index, draw);
        },
        CommandSpec::Propose { payload } => {
            proposed_preserves_wf(n, payload);
        },
        CommandSpec::AddPeer { peer } => {
            enlarged_preserves_wf(n, peer);
        },
    }
}

/// Taking a term in leaves the node well formed, and changes neither log
/// nor cluster; the term does not go down, and is at least the term seen.
pub proof fn observed_preserves_wf(n: NodeSpec, term: u64, draw: u64)
    requires
        wf(n),
    ensures
        wf(observed(n, term, draw)),
        observed(n, term, draw).state.current_term >= n.state.current_term,
        observed(n, term, draw).state.current_term >= term,
        observed(n, term, draw).log == n.log,
        observed(n, term, draw).nodes == n.nodes,
{
}

/// Sending a heartbeat leaves the node well formed.
pub proof fn heartbeat_preserves_wf(n: NodeSpec)
    requires
        wf(n),
    ensures
        wf(heartbeat(n)),
{
}

/// A well-formed node is well formed as a new leader, before its first
/// heartbeat.
pub proof fn leader_is_well_formed(n: NodeSpec)
    requires
        wf(n),
    ensures
        wf(
            NodeSpec {
                role: RoleSpec::Leader {
                    progress: initial(others(n.nodes, n.id), next_after(n.log.len())),
                    next_heartbeat: n.clock,
                },
                ..n
            },
        ),
{
    let progress = initial(others(n.nodes, n.id), next_after(n.log.len()));
    assert(progress.map_values(|p: Progress| p.id) =~= others(n.nodes, n.id));
}

/// A well-formed candidate that records the answer of a node of the
/// cluster is well formed.
pub proof fn recorded_is_well_formed(n: NodeSpec, voter_id: NodeId, yes: bool)
    requires
        wf(n),
        n.role is Candidate,
        knows(n.nodes, voter_id),
    ensures
        wf(
            NodeSpec {
                role: RoleSpec::Candidate {
                    votes: recorded(n.role->votes, voter_id, yes),
                    deadline: n.role->deadline,
                },
                ..n
            },
        ),
{
    let votes = n.role->votes;
    recorded_one_vote_each(votes, voter_id, yes);
    let after = recorded(votes, voter_id, yes);
    assert forall|i: int| 0 <= i < after.len() implies knows(n.nodes, (#[trigger] after[i]).id) by {
        if i < votes.len() {
            assert(knows(n.nodes, votes[i].id));
        }
    }
}

/// A well-formed node is well formed as leader.
pub proof fn lead_preserves_wf(n: NodeSpec)
    requires
        wf(n),
    ensures
        wf(lead(n)),
{
    let progress = initial(others(n.nodes, n.id), next_after(n.log.len()));
    assert(progress.map_values(|p: Progress| p.id) =~= others(n.nodes, n.id));
}

/// Concluding an election leaves the node well formed.
pub proof fn concluded_preserves_wf(n: NodeSpec)
    requires
        wf(n),
    ensures
        wf(concluded(n)),
{
    lead_preserves_wf(n);
}

/// Starting an election leaves the node well formed.
pub proof fn campaign_preserves_wf(n: NodeSpec, draw: u64)
    requires
        wf(n),
        n.state.current_term < u64::MAX,
    ensures
        wf(campaign(n, draw)),
{
    let term = (n.state.current_term + 1) as u64;
    let candidate = NodeSpec {
        state: State { current_term: term, voted_for: Some(n.id), ..n.state },
        role: RoleSpec::Candidate {
            votes: seq![Vote { id: n.id, granted: true }],
            deadline: deadline(n.clock, draw),
        },
        pending: n.pending.push(WriteSpec::Save { term, voted_for: Some(n.id) }),
        ..n
    };
    let asked = NodeSpec {
        outbox: n.outbox + others(n.nodes, n.id).map_values(
            |to: NodeId| vote_request(candidate, to),
        ),
        ..candidate
    };
    assert(wf(asked));
    concluded_preserves_wf(asked);
}

/// A timeout leaves the node well formed.
pub proof fn timed_out_preserves_wf(n: NodeSpec, draw: u64)
    requires
        wf(n),
        !exhausted(n, CommandSpec::Timeout),
    ensures
        wf(timed_out(n, draw)),
{
    if n.role is Leader {
        heartbeat_preserves_wf(n);
    } else {
        campaign_preserves_wf(n, draw);
    }
}

/// A tick leaves the node well formed.
pub proof fn ticked_preserves_wf(n: NodeSpec, now: u64, draw: u64)
    requires
        wf(n),
        !exhausted(n, CommandSpec::Tick { now }),
    ensures
        wf(ticked(n, now, draw)),
{
    let later = NodeSpec { clock: now, ..n };
    if now > n.clock && crate::model::due(later) {
        timed_out_preserves_wf(later, draw);
    }
}

/// Taking in the answer to a request for a vote leaves the node well
/// formed.
pub proof fn tallied_preserves_wf(n: NodeSpec, term: u64, voter_id: NodeId, yes: bool, draw: u64)
    requires
        wf(n),
    ensures
        wf(tallied(n, term, voter_id, yes, draw)),
{
    let m = observed(n, term, draw);
    match m.role {
        RoleSpec::Candidate { votes, deadline } => {
            if term == m.state.current_term && knows(m.nodes, voter_id) {
                recorded_one_vote_each(votes, voter_id, yes);
                let after = recorded(votes, voter_id, yes);
                assert forall|i: int| 0 <= i < after.len() implies knows(
                    m.nodes,
                    (#[trigger] after[i]).id,
                ) by {
                    if i < votes.len() {
                        assert(knows(m.nodes, votes[i].id));
                    }
                }
                concluded_preserves_wf(
                    NodeSpec { role: RoleSpec::Candidate { votes: after, deadline }, ..m },
                );
            }
        },
        _ => {},
    }
}

/// Taking in an append of entries such as a leader sends leaves the node
/// well formed.
pub proof fn appended_preserves_wf(
    n: NodeSpec,
    term: u64,
    leader_id: NodeId,
    prev_log_index: u64,
    prev_log_term: u64,
    entries: Seq<EntrySpec>,
    leader_commit: u64,
    draw: u64,
)
    requires
        wf(n),
        acceptable(term, prev_log_index, prev_log_term, entries),
    ensures
        wf(appended(
            n,
            term,
            leader_id,
            prev_log_index,
            prev_log_term,
            entries,
            leader_commit,
            draw,
        )),
{
    if term >= n.state.current_term {
        let m = observed(n, term, draw);
        if !(m.role is Leader) {
            if consistent(m.log, m.state.commit_index, prev_log_index, prev_log_term, entries) {
                merged_well_formed(m.log, prev_log_index, prev_log_term, entries);
                agreement_counts(m.log, prev_log_index as int, entries, 0);
                let log = merged(m.log, prev_log_index as int, entries);
                assert forall|i: int| 0 <= i < log.len() implies (#[trigger] log[i]).term
                    <= m.state.current_term by {
                    if exists|j: int| 0 <= j < m.log.len() && m.log[j] == log[i] {
                    } else {
                        let j = choose|j: int| 0 <= j < entries.len() && entries[j] == log[i];
                        assert(entries[j].term <= term);
                    }
                }
                if entries.len() > 0 {
                    assert(entries[entries.len() - 1].index == prev_log_index + entries.len());
                }
            }
        }
    }
}

/// Following a leader, with entries such as a leader sends, leaves the node
/// well formed.
pub proof fn followed_preserves_wf(
    n: NodeSpec,
    leader_id: NodeId,
    prev_log_index: u64,
    prev_log_term: u64,
    entries: Seq<EntrySpec>,
    leader_commit: u64,
    draw: u64,
)
    requires
        wf(n),
        acceptable(n.state.current_term, prev_log_index, prev_log_term, entries),
    ensures
        wf(followed(n, leader_id, prev_log_index, prev_log_term, entries, leader_commit, draw)),
{
    if consistent(n.log, n.state.commit_index, prev_log_index, prev_log_term, entries) {
        merged_well_formed(n.log, prev_log_index, prev_log_term, entries);
        agreement_counts(n.log, prev_log_index as int, entries, 0);
        let log = merged(n.log, prev_log_index as int, entries);
        assert forall|i: int| 0 <= i < log.len() implies (#[trigger] log[i]).term
            <= n.state.current_term by {
            if exists|j: int| 0 <= j < n.log.len() && n.log[j] == log[i] {
            } else {
                let j = choose|j: int| 0 <= j < entries.len() && entries[j] == log[i];
                assert(entries[j].term <= n.state.current_term);
            }
        }
        if entries.len() > 0 {
            assert(entries[entries.len() - 1].index == prev_log_index + entries.len());
        }
    }
}

/// Committing leaves the node well formed.
pub proof fn committed_preserves_wf(n: NodeSpec)
    requires
        wf(n),
    ensures
        wf(committed(n)),
{
    commit_target_is_highest(
        n.log,
        progress_of(n),
        n.state.current_term,
        n.nodes.len(),
        n.log.len(),
    );
}

/// A leader whose follower answered is well formed: the cursors stay within
/// the log.
pub proof fn acknowledged_in_bounds(
    n: NodeSpec,
    follower_id: NodeId,
    success: bool,
    match_index: u64,
)
    requires
        wf(n),
        n.role is Leader,
        !success || match_index <= n.log.len(),
    ensures
        wf(
            NodeSpec {
                role: RoleSpec::Leader {
                    progress: acknowledged(progress_of(n), follower_id, success, match_index),
                    next_heartbeat: n.role->next_heartbeat,
                },
                ..n
            },
        ),
{
    let progress = progress_of(n);
    let after = acknowledged(progress, follower_id, success, match_index);
    assert(after.map_values(|p: Progress| p.id) =~= progress.map_values(|p: Progress| p.id));
    assert forall|i: int| 0 <= i < after.len() implies 1 <= (#[trigger] after[i]).next_index
        <= n.log.len() + 1 && after[i].match_index <= n.log.len() by {
        assert(after[i] == if progress[i].id == follower_id {
            answered(progress[i], success, match_index)
        } else {
            progress[i]
        });
    }
}

/// Taking in the answer to an append leaves the node well formed.
pub proof fn acked_preserves_wf(
    n: NodeSpec,
    term: u64,
    follower_id: NodeId,
    success: bool,
    match_index: u64,
    draw: u64,
)
    requires
        wf(n),
    ensures
        wf(acked(n, term, follower_id, success, match_index, draw)),
{
    let m = observed(n, term, draw);
    match m.role {
        RoleSpec::Leader { progress, next_heartbeat } => {
            let after = acknowledged(progress, follower_id, success, match_index);
            assert(after.map_values(|p: Progress| p.id) =~= progress.map_values(
                |p: Progress| p.id,
            ));
            if term == m.state.current_term && (!success || match_index <= m.log.len()) {
                assert forall|i: int| 0 <= i < after.len() implies 1 <= (
                #[trigger] after[i]).next_index <= m.log.len() + 1 && after[i].match_index
                    <= m.log.len() by {
                    assert(after[i] == if progress[i].id == follower_id {
                        answered(progress[i], success, match_index)
                    } else {
                        progress[i]
                    });
                }
                committed_preserves_wf(
                    NodeSpec { role: RoleSpec::Leader { progress: after, next_heartbeat }, ..m },
                );
            }
        },
        _ => {},
    }
}

/// Taking a proposal leaves a leader well formed.
pub proof fn proposed_preserves_wf(n: NodeSpec, payload: Seq<u8>)
    requires
        wf(n),
        n.log.len() < u64::MAX,
        n.role is Leader,
    ensures
        wf(proposed(n, payload)),
{
    let entry = EntrySpec {
        term: n.state.current_term,
        index: (n.log.len() + 1) as u64,
        data: payload,
    };
    let longer = NodeSpec { log: n.log.push(entry), ..n };
    assert(wf(longer));
    committed_preserves_wf(longer);
}

/// Taking a node into the cluster leaves the node well formed.
pub proof fn enlarged_preserves_wf(n: NodeSpec, peer: Node)
    requires
        wf(n),
    ensures
        wf(enlarged(n, peer)),
{
    joined_is_cluster(n.nodes, peer);
    let after = enlarged(n, peer);
    match n.role {
        RoleSpec::Leader { progress, next_heartbeat } => {
            if !knows(n.nodes, peer.id) {
                let longer = progress.push(
                    Progress { id: peer.id, next_index: next_after(n.log.len()), match_index: 0 },
                );
                assert(longer.map_values(|p: Progress| p.id) =~= progress.map_values(
                    |p: Progress| p.id,
                ).push(peer.id));
            }
        },
        RoleSpec::Candidate { votes, .. } => {
            assert forall|i: int| 0 <= i < votes.len() implies knows(
                after.nodes,
                (#[trigger] votes[i]).id,
            ) by {
                assert(knows(n.nodes, votes[i].id));
            }
        },
        _ => {},
    }
}

} // verus!
