//! What holds of every run of the role machine.

use vstd::prelude::*;
use vstd::set_lib::{lemma_len_subset, lemma_set_disjoint_lens};

use crate::election::{granted, one_vote_each, status, ElectionStatus, Vote};
use crate::entry::{EntrySpec, NodeId};
use crate::upkeep::{
    agreement_counts, joined_is_cluster, observed_preserves_wf, others_are_known,
    step_preserves_wf,
};
use crate::log::{chained, follows, follows_iff_chained, last_index, last_term, well_formed};
use crate::model::{
    agreement, can_take, consistent, deadline, distinct, durable, durable_change, held, kept,
    knows, leader_of, matches_at, merge_writes, merged, observed, others, progress_of, refusal,
    replayed, settled, step, takes_all, vote_request, wf, written, NodeSpec, RoleSpec, Stored,
};
use crate::progress::Progress;
use crate::raft::{CommandSpec, Node, State, WriteSpec};
use crate::rpc::ResponseSpec;

verus! {

/// After every step the node has handed out no more than it has committed,
/// and has committed no more than its log holds.
pub proof fn positions_stay_in_order(n: NodeSpec, c: CommandSpec, draw: u64)
    requires
        wf(n),
        refusal(n, c) is None,
    ensures
        step(n, c, draw).state.last_applied <= step(n, c, draw).state.commit_index <= step(
            n,
            c,
            draw,
        ).log.len(),
{
    step_preserves_wf(n, c, draw);
}

/// After every step the terms of the log never decrease from one entry to
/// the next, and its entries are numbered without a gap.
pub proof fn log_stays_well_formed(n: NodeSpec, c: CommandSpec, draw: u64)
    requires
        wf(n),
        refusal(n, c) is None,
    ensures
        well_formed(step(n, c, draw).log),
{
    step_preserves_wf(n, c, draw);
}

/// Entries that may be appended start right behind the log's last entry.
pub proof fn appended_entries_are_next(log: Seq<EntrySpec>, entries: Seq<EntrySpec>)
    requires
        well_formed(log),
        follows(log, entries),
        entries.len() > 0,
    ensures
        entries[0].index == last_index(log) + 1,
{
    follows_iff_chained(log, entries);
}

/// No step lowers the term.
pub proof fn term_never_decreases(n: NodeSpec, c: CommandSpec, draw: u64)
    requires
        refusal(n, c) is None,
    ensures
        step(n, c, draw).state.current_term >= n.state.current_term,
{
}

/// Within a term a node that has voted keeps its vote: a step that leaves
/// the term as it is leaves the vote as it is.
pub proof fn vote_stands_within_term(n: NodeSpec, c: CommandSpec, draw: u64)
    requires
        refusal(n, c) is None,
        n.state.voted_for is Some,
        step(n, c, draw).state.current_term == n.state.current_term,
    ensures
        step(n, c, draw).state.voted_for == n.state.voted_for,
{
}

/// Only a leader has progress, and only a follower knows a leader; in a
/// cluster of two nodes or more a leader always has progress, so that there
/// the node is leader exactly when its progress is not empty.
pub proof fn progress_marks_leader(n: NodeSpec)
    requires
        wf(n),
    ensures
        !(n.role is Leader) ==> progress_of(n).len() == 0,
        !(n.role is Follower) ==> leader_of(n) is None,
        n.nodes.len() >= 2 ==> (n.role is Leader <==> progress_of(n).len() > 0),
{
    others_are_known(n.nodes, n.id);
    if n.role is Leader {
        assert(progress_of(n).map_values(|p: Progress| p.id).len() == others(n.nodes, n.id).len());
    }
}

/// After every step the same holds: see [`progress_marks_leader`].
pub proof fn progress_marks_leader_after(n: NodeSpec, c: CommandSpec, draw: u64)
    requires
        wf(n),
        refusal(n, c) is None,
        n.nodes.len() >= 2,
    ensures
        step(n, c, draw).role is Leader <==> progress_of(step(n, c, draw)).len() > 0,
{
    step_preserves_wf(n, c, draw);
    cluster_never_shrinks(n, c, draw);
    progress_marks_leader(step(n, c, draw));
}

/// No step takes a node out of the cluster.
pub proof fn cluster_never_shrinks(n: NodeSpec, c: CommandSpec, draw: u64)
    requires
        wf(n),
    ensures
        step(n, c, draw).nodes.len() >= n.nodes.len(),
{
    match c {
        CommandSpec::AddPeer { peer } => {
            joined_is_cluster(n.nodes, peer);
        },
        _ => {},
    }
}

/// Nothing that was to be stored is dropped by a step, and whatever a step
/// changes of term, vote or log it notes for storing: a step that notes
/// nothing leaves all three as they were.
pub proof fn every_durable_change_is_noted(n: NodeSpec, c: CommandSpec, draw: u64)
    requires
        wf(n),
        refusal(n, c) is None,
    ensures
        n.pending.is_prefix_of(step(n, c, draw).pending),
        durable_change(n, step(n, c, draw)) ==> step(n, c, draw).pending.len() > n.pending.len(),
{
    match c {
        CommandSpec::AppendEntries { term, prev_log_index, prev_log_term, entries, .. } => {
            let m = observed(n, term, draw);
            agreement_counts(m.log, prev_log_index as int, entries, 0);
        },
        CommandSpec::Heartbeat { term, .. } => {
            let m = observed(n, term, draw);
            assert(agreement(m.log, 0, Seq::<EntrySpec>::empty(), 0) == 0);
        },
        _ => {},
    }
}

/// Writing one more thing after some writes is writing it to what they left.
pub proof fn replayed_one_more(s: Stored, ws: Seq<WriteSpec>, w: WriteSpec)
    ensures
        replayed(s, ws.push(w)) == written(replayed(s, ws), w),
{
    assert(ws.push(w).drop_last() =~= ws);
}

/// What a step notes for storing is what it changes: if the writes that
/// wait, made on what storage holds, give the node's term, vote and log
/// before a step, then so they do after it. Storage that takes the writes
/// in order therefore holds, whenever nothing waits, the term, vote and log
/// of the node.
pub proof fn noted_writes_are_the_change(n: NodeSpec, c: CommandSpec, draw: u64, s: Stored)
    requires
        wf(n),
        refusal(n, c) is None,
        replayed(s, n.pending) == durable(n),
    ensures
        replayed(s, step(n, c, draw).pending) == durable(step(n, c, draw)),
{
    match c {
        CommandSpec::Timeout => {
            let term = (n.state.current_term + 1) as u64;
            replayed_one_more(s, n.pending, WriteSpec::Save { term, voted_for: Some(n.id) });
        },
        CommandSpec::Tick { now } => {
            let term = (n.state.current_term + 1) as u64;
            replayed_one_more(s, n.pending, WriteSpec::Save { term, voted_for: Some(n.id) });
        },
        CommandSpec::VoteRequest { term, candidate_id, .. } => {
            let m = observed(n, term, draw);
            replayed_one_more(s, n.pending, WriteSpec::Save { term, voted_for: None });
            replayed_one_more(
                s,
                m.pending,
                WriteSpec::Save { term: m.state.current_term, voted_for: Some(candidate_id) },
            );
        },
        CommandSpec::VoteResponse { term, .. } => {
            replayed_one_more(s, n.pending, WriteSpec::Save { term, voted_for: None });
        },
        CommandSpec::AppendResponse { term, .. } => {
            replayed_one_more(s, n.pending, WriteSpec::Save { term, voted_for: None });
        },
        CommandSpec::AppendEntries { term, prev_log_index, prev_log_term, entries, .. } => {
            replayed_one_more(s, n.pending, WriteSpec::Save { term, voted_for: None });
            let m = observed(n, term, draw);
            observed_preserves_wf(n, term, draw);
            if consistent(m.log, m.state.commit_index, prev_log_index, prev_log_term, entries) {
                merge_is_replayed(s, m.pending, m.log, prev_log_index as int, entries);
            }
        },
        CommandSpec::Heartbeat { term, .. } => {
            replayed_one_more(s, n.pending, WriteSpec::Save { term, voted_for: None });
            let m = observed(n, term, draw);
            merge_is_replayed(s, m.pending, m.log, 0, Seq::empty());
        },
        CommandSpec::Propose { payload } => {
            let entry = EntrySpec {
                term: n.state.current_term,
                index: (n.log.len() + 1) as u64,
                data: payload,
            };
            replayed_one_more(s, n.pending, WriteSpec::Append { entries: seq![entry] });
            assert(n.log + seq![entry] =~= n.log.push(entry));
        },
        _ => {},
    }
}

/// Storage stays in step with the node: if the writes that wait, made on
/// what storage holds, give the node's term, vote and log before a step,
/// then so they do after it, and after they have been stored.
pub proof fn storage_stays_in_step(n: NodeSpec, c: CommandSpec, draw: u64)
    requires
        wf(n),
        refusal(n, c) is None,
        kept(n),
    ensures
        kept(step(n, c, draw)),
        kept(settled(step(n, c, draw))),
{
    noted_writes_are_the_change(n, c, draw, n.stored);
}

/// Taking one more write after some writes is taking them and then it.
pub proof fn takes_one_more(s: Stored, ws: Seq<WriteSpec>, w: WriteSpec)
    ensures
        takes_all(s, ws.push(w)) == (takes_all(s, ws) && can_take(replayed(s, ws), w)),
{
    assert(ws.push(w).drop_last() =~= ws);
}

/// Storage that is in step with a node at rest can take whatever a step
/// notes for storing: what is appended continues the stored log. Storage
/// that never fails therefore stores every step.
pub proof fn noted_writes_can_be_stored(n: NodeSpec, c: CommandSpec, draw: u64)
    requires
        wf(n),
        refusal(n, c) is None,
        n.pending.len() == 0,
        kept(n),
    ensures
        takes_all(step(n, c, draw).stored, step(n, c, draw).pending),
{
    let s = n.stored;
    let none = Seq::<WriteSpec>::empty();
    assert(n.pending =~= none);
    assert(takes_all(s, none));
    match c {
        CommandSpec::Timeout => {
            let term = (n.state.current_term + 1) as u64;
            takes_one_more(s, none, WriteSpec::Save { term, voted_for: Some(n.id) });
        },
        CommandSpec::Tick { now } => {
            let term = (n.state.current_term + 1) as u64;
            takes_one_more(s, none, WriteSpec::Save { term, voted_for: Some(n.id) });
        },
        CommandSpec::VoteRequest { term, candidate_id, .. } => {
            let m = observed(n, term, draw);
            takes_one_more(s, none, WriteSpec::Save { term, voted_for: None });
            takes_one_more(
                s,
                m.pending,
                WriteSpec::Save { term: m.state.current_term, voted_for: Some(candidate_id) },
            );
        },
        CommandSpec::VoteResponse { term, .. } => {
            takes_one_more(s, none, WriteSpec::Save { term, voted_for: None });
        },
        CommandSpec::AppendResponse { term, .. } => {
            takes_one_more(s, none, WriteSpec::Save { term, voted_for: None });
        },
        CommandSpec::AppendEntries { term, prev_log_index, prev_log_term, entries, .. } => {
            let save = WriteSpec::Save { term, voted_for: None };
            takes_one_more(s, none, save);
            replayed_one_more(s, none, save);
            let m = observed(n, term, draw);
            observed_preserves_wf(n, term, draw);
            if term >= n.state.current_term && !(m.role is Leader) && consistent(
                m.log,
                m.state.commit_index,
                prev_log_index,
                prev_log_term,
                entries,
            ) {
                merge_can_be_stored(s, m.pending, m.log, prev_log_index, prev_log_term, entries);
            }
        },
        CommandSpec::Heartbeat { term, .. } => {
            let save = WriteSpec::Save { term, voted_for: None };
            takes_one_more(s, none, save);
            let m = observed(n, term, draw);
            assert(agreement(m.log, 0, Seq::<EntrySpec>::empty(), 0) == 0);
            assert(m.pending + merge_writes(m.log, 0, Seq::empty()) =~= m.pending);
        },
        CommandSpec::Propose { payload } => {
            let entry = EntrySpec {
                term: n.state.current_term,
                index: (n.log.len() + 1) as u64,
                data: payload,
            };
            if n.log.len() > 0 {
                assert(n.log[n.log.len() - 1].term <= n.state.current_term);
            }
            takes_one_more(s, none, WriteSpec::Append { entries: seq![entry] });
        },
        _ => {},
    }
}

/// Storage that holds a well-formed log can take the writes of a merge
/// that is consistent with the log.
pub proof fn merge_can_be_stored(
    s: Stored,
    ws: Seq<WriteSpec>,
    log: Seq<EntrySpec>,
    prev: u64,
    prev_term: u64,
    entries: Seq<EntrySpec>,
)
    requires
        well_formed(log),
        matches_at(log, prev, prev_term),
        chained(entries, prev + 1, prev_term),
        takes_all(s, ws),
        replayed(s, ws).log == log,
    ensures
        takes_all(s, ws + merge_writes(log, prev as int, entries)),
{
    let same = agreement(log, prev as int, entries, 0);
    agreement_counts(log, prev as int, entries, 0);
    let tail = entries.skip(same);
    let rest = WriteSpec::Append { entries: tail };
    if same >= entries.len() {
        assert(ws + merge_writes(log, prev as int, entries) =~= ws);
    } else {
        if same > 0 {
            assert(held(log, prev as int, entries, same - 1));
        }
        let head = log.take(prev + same);
        assert(chained(tail, head.len() as int + 1, last_term(head))) by {
            assert forall|k: int| 0 <= k < tail.len() implies (#[trigger] tail[k]).index
                == head.len() + 1 + k && last_term(head) <= tail[k].term by {
                assert(tail[k] == entries[same + k]);
                assert(entries[same].term <= entries[same + k].term);
                if same > 0 {
                    assert(head[head.len() - 1] == log[prev + same - 1]);
                    assert(entries[same - 1].term <= entries[same].term);
                } else if prev > 0 {
                    assert(head[head.len() - 1] == log[prev - 1]);
                }
            }
            assert forall|i: int, j: int| 0 <= i <= j < tail.len() implies (
            #[trigger] tail[i]).term <= (#[trigger] tail[j]).term by {
                assert(tail[i] == entries[same + i]);
                assert(tail[j] == entries[same + j]);
            }
        }
        if prev + same < log.len() {
            let cut = WriteSpec::Truncate { index: (prev + same + 1) as u64 };
            assert(ws + merge_writes(log, prev as int, entries) =~= ws.push(cut).push(rest));
            takes_one_more(s, ws, cut);
            replayed_one_more(s, ws, cut);
            assert(crate::log::truncated(log, prev + same + 1) =~= head);
            takes_one_more(s, ws.push(cut), rest);
        } else {
            assert(ws + merge_writes(log, prev as int, entries) =~= ws.push(rest));
            assert(head =~= log);
            takes_one_more(s, ws, rest);
        }
    }
}

/// A follower that has voted denies its vote to every other candidate of
/// the term: the answer is a denial, and vote and term stay.
pub proof fn second_candidate_is_denied(
    n: NodeSpec,
    candidate_id: NodeId,
    last_log_index: u64,
    last_log_term: u64,
    draw: u64,
)
    requires
        n.state.voted_for is Some,
        n.state.voted_for != Some(candidate_id),
    ensures
        ({
            let request = CommandSpec::VoteRequest {
                term: n.state.current_term,
                candidate_id,
                last_log_index,
                last_log_term,
            };
            let after = step(n, request, draw);
            &&& refusal(n, request) is None
            &&& after == (NodeSpec {
                outbox: n.outbox.push(
                    ResponseSpec::VoteResponse {
                        to: candidate_id,
                        term: n.state.current_term,
                        voter_id: n.id,
                        granted: false,
                    },
                ),
                ..n
            })
        }),
{
}

/// A message of a peer that carries a term above the node's own leaves the
/// node at that term.
pub proof fn higher_term_is_taken(n: NodeSpec, c: CommandSpec, draw: u64)
    requires
        refusal(n, c) is None,
        term_of(c) matches Some(term) && term > n.state.current_term,
    ensures
        step(n, c, draw).state.current_term == term_of(c).unwrap(),
        step(n, c, draw).role is Follower,
{
}

/// The term that a message of a peer carries.
pub open spec fn term_of(c: CommandSpec) -> Option<u64> {
    match c {
        CommandSpec::VoteRequest { term, .. } => Some(term),
        CommandSpec::VoteResponse { term, .. } => Some(term),
        CommandSpec::AppendEntries { term, .. } => Some(term),
        CommandSpec::AppendResponse { term, .. } => Some(term),
        CommandSpec::Heartbeat { term, .. } => Some(term),
        _ => None,
    }
}

/// A candidate whose election times out without a majority, in a cluster of
/// two nodes or more, runs again: it is candidate of the next term, has
/// voted for itself, holds its own vote only, and has asked every other
/// node for its vote.
pub proof fn split_vote_is_run_again(n: NodeSpec, draw: u64)
    requires
        wf(n),
        n.role is Candidate,
        n.nodes.len() >= 2,
        refusal(n, CommandSpec::Timeout) is None,
    ensures
        ({
            let after = step(n, CommandSpec::Timeout, draw);
            &&& after.role == (RoleSpec::Candidate {
                votes: seq![Vote { id: n.id, granted: true }],
                deadline: deadline(n.clock, draw),
            })
            &&& after.state.current_term == n.state.current_term + 1
            &&& after.state.voted_for == Some(n.id)
            &&& after.outbox == n.outbox + others(n.nodes, n.id).map_values(
                |to: NodeId| vote_request(after, to),
            )
            &&& after.outbox.len() == n.outbox.len() + n.nodes.len() - 1
        }),
{
    let votes = seq![Vote { id: n.id, granted: true }];
    assert(votes.drop_last() =~= Seq::<Vote>::empty());
    assert(granted(votes.drop_last()) == 0);
    assert(granted(votes) == 1);
    others_are_known(n.nodes, n.id);
    let after = step(n, CommandSpec::Timeout, draw);
    assert(others(n.nodes, n.id).map_values(|to: NodeId| vote_request(after, to))
        =~= others(n.nodes, n.id).map_values(
        |to: NodeId|
            vote_request(
                NodeSpec {
                    state: State {
                        current_term: (n.state.current_term + 1) as u64,
                        voted_for: Some(n.id),
                        ..n.state
                    },
                    role: RoleSpec::Candidate { votes, deadline: deadline(n.clock, draw) },
                    pending: n.pending.push(
                        WriteSpec::Save {
                            term: (n.state.current_term + 1) as u64,
                            voted_for: Some(n.id),
                        },
                    ),
                    ..n
                },
                to,
            ),
    ));
}

/// The writes of a merge, made on a log, give the merged log.
pub proof fn merge_is_replayed(
    s: Stored,
    ws: Seq<WriteSpec>,
    log: Seq<EntrySpec>,
    prev: int,
    entries: Seq<EntrySpec>,
)
    requires
        0 <= prev <= log.len() <= u64::MAX,
        replayed(s, ws).log == log,
    ensures
        replayed(s, ws + merge_writes(log, prev, entries)) == (Stored {
            log: merged(log, prev, entries),
            ..replayed(s, ws)
        }),
{
    let same = agreement(log, prev, entries, 0);
    agreement_counts(log, prev, entries, 0);
    let rest = WriteSpec::Append { entries: entries.skip(same) };
    if same >= entries.len() {
        assert(ws + merge_writes(log, prev, entries) =~= ws);
    } else if prev + same < log.len() {
        let cut = WriteSpec::Truncate { index: (prev + same + 1) as u64 };
        assert(ws + merge_writes(log, prev, entries) =~= ws.push(cut).push(rest));
        replayed_one_more(s, ws, cut);
        replayed_one_more(s, ws.push(cut), rest);
        assert(crate::log::truncated(log, prev + same + 1) =~= log.take(prev + same));
    } else {
        assert(ws + merge_writes(log, prev, entries) =~= ws.push(rest));
        replayed_one_more(s, ws, rest);
        if same > 0 {
            assert(crate::model::held(log, prev, entries, same - 1));
        }
        assert(log.take(prev + same) =~= log);
    }
}

/// A heartbeat applied to a follower a second time changes nothing but the
/// election deadline: term, vote, log, commit position, cluster and leader
/// stay as the first left them, and the answer sent is the same again.
pub proof fn heartbeat_twice_is_heartbeat_once(
    n: NodeSpec,
    term: u64,
    leader_id: NodeId,
    leader_commit: u64,
    first: u64,
    second: u64,
)
    requires
        wf(n),
        n.role is Follower,
    ensures
        ({
            let heartbeat = CommandSpec::Heartbeat { term, leader_id, leader_commit };
            let once = step(n, heartbeat, first);
            let twice = step(once, heartbeat, second);
            &&& once.role is Follower
            &&& twice == (NodeSpec {
                role: RoleSpec::Follower {
                    leader_id: leader_of(once),
                    election_deadline: twice.role->election_deadline,
                },
                outbox: once.outbox + once.outbox.skip(n.outbox.len() as int),
                ..once
            })
        }),
{
    let heartbeat = CommandSpec::Heartbeat { term, leader_id, leader_commit };
    let once = step(n, heartbeat, first);
    let twice = step(once, heartbeat, second);
    let none = Seq::<EntrySpec>::empty();
    assert(agreement(n.log, 0, none, 0) == 0);
    assert(once.log == n.log);
    assert(agreement(once.log, 0, none, 0) == 0);
    assert(twice.outbox =~= once.outbox + once.outbox.skip(n.outbox.len() as int));
}

/// A tick that does not advance the clock changes nothing.
pub proof fn tick_without_time_is_no_op(n: NodeSpec, now: u64, draw: u64)
    requires
        now <= n.clock,
    ensures
        step(n, CommandSpec::Tick { now }, draw) == n,
{
}

/// A follower that is alone in its cluster is leader one timeout later, in
/// the next term.
pub proof fn lone_node_leads_after_timeout(n: NodeSpec, draw: u64)
    requires
        wf(n),
        n.nodes.len() == 1,
        n.role is Follower,
        refusal(n, CommandSpec::Timeout) is None,
    ensures
        step(n, CommandSpec::Timeout, draw).role is Leader,
        step(n, CommandSpec::Timeout, draw).state.current_term == n.state.current_term + 1,
        step(n, CommandSpec::Timeout, draw).state.voted_for == Some(n.id),
{
    let votes = seq![Vote { id: n.id, granted: true }];
    assert(votes.drop_last() =~= Seq::<Vote>::empty());
    assert(granted(votes.drop_last()) == 0);
    assert(granted(votes) == 1);
}

/// The nodes of `votes` that granted their vote.
pub open spec fn grantors(votes: Seq<Vote>) -> Set<NodeId> {
    Set::new(
        |id: NodeId|
            exists|i: int| 0 <= i < votes.len() && (#[trigger] votes[i]).id == id && votes[i].granted,
    )
}

/// The ids of the nodes of a cluster.
pub open spec fn members(nodes: Seq<Node>) -> Set<NodeId> {
    Set::new(|id: NodeId| knows(nodes, id))
}

/// Where every node has answered at most once, as many nodes granted their
/// vote as there are granted votes.
pub proof fn grantors_are_counted(votes: Seq<Vote>)
    requires
        one_vote_each(votes),
    ensures
        grantors(votes).finite(),
        grantors(votes).len() == granted(votes),
    decreases votes.len(),
{
    if votes.len() == 0 {
        assert(grantors(votes) =~= Set::empty());
    } else {
        let front = votes.drop_last();
        let last = votes.last();
        assert(one_vote_each(front)) by {
            assert forall|i: int, j: int| 0 <= i < j < front.len() implies (#[trigger] front[i]).id
                != (#[trigger] front[j]).id by {
                assert(votes[i].id != votes[j].id);
            }
        }
        grantors_are_counted(front);
        assert(!grantors(front).contains(last.id)) by {
            if grantors(front).contains(last.id) {
                let i = choose|i: int|
                    0 <= i < front.len() && (#[trigger] front[i]).id == last.id && front[i].granted;
                assert(votes[i].id != votes[votes.len() - 1].id);
            }
        }
        if last.granted {
            assert(grantors(votes) =~= grantors(front).insert(last.id)) by {
                assert forall|id: NodeId| grantors(votes).contains(id) implies grantors(
                    front,
                ).insert(last.id).contains(id) by {
                    let i = choose|i: int|
                        0 <= i < votes.len() && (#[trigger] votes[i]).id == id && votes[i].granted;
                    if i < front.len() {
                        assert(front[i].id == id);
                    }
                }
                assert forall|id: NodeId| grantors(front).insert(last.id).contains(
                    id,
                ) implies grantors(votes).contains(id) by {
                    if id == last.id {
                        assert(votes[votes.len() - 1].id == id);
                    } else {
                        let i = choose|i: int|
                            0 <= i < front.len() && (#[trigger] front[i]).id == id
                                && front[i].granted;
                        assert(votes[i].id == id);
                    }
                }
            }
        } else {
            assert(grantors(votes) =~= grantors(front)) by {
                assert forall|id: NodeId| grantors(votes).contains(id) implies grantors(
                    front,
                ).contains(id) by {
                    let i = choose|i: int|
                        0 <= i < votes.len() && (#[trigger] votes[i]).id == id && votes[i].granted;
                    assert(front[i].id == id);
                }
                assert forall|id: NodeId| grantors(front).contains(id) implies grantors(
                    votes,
                ).contains(id) by {
                    let i = choose|i: int|
                        0 <= i < front.len() && (#[trigger] front[i]).id == id && front[i].granted;
                    assert(votes[i].id == id);
                }
            }
        }
    }
}

/// A cluster has as many member ids as it has nodes.
pub proof fn members_are_counted(nodes: Seq<Node>)
    requires
        distinct(nodes),
    ensures
        members(nodes).finite(),
        members(nodes).len() == nodes.len(),
    decreases nodes.len(),
{
    if nodes.len() == 0 {
        assert(members(nodes) =~= Set::empty());
    } else {
        let front = nodes.drop_last();
        let last = nodes.last();
        assert(distinct(front)) by {
            assert forall|i: int, j: int| 0 <= i < j < front.len() implies (#[trigger] front[i]).id
                != (#[trigger] front[j]).id by {
                assert(nodes[i].id != nodes[j].id);
            }
        }
        members_are_counted(front);
        assert(!members(front).contains(last.id)) by {
            if knows(front, last.id) {
                let i = choose|i: int| 0 <= i < front.len() && (#[trigger] front[i]).id == last.id;
                assert(nodes[i].id != nodes[nodes.len() - 1].id);
            }
        }
        assert(members(nodes) =~= members(front).insert(last.id)) by {
            assert forall|id: NodeId| members(nodes).contains(id) implies members(front).insert(
                last.id,
            ).contains(id) by {
                let i = choose|i: int| 0 <= i < nodes.len() && (#[trigger] nodes[i]).id == id;
                if i < front.len() {
                    assert(front[i].id == id);
                }
            }
            assert forall|id: NodeId| members(front).insert(last.id).contains(
                id,
            ) implies members(nodes).contains(id) by {
                if id == last.id {
                    assert(nodes[nodes.len() - 1].id == id);
                } else {
                    let i = choose|i: int| 0 <= i < front.len() && (#[trigger] front[i]).id == id;
                    assert(nodes[i].id == id);
                }
            }
        }
    }
}

/// At most one node is elected in a term. Let `ballots` say for whom each
/// node voted in the term: a node has one vote, so it grants only to that
/// node. If the tallies of two candidates `a` and `b` both show a majority
/// of the same cluster, then `a` and `b` are the same node.
pub proof fn one_leader_per_term(
    nodes: Seq<Node>,
    ballots: Map<NodeId, NodeId>,
    a: NodeId,
    votes_a: Seq<Vote>,
    b: NodeId,
    votes_b: Seq<Vote>,
)
    requires
        distinct(nodes),
        one_vote_each(votes_a),
        one_vote_each(votes_b),
        forall|i: int| 0 <= i < votes_a.len() ==> knows(nodes, (#[trigger] votes_a[i]).id),
        forall|i: int| 0 <= i < votes_b.len() ==> knows(nodes, (#[trigger] votes_b[i]).id),
        forall|i: int|
            0 <= i < votes_a.len() && (#[trigger] votes_a[i]).granted ==> ballots.contains_key(
                votes_a[i].id,
            ) && ballots[votes_a[i].id] == a,
        forall|i: int|
            0 <= i < votes_b.len() && (#[trigger] votes_b[i]).granted ==> ballots.contains_key(
                votes_b[i].id,
            ) && ballots[votes_b[i].id] == b,
        status(votes_a, nodes.len()) == ElectionStatus::Elected,
        status(votes_b, nodes.len()) == ElectionStatus::Elected,
    ensures
        a == b,
{
    let for_a = grantors(votes_a);
    let for_b = grantors(votes_b);
    let all = members(nodes);
    grantors_are_counted(votes_a);
    grantors_are_counted(votes_b);
    members_are_counted(nodes);
    if for_a.disjoint(for_b) {
        lemma_set_disjoint_lens(for_a, for_b);
        assert((for_a + for_b).subset_of(all)) by {
            assert forall|id: NodeId| (for_a + for_b).contains(id) implies all.contains(id) by {
                if for_a.contains(id) {
                    let i = choose|i: int|
                        0 <= i < votes_a.len() && (#[trigger] votes_a[i]).id == id
                            && votes_a[i].granted;
                    assert(knows(nodes, votes_a[i].id));
                } else {
                    let i = choose|i: int|
                        0 <= i < votes_b.len() && (#[trigger] votes_b[i]).id == id
                            && votes_b[i].granted;
                    assert(knows(nodes, votes_b[i].id));
                }
            }
        }
        lemma_len_subset(for_a + for_b, all);
        assert(false);
    } else {
        let id = choose|id: NodeId| for_a.contains(id) && for_b.contains(id);
        let i = choose|i: int|
            0 <= i < votes_a.len() && (#[trigger] votes_a[i]).id == id && votes_a[i].granted;
        let j = choose|j: int|
            0 <= j < votes_b.len() && (#[trigger] votes_b[j]).id == id && votes_b[j].granted;
        assert(ballots[votes_a[i].id] == a);
        assert(ballots[votes_b[j].id] == b);
    }
}

} // verus!
