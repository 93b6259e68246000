use josefine_raft::config::RaftConfig;
use josefine_raft::entry::Entry;
use josefine_raft::error::Error;
use josefine_raft::raft::{Command, IpAddress, MemoryIo, Node, Raft, RaftHandle};
use josefine_raft::role::Role;
use josefine_raft::rpc::Response;

fn cluster_of(size: u32) -> RaftHandle<MemoryIo> {
    let mut config = RaftConfig::new(1, IpAddress::V4(1), 7001);
    for id in 2..=size {
        config.nodes.push(Node::new(id, IpAddress::V4(id), 7000 + id));
    }
    RaftHandle::Follower(Raft::start(config, MemoryIo::new(), 100).unwrap())
}

fn step(handle: RaftHandle<MemoryIo>, command: Command, draw: u64) -> RaftHandle<MemoryIo> {
    assert!(handle.is_well_formed());
    let next = handle.step(command, draw).unwrap();
    assert!(next.is_well_formed());
    assert!(next.state().last_applied <= next.state().commit_index);
    assert!(next.state().commit_index <= next.log().last_index());
    next
}

/// A leader of the given term in a cluster of `size` nodes, with an empty
/// outbox.
fn leader_of(size: u32, term: u64) -> RaftHandle<MemoryIo> {
    let mut handle = cluster_of(size);
    for _ in 0..term {
        handle = step(handle, Command::Timeout, 150);
    }
    let mut voter = 2;
    while handle.role() != Role::Leader {
        handle = step(handle, Command::VoteResponse { term, voter_id: voter, granted: true }, 1);
        voter += 1;
    }
    assert_eq!(handle.state().current_term, term);
    handle.take_outbox();
    handle
}

fn propose(handle: RaftHandle<MemoryIo>, byte: u8) -> RaftHandle<MemoryIo> {
    step(handle, Command::Propose { payload: vec![byte] }, 1)
}

fn ack(term: u64, follower_id: u32, success: bool, match_index: u64) -> Command {
    Command::AppendResponse { term, follower_id, success, match_index }
}

fn progress(handle: &RaftHandle<MemoryIo>) -> Vec<(u32, u64, u64)> {
    match handle {
        RaftHandle::Leader(leader) => leader
            .role
            .progress
            .peers
            .iter()
            .map(|p| (p.id, p.next_index, p.match_index))
            .collect(),
        _ => panic!(),
    }
}

fn entry(term: u64, index: u64, byte: u8) -> Entry {
    Entry { term, index, data: vec![byte] }
}

#[test]
fn proposal_is_appended_in_the_leaders_term() {
    let handle = propose(propose(leader_of(3, 2), 10), 11);
    assert_eq!(handle.log().entries, vec![entry(2, 1, 10), entry(2, 2, 11)]);
    assert_eq!(handle.state().commit_index, 0);
    match handle {
        RaftHandle::Leader(leader) => {
            assert_eq!(leader.io.entries, vec![entry(2, 1, 10), entry(2, 2, 11)]);
            assert!(leader.applied.is_empty());
            assert!(leader.outbox.is_empty());
        }
        _ => panic!(),
    }
}

#[test]
fn lone_leader_commits_a_proposal_at_once() {
    let mut handle = propose(propose(leader_of(1, 1), 10), 11);
    assert_eq!(handle.state().commit_index, 2);
    assert_eq!(handle.state().last_applied, 2);
    assert_eq!(handle.take_applied(), vec![entry(1, 1, 10), entry(1, 2, 11)]);
    assert_eq!(handle.take_applied(), vec![]);
}

#[test]
fn empty_proposal_is_an_invalid_command() {
    assert_eq!(
        leader_of(3, 1).step(Command::Propose { payload: vec![] }, 1).err(),
        Some(Error::InvalidCommand)
    );
}

#[test]
fn heartbeat_sends_each_follower_what_it_lacks() {
    let handle = propose(propose(propose(leader_of(3, 2), 10), 11), 12);
    let handle = step(handle, ack(2, 2, true, 2), 1);
    assert_eq!(progress(&handle), vec![(2, 3, 2), (3, 1, 0)]);
    assert_eq!(handle.state().commit_index, 2);
    let handle = step(handle, Command::Timeout, 1);
    match handle {
        RaftHandle::Leader(leader) => {
            assert_eq!(leader.role.next_heartbeat, 2);
            assert_eq!(
                leader.outbox,
                vec![
                    Response::AppendEntries {
                        to: 2,
                        term: 2,
                        leader_id: 1,
                        prev_log_index: 2,
                        prev_log_term: 2,
                        entries: vec![entry(2, 3, 12)],
                        leader_commit: 2,
                    },
                    Response::AppendEntries {
                        to: 3,
                        term: 2,
                        leader_id: 1,
                        prev_log_index: 0,
                        prev_log_term: 0,
                        entries: vec![entry(2, 1, 10), entry(2, 2, 11), entry(2, 3, 12)],
                        leader_commit: 2,
                    },
                ]
            );
        }
        _ => panic!(),
    }
}

#[test]
fn leader_tick_sends_heartbeats_when_due() {
    let handle = step(leader_of(2, 1), Command::Tick { now: 1 }, 1);
    match &handle {
        RaftHandle::Leader(leader) => {
            assert!(leader.outbox.is_empty());
            assert_eq!(leader.role.next_heartbeat, 2);
        }
        _ => panic!(),
    }
    let handle = step(handle, Command::Tick { now: 2 }, 1);
    match &handle {
        RaftHandle::Leader(leader) => {
            assert_eq!(leader.outbox.len(), 1);
            assert_eq!(leader.role.next_heartbeat, 4);
            assert_eq!(leader.clock, 2);
        }
        _ => panic!(),
    }
    let handle = step(handle, Command::Tick { now: 2 }, 1);
    match &handle {
        RaftHandle::Leader(leader) => assert_eq!(leader.outbox.len(), 1),
        _ => panic!(),
    }
    let handle = step(handle, Command::Tick { now: u64::MAX }, 1);
    match &handle {
        RaftHandle::Leader(leader) => {
            assert_eq!(leader.outbox.len(), 2);
            assert_eq!(leader.role.next_heartbeat, u64::MAX);
        }
        _ => panic!(),
    }
}

#[test]
fn commit_advances_when_a_majority_holds_the_entry() {
    let mut handle = leader_of(3, 2);
    for byte in 1..=7 {
        handle = propose(handle, byte);
    }
    assert_eq!(handle.log().last_index(), 7);
    assert_eq!(handle.log().last_term(), 2);
    // Node 3 is at match 7 already, and nothing is committed yet.
    match &mut handle {
        RaftHandle::Leader(leader) => {
            leader.role.progress.peers[1].match_index = 7;
            leader.role.progress.peers[1].next_index = 8;
            assert_eq!(leader.state.commit_index, 0);
        }
        _ => panic!(),
    }
    let mut handle = step(handle, ack(2, 2, true, 7), 1);
    assert_eq!(handle.state().commit_index, 7);
    assert_eq!(handle.state().last_applied, 7);
    assert_eq!(progress(&handle), vec![(2, 8, 7), (3, 8, 7)]);
    let applied = handle.take_applied();
    let expected: Vec<Entry> = (1..=7).map(|i| entry(2, i, i as u8)).collect();
    assert_eq!(applied, expected);
}

#[test]
fn commit_needs_a_majority() {
    let mut handle = leader_of(5, 1);
    for byte in 1..=3 {
        handle = propose(handle, byte);
    }
    let handle = step(handle, ack(1, 2, true, 3), 1);
    assert_eq!(handle.state().commit_index, 0);
    let handle = step(handle, ack(1, 3, true, 2), 1);
    assert_eq!(handle.state().commit_index, 2);
    let handle = step(handle, ack(1, 4, true, 1), 1);
    assert_eq!(handle.state().commit_index, 2);
    let mut handle = step(handle, ack(1, 5, true, 3), 1);
    assert_eq!(handle.state().commit_index, 3);
    assert_eq!(
        handle.take_applied(),
        vec![entry(1, 1, 1), entry(1, 2, 2), entry(1, 3, 3)]
    );
}

#[test]
fn entries_of_an_older_term_are_committed_only_with_one_of_the_leaders_term() {
    // Node 1 takes two entries of term 1 as a follower, then leads term 2.
    let handle = step(
        cluster_of(3),
        Command::AppendEntries {
            term: 1,
            leader_id: 2,
            prev_log_index: 0,
            prev_log_term: 0,
            entries: vec![entry(1, 1, 1), entry(1, 2, 2)],
            leader_commit: 0,
        },
        100,
    );
    let handle = step(handle, Command::Timeout, 100);
    assert_eq!(handle.state().current_term, 2);
    let handle = step(handle, Command::VoteResponse { term: 2, voter_id: 3, granted: true }, 1);
    assert_eq!(handle.role(), Role::Leader);
    assert_eq!(progress(&handle), vec![(2, 3, 0), (3, 3, 0)]);
    let handle = step(handle, ack(2, 3, true, 2), 1);
    assert_eq!(handle.state().commit_index, 0);
    let handle = propose(handle, 3);
    assert_eq!(handle.state().commit_index, 0);
    let mut handle = step(handle, ack(2, 3, true, 3), 1);
    assert_eq!(handle.state().commit_index, 3);
    assert_eq!(
        handle.take_applied(),
        vec![entry(1, 1, 1), entry(1, 2, 2), entry(2, 3, 3)]
    );
}

#[test]
fn failed_append_moves_the_cursor_back_but_not_before_the_first() {
    let handle = propose(propose(leader_of(3, 1), 1), 2);
    let handle = step(handle, Command::AddPeer { peer: Node::new(4, IpAddress::V4(4), 4) }, 1);
    assert_eq!(progress(&handle), vec![(2, 1, 0), (3, 1, 0), (4, 3, 0)]);
    let handle = step(handle, ack(1, 4, false, 99), 1);
    assert_eq!(progress(&handle), vec![(2, 1, 0), (3, 1, 0), (4, 2, 0)]);
    let handle = step(handle, ack(1, 4, false, 0), 1);
    let handle = step(handle, ack(1, 4, false, 0), 1);
    assert_eq!(progress(&handle), vec![(2, 1, 0), (3, 1, 0), (4, 1, 0)]);
}

#[test]
fn match_index_never_goes_back() {
    let handle = propose(propose(leader_of(3, 1), 1), 2);
    let handle = step(handle, ack(1, 2, true, 2), 1);
    assert_eq!(progress(&handle), vec![(2, 3, 2), (3, 1, 0)]);
    let handle = step(handle, ack(1, 2, true, 1), 1);
    assert_eq!(progress(&handle), vec![(2, 3, 2), (3, 1, 0)]);
    let handle = step(handle, ack(1, 2, false, 0), 1);
    assert_eq!(progress(&handle), vec![(2, 2, 2), (3, 1, 0)]);
    let handle = step(handle, ack(1, 2, true, 0), 1);
    assert_eq!(progress(&handle), vec![(2, 3, 2), (3, 1, 0)]);
}

#[test]
fn answers_that_do_not_fit_are_ignored() {
    let handle = propose(leader_of(3, 2), 1);
    let handle = step(handle, ack(2, 2, true, 2), 1);
    assert_eq!(progress(&handle), vec![(2, 1, 0), (3, 1, 0)]);
    let handle = step(handle, ack(1, 2, true, 1), 1);
    assert_eq!(progress(&handle), vec![(2, 1, 0), (3, 1, 0)]);
    let handle = step(handle, ack(2, 9, true, 1), 1);
    assert_eq!(progress(&handle), vec![(2, 1, 0), (3, 1, 0)]);
    assert_eq!(handle.state().commit_index, 0);
    let handle = step(handle, Command::VoteResponse { term: 2, voter_id: 3, granted: true }, 1);
    assert_eq!(handle.role(), Role::Leader);
}

#[test]
fn higher_term_demotes_leader() {
    let handle = leader_of(2, 3);
    assert_eq!(handle.state().voted_for, Some(1));
    let handle = step(
        handle,
        Command::AppendEntries {
            term: 4,
            leader_id: 2,
            prev_log_index: 0,
            prev_log_term: 0,
            entries: vec![],
            leader_commit: 0,
        },
        250,
    );
    assert_eq!(handle.role(), Role::Follower);
    assert_eq!(handle.state().current_term, 4);
    assert_eq!(handle.state().voted_for, None);
    assert_eq!(handle.leader_id(), Some(2));
    match handle {
        RaftHandle::Follower(follower) => {
            assert_eq!(follower.role.election_deadline, 250);
            assert_eq!(follower.io.current_term, 4);
            assert_eq!(follower.io.voted_for, None);
            assert_eq!(
                follower.outbox,
                vec![Response::AppendResponse {
                    to: 2,
                    term: 4,
                    follower_id: 1,
                    success: true,
                    match_index: 0
                }]
            );
        }
        _ => panic!(),
    }
}

#[test]
fn leader_steps_down_on_any_message_of_a_higher_term() {
    let handle = step(leader_of(3, 1), ack(2, 2, false, 0), 300);
    assert_eq!(handle.role(), Role::Follower);
    assert_eq!(handle.state().current_term, 2);
    match handle {
        RaftHandle::Follower(follower) => assert_eq!(follower.role.election_deadline, 300),
        _ => panic!(),
    }
    let handle = step(
        leader_of(3, 1),
        Command::VoteResponse { term: 5, voter_id: 2, granted: false },
        300,
    );
    assert_eq!(handle.role(), Role::Follower);
    assert_eq!(handle.state().current_term, 5);
    let handle = step(
        leader_of(3, 1),
        Command::VoteRequest { term: 2, candidate_id: 3, last_log_index: 0, last_log_term: 0 },
        300,
    );
    assert_eq!(handle.role(), Role::Follower);
    assert_eq!(handle.state().voted_for, Some(3));
    let handle =
        step(leader_of(3, 1), Command::Heartbeat { term: 2, leader_id: 3, leader_commit: 0 }, 9);
    assert_eq!(handle.role(), Role::Follower);
    assert_eq!(handle.leader_id(), Some(3));
}

#[test]
fn leader_keeps_its_role_in_its_own_term() {
    let handle = step(
        leader_of(3, 1),
        Command::VoteRequest { term: 1, candidate_id: 3, last_log_index: 9, last_log_term: 9 },
        300,
    );
    assert_eq!(handle.role(), Role::Leader);
    match &handle {
        RaftHandle::Leader(leader) => assert_eq!(
            leader.outbox,
            vec![Response::VoteResponse { to: 3, term: 1, voter_id: 1, granted: false }]
        ),
        _ => panic!(),
    }
    let mut handle = handle;
    handle.take_outbox();
    let handle = step(handle, Command::Heartbeat { term: 1, leader_id: 3, leader_commit: 0 }, 9);
    assert_eq!(handle.role(), Role::Leader);
    match &handle {
        RaftHandle::Leader(leader) => assert!(leader.outbox.is_empty()),
        _ => panic!(),
    }
    let handle = step(leader_of(3, 2), Command::Heartbeat { term: 1, leader_id: 3, leader_commit: 0 }, 9);
    match &handle {
        RaftHandle::Leader(leader) => assert_eq!(
            leader.outbox,
            vec![Response::AppendResponse {
                to: 3,
                term: 2,
                follower_id: 1,
                success: false,
                match_index: 0
            }]
        ),
        _ => panic!(),
    }
}

#[test]
fn leader_has_progress_exactly_when_it_has_followers() {
    assert!(progress(&leader_of(1, 1)).is_empty());
    assert_eq!(progress(&leader_of(2, 1)).len(), 1);
    assert_eq!(progress(&leader_of(4, 1)).len(), 3);
    let handle = step(leader_of(1, 1), Command::AddPeer { peer: Node::new(7, IpAddress::V4(7), 7) }, 1);
    assert_eq!(progress(&handle), vec![(7, 1, 0)]);
    let handle = step(handle, Command::AddPeer { peer: Node::new(7, IpAddress::V4(8), 8) }, 1);
    assert_eq!(progress(&handle), vec![(7, 1, 0)]);
    let handle = step(handle, Command::AddPeer { peer: Node::new(1, IpAddress::V4(8), 8) }, 1);
    assert_eq!(progress(&handle), vec![(7, 1, 0)]);
}

#[test]
fn term_never_decreases_along_a_run() {
    let commands = vec![
        Command::Timeout,
        Command::VoteResponse { term: 1, voter_id: 2, granted: true },
        Command::Propose { payload: vec![1] },
        Command::Heartbeat { term: 0, leader_id: 2, leader_commit: 0 },
        Command::AppendResponse { term: 3, follower_id: 2, success: true, match_index: 0 },
        Command::VoteRequest { term: 2, candidate_id: 2, last_log_index: 0, last_log_term: 0 },
        Command::Tick { now: 5000 },
        Command::Noop,
        Command::Heartbeat { term: 9, leader_id: 3, leader_commit: 4 },
        Command::VoteResponse { term: 4, voter_id: 3, granted: true },
    ];
    let mut handle = cluster_of(3);
    let mut term = 0;
    let mut terms = Vec::new();
    for command in commands {
        handle = step(handle, command, 50);
        assert!(handle.state().current_term >= term);
        term = handle.state().current_term;
        terms.push(term);
    }
    assert_eq!(terms, vec![1, 1, 1, 1, 3, 3, 4, 4, 9, 9]);
}
