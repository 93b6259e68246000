use josefine_raft::config::{ConfigError, RaftConfig};
use josefine_raft::entry::Entry;
use josefine_raft::error::Error;
use josefine_raft::follower::{acceptable_entries, agreement_with, Follower};
use josefine_raft::log::Log;
use josefine_raft::raft::{Apply, Command, IpAddress, MemoryIo, Node, Raft, RaftHandle};
use josefine_raft::role::Role;
use josefine_raft::rpc::Response;

fn new_follower() -> Raft<Follower, MemoryIo> {
    let config = RaftConfig::default();
    Raft::new(config, MemoryIo::new()).unwrap()
}

fn entry(term: u64, index: u64) -> Entry {
    Entry { term, index, data: vec![term as u8, index as u8] }
}

fn follower_of_two(draw: u64) -> Raft<Follower, MemoryIo> {
    let mut config = RaftConfig::new(1, IpAddress::V4(0x0a00_0001), 7000);
    config.nodes.push(Node::new(2, IpAddress::V4(0x0a00_0002), 7000));
    Raft::start(config, MemoryIo::new(), draw).unwrap()
}

fn append(term: u64, leader_id: u32, prev: (u64, u64), entries: Vec<Entry>, commit: u64) -> Command {
    Command::AppendEntries {
        term,
        leader_id,
        prev_log_index: prev.1,
        prev_log_term: prev.0,
        entries,
        leader_commit: commit,
    }
}

#[test]
fn follower_to_candidate() {
    let mut follower = new_follower();
    follower.add_node_to_cluster(Node::new(10, IpAddress::V4(0), 0));

    let id = follower.id;
    match follower.apply(Command::Timeout).unwrap() {
        RaftHandle::Follower(_) => panic!(),
        RaftHandle::Candidate(candidate) => {
            assert_eq!(id, candidate.id)
        }
        RaftHandle::Leader(_) => panic!(),
    }
}

#[test]
fn follower_to_leader_single_node_cluster() {
    let follower = new_follower();
    let id = follower.id;
    match follower.apply(Command::Timeout).unwrap() {
        RaftHandle::Follower(_) => panic!(),
        RaftHandle::Candidate(_) => panic!(),
        RaftHandle::Leader(leader) => assert_eq!(id, leader.id),
    }
}

#[test]
fn follower_noop() {
    let follower = new_follower();
    let id = follower.id;
    match follower.apply(Command::Noop).unwrap() {
        RaftHandle::Follower(follower) => assert_eq!(id, follower.id),
        RaftHandle::Candidate(_) => panic!(),
        RaftHandle::Leader(_) => panic!(),
    }
}

#[test]
fn new_follower_starts_at_term_zero() {
    let follower = follower_of_two(120);
    assert_eq!(follower.id, 1);
    assert_eq!(follower.state.current_term, 0);
    assert_eq!(follower.state.voted_for, None);
    assert_eq!(follower.state.commit_index, 0);
    assert_eq!(follower.state.last_applied, 0);
    assert_eq!(follower.state.heartbeat_timeout, 2);
    assert_eq!(follower.state.min_election_timeout, 10);
    assert_eq!(follower.state.max_election_timeout, 1000);
    assert_eq!(follower.clock, 0);
    assert_eq!(follower.role.leader_id, None);
    assert_eq!(follower.role.election_deadline, 120);
    assert!(follower.log.entries.is_empty());
    assert!(follower.outbox.is_empty());
    let ids: Vec<u32> = follower.nodes.iter().map(|n| n.id).collect();
    assert_eq!(ids, vec![1, 2]);
}

#[test]
fn new_draws_the_first_deadline_from_the_window() {
    let mut seen = Vec::new();
    for _ in 0..64 {
        let follower = new_follower();
        let deadline = follower.role.election_deadline;
        assert!(10 <= deadline && deadline <= 1000);
        seen.push(deadline);
    }
    assert!(seen.iter().any(|d| *d != 10));
    assert!(seen.iter().any(|d| *d != 1000));
    assert!(seen.iter().any(|d| *d != seen[0]));
}

#[test]
fn apply_draws_the_election_timeout_from_the_window() {
    let mut seen = Vec::new();
    for _ in 0..64 {
        let follower = follower_of_two(50);
        let handle = follower.apply(Command::Tick { now: 500 }).unwrap();
        match handle {
            RaftHandle::Candidate(candidate) => {
                let deadline = candidate.role.election.deadline;
                assert!(510 <= deadline && deadline <= 1500);
                seen.push(deadline);
            }
            _ => panic!(),
        }
    }
    assert!(seen.iter().any(|d| *d != 510));
    assert!(seen.iter().any(|d| *d != 1500));
    assert!(seen.iter().any(|d| *d != seen[0]));
}

#[test]
fn invalid_configurations_are_refused() {
    let mut config = RaftConfig::default();
    config.heartbeat_timeout = 0;
    assert_eq!(config.validate(), Err(ConfigError::NoHeartbeat));
    assert_eq!(Raft::new(config, MemoryIo::new()).err(), Some(ConfigError::NoHeartbeat));

    let mut config = RaftConfig::default();
    config.heartbeat_timeout = 10;
    assert_eq!(config.validate(), Err(ConfigError::ElectionTooEarly));
    assert_eq!(
        Raft::start(config, MemoryIo::new(), 11).err(),
        Some(ConfigError::ElectionTooEarly)
    );

    let mut config = RaftConfig::default();
    config.max_election_timeout = 9;
    assert_eq!(config.validate(), Err(ConfigError::EmptyElectionWindow));

    let mut config = RaftConfig::default();
    config.heartbeat_timeout = 9;
    config.max_election_timeout = 10;
    assert_eq!(config.validate(), Ok(()));
}

#[test]
fn a_peer_of_the_settings_with_a_known_id_replaces_the_record() {
    let mut config = RaftConfig::new(1, IpAddress::V4(1), 1);
    config.nodes.push(Node::new(2, IpAddress::V4(2), 2));
    config.nodes.push(Node::new(2, IpAddress::V6(22), 22));
    config.nodes.push(Node::new(1, IpAddress::V4(11), 11));
    let follower = Raft::start(config, MemoryIo::new(), 10).unwrap();
    assert_eq!(
        follower.nodes,
        vec![Node::new(1, IpAddress::V4(11), 11), Node::new(2, IpAddress::V6(22), 22)]
    );
}

#[test]
fn follower_election_timeout_makes_it_candidate() {
    let follower = follower_of_two(100);
    let handle = follower.step(Command::Timeout, 150).unwrap();
    assert_eq!(handle.role(), Role::Candidate);
    assert_eq!(handle.state().current_term, 1);
    assert_eq!(handle.state().voted_for, Some(1));
    match handle {
        RaftHandle::Candidate(candidate) => {
            assert_eq!(candidate.role.election.deadline, 150);
            assert_eq!(candidate.role.election.votes.len(), 1);
            assert_eq!(candidate.role.election.votes[0].id, 1);
            assert!(candidate.role.election.votes[0].granted);
            assert_eq!(
                candidate.outbox,
                vec![Response::VoteRequest {
                    to: 2,
                    term: 1,
                    candidate_id: 1,
                    last_log_index: 0,
                    last_log_term: 0,
                }]
            );
            assert_eq!(candidate.io.current_term, 1);
            assert_eq!(candidate.io.voted_for, Some(1));
        }
        _ => panic!(),
    }
}

#[test]
fn tick_fires_the_election_when_the_deadline_is_reached() {
    let follower = follower_of_two(100);
    let handle = follower.step(Command::Tick { now: 99 }, 20).unwrap();
    assert_eq!(handle.role(), Role::Follower);
    assert_eq!(handle.state().current_term, 0);
    let handle = handle.step(Command::Tick { now: 100 }, 30).unwrap();
    assert_eq!(handle.role(), Role::Candidate);
    assert_eq!(handle.state().current_term, 1);
    match handle {
        RaftHandle::Candidate(candidate) => {
            assert_eq!(candidate.clock, 100);
            assert_eq!(candidate.role.election.deadline, 130);
        }
        _ => panic!(),
    }
}

#[test]
fn tick_with_unchanged_time_is_a_no_op() {
    let follower = follower_of_two(100);
    let handle = follower.step(Command::Tick { now: 40 }, 20).unwrap();
    let again = match handle {
        RaftHandle::Follower(f) => {
            assert_eq!(f.clock, 40);
            f.step(Command::Tick { now: 40 }, 999).unwrap()
        }
        _ => panic!(),
    };
    match again {
        RaftHandle::Follower(f) => {
            assert_eq!(f.clock, 40);
            assert_eq!(f.role.election_deadline, 100);
            assert_eq!(f.state.current_term, 0);
            assert!(f.outbox.is_empty());
            let back = f.step(Command::Tick { now: 7 }, 999).unwrap();
            match back {
                RaftHandle::Follower(f) => assert_eq!(f.clock, 40),
                _ => panic!(),
            }
        }
        _ => panic!(),
    }
}

#[test]
fn heartbeat_twice_has_the_effect_of_once() {
    let follower = follower_of_two(100);
    let heartbeat = || Command::Heartbeat { term: 3, leader_id: 2, leader_commit: 9 };
    let once = follower.step(heartbeat(), 200).unwrap();
    let (state, leader, reply) = match &once {
        RaftHandle::Follower(f) => {
            assert_eq!(f.role.election_deadline, 200);
            assert_eq!(f.outbox.len(), 1);
            (f.state, f.role.leader_id, f.outbox[0].clone())
        }
        _ => panic!(),
    };
    assert_eq!(state.current_term, 3);
    assert_eq!(state.voted_for, None);
    assert_eq!(state.commit_index, 0);
    assert_eq!(leader, Some(2));
    assert_eq!(
        reply,
        Response::AppendResponse { to: 2, term: 3, follower_id: 1, success: true, match_index: 0 }
    );
    let twice = once.step(heartbeat(), 300).unwrap();
    match twice {
        RaftHandle::Follower(f) => {
            assert_eq!(f.state, state);
            assert_eq!(f.role.leader_id, leader);
            assert_eq!(f.role.election_deadline, 300);
            assert!(f.log.entries.is_empty());
            assert_eq!(f.outbox.len(), 2);
            assert_eq!(f.outbox[0], reply);
            assert_eq!(f.outbox[1], reply);
        }
        _ => panic!(),
    }
}

#[test]
fn append_of_an_older_term_is_answered_with_a_failure() {
    let follower = follower_of_two(100);
    let handle = follower.step(Command::Heartbeat { term: 5, leader_id: 2, leader_commit: 0 }, 200);
    let handle = handle.unwrap().step(append(4, 3, (0, 0), vec![entry(4, 1)], 1), 300).unwrap();
    match handle {
        RaftHandle::Follower(f) => {
            assert_eq!(f.state.current_term, 5);
            assert_eq!(f.role.leader_id, Some(2));
            assert_eq!(f.role.election_deadline, 200);
            assert!(f.log.entries.is_empty());
            assert_eq!(
                f.outbox[1],
                Response::AppendResponse {
                    to: 3,
                    term: 5,
                    follower_id: 1,
                    success: false,
                    match_index: 0
                }
            );
        }
        _ => panic!(),
    }
}

#[test]
fn append_behind_a_missing_entry_is_answered_with_a_failure() {
    let follower = follower_of_two(100);
    let handle = follower.step(append(1, 2, (1, 3), vec![entry(1, 4)], 0), 200).unwrap();
    match handle {
        RaftHandle::Follower(f) => {
            assert_eq!(f.state.current_term, 1);
            assert_eq!(f.role.leader_id, Some(2));
            assert_eq!(f.role.election_deadline, 200);
            assert!(f.log.entries.is_empty());
            assert!(f.io.entries.is_empty());
            assert_eq!(
                f.outbox,
                vec![Response::AppendResponse {
                    to: 2,
                    term: 1,
                    follower_id: 1,
                    success: false,
                    match_index: 0
                }]
            );
        }
        _ => panic!(),
    }
}

#[test]
fn conflicting_suffix_is_truncated() {
    let follower = follower_of_two(100);
    let handle = follower
        .step(append(1, 2, (0, 0), vec![entry(1, 1), entry(1, 2)], 0), 100)
        .unwrap()
        .step(append(2, 2, (1, 2), vec![entry(2, 3)], 0), 100)
        .unwrap();
    assert_eq!(handle.log().entries, vec![entry(1, 1), entry(1, 2), entry(2, 3)]);
    let mut handle = handle;
    handle.take_outbox();
    let handle = handle
        .step(append(3, 2, (1, 2), vec![entry(3, 3), entry(3, 4)], 3), 100)
        .unwrap();
    assert_eq!(handle.state().commit_index, 3);
    assert_eq!(handle.state().last_applied, 3);
    match handle {
        RaftHandle::Follower(f) => {
            let expected = vec![entry(1, 1), entry(1, 2), entry(3, 3), entry(3, 4)];
            assert_eq!(f.log.entries, expected);
            assert_eq!(f.io.entries, expected);
            assert_eq!(f.applied, vec![entry(1, 1), entry(1, 2), entry(3, 3)]);
            assert_eq!(
                f.outbox,
                vec![Response::AppendResponse {
                    to: 2,
                    term: 3,
                    follower_id: 1,
                    success: true,
                    match_index: 4
                }]
            );
        }
        _ => panic!(),
    }
}

#[test]
fn append_of_entries_already_held_keeps_what_follows_them() {
    let follower = follower_of_two(100);
    let handle = follower
        .step(append(1, 2, (0, 0), vec![entry(1, 1), entry(1, 2), entry(1, 3)], 0), 100)
        .unwrap()
        .step(append(1, 2, (0, 0), vec![entry(1, 1), entry(1, 2)], 5), 100)
        .unwrap();
    assert_eq!(handle.log().entries, vec![entry(1, 1), entry(1, 2), entry(1, 3)]);
    assert_eq!(handle.state().commit_index, 2);
}

#[test]
fn append_that_would_replace_a_committed_entry_is_answered_with_a_failure() {
    let follower = follower_of_two(100);
    let handle = follower
        .step(append(1, 2, (0, 0), vec![entry(1, 1), entry(1, 2)], 2), 100)
        .unwrap()
        .step(append(2, 2, (1, 1), vec![entry(2, 2)], 2), 100)
        .unwrap();
    assert_eq!(handle.log().entries, vec![entry(1, 1), entry(1, 2)]);
    assert_eq!(handle.state().commit_index, 2);
    match handle {
        RaftHandle::Follower(f) => assert_eq!(
            f.outbox[1],
            Response::AppendResponse {
                to: 2,
                term: 2,
                follower_id: 1,
                success: false,
                match_index: 0
            }
        ),
        _ => panic!(),
    }
}

#[test]
fn commit_index_never_goes_back() {
    let follower = follower_of_two(100);
    let handle = follower
        .step(append(1, 2, (0, 0), vec![entry(1, 1), entry(1, 2)], 2), 100)
        .unwrap()
        .step(Command::Heartbeat { term: 1, leader_id: 2, leader_commit: 1 }, 100)
        .unwrap();
    assert_eq!(handle.state().commit_index, 2);
    assert_eq!(handle.state().last_applied, 2);
}

#[test]
fn malformed_entries_are_an_invalid_command() {
    let gap = append(1, 2, (0, 0), vec![entry(1, 2)], 0);
    assert_eq!(follower_of_two(100).step(gap, 100).err(), Some(Error::InvalidCommand));
    let backwards = append(3, 2, (0, 0), vec![entry(2, 1), entry(1, 2)], 0);
    assert_eq!(follower_of_two(100).step(backwards, 100).err(), Some(Error::InvalidCommand));
    let future = append(1, 2, (0, 0), vec![entry(2, 1)], 0);
    assert_eq!(follower_of_two(100).step(future, 100).err(), Some(Error::InvalidCommand));
    let below_prev = append(3, 2, (2, 1), vec![entry(1, 2)], 0);
    assert_eq!(follower_of_two(100).step(below_prev, 100).err(), Some(Error::InvalidCommand));
    let beyond = append(3, 2, (1, u64::MAX), vec![entry(1, 0)], 0);
    assert_eq!(follower_of_two(100).step(beyond, 100).err(), Some(Error::InvalidCommand));
}

#[test]
fn acceptable_entries_are_chained_and_within_the_term() {
    assert!(acceptable_entries(1, 0, 0, &vec![]));
    assert!(acceptable_entries(2, 3, 1, &vec![entry(1, 4), entry(2, 5)]));
    assert!(!acceptable_entries(1, 3, 1, &vec![entry(1, 4), entry(2, 5)]));
    assert!(!acceptable_entries(2, 3, 2, &vec![entry(1, 4), entry(2, 5)]));
    assert!(!acceptable_entries(2, 3, 1, &vec![entry(1, 4), entry(2, 6)]));
    assert!(!acceptable_entries(2, 3, 1, &vec![entry(1, 3)]));
}

#[test]
fn agreement_counts_leading_entries_held() {
    let mut log = Log::new();
    log.append(vec![entry(1, 1), entry(1, 2), entry(2, 3)]);
    assert_eq!(agreement_with(&log, 0, &vec![entry(1, 1), entry(1, 2), entry(2, 3)]), 3);
    assert_eq!(agreement_with(&log, 1, &vec![entry(1, 2), entry(3, 3), entry(3, 4)]), 1);
    assert_eq!(agreement_with(&log, 2, &vec![entry(2, 3), entry(2, 4)]), 1);
    assert_eq!(agreement_with(&log, 3, &vec![entry(2, 4)]), 0);
    assert_eq!(agreement_with(&log, 0, &vec![]), 0);
}

#[test]
fn log_inconsistency_is_told_by_check_append() {
    let follower = follower_of_two(100);
    let handle = follower
        .step(append(1, 2, (0, 0), vec![entry(1, 1), entry(1, 2)], 2), 100)
        .unwrap();
    match handle {
        RaftHandle::Follower(f) => {
            assert_eq!(f.check_append(3, 1, &vec![]), Err(Error::LogInconsistency));
            assert_eq!(f.check_append(2, 2, &vec![]), Err(Error::LogInconsistency));
            assert_eq!(f.check_append(1, 1, &vec![entry(2, 2)]), Err(Error::LogInconsistency));
            assert_eq!(f.check_append(2, 1, &vec![entry(2, 3)]), Ok(0));
            assert_eq!(f.check_append(0, 0, &vec![entry(1, 1), entry(1, 2), entry(1, 3)]), Ok(2));
        }
        _ => panic!(),
    }
}

#[test]
fn stale_term_is_told_by_check_term() {
    let follower = follower_of_two(100);
    let handle = follower.step(Command::Heartbeat { term: 5, leader_id: 2, leader_commit: 0 }, 9);
    match handle.unwrap() {
        RaftHandle::Follower(f) => {
            assert_eq!(f.check_term(4), Err(Error::StaleTerm));
            assert_eq!(f.check_term(5), Ok(()));
            assert_eq!(f.check_term(6), Ok(()));
        }
        _ => panic!(),
    }
}

#[test]
fn vote_is_granted_once_per_term() {
    let mut config = RaftConfig::new(1, IpAddress::V4(1), 1);
    config.nodes.push(Node::new(2, IpAddress::V4(2), 2));
    config.nodes.push(Node::new(3, IpAddress::V4(3), 3));
    let follower = Raft::start(config, MemoryIo::new(), 100).unwrap();
    let request = |candidate_id: u32| Command::VoteRequest {
        term: 1,
        candidate_id,
        last_log_index: 0,
        last_log_term: 0,
    };
    let handle = follower.step(request(2), 400).unwrap();
    assert_eq!(handle.state().voted_for, Some(2));
    assert_eq!(handle.state().current_term, 1);
    let handle = handle.step(request(3), 500).unwrap();
    assert_eq!(handle.state().voted_for, Some(2));
    let handle = handle.step(request(2), 600).unwrap();
    match handle {
        RaftHandle::Follower(f) => {
            assert_eq!(f.state.voted_for, Some(2));
            assert_eq!(f.role.election_deadline, 600);
            assert_eq!(f.io.voted_for, Some(2));
            assert_eq!(f.io.current_term, 1);
            assert_eq!(
                f.outbox,
                vec![
                    Response::VoteResponse { to: 2, term: 1, voter_id: 1, granted: true },
                    Response::VoteResponse { to: 3, term: 1, voter_id: 1, granted: false },
                    Response::VoteResponse { to: 2, term: 1, voter_id: 1, granted: true },
                ]
            );
        }
        _ => panic!(),
    }
}

#[test]
fn vote_is_denied_on_stale_log() {
    let follower = follower_of_two(100);
    let handle = follower
        .step(append(1, 2, (0, 0), vec![entry(1, 1), entry(1, 2), entry(1, 3)], 0), 100)
        .unwrap()
        .step(append(2, 2, (1, 3), vec![entry(2, 4), entry(2, 5)], 0), 100)
        .unwrap();
    assert_eq!(handle.log().last_index(), 5);
    assert_eq!(handle.log().last_term(), 2);
    let mut handle = handle;
    handle.take_outbox();
    let handle = handle
        .step(
            Command::VoteRequest { term: 3, candidate_id: 2, last_log_index: 4, last_log_term: 2 },
            777,
        )
        .unwrap();
    assert_eq!(handle.state().current_term, 3);
    assert_eq!(handle.state().voted_for, None);
    match handle {
        RaftHandle::Follower(f) => {
            assert_eq!(f.role.election_deadline, 100);
            assert_eq!(
                f.outbox,
                vec![Response::VoteResponse { to: 2, term: 3, voter_id: 1, granted: false }]
            );
        }
        _ => panic!(),
    }
}

#[test]
fn vote_goes_to_a_log_that_is_as_up_to_date() {
    let start = || {
        follower_of_two(100)
            .step(append(2, 2, (0, 0), vec![entry(1, 1), entry(2, 2)], 0), 100)
            .unwrap()
    };
    let ask = |last_log_term: u64, last_log_index: u64| Command::VoteRequest {
        term: 3,
        candidate_id: 2,
        last_log_index,
        last_log_term,
    };
    assert_eq!(start().step(ask(2, 2), 1).unwrap().state().voted_for, Some(2));
    assert_eq!(start().step(ask(2, 3), 1).unwrap().state().voted_for, Some(2));
    assert_eq!(start().step(ask(3, 1), 1).unwrap().state().voted_for, Some(2));
    assert_eq!(start().step(ask(2, 1), 1).unwrap().state().voted_for, None);
    assert_eq!(start().step(ask(1, 9), 1).unwrap().state().voted_for, None);
}

#[test]
fn vote_request_of_an_older_term_is_denied() {
    let handle = follower_of_two(100)
        .step(Command::Heartbeat { term: 5, leader_id: 2, leader_commit: 0 }, 100)
        .unwrap()
        .step(
            Command::VoteRequest { term: 4, candidate_id: 2, last_log_index: 9, last_log_term: 9 },
            100,
        )
        .unwrap();
    assert_eq!(handle.state().current_term, 5);
    assert_eq!(handle.state().voted_for, None);
}

#[test]
fn follower_ignores_answers() {
    let handle = follower_of_two(100)
        .step(Command::VoteResponse { term: 0, voter_id: 2, granted: true }, 100)
        .unwrap()
        .step(
            Command::AppendResponse { term: 0, follower_id: 2, success: true, match_index: 3 },
            100,
        )
        .unwrap();
    match handle {
        RaftHandle::Follower(f) => {
            assert_eq!(f.state.current_term, 0);
            assert!(f.outbox.is_empty());
            assert_eq!(f.role.election_deadline, 100);
        }
        _ => panic!(),
    }
}

#[test]
fn follower_takes_a_higher_term_from_any_message() {
    let handle = follower_of_two(100)
        .step(
            Command::VoteRequest { term: 1, candidate_id: 2, last_log_index: 0, last_log_term: 0 },
            100,
        )
        .unwrap();
    assert_eq!(handle.state().voted_for, Some(2));
    let handle = handle.step(Command::VoteResponse { term: 7, voter_id: 2, granted: true }, 100);
    let handle = handle.unwrap();
    assert_eq!(handle.state().current_term, 7);
    assert_eq!(handle.state().voted_for, None);
    let handle = handle
        .step(
            Command::AppendResponse { term: 9, follower_id: 2, success: true, match_index: 3 },
            100,
        )
        .unwrap();
    assert_eq!(handle.state().current_term, 9);
    assert_eq!(handle.role(), Role::Follower);
}

#[test]
fn follower_takes_no_proposal() {
    let follower = follower_of_two(100);
    assert_eq!(
        follower.step(Command::Propose { payload: vec![1] }, 1).err(),
        Some(Error::NotLeader { leader_hint: None })
    );
    let handle = follower_of_two(100)
        .step(Command::Heartbeat { term: 1, leader_id: 2, leader_commit: 0 }, 100)
        .unwrap();
    assert_eq!(handle.leader_id(), Some(2));
    assert_eq!(
        handle.step(Command::Propose { payload: vec![1] }, 1).err(),
        Some(Error::NotLeader { leader_hint: Some(2) })
    );
    assert_eq!(
        follower_of_two(100).step(Command::Propose { payload: vec![] }, 1).err(),
        Some(Error::InvalidCommand)
    );
}

#[test]
fn add_peer_joins_the_cluster() {
    let handle = follower_of_two(100)
        .step(Command::AddPeer { peer: Node::new(3, IpAddress::V6(3), 30) }, 100)
        .unwrap()
        .step(Command::AddPeer { peer: Node::new(2, IpAddress::V4(9), 90) }, 100)
        .unwrap();
    match handle {
        RaftHandle::Follower(f) => {
            assert_eq!(
                f.nodes,
                vec![
                    Node::new(1, IpAddress::V4(0x0a00_0001), 7000),
                    Node::new(2, IpAddress::V4(9), 90),
                    Node::new(3, IpAddress::V6(3), 30),
                ]
            );
            assert!(f.knows(3));
            assert!(!f.knows(4));
            assert_eq!(f.others(), vec![2, 3]);
        }
        _ => panic!(),
    }
}

#[test]
fn restored_node_starts_from_what_it_stored() {
    let config = || {
        let mut config = RaftConfig::new(1, IpAddress::V4(1), 1);
        config.nodes.push(Node::new(2, IpAddress::V4(2), 2));
        config
    };
    let log = vec![entry(1, 1), entry(1, 2), entry(3, 3)];
    let mut io = MemoryIo::new();
    io.entries = log.clone();
    io.current_term = 4;
    io.voted_for = Some(2);
    let follower = Raft::restore(config(), io, 4, Some(2), log.clone(), 70).unwrap();
    assert!(follower.is_sound());
    assert_eq!(follower.state.current_term, 4);
    assert_eq!(follower.state.voted_for, Some(2));
    assert_eq!(follower.state.commit_index, 0);
    assert_eq!(follower.state.last_applied, 0);
    assert_eq!(follower.log.entries, log);
    assert_eq!(follower.role.leader_id, None);
    assert_eq!(follower.role.election_deadline, 70);
    assert!(follower.pending.is_empty());
    // The vote of the term stands across the restart.
    let handle = follower
        .step(
            Command::VoteRequest { term: 4, candidate_id: 3, last_log_index: 9, last_log_term: 9 },
            1,
        )
        .unwrap();
    assert_eq!(handle.state().voted_for, Some(2));
    let handle = handle.step(Command::Timeout, 1).unwrap();
    assert_eq!(handle.state().current_term, 5);
    match handle {
        RaftHandle::Candidate(candidate) => assert_eq!(
            candidate.outbox[1],
            Response::VoteRequest {
                to: 2,
                term: 5,
                candidate_id: 1,
                last_log_index: 3,
                last_log_term: 3
            }
        ),
        _ => panic!(),
    }
}

#[test]
fn what_is_no_log_is_not_restored() {
    let restore = |term: u64, log: Vec<Entry>| {
        Raft::restore(RaftConfig::default(), MemoryIo::new(), term, None, log, 70).err()
    };
    assert_eq!(restore(0, vec![]), None);
    assert_eq!(restore(2, vec![entry(1, 1), entry(2, 2)]), None);
    assert_eq!(restore(1, vec![entry(1, 1), entry(2, 2)]), Some(ConfigError::CorruptLog));
    assert_eq!(restore(9, vec![entry(1, 2)]), Some(ConfigError::CorruptLog));
    assert_eq!(restore(9, vec![entry(1, 1), entry(1, 3)]), Some(ConfigError::CorruptLog));
    assert_eq!(restore(9, vec![entry(2, 1), entry(1, 2)]), Some(ConfigError::CorruptLog));
    let mut config = RaftConfig::default();
    config.heartbeat_timeout = 0;
    assert_eq!(
        Raft::restore(config, MemoryIo::new(), 9, None, vec![entry(1, 2)], 70).err(),
        Some(ConfigError::NoHeartbeat)
    );
}
