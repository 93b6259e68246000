use std::collections::VecDeque;

use josefine_raft::config::RaftConfig;
use josefine_raft::entry::Entry;
use josefine_raft::error::Error;
use josefine_raft::participant::Participant;
use josefine_raft::raft::{Command, Io, IpAddress, MemoryIo, Node, RaftHandle};
use josefine_raft::role::Role;
use josefine_raft::rpc::Response;

fn config(id: u32, size: u32) -> RaftConfig {
    let mut config = RaftConfig::new(id, IpAddress::V4(id), 7000 + id);
    for other in 1..=size {
        if other != id {
            config.nodes.push(Node::new(other, IpAddress::V4(other), 7000 + other));
        }
    }
    config
}

struct Cluster {
    nodes: Vec<Participant<MemoryIo>>,
    applied: Vec<Vec<Entry>>,
    wire: VecDeque<Response>,
}

impl Cluster {
    fn of(size: u32) -> Cluster {
        let nodes = (1..=size).map(|id| Participant::new(config(id, size), MemoryIo::new()));
        Cluster {
            nodes: nodes.collect(),
            applied: (0..size).map(|_| Vec::new()).collect(),
            wire: VecDeque::new(),
        }
    }

    fn node(&self, id: u32) -> &RaftHandle<MemoryIo> {
        self.nodes[id as usize - 1].handle.as_ref().unwrap()
    }

    fn apply(&mut self, id: u32, command: Command, draw: u64) -> Result<(), Error> {
        let at = id as usize - 1;
        assert!(self.node(id).is_well_formed());
        let term = self.node(id).state().current_term;
        let r = self.nodes[at].step(command, draw);
        let node = self.nodes[at].handle.as_mut().unwrap();
        assert!(node.is_well_formed());
        assert!(node.state().current_term >= term);
        assert!(node.state().last_applied <= node.state().commit_index);
        assert!(node.state().commit_index <= node.log().last_index());
        self.wire.extend(node.take_outbox());
        self.applied[at].extend(node.take_applied());
        r
    }

    /// Delivers messages until none is left.
    fn settle(&mut self) {
        while let Some(message) = self.wire.pop_front() {
            let to = message.to();
            self.apply(to, message.command(), 500).unwrap();
        }
    }

    fn leaders(&self) -> Vec<(u32, u64)> {
        (1..=self.nodes.len() as u32)
            .filter(|id| self.node(*id).role() == Role::Leader)
            .map(|id| (id, self.node(id).state().current_term))
            .collect()
    }
}

#[test]
fn proposals_are_replicated_and_applied_in_order_on_every_node() {
    let mut cluster = Cluster::of(3);
    cluster.apply(2, Command::Timeout, 300).unwrap();
    cluster.settle();
    assert_eq!(cluster.leaders(), vec![(2, 1)]);
    assert_eq!(cluster.node(1).leader_id(), Some(2));
    assert_eq!(cluster.node(3).leader_id(), Some(2));

    for byte in 1..=5u8 {
        cluster.apply(2, Command::Propose { payload: vec![byte] }, 1).unwrap();
    }
    assert_eq!(cluster.node(2).state().commit_index, 0);
    cluster.apply(2, Command::Timeout, 1).unwrap();
    cluster.settle();
    let expected: Vec<Entry> =
        (1..=5).map(|i| Entry { term: 1, index: i, data: vec![i as u8] }).collect();
    assert_eq!(cluster.node(2).state().commit_index, 5);
    assert_eq!(cluster.applied[1], expected);
    // The followers learn of the commit with the next heartbeat.
    assert_eq!(cluster.node(1).state().commit_index, 0);
    cluster.apply(2, Command::Timeout, 1).unwrap();
    cluster.settle();
    for id in 1..=3 {
        assert_eq!(cluster.node(id).log().entries, expected);
        assert_eq!(cluster.node(id).state().commit_index, 5);
        assert_eq!(cluster.applied[id as usize - 1], expected);
    }
    for node in cluster.nodes.iter() {
        match node.handle.as_ref().unwrap() {
            RaftHandle::Follower(raft) => assert_eq!(raft.io.entries, expected),
            RaftHandle::Candidate(raft) => assert_eq!(raft.io.entries, expected),
            RaftHandle::Leader(raft) => assert_eq!(raft.io.entries, expected),
        }
    }
}

#[test]
fn a_new_leader_overwrites_what_the_old_one_did_not_commit() {
    let mut cluster = Cluster::of(3);
    cluster.apply(1, Command::Timeout, 300).unwrap();
    cluster.settle();
    cluster.apply(1, Command::Propose { payload: vec![1] }, 1).unwrap();
    cluster.apply(1, Command::Timeout, 1).unwrap();
    cluster.settle();
    assert_eq!(cluster.node(1).state().commit_index, 1);
    // Node 1 takes two more proposals that reach nobody.
    cluster.apply(1, Command::Propose { payload: vec![2] }, 1).unwrap();
    cluster.apply(1, Command::Propose { payload: vec![3] }, 1).unwrap();
    cluster.apply(1, Command::Timeout, 1).unwrap();
    cluster.wire.clear();
    assert_eq!(cluster.node(1).log().last_index(), 3);
    // Node 3 is elected by node 2 and takes a proposal of its own.
    cluster.apply(3, Command::Timeout, 300).unwrap();
    let requests: Vec<Response> = cluster.wire.drain(..).collect();
    for request in requests {
        if request.to() == 2 {
            cluster.wire.push_back(request);
        }
    }
    // Its first append reaches node 1, which steps down and keeps, for
    // now, what it had appended.
    cluster.settle();
    assert_eq!(cluster.leaders(), vec![(3, 2)]);
    assert_eq!(cluster.node(1).leader_id(), Some(3));
    assert_eq!(cluster.node(1).log().last_index(), 3);
    cluster.apply(3, Command::Propose { payload: vec![9] }, 1).unwrap();
    cluster.apply(3, Command::Timeout, 1).unwrap();
    cluster.settle();
    cluster.apply(3, Command::Timeout, 1).unwrap();
    cluster.settle();
    cluster.apply(3, Command::Timeout, 1).unwrap();
    cluster.settle();
    let expected = vec![
        Entry { term: 1, index: 1, data: vec![1] },
        Entry { term: 2, index: 2, data: vec![9] },
    ];
    for id in 1..=3 {
        assert_eq!(cluster.node(id).log().entries, expected);
        assert_eq!(cluster.node(id).state().commit_index, 2);
        assert_eq!(cluster.applied[id as usize - 1], expected);
    }
}

#[test]
fn at_most_one_leader_is_elected_in_a_term() {
    let mut cluster = Cluster::of(5);
    cluster.apply(1, Command::Timeout, 300).unwrap();
    cluster.apply(2, Command::Timeout, 300).unwrap();
    cluster.apply(3, Command::Timeout, 300).unwrap();
    cluster.settle();
    let leaders = cluster.leaders();
    assert!(leaders.len() <= 1);
    for (_, term) in leaders {
        assert_eq!(term, 1);
    }
    let votes: Vec<Option<u32>> = (1..=5).map(|id| cluster.node(id).state().voted_for).collect();
    assert_eq!(votes, vec![Some(1), Some(2), Some(3), Some(1), Some(1)]);
    assert_eq!(cluster.leaders(), vec![(1, 1)]);
}

#[test]
fn refused_command_leaves_the_participant_as_it_is() {
    let mut participant = Participant::new(config(1, 2), MemoryIo::new());
    participant.step(Command::Heartbeat { term: 2, leader_id: 2, leader_commit: 0 }, 40).unwrap();
    let before = {
        let node = participant.handle.as_ref().unwrap();
        (node.state(), node.leader_id(), node.role())
    };
    assert_eq!(
        participant.step(Command::Propose { payload: vec![1] }, 50),
        Err(Error::NotLeader { leader_hint: Some(2) })
    );
    assert_eq!(participant.apply(Command::Propose { payload: vec![] }), Err(Error::InvalidCommand));
    assert_eq!(
        participant.apply(Command::AppendEntries {
            term: 2,
            leader_id: 2,
            prev_log_index: 0,
            prev_log_term: 0,
            entries: vec![Entry { term: 1, index: 5, data: vec![] }],
            leader_commit: 0,
        }),
        Err(Error::InvalidCommand)
    );
    assert!(!participant.halted());
    let node = participant.handle.as_ref().unwrap();
    assert_eq!((node.state(), node.leader_id(), node.role()), before);
    assert_eq!(
        node.refuses(&Command::Propose { payload: vec![1] }),
        Some(Error::NotLeader { leader_hint: Some(2) })
    );
    assert_eq!(node.refuses(&Command::Timeout), None);
    match node {
        RaftHandle::Follower(raft) => assert_eq!(raft.outbox.len(), 1),
        _ => panic!(),
    }
}

struct BrokenIo;

impl Io for BrokenIo {
    fn append(&mut self, _entries: &mut Vec<Entry>) -> Result<(), Error> {
        Err(Error::Persistence)
    }

    fn truncate(&mut self, _index: u64) -> Result<(), Error> {
        Err(Error::Persistence)
    }

    fn save(&mut self, _term: u64, _voted_for: Option<u32>) -> Result<(), Error> {
        Err(Error::Persistence)
    }
}

#[test]
fn storage_failure_halts_the_participant() {
    let mut participant = Participant::new(config(1, 2), BrokenIo);
    assert_eq!(participant.apply(Command::Noop), Ok(()));
    assert_eq!(participant.apply(Command::Tick { now: 5 }), Ok(()));
    assert!(!participant.halted());
    assert_eq!(participant.apply(Command::Timeout), Err(Error::Persistence));
    assert!(participant.halted());
    assert_eq!(participant.apply(Command::Noop), Err(Error::Persistence));
    assert_eq!(participant.step(Command::Timeout, 10), Err(Error::Persistence));
    assert!(participant.halted());
}
