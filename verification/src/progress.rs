//! Replication progress: what a leader knows of each follower's log, and the
//! commit index that follows from it.

use vstd::prelude::*;

use crate::election::spec_majority;
use crate::entry::{EntrySpec, NodeId};
use crate::log::Log;

verus! {

/// The replication cursor that a leader keeps for one follower.
#[derive(Debug, Clone, Copy, PartialEq, Eq, Structural)]
pub struct Progress {
    /// The follower.
    pub id: NodeId,
    /// The index of the next entry to send to the follower.
    pub next_index: u64,
    /// The highest index up to which the follower's log is known to equal
    /// the leader's.
    pub match_index: u64,
}

/// The progress of a new leader: every follower is sent the entry at `next`
/// first, and nothing is known to match.
pub open spec fn initial(followers: Seq<NodeId>, next: u64) -> Seq<Progress> {
    followers.map_values(|id: NodeId| Progress { id, next_index: next, match_index: 0 })
}

/// Whether `progress` holds a cursor for node `id`.
pub open spec fn tracks(progress: Seq<Progress>, id: NodeId) -> bool {
    exists|i: int| 0 <= i < progress.len() && (#[trigger] progress[i]).id == id
}

/// The cursor `p` after its follower answered an append. On success the
/// match index rises to `match_index` if that is higher, and the next entry
/// to send is the one after the match (the largest index there is stands
/// for itself). On failure the next entry to send is the one before, but
/// never before the first.
pub open spec fn answered(p: Progress, success: bool, match_index: u64) -> Progress {
    if success {
        let matched = if match_index > p.match_index {
            match_index
        } else {
            p.match_index
        };
        Progress {
            id: p.id,
            next_index: if matched < u64::MAX {
                (matched + 1) as u64
            } else {
                u64::MAX
            },
            match_index: matched,
        }
    } else {
        Progress {
            id: p.id,
            next_index: if p.next_index > 1 {
                (p.next_index - 1) as u64
            } else {
                1
            },
            match_index: p.match_index,
        }
    }
}

/// `progress` after `follower` answered an append.
pub open spec fn acknowledged(
    progress: Seq<Progress>,
    follower: NodeId,
    success: bool,
    match_index: u64,
) -> Seq<Progress> {
    progress.map_values(
        |p: Progress|
            if p.id == follower {
                answered(p, success, match_index)
            } else {
                p
            },
    )
}

/// How many followers are known to hold the log up to `index`.
pub open spec fn replicated(progress: Seq<Progress>, index: int) -> nat
    decreases progress.len(),
{
    if progress.len() == 0 {
        0
    } else {
        replicated(progress.drop_last(), index) + if progress.last().match_index >= index {
            1nat
        } else {
            0nat
        }
    }
}

/// Whether a leader of term `term` in a cluster of `total` nodes may commit
/// the entry at `index`: the entry is of the leader's own term, and the
/// leader together with the followers that hold it are a majority.
pub open spec fn committable(
    log: Seq<EntrySpec>,
    progress: Seq<Progress>,
    term: u64,
    total: nat,
    index: int,
) -> bool {
    &&& 1 <= index <= log.len()
    &&& log[index - 1].term == term
    &&& replicated(progress, index) + 1 >= spec_majority(total)
}

/// The highest committable index that is at most `upto`, 0 if there is none.
pub open spec fn commit_target(
    log: Seq<EntrySpec>,
    progress: Seq<Progress>,
    term: u64,
    total: nat,
    upto: nat,
) -> nat
    decreases upto,
{
    if upto == 0 {
        0
    } else if committable(log, progress, term, total, upto as int) {
        upto
    } else {
        commit_target(log, progress, term, total, (upto - 1) as nat)
    }
}

/// The commit target is committable unless it is 0, and no index above it,
/// up to `upto`, is committable.
pub proof fn commit_target_is_highest(
    log: Seq<EntrySpec>,
    progress: Seq<Progress>,
    term: u64,
    total: nat,
    upto: nat,
)
    ensures
        commit_target(log, progress, term, total, upto) <= upto,
        commit_target(log, progress, term, total, upto) != 0 ==> committable(
            log,
            progress,
            term,
            total,
            commit_target(log, progress, term, total, upto) as int,
        ),
        forall|index: int|
            commit_target(log, progress, term, total, upto) < index <= upto ==> !committable(
                log,
                progress,
                term,
                total,
                index,
            ),
    decreases upto,
{
    if upto > 0 && !committable(log, progress, term, total, upto as int) {
        commit_target_is_highest(log, progress, term, total, (upto - 1) as nat);
    }
}

/// The cursors of a leader, one for each of its followers.
#[derive(Debug)]
pub struct ReplicationProgress {
    /// The cursors, in the order in which the leader learned of the
    /// followers.
    pub peers: Vec<Progress>,
}

impl View for ReplicationProgress {
    type V = Seq<Progress>;

    open spec fn view(&self) -> Seq<Progress> {
        self.peers@
    }
}

impl ReplicationProgress {
    /// The progress of a new leader with these followers.
    pub fn new(followers: &Vec<NodeId>, next: u64) -> (progress: ReplicationProgress)
        ensures
            progress@ == initial(followers@, next),
    {
        let mut peers: Vec<Progress> = Vec::new();
        let mut i: usize = 0;
        while i < followers.len()
            invariant
                i <= followers.len(),
                peers@.len() == i,
                forall|k: int|
                    0 <= k < i ==> #[trigger] peers@[k] == (Progress {
                        id: followers@[k],
                        next_index: next,
                        match_index: 0,
                    }),
            decreases followers.len() - i,
        {
            peers.push(Progress { id: followers[i], next_index: next, match_index: 0 });
            i += 1;
        }
        assert(peers@ =~= initial(followers@, next));
        ReplicationProgress { peers }
    }

    /// Starts to track one more follower.
    pub fn track(&mut self, id: NodeId, next: u64)
        ensures
            final(self)@ == old(self)@.push(Progress { id, next_index: next, match_index: 0 }),
    {
        self.peers.push(Progress { id, next_index: next, match_index: 0 });
    }

    /// Whether there is a cursor for node `id`.
    pub fn tracks(&self, id: NodeId) -> (yes: bool)
        ensures
            yes == tracks(self@, id),
    {
        let mut i: usize = 0;
        while i < self.peers.len()
            invariant
                i <= self.peers.len(),
                forall|k: int| 0 <= k < i ==> (#[trigger] self.peers@[k]).id != id,
            decreases self.peers.len() - i,
        {
            if self.peers[i].id == id {
                return true;
            }
            i += 1;
        }
        false
    }

    /// Takes in the answer of `follower` to an append.
    pub fn acknowledge(&mut self, follower: NodeId, success: bool, match_index: u64)
        ensures
            final(self)@ == acknowledged(old(self)@, follower, success, match_index),
    {
        let mut i: usize = 0;
        while i < self.peers.len()
            invariant
                i <= self.peers.len(),
                self.peers.len() == old(self).peers.len(),
                forall|k: int|
                    0 <= k < i ==> #[trigger] self.peers@[k] == if old(self)@[k].id == follower {
                        answered(old(self)@[k], success, match_index)
                    } else {
                        old(self)@[k]
                    },
                forall|k: int| i <= k < self.peers.len() ==> #[trigger] self.peers@[k] == old(
                    self,
                )@[k],
            decreases self.peers.len() - i,
        {
            let p = self.peers[i];
            if p.id == follower {
                let next = if success {
                    let matched = if match_index > p.match_index {
                        match_index
                    } else {
                        p.match_index
                    };
                    Progress {
                        id: p.id,
                        next_index: if matched < u64::MAX {
                            matched + 1
                        } else {
                            u64::MAX
                        },
                        match_index: matched,
                    }
                } else {
                    Progress {
                        id: p.id,
                        next_index: if p.next_index > 1 {
                            p.next_index - 1
                        } else {
                            1
                        },
                        match_index: p.match_index,
                    }
                };
                self.peers.set(i, next);
            }
            i += 1;
        }
        assert(self@ =~= acknowledged(old(self)@, follower, success, match_index));
    }

    /// How many followers are known to hold the log up to `index`.
    pub fn replicated(&self, index: u64) -> (count: usize)
        ensures
            count == replicated(self@, index as int),
            count <= self@.len(),
    {
        let mut count: usize = 0;
        let mut i: usize = 0;
        while i < self.peers.len()
            invariant
                i <= self.peers.len(),
                count == replicated(self@.take(i as int), index as int),
                count <= i,
            decreases self.peers.len() - i,
        {
            assert(self@.take(i + 1).drop_last() =~= self@.take(i as int));
            if self.peers[i].match_index >= index {
                count += 1;
            }
            i += 1;
        }
        assert(self@.take(i as int) =~= self@);
        count
    }

    /// The commit index of a leader of term `term` in a cluster of `total`
    /// nodes whose commit index was `commit_index`: the highest committable
    /// index if that is higher, else `commit_index`.
    pub fn commit_index(&self, log: &Log, term: u64, total: usize, commit_index: u64) -> (index:
        u64)
        requires
            commit_index <= log@.len(),
        ensures
            index == if commit_target(log@, self@, term, total as nat, log@.len()) > commit_index {
                commit_target(log@, self@, term, total as nat, log@.len())
            } else {
                commit_index as nat
            },
    {
        let quorum = total / 2 + 1;
        let mut index: u64 = log.last_index();
        while index > commit_index
            invariant
                commit_index <= index <= log@.len(),
                quorum == spec_majority(total as nat),
                commit_target(log@, self@, term, total as nat, log@.len()) == commit_target(
                    log@,
                    self@,
                    term,
                    total as nat,
                    index as nat,
                ),
            decreases index,
        {
            if log.term_at(index) == term {
                let holders = self.replicated(index);
                if holders >= quorum - 1 {
                    return index;
                }
            }
            index -= 1;
        }
        proof {
            commit_target_is_highest(log@, self@, term, total as nat, index as nat);
        }
        commit_index
    }
}

} // verus!
