//! Elections: the votes a candidate has received and what they decide.

use vstd::prelude::*;

use crate::entry::NodeId;

verus! {

/// The number of votes that wins an election among `total` nodes: the
/// smallest number that is more than half of them.
pub open spec fn spec_majority(total: nat) -> nat {
    total / 2 + 1
}

/// The number of votes that wins an election among `total` nodes.
pub fn majority(total: usize) -> (quorum: usize)
    ensures
        quorum == spec_majority(total as nat),
{
    total / 2 + 1
}

/// The answer of one node to a candidate.
#[derive(Debug, Clone, Copy, PartialEq, Eq, Structural)]
pub struct Vote {
    /// The node that answered.
    pub id: NodeId,
    /// Whether it gave its vote to the candidate.
    pub granted: bool,
}

/// How an election stands.
#[derive(Debug, Clone, Copy, PartialEq, Eq, Structural)]
pub enum ElectionStatus {
    /// A majority of the cluster has granted its vote.
    Elected,
    /// Neither side has a majority yet.
    Voting,
    /// So many nodes have denied their vote that no majority can be reached.
    Defeated,
}

/// How many of `votes` are granted.
pub open spec fn granted(votes: Seq<Vote>) -> nat
    decreases votes.len(),
{
    if votes.len() == 0 {
        0
    } else {
        granted(votes.drop_last()) + if votes.last().granted {
            1nat
        } else {
            0nat
        }
    }
}

/// Whether `votes` hold an answer of node `id`.
pub open spec fn has_voted(votes: Seq<Vote>, id: NodeId) -> bool {
    exists|i: int| 0 <= i < votes.len() && (#[trigger] votes[i]).id == id
}

/// `votes` after node `id` answered: its earlier answer is replaced, a
/// first answer is added at the end.
pub open spec fn recorded(votes: Seq<Vote>, id: NodeId, granted: bool) -> Seq<Vote> {
    let answer = Vote { id, granted };
    if has_voted(votes, id) {
        votes.map_values(
            |v: Vote|
                if v.id == id {
                    answer
                } else {
                    v
                },
        )
    } else {
        votes.push(answer)
    }
}

/// No node has two answers among `votes`.
pub open spec fn one_vote_each(votes: Seq<Vote>) -> bool {
    forall|i: int, j: int|
        0 <= i < j < votes.len() ==> (#[trigger] votes[i]).id != (#[trigger] votes[j]).id
}

/// How an election with these `votes` stands in a cluster of `total` nodes.
pub open spec fn status(votes: Seq<Vote>, total: nat) -> ElectionStatus {
    let yes = granted(votes);
    let no = votes.len() - yes;
    if yes >= spec_majority(total) {
        ElectionStatus::Elected
    } else if total - no < spec_majority(total) {
        ElectionStatus::Defeated
    } else {
        ElectionStatus::Voting
    }
}

/// Recording an answer keeps one answer per node.
pub proof fn recorded_one_vote_each(votes: Seq<Vote>, id: NodeId, granted: bool)
    requires
        one_vote_each(votes),
    ensures
        one_vote_each(recorded(votes, id, granted)),
        has_voted(recorded(votes, id, granted), id),
        forall|other: NodeId|
            has_voted(recorded(votes, id, granted), other) <==> other == id || has_voted(
                votes,
                other,
            ),
{
    let after = recorded(votes, id, granted);
    if has_voted(votes, id) {
        let k = choose|i: int| 0 <= i < votes.len() && (#[trigger] votes[i]).id == id;
        assert(after[k].id == id);
        assert forall|other: NodeId| has_voted(after, other) implies other == id || has_voted(
            votes,
            other,
        ) by {
            let i = choose|i: int| 0 <= i < after.len() && (#[trigger] after[i]).id == other;
            assert(votes[i].id == other);
        }
        assert forall|other: NodeId| other == id || has_voted(votes, other) implies has_voted(
            after,
            other,
        ) by {
            if other != id {
                let i = choose|i: int| 0 <= i < votes.len() && (#[trigger] votes[i]).id == other;
                assert(after[i].id == other);
            }
        }
    } else {
        assert(after[votes.len() as int].id == id);
        assert forall|other: NodeId| has_voted(after, other) implies other == id || has_voted(
            votes,
            other,
        ) by {
            let i = choose|i: int| 0 <= i < after.len() && (#[trigger] after[i]).id == other;
            if i < votes.len() {
                assert(votes[i].id == other);
            }
        }
        assert forall|other: NodeId| other == id || has_voted(votes, other) implies has_voted(
            after,
            other,
        ) by {
            if other != id {
                let i = choose|i: int| 0 <= i < votes.len() && (#[trigger] votes[i]).id == other;
                assert(after[i].id == other);
            }
        }
    }
}

/// The votes cast in one election, and when the election times out.
#[derive(Debug)]
pub struct Election {
    /// The answers received so far, in the order in which the nodes first
    /// answered.
    pub votes: Vec<Vote>,
    /// The time at which the candidate gives this election up.
    pub deadline: u64,
}

impl Election {
    /// An election without votes that times out at `deadline`.
    pub fn new(deadline: u64) -> (election: Election)
        ensures
            election.votes@ == Seq::<Vote>::empty(),
            election.deadline == deadline,
    {
        Election { votes: Vec::new(), deadline }
    }

    /// Forgets all votes.
    pub fn reset(&mut self)
        ensures
            final(self).votes@ == Seq::<Vote>::empty(),
            final(self).deadline == old(self).deadline,
    {
        self.votes.clear();
    }

    /// Records the answer of node `id`.
    pub fn vote(&mut self, id: NodeId, granted: bool)
        ensures
            final(self).votes@ == recorded(old(self).votes@, id, granted),
            final(self).deadline == old(self).deadline,
    {
        let answer = Vote { id, granted };
        let mut found = false;
        let mut i: usize = 0;
        while i < self.votes.len()
            invariant
                i <= self.votes.len(),
                self.votes.len() == old(self).votes.len(),
                self.deadline == old(self).deadline,
                answer == (Vote { id, granted }),
                found <==> exists|k: int| 0 <= k < i && (#[trigger] old(self).votes@[k]).id == id,
                forall|k: int|
                    0 <= k < i ==> #[trigger] self.votes@[k] == if old(self).votes@[k].id == id {
                        answer
                    } else {
                        old(self).votes@[k]
                    },
                forall|k: int|
                    i <= k < self.votes.len() ==> #[trigger] self.votes@[k] == old(self).votes@[k],
            decreases self.votes.len() - i,
        {
            if self.votes[i].id == id {
                self.votes.set(i, answer);
                found = true;
            }
            i += 1;
        }
        if !found {
            self.votes.push(answer);
        }
        assert(self.votes@ =~= recorded(old(self).votes@, id, granted));
    }

    /// Whether no node has two answers among the votes.
    pub fn one_vote_each(&self) -> (yes: bool)
        ensures
            yes == one_vote_each(self.votes@),
    {
        let mut j: usize = 0;
        while j < self.votes.len()
            invariant
                j <= self.votes.len(),
                forall|a: int, b: int|
                    0 <= a < b < j ==> (#[trigger] self.votes@[a]).id != (
                    #[trigger] self.votes@[b]).id,
            decreases self.votes.len() - j,
        {
            let mut i: usize = 0;
            while i < j
                invariant
                    i <= j < self.votes.len(),
                    forall|a: int|
                        0 <= a < i ==> (#[trigger] self.votes@[a]).id != self.votes@[j as int].id,
                decreases j - i,
            {
                if self.votes[i].id == self.votes[j].id {
                    return false;
                }
                i += 1;
            }
            j += 1;
        }
        true
    }

    /// How many votes are granted.
    pub fn granted(&self) -> (count: usize)
        ensures
            count == granted(self.votes@),
            count <= self.votes.len(),
    {
        let mut count: usize = 0;
        let mut i: usize = 0;
        while i < self.votes.len()
            invariant
                i <= self.votes.len(),
                count == granted(self.votes@.take(i as int)),
                count <= i,
            decreases self.votes.len() - i,
        {
            assert(self.votes@.take(i + 1).drop_last() =~= self.votes@.take(i as int));
            if self.votes[i].granted {
                count += 1;
            }
            i += 1;
        }
        assert(self.votes@.take(i as int) =~= self.votes@);
        count
    }

    /// How the election stands in a cluster of `total` nodes.
    pub fn election_status(&self, total: usize) -> (s: ElectionStatus)
        ensures
            s == status(self.votes@, total as nat),
    {
        let yes = self.granted();
        let no = self.votes.len() - yes;
        let quorum = majority(total);
        if yes >= quorum {
            ElectionStatus::Elected
        } else if no > total || total - no < quorum {
            ElectionStatus::Defeated
        } else {
            ElectionStatus::Voting
        }
    }
}

} // verus!
