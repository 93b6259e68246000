//! The replicated log: entries in index order, addressed from 1.
//!
//! Index 0 stands for the position before the first entry, and its term is 0.

use vstd::prelude::*;

use crate::entry::{view_of, Entry, EntrySpec};

verus! {

/// A log is well formed when its entries are numbered 1, 2, 3, ... without a
/// gap and their terms never decrease.
pub open spec fn well_formed(log: Seq<EntrySpec>) -> bool {
    &&& forall|i: int| 0 <= i < log.len() ==> (#[trigger] log[i]).index == i + 1
    &&& forall|i: int, j: int|
        0 <= i <= j < log.len() ==> (#[trigger] log[i]).term <= (#[trigger] log[j]).term
}

/// The index of the last entry, 0 for an empty log.
pub open spec fn last_index(log: Seq<EntrySpec>) -> nat {
    log.len()
}

/// The term of the entry at `index`, 0 where the log holds no such entry.
pub open spec fn term_at(log: Seq<EntrySpec>, index: int) -> u64 {
    if 1 <= index <= log.len() {
        log[index - 1].term
    } else {
        0
    }
}

/// The term of the last entry, 0 for an empty log.
pub open spec fn last_term(log: Seq<EntrySpec>) -> u64 {
    term_at(log, log.len() as int)
}

/// The entry at `index`, if the log holds one.
pub open spec fn entry_at(log: Seq<EntrySpec>, index: int) -> Option<EntrySpec> {
    if 1 <= index <= log.len() {
        Some(log[index - 1])
    } else {
        None
    }
}

/// The log without the entries at `index` and after it.
pub open spec fn truncated(log: Seq<EntrySpec>, index: int) -> Seq<EntrySpec> {
    if index <= 1 {
        Seq::empty()
    } else if index > log.len() {
        log
    } else {
        log.take(index - 1)
    }
}

/// `entries` are numbered upwards from `first` without a gap, and their terms
/// start at `floor` or above and never decrease.
pub open spec fn chained(entries: Seq<EntrySpec>, first: int, floor: u64) -> bool {
    &&& forall|k: int| 0 <= k < entries.len() ==> (#[trigger] entries[k]).index == first + k
    &&& forall|k: int| 0 <= k < entries.len() ==> floor <= (#[trigger] entries[k]).term
    &&& forall|i: int, j: int|
        0 <= i <= j < entries.len() ==> (#[trigger] entries[i]).term <= (
        #[trigger] entries[j]).term
}

/// `entries` may be appended to `log`: the result is again well formed.
pub open spec fn follows(log: Seq<EntrySpec>, entries: Seq<EntrySpec>) -> bool {
    well_formed(log + entries)
}

/// Entries follow a well-formed log exactly when they continue its numbering
/// and its terms.
pub proof fn follows_iff_chained(log: Seq<EntrySpec>, entries: Seq<EntrySpec>)
    requires
        well_formed(log),
    ensures
        follows(log, entries) <==> chained(entries, log.len() as int + 1, last_term(log)),
{
    let all = log + entries;
    if follows(log, entries) {
        assert forall|k: int| 0 <= k < entries.len() implies (#[trigger] entries[k]).index
            == log.len() + 1 + k && last_term(log) <= entries[k].term by {
            assert(all[log.len() + k] == entries[k]);
            if log.len() > 0 {
                assert(all[log.len() - 1] == log[log.len() - 1]);
            }
        }
        assert forall|i: int, j: int| 0 <= i <= j < entries.len() implies (
        #[trigger] entries[i]).term <= (#[trigger] entries[j]).term by {
            assert(all[log.len() + i] == entries[i]);
            assert(all[log.len() + j] == entries[j]);
        }
    }
    if chained(entries, log.len() as int + 1, last_term(log)) {
        assert forall|i: int, j: int| 0 <= i <= j < all.len() implies (#[trigger] all[i]).term
            <= (#[trigger] all[j]).term by {
            if j < log.len() {
            } else if i < log.len() {
                assert(log[i].term <= log[log.len() - 1].term);
                assert(last_term(log) <= entries[j - log.len()].term);
            } else {
                assert(entries[i - log.len()].term <= entries[j - log.len()].term);
            }
        }
        assert forall|i: int| 0 <= i < all.len() implies (#[trigger] all[i]).index == i + 1 by {
            if i >= log.len() {
                assert(entries[i - log.len()].index == log.len() + 1 + (i - log.len()));
            }
        }
    }
}

/// Of two entries of a well-formed log, the one with the smaller index has
/// the smaller or the same term.
pub proof fn terms_never_decrease(log: Seq<EntrySpec>, i: int, j: int)
    requires
        well_formed(log),
        0 <= i < log.len(),
        0 <= j < log.len(),
        log[i].index < log[j].index,
    ensures
        log[i].term <= log[j].term,
{
}

/// A well-formed log holds an entry at every index from 1 to its last: an
/// entry is found at the position that its index names, and nowhere else.
pub proof fn no_gap(log: Seq<EntrySpec>, index: int)
    requires
        well_formed(log),
        1 <= index <= last_index(log),
    ensures
        entry_at(log, index) is Some,
        entry_at(log, index).unwrap().index == index,
{
}

/// The in-memory log of a node.
#[derive(Debug)]
pub struct Log {
    /// The entries, the one with index 1 first.
    pub entries: Vec<Entry>,
}

impl View for Log {
    type V = Seq<EntrySpec>;

    open spec fn view(&self) -> Seq<EntrySpec> {
        view_of(self.entries@)
    }
}

impl Log {
    /// The log's invariant: see [`well_formed`].
    pub open spec fn wf(&self) -> bool {
        well_formed(self@)
    }

    /// An empty log.
    pub fn new() -> (log: Log)
        ensures
            log@ == Seq::<EntrySpec>::empty(),
            log.wf(),
    {
        Log { entries: Vec::new() }
    }

    /// The index of the last entry, 0 for an empty log.
    pub fn last_index(&self) -> (index: u64)
        ensures
            index == last_index(self@),
    {
        self.entries.len() as u64
    }

    /// The term of the last entry, 0 for an empty log.
    pub fn last_term(&self) -> (term: u64)
        ensures
            term == last_term(self@),
    {
        let len = self.entries.len();
        if len == 0 {
            0
        } else {
            self.entries[len - 1].term
        }
    }

    /// The term of the entry at `index`, 0 where there is none.
    pub fn term_at(&self, index: u64) -> (term: u64)
        ensures
            term == term_at(self@, index as int),
    {
        if index >= 1 && index <= self.entries.len() as u64 {
            self.entries[(index - 1) as usize].term
        } else {
            0
        }
    }

    /// The entry at `index`, if the log holds one.
    pub fn entry_at(&self, index: u64) -> (entry: Option<&Entry>)
        ensures
            match entry {
                Some(e) => entry_at(self@, index as int) == Some(e@),
                None => entry_at(self@, index as int).is_none(),
            },
    {
        if index >= 1 && index <= self.entries.len() as u64 {
            Some(&self.entries[(index - 1) as usize])
        } else {
            None
        }
    }

    /// Whether `entries` continue this log: the first is numbered one past
    /// the last index, the numbering has no gap, and no term is smaller than
    /// the one before it.
    pub fn follows(&self, entries: &Vec<Entry>) -> (yes: bool)
        requires
            self.wf(),
        ensures
            yes == follows(self@, view_of(entries@)),
    {
        let yes = continues(entries, self.last_index(), self.last_term());
        proof {
            follows_iff_chained(self@, view_of(entries@));
        }
        yes
    }

    /// Appends `entries`, which must continue the log.
    pub fn append(&mut self, entries: Vec<Entry>)
        requires
            old(self).wf(),
            follows(old(self)@, view_of(entries@)),
        ensures
            final(self)@ == old(self)@ + view_of(entries@),
            final(self).wf(),
    {
        let ghost added = view_of(entries@);
        let mut entries = entries;
        self.entries.append(&mut entries);
        assert(self@ =~= old(self)@ + added);
    }

    /// Removes the entry at `index` and every entry after it.
    pub fn truncate_from(&mut self, index: u64)
        requires
            old(self).wf(),
        ensures
            final(self)@ == truncated(old(self)@, index as int),
            final(self).wf(),
    {
        if index <= 1 {
            self.entries.truncate(0);
        } else if index <= self.entries.len() as u64 {
            self.entries.truncate((index - 1) as usize);
        }
        assert(self@ =~= truncated(old(self)@, index as int));
    }
}

/// Whether `entries` are numbered upwards from `after + 1` without a gap and
/// their terms start at `floor` or above and never decrease.
pub fn continues(entries: &Vec<Entry>, after: u64, floor: u64) -> (yes: bool)
    ensures
        yes == chained(view_of(entries@), after + 1, floor),
{
    let ghost es = view_of(entries@);
    let mut expected: u64 = after;
    let mut floor_now: u64 = floor;
    let mut k: usize = 0;
    while k < entries.len()
        invariant
            k <= entries.len(),
            es == view_of(entries@),
            expected == after + k,
            floor <= floor_now,
            k > 0 ==> floor_now == es[k - 1].term,
            k == 0 ==> floor_now == floor,
            chained(es.take(k as int), after + 1, floor),
        decreases entries.len() - k,
    {
        let e = &entries[k];
        if expected == u64::MAX || e.index != expected + 1 || e.term < floor_now {
            proof {
                assert(es[k as int] == e@);
                if chained(es, after + 1, floor) {
                    if k > 0 {
                        assert(es[k - 1].term <= es[k as int].term);
                    }
                }
            }
            return false;
        }
        proof {
            let next = es.take(k + 1);
            assert(es[k as int] == e@);
            assert forall|i: int| 0 <= i < next.len() implies (#[trigger] next[i]).index == after
                + 1 + i && floor <= next[i].term by {
                if i < k {
                    assert(es.take(k as int)[i] == next[i]);
                }
            }
            assert forall|i: int, j: int| 0 <= i <= j < next.len() implies (
            #[trigger] next[i]).term <= (#[trigger] next[j]).term by {
                if j < k {
                    assert(es.take(k as int)[i] == next[i]);
                    assert(es.take(k as int)[j] == next[j]);
                } else if i < k {
                    assert(es.take(k as int)[i] == next[i]);
                    assert(es.take(k as int)[k - 1] == es[k - 1]);
                    assert(es.take(k as int)[i].term <= es.take(k as int)[k - 1].term);
                }
            }
        }
        expected = expected + 1;
        floor_now = e.term;
        k += 1;
    }
    assert(es.take(k as int) =~= es);
    true
}

} // verus!
