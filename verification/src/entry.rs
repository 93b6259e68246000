//! Log entries and their byte encoding.

use vstd::prelude::*;
use vstd::bytes::{
    lemma_auto_spec_u64_to_from_le_bytes, spec_u64_from_le_bytes, spec_u64_to_le_bytes,
    u64_from_le_bytes, u64_to_le_bytes,
};
use vstd::slice::slice_subrange;

verus! {

/// An id that uniquely identifies a node within its cluster.
pub type NodeId = u32;

/// An entry in the replicated log.
#[derive(Debug, PartialEq, Eq)]
pub struct Entry {
    /// The term in which a leader created the entry.
    pub term: u64,
    /// The position of the entry in the log; the first entry has index 1.
    pub index: u64,
    /// The payload, opaque to the log.
    pub data: Vec<u8>,
}

/// The mathematical value of an [`Entry`].
pub struct EntrySpec {
    pub term: u64,
    pub index: u64,
    pub data: Seq<u8>,
}

impl View for Entry {
    type V = EntrySpec;

    open spec fn view(&self) -> EntrySpec {
        EntrySpec { term: self.term, index: self.index, data: self.data@ }
    }
}

/// The values of a sequence of entries, in order.
pub open spec fn view_of(entries: Seq<Entry>) -> Seq<EntrySpec> {
    entries.map_values(|e: Entry| e@)
}

impl Clone for Entry {
    fn clone(&self) -> (copy: Entry)
        ensures
            copy@ == self@,
    {
        Entry { term: self.term, index: self.index, data: self.data.clone() }
    }
}

/// Copies `entries[from..]`.
pub fn clone_from(entries: &Vec<Entry>, from: usize) -> (copy: Vec<Entry>)
    requires
        from <= entries.len(),
    ensures
        view_of(copy@) == view_of(entries@).skip(from as int),
{
    let mut copy: Vec<Entry> = Vec::new();
    let mut i: usize = from;
    while i < entries.len()
        invariant
            from <= i <= entries.len(),
            copy@.len() == i - from,
            forall|k: int| 0 <= k < copy@.len() ==> (#[trigger] copy@[k])@ == entries@[from + k]@,
        decreases entries.len() - i,
    {
        let entry = entries[i].clone();
        copy.push(entry);
        i += 1;
    }
    assert(view_of(copy@) =~= view_of(entries@).skip(from as int));
    copy
}

/// The number of bytes that precede the payload in an encoded entry.
pub const HEADER_LEN: usize = 16;

/// The bytes that stand for an entry: term and index, each as eight
/// little-endian bytes, then the payload.
pub open spec fn encoding(e: EntrySpec) -> Seq<u8> {
    spec_u64_to_le_bytes(e.term) + spec_u64_to_le_bytes(e.index) + e.data
}

/// The entry that `bytes` stand for, if they are long enough to hold one.
pub open spec fn decoding(bytes: Seq<u8>) -> Option<EntrySpec> {
    if bytes.len() < HEADER_LEN {
        None
    } else {
        Some(
            EntrySpec {
                term: spec_u64_from_le_bytes(bytes.subrange(0, 8)),
                index: spec_u64_from_le_bytes(bytes.subrange(8, 16)),
                data: bytes.skip(16),
            },
        )
    }
}

/// Decoding the encoding of an entry gives the entry back: term, index and
/// payload are preserved.
pub proof fn encoding_round_trip(e: EntrySpec)
    ensures
        decoding(encoding(e)) == Some(e),
{
    lemma_auto_spec_u64_to_from_le_bytes();
    let bytes = encoding(e);
    assert(bytes.subrange(0, 8) == spec_u64_to_le_bytes(e.term));
    assert(bytes.subrange(8, 16) == spec_u64_to_le_bytes(e.index));
    assert(bytes.skip(16) == e.data);
}

/// Encoding what sixteen or more bytes decode to gives the bytes back.
pub proof fn decoding_round_trip(bytes: Seq<u8>)
    requires
        bytes.len() >= HEADER_LEN,
    ensures
        encoding(decoding(bytes).unwrap()) == bytes,
{
    lemma_auto_spec_u64_to_from_le_bytes();
    let e = decoding(bytes).unwrap();
    assert(spec_u64_to_le_bytes(e.term) == bytes.subrange(0, 8));
    assert(spec_u64_to_le_bytes(e.index) == bytes.subrange(8, 16));
    assert(encoding(e) == bytes);
}

impl Entry {
    /// Serializes the entry.
    pub fn encode(&self) -> (bytes: Vec<u8>)
        ensures
            bytes@ == encoding(self@),
    {
        let mut bytes = u64_to_le_bytes(self.term);
        let mut index = u64_to_le_bytes(self.index);
        bytes.append(&mut index);
        let mut data = self.data.clone();
        bytes.append(&mut data);
        bytes
    }

    /// Reads back an entry that [`Entry::encode`] wrote.
    pub fn decode(bytes: &Vec<u8>) -> (entry: Option<Entry>)
        ensures
            match entry {
                Some(e) => decoding(bytes@) == Some(e@),
                None => decoding(bytes@).is_none(),
            },
    {
        if bytes.len() < HEADER_LEN {
            return None;
        }
        let all = bytes.as_slice();
        let term = u64_from_le_bytes(slice_subrange(all, 0, 8));
        let index = u64_from_le_bytes(slice_subrange(all, 8, 16));
        let mut data: Vec<u8> = Vec::new();
        let mut i: usize = HEADER_LEN;
        while i < bytes.len()
            invariant
                HEADER_LEN <= i <= bytes.len(),
                data@ == bytes@.subrange(HEADER_LEN as int, i as int),
            decreases bytes.len() - i,
        {
            data.push(bytes[i]);
            i += 1;
        }
        Some(Entry { term, index, data })
    }
}

} // verus!
