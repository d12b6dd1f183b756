//! The offset store: how far each file has been read.

use vstd::hash_map::StringHashMap;
use vstd::prelude::*;

verus! {

/// For each path seen so far, the offset of its first unread byte. The store
/// lives as long as the process: nothing of it is written to disk.
pub struct OffsetStore {
    offsets: StringHashMap<u64>,
}

impl View for OffsetStore {
    type V = Map<Seq<char>, u64>;

    closed spec fn view(&self) -> Map<Seq<char>, u64> {
        self.offsets@
    }
}

/// The offset that `offsets` holds for `path`: 0 for a path not seen yet.
pub open spec fn offset_of(offsets: Map<Seq<char>, u64>, path: Seq<char>) -> u64 {
    if offsets.contains_key(path) {
        offsets[path]
    } else {
        0
    }
}

impl OffsetStore {
    /// A store that has seen no path.
    pub fn new() -> (store: OffsetStore)
        ensures
            store@ == Map::<Seq<char>, u64>::empty(),
    {
        OffsetStore { offsets: StringHashMap::new() }
    }

    /// The offset stored for `path`, or 0 where the path was not seen yet.
    pub fn get_offset(&self, path: &str) -> (offset: u64)
        ensures
            offset == offset_of(self@, path@),
    {
        match self.offsets.get(path) {
            Some(offset) => *offset,
            None => 0,
        }
    }

    /// Stores `new_offset` for `path`, whatever was stored before: a larger
    /// offset after a read, or 0 for a file that was truncated.
    pub fn set_offset(&mut self, path: &str, new_offset: u64)
        ensures
            final(self)@ == old(self)@.insert(path@, new_offset),
    {
        self.offsets.insert(path.to_owned(), new_offset);
    }
}

} // verus!
