//! A raw LevelDB record, as the IndexedDB and Local Storage readers see it.

use vstd::prelude::*;

verus! {

/// One raw LevelDB record: its user key, its value, the sequence number that
/// orders it against every other write, and whether it is a deletion
/// tombstone.
#[derive(Debug, Clone, PartialEq, Eq)]
pub struct Record {
    /// The user key (the internal-key trailer already stripped).
    pub key: Vec<u8>,
    /// The value bytes; empty for a deletion tombstone.
    pub value: Vec<u8>,
    /// The global sequence number of this write.
    pub seq: u64,
    /// `true` if this record is a deletion tombstone.
    pub deleted: bool,
}

} // verus!
