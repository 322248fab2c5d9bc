//! A key/value store that keeps each value as one encoded blob per key, with an
//! optional usage-weighted cache and an optional in-memory secondary index.
//!
//! The library holds the bookkeeping: usage counters, the cache and its periodic
//! top-N refresh, and the index. The blob store (reading, writing and removing one
//! blob per key) is handed in by the caller as closures, and values arrive already
//! encoded.

pub mod cache;
pub mod cached;
pub mod error;
pub mod index;
pub mod indexed;
pub mod rank;
pub mod simple;
pub mod table;
pub mod usage;

pub use cached::CachedDB;
pub use error::{DBError, ErrorKind, TimeOfDay};
pub use indexed::IndexedDB;
pub use simple::SimpleDB;

use vstd::prelude::*;

verus! {

/// A simple database rooted at `location`.
pub fn new(location: &str) -> (r: SimpleDB)
    ensures
        r.root() == location@,
{
    SimpleDB::new(location)
}

/// A cached database rooted at `location` that keeps up to `cache` of its most
/// used values in memory (all of them without a capacity), refreshing that choice
/// once every `resync_every` loads.
pub fn new_cached(location: &str, cache: Option<usize>, resync_every: u16) -> (r: CachedDB)
    ensures
        r.wf(),
        r.root() == location@,
        r.state().count@ == Map::<Seq<char>, u64>::empty(),
        r.state().content@ == Map::<Seq<char>, Seq<u8>>::empty(),
        r.state().limit == cache,
        r.state().when_to_sync == resync_every,
        r.state().timer == 0,
        !r.state().full,
{
    CachedDB::new(location, cache, resync_every)
}

/// A cached database rooted at `location` with an empty secondary index of
/// records of type `I`.
pub fn new_indexed<I>(location: &str, cache: Option<usize>, resync_every: u16) -> (r: IndexedDB<I>)
    ensures
        r.wf(),
        r.root() == location@,
        r.records() == Map::<Seq<char>, I>::empty(),
        r.state().count@ == Map::<Seq<char>, u64>::empty(),
        r.state().content@ == Map::<Seq<char>, Seq<u8>>::empty(),
        r.state().limit == cache,
        r.state().when_to_sync == resync_every,
        r.state().timer == 0,
        !r.state().full,
{
    IndexedDB::new(location, cache, resync_every)
}

} // verus!
