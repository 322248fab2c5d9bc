//! The cached database: blobs in the blob store, the most used ones also in memory.

use crate::cache::{after_delete, after_load, after_save, resynced, Cache};
use crate::error::DBError;
use vstd::prelude::*;

verus! {

/// A database whose most used values are also held in memory. The values, one
/// encoded blob per key, live in a blob store that the caller hands in as closures.
pub struct CachedDB {
    location: String,
    cache: Cache,
}

impl CachedDB {
    /// The root of the blob store.
    pub closed spec fn root(&self) -> Seq<char> {
        self.location@
    }

    /// The usage counters and cached blobs.
    pub closed spec fn state(&self) -> Cache {
        self.cache
    }

    pub closed spec fn wf(&self) -> bool {
        self.cache.wf()
    }

    pub fn new(location: &str, cache_limit: Option<usize>, resync_every: u16) -> (r: Self)
        ensures
            r.wf(),
            r.root() == location@,
            r.state().count@ == Map::<Seq<char>, u64>::empty(),
            r.state().content@ == Map::<Seq<char>, Seq<u8>>::empty(),
            r.state().limit == cache_limit,
            r.state().when_to_sync == resync_every,
            r.state().timer == 0,
            !r.state().full,
    {
        CachedDB { location: location.to_owned(), cache: Cache::new(cache_limit, resync_every) }
    }

    /// Whether `key` is held in the cache.
    pub fn is_cached(&self, key: &str) -> (r: bool)
        ensures
            r == self.state().content@.contains_key(key@),
    {
        self.cache.lookup(key).is_some()
    }

    /// The usage counter of `key`, if it is tracked.
    pub fn uses(&self, key: &str) -> (r: Option<u64>)
        ensures
            r == (if self.state().count@.contains_key(key@) {
                Some(self.state().count@[key@])
            } else {
                None::<u64>
            }),
    {
        self.cache.count.get(key)
    }

    /// The root of the blob store.
    pub fn location(&self) -> (r: &str)
        ensures
            r@ == self.root(),
    {
        self.location.as_str()
    }

    /// Saves the encoded value `bytes` under `key`: `write` stores it in the blob
    /// store first, and only when that succeeds is the key tracked and cached.
    /// A failed write is handed back with nothing changed.
    pub fn save_encoded<W: Fn(&str, &Vec<u8>) -> Result<(), DBError>>(
        &mut self,
        key: &str,
        bytes: Vec<u8>,
        write: &W,
    ) -> (r: Result<(), DBError>)
        requires
            old(self).wf(),
            forall|s: &str, b: &Vec<u8>| #[trigger] write.requires((s, b)),
        ensures
            final(self).wf(),
            final(self).state().within_capacity(),
            write.ensures((key, &bytes), r),
            final(self).root() == old(self).root(),
            r is Err ==> *final(self) == *old(self),
            r is Ok ==> after_save(old(self).state(), key@, bytes@, final(self).state()),
    {
        let written = write(key, &bytes);
        if written.is_ok() {
            self.cache.record_save(key, bytes);
        }
        written
    }
    /// Loads the encoded value of `key`: from the cache when it holds the key,
    /// else through `read` from the blob store. Every load is counted, and once
    /// the resync interval has passed the cache is refreshed first.
    pub fn load_encoded<R: Fn(&str) -> Result<Vec<u8>, DBError>>(&mut self, key: &str, read: &R) -> (r:
        Result<Vec<u8>, DBError>)
        requires
            old(self).wf(),
            forall|s: &str| #[trigger] read.requires((s,)),
        ensures
            final(self).wf(),
            final(self).state().within_capacity(),
            final(self).root() == old(self).root(),
            after_load(*read, old(self).state(), key, final(self).state(), r),
    {
        self.cache.fetch(key, read)
    }

    /// Deletes `key`: forgets its counter and cached blob, then removes its blob
    /// through `remove`. The key is forgotten whether or not the removal
    /// succeeds; its outcome is handed back.
    pub fn delete_with<D: Fn(&str) -> Result<(), DBError>>(&mut self, key: &str, remove: &D) -> (r:
        Result<(), DBError>)
        requires
            old(self).wf(),
            forall|s: &str| #[trigger] remove.requires((s,)),
        ensures
            final(self).wf(),
            final(self).state().within_capacity(),
            final(self).root() == old(self).root(),
            after_delete(old(self).state(), key@, final(self).state()),
            remove.ensures((key,), r),
    {
        self.cache.forget(key);
        remove(key)
    }

    /// Refreshes the cache now: the most used keys, up to the capacity, are
    /// cached, read through `read` where not cached already, and all others leave.
    pub fn resync<R: Fn(&str) -> Result<Vec<u8>, DBError>>(&mut self, read: &R)
        requires
            old(self).wf(),
            forall|s: &str| #[trigger] read.requires((s,)),
        ensures
            final(self).wf(),
            final(self).state().within_capacity(),
            final(self).root() == old(self).root(),
            final(self).state().count@ == old(self).state().count@,
            resynced(
                *read,
                old(self).state().count@,
                old(self).state().limit,
                old(self).state().content@,
                final(self).state().content@,
            ),
            final(self).state().timer == old(self).state().timer,
            final(self).state().when_to_sync == old(self).state().when_to_sync,
            final(self).state().limit == old(self).state().limit,
            final(self).state().full == old(self).state().full,
    {
        self.cache.refresh(read);
    }
}

} // verus!
