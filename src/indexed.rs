//! The indexed database: a cached database that also holds one caller-defined
//! record per key, kept in memory and mirrored to durable storage.

use crate::cache::{after_delete, after_load, after_save, lemma_delete_idempotent, resynced, Cache};
use crate::error::{DBError, ErrorKind};
use crate::index::{found_by, Index};
use crate::table::key_views;
use vstd::prelude::*;

verus! {

/// A cached database with a secondary index of records of type `T`. Values and
/// index records live in a blob store that the caller hands in as closures.
pub struct IndexedDB<T> {
    location: String,
    index: Index<T>,
    cache: Cache,
}

/// Idempotent delete of the indexed database: deleting the same key twice leaves
/// the counters, the cache and the index records as deleting it once did, and
/// deleting a key that is neither tracked, cached nor indexed changes none of them.
pub proof fn lemma_indexed_delete_idempotent<T>(
    first: IndexedDB<T>,
    key: Seq<char>,
    once: IndexedDB<T>,
    twice: IndexedDB<T>,
)
    requires
        after_delete(first.state(), key, once.state()),
        once.records() == first.records().remove(key),
        after_delete(once.state(), key, twice.state()),
        twice.records() == once.records().remove(key),
    ensures
        twice.state().count@ == once.state().count@,
        twice.state().content@ == once.state().content@,
        twice.state().timer == once.state().timer,
        twice.state().full == once.state().full,
        twice.records() == once.records(),
        !first.state().count@.contains_key(key) && !first.state().content@.contains_key(key)
            && !first.records().contains_key(key) ==> {
            &&& once.state().count@ == first.state().count@
            &&& once.state().content@ == first.state().content@
            &&& once.records() == first.records()
        },
{
    lemma_delete_idempotent(first.state(), key, once.state(), twice.state());
    assert(once.records().remove(key) =~= once.records());
    if !first.records().contains_key(key) {
        assert(first.records().remove(key) =~= first.records());
    }
}

impl<T> IndexedDB<T> {
    /// The root of the blob store.
    pub closed spec fn root(&self) -> Seq<char> {
        self.location@
    }

    /// The usage counters and cached blobs.
    pub closed spec fn state(&self) -> Cache {
        self.cache
    }

    /// The index records, by key.
    pub closed spec fn records(&self) -> Map<Seq<char>, T> {
        self.index@
    }

    pub closed spec fn wf(&self) -> bool {
        self.cache.wf() && self.index.wf()
    }

    /// A database with an empty cache and an empty index.
    pub fn new(location: &str, cache_limit: Option<usize>, resync_every: u16) -> (r: Self)
        ensures
            r.wf(),
            r.root() == location@,
            r.records() == Map::<Seq<char>, T>::empty(),
            r.state().count@ == Map::<Seq<char>, u64>::empty(),
            r.state().content@ == Map::<Seq<char>, Seq<u8>>::empty(),
            r.state().limit == cache_limit,
            r.state().when_to_sync == resync_every,
            r.state().timer == 0,
            !r.state().full,
    {
        IndexedDB {
            location: location.to_owned(),
            index: Index::new(),
            cache: Cache::new(cache_limit, resync_every),
        }
    }

    /// Whether `key` is held in the cache.
    pub fn is_cached(&self, key: &str) -> (r: bool)
        ensures
            r == self.state().content@.contains_key(key@),
    {
        self.cache.lookup(key).is_some()
    }

    /// The usage counter of `key`, if it is tracked.
    pub fn uses(&self, key: &str) -> (r: Option<u64>)
        ensures
            r == (if self.state().count@.contains_key(key@) {
                Some(self.state().count@[key@])
            } else {
                None::<u64>
            }),
    {
        self.cache.count.get(key)
    }

    /// The root of the blob store.
    pub fn location(&self) -> (r: &str)
        ensures
            r@ == self.root(),
    {
        self.location.as_str()
    }

    /// Puts a record read back from durable storage into memory, replacing any
    /// record the key had. Nothing is written.
    pub fn attach_loaded(&mut self, key: &str, record: T)
        requires
            old(self).wf(),
        ensures
            final(self).wf(),
            final(self).root() == old(self).root(),
            final(self).state() == old(self).state(),
            final(self).records() == old(self).records().insert(key@, record),
    {
        self.index.attach(key, record);
    }

    /// Saves the encoded value `bytes` under `key`: `write` stores it in the blob
    /// store first, and only when that succeeds is the key tracked and cached.
    pub fn save_encoded<W: Fn(&str, &Vec<u8>) -> Result<(), DBError>>(
        &mut self,
        key: &str,
        bytes: Vec<u8>,
        write: &W,
    ) -> (r: Result<(), DBError>)
        requires
            old(self).wf(),
            forall|s: &str, b: &Vec<u8>| #[trigger] write.requires((s, b)),
        ensures
            final(self).wf(),
            final(self).state().within_capacity(),
            write.ensures((key, &bytes), r),
            final(self).root() == old(self).root(),
            final(self).records() == old(self).records(),
            r is Err ==> *final(self) == *old(self),
            r is Ok ==> after_save(old(self).state(), key@, bytes@, final(self).state()),
    {
        let written = write(key, &bytes);
        if written.is_ok() {
            self.cache.record_save(key, bytes);
        }
        written
    }

    /// Loads the encoded value of `key`, from the cache when it holds the key,
    /// else through `read`; counts the load, refreshing the cache first once the
    /// resync interval has passed.
    pub fn load_encoded<R: Fn(&str) -> Result<Vec<u8>, DBError>>(&mut self, key: &str, read: &R) -> (r:
        Result<Vec<u8>, DBError>)
        requires
            old(self).wf(),
            forall|s: &str| #[trigger] read.requires((s,)),
        ensures
            final(self).wf(),
            final(self).state().within_capacity(),
            final(self).root() == old(self).root(),
            final(self).records() == old(self).records(),
            after_load(*read, old(self).state(), key, final(self).state(), r),
    {
        self.cache.fetch(key, read)
    }

    /// Refreshes the cache now, as `CachedDB::resync` does.
    pub fn resync<R: Fn(&str) -> Result<Vec<u8>, DBError>>(&mut self, read: &R)
        requires
            old(self).wf(),
            forall|s: &str| #[trigger] read.requires((s,)),
        ensures
            final(self).wf(),
            final(self).state().within_capacity(),
            final(self).root() == old(self).root(),
            final(self).records() == old(self).records(),
            final(self).state().count@ == old(self).state().count@,
            resynced(
                *read,
                old(self).state().count@,
                old(self).state().limit,
                old(self).state().content@,
                final(self).state().content@,
            ),
            final(self).state().timer == old(self).state().timer,
            final(self).state().when_to_sync == old(self).state().when_to_sync,
            final(self).state().limit == old(self).state().limit,
            final(self).state().full == old(self).state().full,
    {
        self.cache.refresh(read);
    }

    /// Attaches `index` to `key`: written through `write_index` first, then held
    /// in memory. An empty key is an index error, with nothing written.
    pub fn add_index<X: Fn(&str, &T) -> Result<(), DBError>>(
        &mut self,
        key: &str,
        index: T,
        write_index: &X,
    ) -> (r: Result<(), DBError>)
        requires
            old(self).wf(),
            forall|s: &str, t: &T| #[trigger] write_index.requires((s, t)),
        ensures
            final(self).wf(),
            final(self).root() == old(self).root(),
            final(self).state() == old(self).state(),
            key@.len() == 0 ==> (match r {
                Ok(_) => false,
                Err(e) => e.kind == ErrorKind::Index,
            }) && final(self).records() == old(self).records(),
            key@.len() > 0 ==> write_index.ensures((key, &index), r),
            key@.len() > 0 && r is Ok ==> final(self).records() == old(self).records().insert(
                key@,
                index,
            ),
            r is Err ==> final(self).records() == old(self).records(),
    {
        if key.is_empty() {
            return Err(DBError::index("Empty key"));
        }
        let written = write_index(key, &index);
        if written.is_ok() {
            self.index.attach(key, index);
        }
        written
    }

    /// Saves the encoded value `bytes` under `key` as `save_encoded` does, then
    /// attaches `index` to it as `add_index` does. An empty key is an index
    /// error, with nothing written and nothing changed.
    pub fn save_with_index<W: Fn(&str, &Vec<u8>) -> Result<(), DBError>, X: Fn(&str, &T) -> Result<
        (),
        DBError,
    >>(&mut self, key: &str, bytes: Vec<u8>, index: T, write: &W, write_index: &X) -> (r: Result<
        (),
        DBError,
    >)
        requires
            old(self).wf(),
            forall|s: &str, b: &Vec<u8>| #[trigger] write.requires((s, b)),
            forall|s: &str, t: &T| #[trigger] write_index.requires((s, t)),
        ensures
            final(self).wf(),
            final(self).root() == old(self).root(),
            key@.len() == 0 ==> (match r {
                Ok(_) => false,
                Err(e) => e.kind == ErrorKind::Index,
            }) && *final(self) == *old(self),
            key@.len() > 0 ==> {
                ||| write.ensures((key, &bytes), r) && r is Err && *final(self) == *old(self)
                ||| {
                    &&& write.ensures((key, &bytes), Ok(()))
                    &&& after_save(old(self).state(), key@, bytes@, final(self).state())
                    &&& write_index.ensures((key, &index), r)
                    &&& r is Ok ==> final(self).records() == old(self).records().insert(key@, index)
                    &&& r is Err ==> final(self).records() == old(self).records()
                }
            },
    {
        if key.is_empty() {
            return Err(DBError::index("Empty key"));
        }
        let saved = self.save_encoded(key, bytes, write);
        match saved {
            Err(e) => Err(e),
            Ok(unit) => {
                proof {
                    assert(saved == Ok::<(), DBError>(unit));
                }
                self.add_index(key, index, write_index)
            },
        }
    }

    /// The record attached to `key`, if any.
    pub fn get_index(&self, key: &str) -> (r: Option<&T>)
        requires
            self.wf(),
        ensures
            match r {
                Some(v) => self.records().contains_key(key@) && *v == self.records()[key@],
                None => !self.records().contains_key(key@),
            },
    {
        self.index.get(key)
    }

    /// Replaces the record of `key` by `with` of it, written through
    /// `write_index` before memory changes; on any failure the old record stays.
    /// A key without a record is an index error.
    pub fn edit_index<F: FnOnce(&T) -> T, X: Fn(&str, &T) -> Result<(), DBError>>(
        &mut self,
        key: &str,
        with: F,
        write_index: &X,
    ) -> (r: Result<(), DBError>)
        requires
            old(self).wf(),
            forall|t: &T| #[trigger] with.requires((t,)),
            forall|s: &str, t: &T| #[trigger] write_index.requires((s, t)),
        ensures
            final(self).wf(),
            final(self).root() == old(self).root(),
            final(self).state() == old(self).state(),
            !old(self).records().contains_key(key@) ==> (match r {
                Ok(_) => false,
                Err(e) => e.kind == ErrorKind::Index,
            }),
            old(self).records().contains_key(key@) ==> exists|new: T| #[trigger]
                with.ensures((&old(self).records()[key@],), new) && write_index.ensures(
                    (key, &new),
                    r,
                ) && (r is Ok ==> final(self).records() == old(self).records().insert(key@, new)),
            r is Err ==> final(self).records() == old(self).records(),
    {
        self.index.update(key, with, write_index)
    }

    /// Detaches the record of `key`: its file is removed through `remove_index`
    /// and the record leaves memory whether or not that succeeds; the removal's
    /// outcome is handed back. An empty key does nothing.
    pub fn delete_index<E: Fn(&str) -> Result<(), DBError>>(&mut self, key: &str, remove_index: &E) -> (r:
        Result<(), DBError>)
        requires
            old(self).wf(),
            forall|s: &str| #[trigger] remove_index.requires((s,)),
        ensures
            final(self).wf(),
            final(self).root() == old(self).root(),
            final(self).state() == old(self).state(),
            key@.len() == 0 ==> r is Ok && final(self).records() == old(self).records(),
            key@.len() > 0 ==> remove_index.ensures((key,), r) && final(self).records() == old(
                self,
            ).records().remove(key@),
    {
        if key.is_empty() {
            return Ok(());
        }
        let removed = remove_index(key);
        self.index.delete(key);
        removed
    }

    /// Deletes `key`: forgets its counter and cached blob, removes its blob
    /// through `remove`, and detaches its record, if it has one, as
    /// `delete_index` does. Memory forgets the key whatever the removals give;
    /// the first failed removal is handed back.
    pub fn delete_with<D: Fn(&str) -> Result<(), DBError>, E: Fn(&str) -> Result<(), DBError>>(
        &mut self,
        key: &str,
        remove: &D,
        remove_index: &E,
    ) -> (r: Result<(), DBError>)
        requires
            old(self).wf(),
            forall|s: &str| #[trigger] remove.requires((s,)),
            forall|s: &str| #[trigger] remove_index.requires((s,)),
        ensures
            final(self).wf(),
            final(self).state().within_capacity(),
            final(self).root() == old(self).root(),
            after_delete(old(self).state(), key@, final(self).state()),
            final(self).records() == old(self).records().remove(key@),
            r is Ok ==> remove.ensures((key,), Ok(())),
            r is Err ==> remove.ensures((key,), r) || (remove.ensures((key,), Ok(()))
                && remove_index.ensures((key,), r)),
            old(self).records().contains_key(key@) && key@.len() > 0 ==> exists|d: Result<
                (),
                DBError,
            >| #[trigger] remove_index.ensures((key,), d),
            r is Ok && old(self).records().contains_key(key@) && key@.len() > 0
                ==> remove_index.ensures((key,), Ok(())),
    {
        self.cache.forget(key);
        let removed = remove(key);
        let had_record = self.index.get(key).is_some();
        let detached = if had_record && !key.is_empty() {
            remove_index(key)
        } else {
            Ok(())
        };
        self.index.delete(key);
        match removed {
            Err(e) => Err(e),
            Ok(unit) => {
                proof {
                    assert(removed == Ok::<(), DBError>(unit));
                }
                match detached {
                    Ok(done) => {
                        proof {
                            assert(detached == Ok::<(), DBError>(done));
                        }
                        detached
                    },
                    Err(_) => detached,
                }
            },
        }
    }

    /// The keys whose record satisfies `apply`, each once.
    pub fn search_with<F: Fn(&T) -> bool>(&self, apply: &F) -> (r: Vec<String>)
        requires
            self.wf(),
            forall|t: &T| #[trigger] apply.requires((t,)),
        ensures
            found_by(self.records(), *apply, key_views(r@)),
    {
        self.index.search(apply)
    }
}

} // verus!
