//! The cache: usage counters, the blobs held in memory, and the periodic refresh
//! that keeps the most used keys cached.

use crate::error::DBError;
use crate::rank::{kept_count, rank_top};
use crate::table::{key_views, CacheContent, CacheCount};
use crate::usage::accessed;
use vstd::prelude::*;

verus! {

/// `sel` holds the `kept_count(limit, counts.len())` keys with the largest counters:
/// no key left out has a larger counter than one taken. Ties may fall either way.
pub open spec fn is_top_selection(
    counts: Map<Seq<char>, u64>,
    limit: Option<usize>,
    sel: Set<Seq<char>>,
) -> bool {
    &&& sel.finite()
    &&& sel.subset_of(counts.dom())
    &&& sel.len() == kept_count(limit, counts.len())
    &&& forall|a: Seq<char>, b: Seq<char>|
        #![trigger sel.contains(a), sel.contains(b)]
        sel.contains(a) && counts.contains_key(b) && !sel.contains(b) ==> counts[a] >= counts[b]
}

/// Some call of `read` on `key` gave back `r`.
pub open spec fn read_gave<R: Fn(&str) -> Result<Vec<u8>, DBError>>(
    read: R,
    key: Seq<char>,
    r: Result<Vec<u8>, DBError>,
) -> bool {
    exists|s: &str| s@ == key && #[trigger] read.ensures((s,), r)
}

/// Some call of `read` on `key` gave back exactly `bytes`.
pub open spec fn read_gave_bytes<R: Fn(&str) -> Result<Vec<u8>, DBError>>(
    read: R,
    key: Seq<char>,
    bytes: Seq<u8>,
) -> bool {
    exists|b: Vec<u8>| b@ == bytes && #[trigger] read_gave(read, key, Ok(b))
}

/// Some call of `read` on `key` failed.
pub open spec fn read_failed<R: Fn(&str) -> Result<Vec<u8>, DBError>>(
    read: R,
    key: Seq<char>,
) -> bool {
    exists|e: DBError| #[trigger] read_gave(read, key, Err(e))
}

/// `after` is what refreshing the cached blobs `before` toward the keys `sel`
/// leaves: only keys of `sel`; those already cached keep their blob untouched;
/// the others hold what the blob store gave back, or are absent where reading failed.
pub open spec fn refreshed_to<R: Fn(&str) -> Result<Vec<u8>, DBError>>(
    read: R,
    sel: Set<Seq<char>>,
    before: Map<Seq<char>, Seq<u8>>,
    after: Map<Seq<char>, Seq<u8>>,
) -> bool {
    &&& after.dom().subset_of(sel)
    &&& forall|k: Seq<char>|
        #![trigger sel.contains(k)]
        sel.contains(k) && before.contains_key(k) ==> after.contains_key(k) && after[k] == before[k]
    &&& forall|k: Seq<char>|
        #![trigger after.contains_key(k)]
        after.contains_key(k) && !before.contains_key(k) ==> read_gave_bytes(read, k, after[k])
    &&& forall|k: Seq<char>|
        #![trigger sel.contains(k)]
        sel.contains(k) && !after.contains_key(k) ==> read_failed(read, k)
}

/// On equal counters, a key that was cached in `before` is never left out of `sel`
/// for one that was not.
pub open spec fn keeps_cached_on_ties(
    counts: Map<Seq<char>, u64>,
    before: Map<Seq<char>, Seq<u8>>,
    sel: Set<Seq<char>>,
) -> bool {
    forall|a: Seq<char>, b: Seq<char>|
        #![trigger sel.contains(a), sel.contains(b)]
        sel.contains(a) && counts.contains_key(b) && !sel.contains(b) && counts[a] == counts[b]
            ==> before.contains_key(a) || !before.contains_key(b)
}

/// A refresh of `before` under the counters `counts` and capacity `limit` gave `after`.
pub open spec fn resynced<R: Fn(&str) -> Result<Vec<u8>, DBError>>(
    read: R,
    counts: Map<Seq<char>, u64>,
    limit: Option<usize>,
    before: Map<Seq<char>, Seq<u8>>,
    after: Map<Seq<char>, Seq<u8>>,
) -> bool {
    exists|sel: Set<Seq<char>>|
        is_top_selection(counts, limit, sel) && keeps_cached_on_ties(counts, before, sel)
            && #[trigger] refreshed_to(read, sel, before, after)
}

/// `after` is `before` once `bytes` has been saved under `key`.
pub open spec fn after_save(before: Cache, key: Seq<char>, bytes: Seq<u8>, after: Cache) -> bool {
    &&& after.wf()
    &&& after.count@ == before.count@.insert(key, 0)
    &&& after.content@ == before.saved_content(key, bytes)
    &&& after.full == before.saved_full(key)
    &&& after.timer == before.timer
    &&& after.when_to_sync == before.when_to_sync
    &&& after.limit == before.limit
}

/// `after` is `before` once `key` has been forgotten.
pub open spec fn after_delete(before: Cache, key: Seq<char>, after: Cache) -> bool {
    &&& after.wf()
    &&& after.count@ == before.count@.remove(key)
    &&& after.content@ == before.content@.remove(key)
    &&& after.timer == before.timer
    &&& after.when_to_sync == before.when_to_sync
    &&& after.limit == before.limit
    &&& after.full == before.full
}

/// `after` is `before` once `key` has been loaded with answer `r`, reading from
/// the blob store with `read`.
pub open spec fn after_load<R: Fn(&str) -> Result<Vec<u8>, DBError>>(
    read: R,
    before: Cache,
    key: &str,
    after: Cache,
    r: Result<Vec<u8>, DBError>,
) -> bool {
    &&& after.wf()
    &&& after.count@ == accessed(before.count@, key@)
    &&& after.when_to_sync == before.when_to_sync
    &&& after.limit == before.limit
    &&& before.timer > before.when_to_sync ==> {
        &&& after.timer == 1
        &&& after.full
        &&& resynced(read, before.count@, before.limit, before.content@, after.content@)
    }
    &&& before.timer <= before.when_to_sync ==> {
        &&& after.timer == before.timer + 1
        &&& after.full == before.full
        &&& after.content@ == before.content@
    }
    &&& after.content@.contains_key(key@) ==> (match r {
        Ok(b) => b@ == after.content@[key@],
        Err(_) => false,
    })
    &&& !after.content@.contains_key(key@) ==> read.ensures((key,), r)
}

/// `read` reads the blob store `store`: a key it holds gives back its blob, any
/// other key fails.
pub open spec fn reads_from<R: Fn(&str) -> Result<Vec<u8>, DBError>>(
    read: R,
    store: Map<Seq<char>, Seq<u8>>,
) -> bool {
    forall|s: &str, r: Result<Vec<u8>, DBError>|
        #[trigger] read.ensures((s,), r) ==> if store.contains_key(s@) {
            r matches Ok(b) && b@ == store[s@]
        } else {
            r is Err
        }
}

/// Every cached blob is the blob the store holds for its key.
pub open spec fn coherent(content: Map<Seq<char>, Seq<u8>>, store: Map<Seq<char>, Seq<u8>>) -> bool {
    forall|k: Seq<char>| #[trigger]
        content.contains_key(k) ==> store.contains_key(k) && content[k] == store[k]
}

/// A refresh that reads from `store` keeps the cache coherent with it.
pub proof fn lemma_resync_keeps_coherence<R: Fn(&str) -> Result<Vec<u8>, DBError>>(
    read: R,
    store: Map<Seq<char>, Seq<u8>>,
    counts: Map<Seq<char>, u64>,
    limit: Option<usize>,
    before: Map<Seq<char>, Seq<u8>>,
    after: Map<Seq<char>, Seq<u8>>,
)
    requires
        reads_from(read, store),
        coherent(before, store),
        resynced(read, counts, limit, before, after),
    ensures
        coherent(after, store),
{
    let sel = choose|sel: Set<Seq<char>>|
        is_top_selection(counts, limit, sel) && keeps_cached_on_ties(counts, before, sel)
            && #[trigger] refreshed_to(read, sel, before, after);
    assert forall|k: Seq<char>| #[trigger] after.contains_key(k) implies store.contains_key(k)
        && after[k] == store[k] by {
        if !before.contains_key(k) {
            assert(read_gave_bytes(read, k, after[k]));
            let b = choose|b: Vec<u8>| b@ == after[k] && #[trigger] read_gave(read, k, Ok(b));
            let s = choose|s: &str| s@ == k && #[trigger] read.ensures((s,), Ok(b));
        } else {
            assert(sel.contains(k));
        }
    }
}

/// A save keeps the cache coherent with the store once the store holds the saved
/// blob under its key.
pub proof fn lemma_save_keeps_coherence(
    store: Map<Seq<char>, Seq<u8>>,
    before: Cache,
    key: Seq<char>,
    bytes: Seq<u8>,
    after: Cache,
)
    requires
        coherent(before.content@, store),
        after_save(before, key, bytes, after),
    ensures
        coherent(after.content@, store.insert(key, bytes)),
{
}

/// A delete keeps the cache coherent with the store once the store has dropped
/// the key.
pub proof fn lemma_delete_keeps_coherence(
    store: Map<Seq<char>, Seq<u8>>,
    before: Cache,
    key: Seq<char>,
    after: Cache,
)
    requires
        coherent(before.content@, store),
        after_delete(before, key, after),
    ensures
        coherent(after.content@, store.remove(key)),
{
}

/// Cache transparency: whether or not `key` is cached, a load gives back the blob
/// that the store holds for it, and the cache stays coherent with the store.
/// With the lemmas above, a cache that starts empty (and so coherent) stays
/// coherent through any sequence of saves, deletes, loads and refreshes, so this
/// holds at every load.
pub proof fn lemma_cache_transparency<R: Fn(&str) -> Result<Vec<u8>, DBError>>(
    read: R,
    store: Map<Seq<char>, Seq<u8>>,
    before: Cache,
    key: &str,
    after: Cache,
    r: Result<Vec<u8>, DBError>,
)
    requires
        reads_from(read, store),
        coherent(before.content@, store),
        after_load(read, before, key, after, r),
    ensures
        coherent(after.content@, store),
        store.contains_key(key@) ==> (r matches Ok(b) && b@ == store[key@]),
        !store.contains_key(key@) ==> r is Err,
{
    if before.timer > before.when_to_sync {
        lemma_resync_keeps_coherence(
            read,
            store,
            before.count@,
            before.limit,
            before.content@,
            after.content@,
        );
    }
}

/// Cache transparency between two databases that differ only in their caches:
/// over the same store, a load of `key` succeeds in one exactly when it does in
/// the other, with the same blob.
pub proof fn lemma_load_same_cached_or_not<R: Fn(&str) -> Result<Vec<u8>, DBError>>(
    read: R,
    store: Map<Seq<char>, Seq<u8>>,
    key: &str,
    first: Cache,
    first_after: Cache,
    first_r: Result<Vec<u8>, DBError>,
    second: Cache,
    second_after: Cache,
    second_r: Result<Vec<u8>, DBError>,
)
    requires
        reads_from(read, store),
        coherent(first.content@, store),
        coherent(second.content@, store),
        after_load(read, first, key, first_after, first_r),
        after_load(read, second, key, second_after, second_r),
    ensures
        first_r is Ok <==> second_r is Ok,
        first_r is Ok ==> first_r->Ok_0@ == second_r->Ok_0@,
{
    lemma_cache_transparency(read, store, first, key, first_after, first_r);
    lemma_cache_transparency(read, store, second, key, second_after, second_r);
}

/// Round trip: once `bytes` is saved under `key` and the store holds it there, a
/// load of `key` gives back exactly `bytes`, cached or not.
pub proof fn lemma_round_trip<R: Fn(&str) -> Result<Vec<u8>, DBError>>(
    read: R,
    store: Map<Seq<char>, Seq<u8>>,
    start: Cache,
    key: &str,
    bytes: Seq<u8>,
    saved: Cache,
    loaded: Cache,
    r: Result<Vec<u8>, DBError>,
)
    requires
        coherent(start.content@, store),
        after_save(start, key@, bytes, saved),
        reads_from(read, store.insert(key@, bytes)),
        after_load(read, saved, key, loaded, r),
    ensures
        r matches Ok(b) && b@ == bytes,
{
    let written = store.insert(key@, bytes);
    lemma_save_keeps_coherence(store, start, key@, bytes, saved);
    lemma_cache_transparency(read, written, saved, key, loaded, r);
}

/// Resync bound: when no read fails, the cached keys after a refresh are exactly
/// a choice of the `kept_count(limit, n)` most used of the `n` tracked keys.
pub proof fn lemma_resync_bound<R: Fn(&str) -> Result<Vec<u8>, DBError>>(
    read: R,
    counts: Map<Seq<char>, u64>,
    limit: Option<usize>,
    before: Map<Seq<char>, Seq<u8>>,
    after: Map<Seq<char>, Seq<u8>>,
)
    requires
        resynced(read, counts, limit, before, after),
        forall|k: Seq<char>| !#[trigger] read_failed(read, k),
    ensures
        is_top_selection(counts, limit, after.dom()),
{
    let sel = choose|sel: Set<Seq<char>>|
        is_top_selection(counts, limit, sel) && keeps_cached_on_ties(counts, before, sel)
            && #[trigger] refreshed_to(read, sel, before, after);
    assert forall|k: Seq<char>| sel.contains(k) implies after.contains_key(k) by {
        assert(!read_failed(read, k));
    }
    assert(after.dom() =~= sel);
}

/// Idempotent delete: deleting a key that is neither tracked nor cached changes
/// nothing, and deleting the same key twice leaves what deleting it once left.
pub proof fn lemma_delete_idempotent(first: Cache, key: Seq<char>, once: Cache, twice: Cache)
    requires
        after_delete(first, key, once),
        after_delete(once, key, twice),
    ensures
        twice.count@ == once.count@,
        twice.content@ == once.content@,
        twice.timer == once.timer && twice.full == once.full,
        twice.limit == once.limit && twice.when_to_sync == once.when_to_sync,
        !first.count@.contains_key(key) && !first.content@.contains_key(key) ==> {
            &&& once.count@ == first.count@
            &&& once.content@ == first.content@
        },
{
    assert(once.count@.remove(key) =~= once.count@);
    assert(once.content@.remove(key) =~= once.content@);
    if !first.count@.contains_key(key) && !first.content@.contains_key(key) {
        assert(first.count@.remove(key) =~= first.count@);
        assert(first.content@.remove(key) =~= first.content@);
    }
}

/// Usage tracking and cached blobs of one database.
pub struct Cache {
    pub count: CacheCount,
    pub when_to_sync: u16,
    pub timer: u32,
    pub limit: Option<usize>,
    pub full: bool,
    pub content: CacheContent,
}

impl Cache {
    /// The load timer never runs past one beyond the resync interval.
    /// The load timer never runs past one beyond the resync interval; only
    /// tracked keys are cached; while the cache is filling the tracked keys fit
    /// the capacity; and the cache never holds more blobs than the capacity.
    pub open spec fn wf(&self) -> bool {
        &&& self.timer <= self.when_to_sync + 1
        &&& self.count@.dom().finite()
        &&& self.content@.dom().finite()
        &&& self.content@.dom().subset_of(self.count@.dom())
        &&& !self.full ==> match self.limit {
            Some(l) => self.count@.len() <= l,
            None => true,
        }
        &&& self.within_capacity()
    }

    /// The cache holds no more blobs than its capacity.
    pub open spec fn within_capacity(&self) -> bool {
        match self.limit {
            Some(l) => self.content@.len() <= l,
            None => true,
        }
    }

    /// Whether the tracked keys, with `key` among them, still fit the capacity.
    pub open spec fn has_room_for(&self, key: Seq<char>) -> bool {
        match self.limit {
            Some(l) => self.count@.insert(key, 0).len() <= l,
            None => true,
        }
    }

    pub fn new(limit: Option<usize>, resync_every: u16) -> (r: Self)
        ensures
            r.wf(),
            r.count@ == Map::<Seq<char>, u64>::empty(),
            r.content@ == Map::<Seq<char>, Seq<u8>>::empty(),
            r.limit == limit,
            r.when_to_sync == resync_every,
            r.timer == 0,
            !r.full,
    {
        Cache {
            count: CacheCount::new(),
            limit: limit,
            when_to_sync: resync_every,
            full: false,
            timer: 0,
            content: CacheContent::empty(),
        }
    }

    /// The cached blob of `key`, if it is cached.
    pub fn lookup(&self, key: &str) -> (r: Option<&Vec<u8>>)
        ensures
            match r {
                Some(b) => self.content@.contains_key(key@) && b@ == self.content@[key@],
                None => !self.content@.contains_key(key@),
            },
    {
        self.content.get(key)
    }

    /// Counts one access of `identifier`; returns whether it is tracked.
    pub fn increase_use(&mut self, identifier: &str) -> (r: bool)
        ensures
            r == old(self).count@.contains_key(identifier@),
            final(self).count@ == accessed(old(self).count@, identifier@),
            final(self).content@ == old(self).content@,
            final(self).timer == old(self).timer,
            final(self).when_to_sync == old(self).when_to_sync,
            final(self).limit == old(self).limit,
            final(self).full == old(self).full,
    {
        self.count.increase_use(identifier)
    }

    /// Starts tracking `key` with a count of zero.
    pub fn add_tracker(&mut self, key: String)
        ensures
            final(self).count@ == old(self).count@.insert(key@, 0),
            final(self).content@ == old(self).content@,
            final(self).timer == old(self).timer,
            final(self).when_to_sync == old(self).when_to_sync,
            final(self).limit == old(self).limit,
            final(self).full == old(self).full,
    {
        self.count.add_tracker(key);
    }

    /// Stops tracking `key`.
    pub fn del_tracker(&mut self, key: &str)
        ensures
            final(self).count@ == old(self).count@.remove(key@),
            final(self).content@ == old(self).content@,
            final(self).timer == old(self).timer,
            final(self).when_to_sync == old(self).when_to_sync,
            final(self).limit == old(self).limit,
            final(self).full == old(self).full,
    {
        self.count.del_tracker(key);
    }

    /// Whether the loads since the last refresh have passed the resync interval.
    pub fn should_resync(&self) -> (r: bool)
        ensures
            r == (self.timer > self.when_to_sync),
    {
        self.timer as u64 > self.when_to_sync as u64
    }

    /// Divides every usage counter by the rebase factor.
    pub fn reset(&mut self)
        ensures
            final(self).count@ == crate::usage::rebased(old(self).count@),
            final(self).content@ == old(self).content@,
            final(self).timer == old(self).timer,
            final(self).when_to_sync == old(self).when_to_sync,
            final(self).limit == old(self).limit,
            final(self).full == old(self).full,
    {
        self.count.reset();
    }
    /// Recomputes which keys are cached: the `kept_count(limit, n)` most used of
    /// the `n` tracked keys. Keys already cached stay as they are; the others are
    /// read from the blob store, and stay absent where that fails; every other key
    /// leaves the cache. The counters are not changed.
    pub fn refresh<R: Fn(&str) -> Result<Vec<u8>, DBError>>(&mut self, read: &R)
        requires
            old(self).wf(),
            forall|s: &str| #[trigger] read.requires((s,)),
        ensures
            final(self).wf(),
            final(self).count@ == old(self).count@,
            resynced(*read, old(self).count@, old(self).limit, old(self).content@, final(self).content@),
            final(self).timer == old(self).timer,
            final(self).when_to_sync == old(self).when_to_sync,
            final(self).limit == old(self).limit,
            final(self).full == old(self).full,
    {
        let ghost counts = self.count@;
        let ghost before = self.content@;
        let keys = self.count.keys();
        let ghost kv = key_views(keys@);
        let mut uses: Vec<u64> = Vec::new();
        let mut held: Vec<bool> = Vec::new();
        let mut i: usize = 0;
        while i < keys.len()
            invariant
                kv == key_views(keys@),
                kv.to_set() == counts.dom(),
                self.count@ == counts,
                self.limit == old(self).limit,
                i <= keys@.len(),
                uses@.len() == i,
                held@.len() == i,
                self.content@ == before,
                forall|q: int| 0 <= q < i ==> uses@[q] == counts[#[trigger] kv[q]],
                forall|q: int| 0 <= q < i ==> held@[q] == before.contains_key(#[trigger] kv[q]),
            decreases keys.len() - i,
        {
            assert(kv.to_set().contains(kv[i as int]));
            let c = match self.count.count_of(keys[i].as_str()) {
                Some(c) => c,
                None => 0,
            };
            uses.push(c);
            held.push(self.content.get(keys[i].as_str()).is_some());
            i += 1;
        }
        let top = rank_top(&uses, &held, self.limit);
        let ghost selk = Seq::new(top@.len(), |t: int| kv[top@[t] as int]);
        proof {
            assert forall|a: int, b: int| 0 <= a < selk.len() && 0 <= b < selk.len() && a != b
                implies selk[a] != selk[b] by {
                assert(top@[a] != top@[b]);
            }
        }
        let mut fresh = CacheContent::empty();
        let mut t: usize = 0;
        while t < top.len()
            invariant
                kv == key_views(keys@),
                kv.no_duplicates(),
                selk.len() == top@.len(),
                forall|j: int| 0 <= j < selk.len() ==> #[trigger] selk[j] == kv[top@[j] as int],
                forall|j: int| 0 <= j < top@.len() ==> top@[j] < keys@.len(),
                forall|a: int, b: int|
                    0 <= a < selk.len() && 0 <= b < selk.len() && a != b ==> selk[a] != selk[b],
                forall|s: &str| #[trigger] read.requires((s,)),
                t <= top@.len(),
                self.count@ == counts,
                self.timer == old(self).timer,
                self.when_to_sync == old(self).when_to_sync,
                self.limit == old(self).limit,
                self.full == old(self).full,
                forall|k: Seq<char>| #[trigger]
                    self.content@.contains_key(k) ==> before.contains_key(k) && self.content@[k]
                        == before[k],
                forall|j: int|
                    t <= j < selk.len() ==> (self.content@.contains_key(#[trigger] selk[j])
                        == before.contains_key(selk[j])),
                forall|k: Seq<char>| #[trigger]
                    fresh@.contains_key(k) ==> selk.subrange(0, t as int).contains(k),
                forall|j: int|
                    0 <= j < t ==> (before.contains_key(#[trigger] selk[j]) ==> fresh@.contains_key(
                        selk[j],
                    ) && fresh@[selk[j]] == before[selk[j]]),
                forall|j: int|
                    0 <= j < t ==> (!before.contains_key(#[trigger] selk[j]) && fresh@.contains_key(
                        selk[j],
                    ) ==> read_gave_bytes(*read, selk[j], fresh@[selk[j]])),
                forall|j: int|
                    0 <= j < t ==> (!fresh@.contains_key(#[trigger] selk[j]) ==> read_failed(
                        *read,
                        selk[j],
                    )),
            decreases top.len() - t,
        {
            let p = top[t];
            let ghost k = selk[t as int];
            assert(keys@[p as int]@ == k);
            let ghost fresh_before = fresh@;
            match self.content.remove(keys[p].as_str()) {
                Some(b) => {
                    fresh.insert(keys[p].clone(), b);
                },
                None => {
                    let got = read(keys[p].as_str());
                    match got {
                        Ok(b) => {
                            proof {
                                assert(read_gave(*read, k, Ok(b)));
                            }
                            fresh.insert(keys[p].clone(), b);
                        },
                        Err(e) => {
                            proof {
                                assert(read_gave(*read, k, Err(e)));
                            }
                        },
                    }
                },
            }
            proof {
                assert forall|j: int| 0 <= j < t implies selk[j] != k by {}
                assert(!fresh_before.contains_key(k)) by {
                    if fresh_before.contains_key(k) {
                        let j = choose|j: int| 0 <= j < t && selk.subrange(0, t as int)[j] == k;
                        assert(selk[j] == k);
                    }
                }
                assert forall|k2: Seq<char>| #[trigger]
                    fresh@.contains_key(k2) implies selk.subrange(0, t + 1).contains(k2) by {
                    if k2 == k {
                        assert(selk.subrange(0, t + 1)[t as int] == k);
                    } else {
                        assert(selk.subrange(0, t as int).contains(k2));
                        let j = choose|j: int| 0 <= j < t && selk.subrange(0, t as int)[j] == k2;
                        assert(selk.subrange(0, t + 1)[j] == k2);
                    }
                }
            }
            t += 1;
        }
        self.content = fresh;
        proof {
            let sel = selk.to_set();
            vstd::seq_lib::seq_to_set_is_finite(selk);
            selk.unique_seq_to_set();
            kv.unique_seq_to_set();
            assert(selk.subrange(0, t as int) =~= selk);
            assert(sel.subset_of(counts.dom())) by {
                assert forall|k: Seq<char>| sel.contains(k) implies counts.dom().contains(k) by {
                    let j = choose|j: int| 0 <= j < selk.len() && selk[j] == k;
                    assert(kv.to_set().contains(kv[top@[j] as int]));
                }
            }
            assert forall|a: Seq<char>, b: Seq<char>|
                sel.contains(a) && counts.contains_key(b) && !sel.contains(b) implies counts[a]
                >= counts[b] by {
                let ja = choose|j: int| 0 <= j < selk.len() && selk[j] == a;
                assert(kv.to_set().contains(b));
                let q = choose|q: int| 0 <= q < kv.len() && kv[q] == b;
                assert(!top@.contains(q as usize)) by {
                    if top@.contains(q as usize) {
                        let jb = choose|jb: int| 0 <= jb < top@.len() && top@[jb] == q as usize;
                        assert(selk[jb] == b);
                    }
                }
                assert(uses@[top@[ja] as int] >= uses@[q]);
            }
            assert forall|a: Seq<char>, b: Seq<char>|
                sel.contains(a) && counts.contains_key(b) && !sel.contains(b) && counts[a] == counts[b]
                implies before.contains_key(a) || !before.contains_key(b) by {
                let ja = choose|j: int| 0 <= j < selk.len() && selk[j] == a;
                assert(kv.to_set().contains(b));
                let q = choose|q: int| 0 <= q < kv.len() && kv[q] == b;
                assert(!top@.contains(q as usize)) by {
                    if top@.contains(q as usize) {
                        let jb = choose|jb: int| 0 <= jb < top@.len() && top@[jb] == q as usize;
                        assert(selk[jb] == b);
                    }
                }
                assert(uses@[top@[ja] as int] == uses@[q]);
                assert(held@[top@[ja] as int] || !held@[q]);
            }
            assert(keeps_cached_on_ties(counts, before, sel));
            assert(uses@.len() == kv.len());
            assert(sel.len() == kept_count(self.limit, counts.len()));
            assert(is_top_selection(counts, self.limit, sel));
            assert forall|k: Seq<char>| #[trigger] sel.contains(k) && before.contains_key(k) implies self.content@.contains_key(k)
                && self.content@[k] == before[k] by {
                let j = choose|j: int| 0 <= j < selk.len() && selk[j] == k;
            }
            assert forall|k: Seq<char>| #[trigger]
                self.content@.contains_key(k) && !before.contains_key(k) implies read_gave_bytes(*read, k, self.content@[k]) by {
                let j = choose|j: int| 0 <= j < selk.len() && selk[j] == k;
            }
            assert forall|k: Seq<char>| #[trigger] sel.contains(k) && !self.content@.contains_key(k) implies read_failed(*read, k) by {
                let j = choose|j: int| 0 <= j < selk.len() && selk[j] == k;
            }
            assert(refreshed_to(*read, sel, before, self.content@));
            vstd::set_lib::lemma_len_subset(self.content@.dom(), sel);
        }
    }
    /// The cached blobs after saving `bytes` under `key`: cached while the cache is
    /// still filling and has room for it, and kept current when the key is
    /// already cached.
    pub open spec fn saved_content(&self, key: Seq<char>, bytes: Seq<u8>) -> Map<Seq<char>, Seq<u8>> {
        if (!self.full && self.has_room_for(key)) || self.content@.contains_key(key) {
            self.content@.insert(key, bytes)
        } else {
            self.content@
        }
    }

    /// Whether the cache counts as full after `key` is saved: it was, or the
    /// capacity is reached by the tracked keys.
    pub open spec fn saved_full(&self, key: Seq<char>) -> bool {
        self.full || match self.limit {
            Some(l) => self.count@.insert(key, 0).len() >= l,
            None => false,
        }
    }

    /// Bookkeeping once `bytes` has been written to the blob store under `key`:
    /// the key is tracked anew with a count of zero, and its blob is cached while
    /// the cache is filling (or replaced, if the key is cached already).
    pub fn record_save(&mut self, key: &str, bytes: Vec<u8>)
        requires
            old(self).wf(),
        ensures
            after_save(*old(self), key@, bytes@, *final(self)),
    {
        let ghost start = *self;
        let cached = self.content.get(key).is_some();
        self.add_tracker(key.to_owned());
        let room = match self.limit {
            Some(limit) => self.count.len() <= limit,
            None => true,
        };
        let warm = !self.full && room;
        if !self.full {
            match self.limit {
                Some(limit) => {
                    if self.count.len() >= limit {
                        self.full = true;
                    }
                },
                None => {},
            }
        }
        if warm || cached {
            self.content.insert(key.to_owned(), bytes);
        }
        proof {
            if cached {
                assert(self.content@.dom() =~= start.content@.dom());
            }
            if warm && !cached {
                if let Some(l) = self.limit {
                    vstd::set_lib::lemma_len_subset(self.content@.dom(), self.count@.dom());
                }
            }
        }
    }

    /// One load of `key`: refreshes the cache first when the resync interval has
    /// passed, counts the access, then answers from the cache, or from the blob
    /// store when the key is not cached.
    pub fn fetch<R: Fn(&str) -> Result<Vec<u8>, DBError>>(&mut self, key: &str, read: &R) -> (r:
        Result<Vec<u8>, DBError>)
        requires
            old(self).wf(),
            forall|s: &str| #[trigger] read.requires((s,)),
        ensures
            after_load(*read, *old(self), key, *final(self), r),
    {
        if self.should_resync() {
            self.timer = 0;
            self.full = true;
            self.refresh(read);
        }
        self.timer = self.timer + 1;
        let ghost counted = self.count@;
        self.increase_use(key);
        proof {
            assert(self.count@.dom() =~= counted.dom());
        }
        match self.content.get(key) {
            Some(b) => Ok(b.clone()),
            None => read(key),
        }
    }

    /// Forgets `key`: its counter and its cached blob.
    pub fn forget(&mut self, key: &str)
        requires
            old(self).wf(),
        ensures
            after_delete(*old(self), key@, *final(self)),
    {
        self.content.remove(key);
        self.del_tracker(key);
    }
}

} // verus!
