//! The two hash tables of the cache, kept in `hashbrown::HashMap`s: usage counters
//! and cached blobs, both keyed by a string key. Each table is opaque; what it holds
//! is named by a spec function, and each operation used on it states its effect on
//! that content.

use hashbrown::HashMap;
use vstd::prelude::*;

verus! {

/// The character sequences of a list of keys.
pub open spec fn key_views(keys: Seq<String>) -> Seq<Seq<char>> {
    keys.map_values(|s: String| s@)
}

/// The table with no counters.
pub open spec fn no_counts() -> Map<Seq<char>, u64> {
    Map::empty()
}

/// The table with no blobs.
pub open spec fn no_blobs() -> Map<Seq<char>, Seq<u8>> {
    Map::empty()
}

/// One usage counter per tracked key.
#[verifier::external_body]
pub struct CacheCount(HashMap<String, u64>);

/// The counters held by a `CacheCount`, by key.
pub uninterp spec fn usage_counts(t: CacheCount) -> Map<Seq<char>, u64>;

impl View for CacheCount {
    type V = Map<Seq<char>, u64>;

    open spec fn view(&self) -> Map<Seq<char>, u64> {
        usage_counts(*self)
    }
}

impl CacheCount {
    /// Relies on hashbrown::HashMap::new: a map with no entries.
    #[verifier::external_body]
    pub(crate) fn empty() -> (r: CacheCount)
        ensures
            usage_counts(r) == no_counts(),
    {
        CacheCount(HashMap::new())
    }

    /// Relies on hashbrown::HashMap::insert: the key now maps to `n`, others unchanged.
    #[verifier::external_body]
    pub(crate) fn put(&mut self, key: String, n: u64)
        ensures
            usage_counts(*final(self)) == usage_counts(*old(self)).insert(key@, n),
    {
        self.0.insert(key, n);
    }

    /// Relies on hashbrown::HashMap::remove: the key's entry is gone, others unchanged.
    #[verifier::external_body]
    pub(crate) fn take(&mut self, key: &str)
        ensures
            usage_counts(*final(self)) == usage_counts(*old(self)).remove(key@),
    {
        self.0.remove(key);
    }

    /// Relies on hashbrown::HashMap::get: the key's counter, if it is tracked.
    #[verifier::external_body]
    pub(crate) fn count_of(&self, key: &str) -> (r: Option<u64>)
        ensures
            r == (if usage_counts(*self).contains_key(key@) { Some(usage_counts(*self)[key@]) } else { None::<u64> }),
    {
        self.0.get(key).copied()
    }

    /// Relies on hashbrown::HashMap::len: the number of entries.
    #[verifier::external_body]
    pub(crate) fn len(&self) -> (r: usize)
        ensures
            r == usage_counts(*self).len(),
    {
        self.0.len()
    }

    /// Relies on hashbrown::HashMap::keys: every key once, in an unspecified order.
    #[verifier::external_body]
    pub(crate) fn keys(&self) -> (r: Vec<String>)
        ensures
            key_views(r@).no_duplicates(),
            key_views(r@).to_set() == usage_counts(*self).dom(),
    {
        self.0.keys().cloned().collect()
    }
}

/// Encoded blobs held in memory, by key.
#[verifier::external_body]
pub struct CacheContent(HashMap<String, Vec<u8>>);

/// The blobs held by a `CacheContent`, by key.
pub uninterp spec fn cached_blobs(t: CacheContent) -> Map<Seq<char>, Seq<u8>>;

impl View for CacheContent {
    type V = Map<Seq<char>, Seq<u8>>;

    open spec fn view(&self) -> Map<Seq<char>, Seq<u8>> {
        cached_blobs(*self)
    }
}

impl CacheContent {
    /// Relies on hashbrown::HashMap::new: a map with no entries.
    #[verifier::external_body]
    pub(crate) fn empty() -> (r: CacheContent)
        ensures
            cached_blobs(r) == no_blobs(),
    {
        CacheContent(HashMap::new())
    }

    /// Relies on hashbrown::HashMap::insert: the key now maps to `bytes`, others unchanged.
    #[verifier::external_body]
    pub(crate) fn insert(&mut self, key: String, bytes: Vec<u8>)
        ensures
            cached_blobs(*final(self)) == cached_blobs(*old(self)).insert(key@, bytes@),
    {
        self.0.insert(key, bytes);
    }

    /// Relies on hashbrown::HashMap::remove: the key's entry is gone and handed back.
    #[verifier::external_body]
    pub(crate) fn remove(&mut self, key: &str) -> (r: Option<Vec<u8>>)
        ensures
            cached_blobs(*final(self)) == cached_blobs(*old(self)).remove(key@),
            match r {
                Some(b) => cached_blobs(*old(self)).contains_key(key@) && b@ == cached_blobs(*old(self))[key@],
                None => !cached_blobs(*old(self)).contains_key(key@),
            },
    {
        self.0.remove(key)
    }

    /// Relies on hashbrown::HashMap::get: the key's blob, if there is one.
    #[verifier::external_body]
    pub(crate) fn get(&self, key: &str) -> (r: Option<&Vec<u8>>)
        ensures
            match r {
                Some(b) => cached_blobs(*self).contains_key(key@) && b@ == cached_blobs(*self)[key@],
                None => !cached_blobs(*self).contains_key(key@),
            },
    {
        self.0.get(key)
    }
}

} // verus!
