//! Usage counters: how often each tracked key has been loaded.

use crate::table::{key_views, CacheCount};
use vstd::prelude::*;

verus! {

/// The factor by which every counter is divided when one would overflow.
pub const REBASE_FACTOR: u64 = 5;

/// Every counter divided by the rebase factor, rounding down; the keys stay.
pub open spec fn rebased(m: Map<Seq<char>, u64>) -> Map<Seq<char>, u64> {
    Map::new(|k: Seq<char>| m.contains_key(k), |k: Seq<char>| (m[k] / REBASE_FACTOR) as u64)
}

/// The counters after one access of `key`: an untracked key changes nothing; a
/// tracked one is counted, unless its counter is at the largest value, in which
/// case every counter is rebased instead.
pub open spec fn accessed(m: Map<Seq<char>, u64>, key: Seq<char>) -> Map<Seq<char>, u64> {
    if !m.contains_key(key) {
        m
    } else if m[key] < u64::MAX {
        m.insert(key, (m[key] + 1) as u64)
    } else {
        rebased(m)
    }
}

/// Overflow rebase: an access of a key whose counter is at the largest value
/// divides every counter by five, rounding down, instead of wrapping; the tracked
/// keys stay the same.
pub proof fn lemma_overflow_rebase(m: Map<Seq<char>, u64>, key: Seq<char>)
    requires
        m.contains_key(key),
        m[key] == u64::MAX,
    ensures
        accessed(m, key).dom() == m.dom(),
        forall|k: Seq<char>| #[trigger] m.contains_key(k) ==> accessed(m, key)[k] == m[k] / 5,
{
    assert(accessed(m, key).dom() =~= m.dom());
}

impl CacheCount {
    /// The counter of `key`, if it is tracked.
    pub fn get(&self, key: &str) -> (r: Option<u64>)
        ensures
            r == (if self@.contains_key(key@) { Some(self@[key@]) } else { None::<u64> }),
    {
        self.count_of(key)
    }

    pub fn new() -> (r: Self)
        ensures
            r@ == Map::<Seq<char>, u64>::empty(),
    {
        CacheCount::empty()
    }

    /// Starts tracking `key` with a count of zero, replacing any count it had.
    pub fn add_tracker(&mut self, key: String)
        ensures
            final(self)@ == old(self)@.insert(key@, 0),
    {
        self.put(key, 0);
    }

    /// Stops tracking `key`; nothing happens if it is not tracked.
    pub fn del_tracker(&mut self, key: &str)
        ensures
            final(self)@ == old(self)@.remove(key@),
    {
        self.take(key);
    }

    /// Counts one access of `identifier`. Returns whether the key is tracked; an
    /// untracked key is left alone.
    pub fn increase_use(&mut self, identifier: &str) -> (r: bool)
        ensures
            r == old(self)@.contains_key(identifier@),
            final(self)@ == accessed(old(self)@, identifier@),
    {
        match self.count_of(identifier) {
            Some(c) => {
                if c != u64::MAX {
                    self.put(identifier.to_owned(), c + 1);
                } else {
                    self.reset();
                }
                true
            },
            None => false,
        }
    }

    /// Divides every counter by the rebase factor, which keeps their order and
    /// makes room below the largest value.
    pub fn reset(&mut self)
        ensures
            final(self)@ == rebased(old(self)@),
    {
        let keys = self.keys();
        let ghost start = self@;
        let ghost kv = key_views(keys@);
        let mut i: usize = 0;
        while i < keys.len()
            invariant
                kv == key_views(keys@),
                kv.no_duplicates(),
                kv.to_set() == start.dom(),
                i <= keys@.len(),
                self@.dom() == start.dom(),
                forall|j: int| 0 <= j < i ==> #[trigger] self@[kv[j]] == start[kv[j]] / 5,
                forall|j: int| i <= j < keys@.len() ==> #[trigger] self@[kv[j]] == start[kv[j]],
            decreases keys.len() - i,
        {
            let ghost k = kv[i as int];
            assert(kv.to_set().contains(k));
            let key = keys[i].clone();
            match self.count_of(keys[i].as_str()) {
                Some(c) => {
                    self.put(key, c / REBASE_FACTOR);
                },
                None => {},
            }
            proof {
                assert forall|j: int| 0 <= j < keys@.len() && j != i implies kv[j] != k by {
                    assert(kv[j] != kv[i as int]);
                }
            }
            i += 1;
        }
        proof {
            assert forall|k: Seq<char>| #[trigger] self@.contains_key(k) implies self@[k]
                == rebased(start)[k] by {
                assert(kv.to_set().contains(k));
                let j = choose|j: int| 0 <= j < kv.len() && kv[j] == k;
            }
            assert(self@ =~= rebased(start));
        }
    }
}

} // verus!
