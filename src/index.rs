//! The secondary index: one caller-defined record per key, held in memory and
//! queried by predicate. Writing records to durable storage is handed in by the
//! caller as a closure, and always happens before memory changes.

use crate::error::{DBError, ErrorKind};
use crate::table::key_views;
use vstd::prelude::*;
use vstd::string::StringExecFns;

verus! {

/// Records by key, in the order their keys were first attached.
pub struct Index<T> {
    keys: Vec<String>,
    records: Vec<T>,
}

/// The position of `k` among `keys`.
pub open spec fn position_of(keys: Seq<String>, k: Seq<char>) -> int {
    choose|i: int| 0 <= i < keys.len() && #[trigger] keys[i]@ == k
}

/// The map from each key of `keys` to the record at the same position.
pub open spec fn records_by_key<T>(keys: Seq<String>, records: Seq<T>) -> Map<Seq<char>, T> {
    Map::new(
        |k: Seq<char>| key_views(keys).contains(k),
        |k: Seq<char>| records[position_of(keys, k)],
    )
}

impl<T> View for Index<T> {
    type V = Map<Seq<char>, T>;

    closed spec fn view(&self) -> Map<Seq<char>, T> {
        records_by_key(self.keys@, self.records@)
    }
}

/// With distinct keys, the key at position `i` maps to the record at position `i`.
proof fn lemma_entry_at<T>(keys: Seq<String>, records: Seq<T>, i: int)
    requires
        key_views(keys).no_duplicates(),
        0 <= i < keys.len(),
    ensures
        records_by_key(keys, records).contains_key(keys[i]@),
        position_of(keys, keys[i]@) == i,
        records_by_key(keys, records)[keys[i]@] == records[i],
{
    assert(key_views(keys)[i] == keys[i]@);
    let j = position_of(keys, keys[i]@);
    assert(key_views(keys)[j] == key_views(keys)[i]);
}

/// A key is in the map exactly when some position holds it.
proof fn lemma_has_key<T>(keys: Seq<String>, records: Seq<T>, k: Seq<char>)
    ensures
        records_by_key(keys, records).contains_key(k) <==> exists|i: int|
            0 <= i < keys.len() && #[trigger] keys[i]@ == k,
{
    if records_by_key(keys, records).contains_key(k) {
        let i = choose|i: int| 0 <= i < key_views(keys).len() && key_views(keys)[i] == k;
        assert(keys[i]@ == k);
    }
    if exists|i: int| 0 <= i < keys.len() && #[trigger] keys[i]@ == k {
        let i = choose|i: int| 0 <= i < keys.len() && #[trigger] keys[i]@ == k;
        assert(key_views(keys)[i] == k);
    }
}

/// `found` lists, each once, exactly the keys of `records` whose record `apply`
/// accepts.
pub open spec fn found_by<T, F: Fn(&T) -> bool>(
    records: Map<Seq<char>, T>,
    apply: F,
    found: Seq<Seq<char>>,
) -> bool {
    &&& found.no_duplicates()
    &&& forall|k: Seq<char>| #[trigger]
        found.contains(k) ==> records.contains_key(k) && apply.ensures((&records[k],), true)
    &&& forall|k: Seq<char>| #[trigger]
        records.contains_key(k) && !found.contains(k) ==> apply.ensures((&records[k],), false)
}

/// The keys of `records` whose record satisfies `pred`.
pub open spec fn matching<T>(records: Map<Seq<char>, T>, pred: spec_fn(T) -> bool) -> Set<Seq<char>> {
    Set::new(|k: Seq<char>| records.contains_key(k) && pred(records[k]))
}

/// Predicate completeness: when `apply` decides `pred`, a search finds exactly the
/// keys whose record satisfies `pred`, each once, whether none or many match.
pub proof fn lemma_search_complete<T, F: Fn(&T) -> bool>(
    records: Map<Seq<char>, T>,
    apply: F,
    pred: spec_fn(T) -> bool,
    found: Seq<Seq<char>>,
)
    requires
        found_by(records, apply, found),
        forall|t: &T, b: bool| #[trigger] apply.ensures((t,), b) ==> b == pred(*t),
    ensures
        found.no_duplicates(),
        found.to_set() == matching(records, pred),
{
    assert forall|k: Seq<char>| found.to_set().contains(k) <==> matching(records, pred).contains(k) by {
        if records.contains_key(k) && !found.contains(k) {
            assert(apply.ensures((&records[k],), false));
        }
    }
    assert(found.to_set() =~= matching(records, pred));
}

impl<T> Index<T> {
    /// Keys are distinct, and each has a record.
    pub closed spec fn wf(&self) -> bool {
        &&& self.keys@.len() == self.records@.len()
        &&& key_views(self.keys@).no_duplicates()
    }

    pub fn new() -> (r: Self)
        ensures
            r.wf(),
            r@ == Map::<Seq<char>, T>::empty(),
    {
        let r = Index { keys: Vec::new(), records: Vec::new() };
        proof {
            assert(key_views(r.keys@) =~= Seq::<Seq<char>>::empty());
            assert(r@ =~= Map::<Seq<char>, T>::empty());
        }
        r
    }

    /// The position of `key`, if it has a record.
    fn find(&self, key: &str) -> (r: Option<usize>)
        requires
            self.wf(),
        ensures
            match r {
                Some(i) => i < self.keys@.len() && self.keys@[i as int]@ == key@,
                None => !self@.contains_key(key@),
            },
    {
        let wanted = key.to_owned();
        let mut i: usize = 0;
        while i < self.keys.len()
            invariant
                wanted@ == key@,
                i <= self.keys@.len(),
                forall|j: int| 0 <= j < i ==> self.keys@[j]@ != key@,
            decreases self.keys.len() - i,
        {
            if self.keys[i] == wanted {
                return Some(i);
            }
            i += 1;
        }
        proof {
            lemma_has_key(self.keys@, self.records@, key@);
        }
        None
    }

    /// The record of `key`, if it has one.
    pub fn get(&self, key: &str) -> (r: Option<&T>)
        requires
            self.wf(),
        ensures
            match r {
                Some(v) => self@.contains_key(key@) && *v == self@[key@],
                None => !self@.contains_key(key@),
            },
    {
        match self.find(key) {
            Some(i) => {
                proof {
                    lemma_entry_at(self.keys@, self.records@, i as int);
                }
                Some(&self.records[i])
            },
            None => None,
        }
    }
    /// Sets the record of `key`, replacing any it had. Memory only.
    pub fn attach(&mut self, key: &str, index: T)
        requires
            old(self).wf(),
        ensures
            final(self).wf(),
            final(self)@ == old(self)@.insert(key@, index),
    {
        let ghost ks = self.keys@;
        let ghost rs = self.records@;
        match self.find(key) {
            Some(i) => {
                self.records.set(i, index);
                proof {
                    assert(self.keys@ == ks);
                    assert forall|k: Seq<char>|
                        self@.contains_key(k) == old(self)@.insert(key@, index).contains_key(k) by {
                        lemma_has_key(ks, rs, k);
                        lemma_has_key(ks, self.records@, k);
                        lemma_entry_at(ks, rs, i as int);
                    }
                    assert forall|k: Seq<char>| #[trigger]
                        self@.contains_key(k) implies self@[k] == old(self)@.insert(key@, index)[k] by {
                        lemma_has_key(ks, self.records@, k);
                        let j = choose|j: int| 0 <= j < ks.len() && #[trigger] ks[j]@ == k;
                        lemma_entry_at(ks, self.records@, j);
                        lemma_entry_at(ks, rs, j);
                        lemma_entry_at(ks, rs, i as int);
                        if k == key@ {
                            assert(key_views(ks)[j] == key_views(ks)[i as int]);
                            assert(j == i);
                        } else {
                            assert(j != i);
                            assert(self.records@[j] == rs[j]);
                        }
                    }
                    assert(self@ =~= old(self)@.insert(key@, index));
                }
            },
            None => {
                self.keys.push(key.to_owned());
                self.records.push(index);
                proof {
                    let n = ks.len() as int;
                    assert(key_views(self.keys@) =~= key_views(ks).push(key@));
                    assert(!key_views(ks).contains(key@)) by {
                        if key_views(ks).contains(key@) {
                            let j = choose|j: int| 0 <= j < key_views(ks).len() && key_views(ks)[j] == key@;
                            assert(ks[j]@ == key@);
                            lemma_has_key(ks, rs, key@);
                        }
                    }
                    assert forall|a: int, b: int|
                        0 <= a < key_views(self.keys@).len() && 0 <= b < key_views(self.keys@).len() && a != b
                        implies key_views(self.keys@)[a] != key_views(self.keys@)[b] by {
                        if a == n {
                            assert(key_views(ks)[b] == key_views(self.keys@)[b]);
                        } else if b == n {
                            assert(key_views(ks)[a] == key_views(self.keys@)[a]);
                        }
                    }
                    assert forall|k: Seq<char>|
                        self@.contains_key(k) == old(self)@.insert(key@, index).contains_key(k) by {
                        lemma_has_key(ks, rs, k);
                        lemma_has_key(self.keys@, self.records@, k);
                        if k == key@ {
                            assert(self.keys@[n]@ == k);
                        } else if self@.contains_key(k) {
                            let j = choose|j: int| 0 <= j < self.keys@.len() && #[trigger] self.keys@[j]@ == k;
                            assert(ks[j]@ == k);
                        } else if old(self)@.contains_key(k) {
                            let j = choose|j: int| 0 <= j < ks.len() && #[trigger] ks[j]@ == k;
                            assert(self.keys@[j]@ == k);
                        }
                    }
                    assert forall|k: Seq<char>| #[trigger]
                        self@.contains_key(k) implies self@[k] == old(self)@.insert(key@, index)[k] by {
                        lemma_has_key(self.keys@, self.records@, k);
                        let j = choose|j: int| 0 <= j < self.keys@.len() && #[trigger] self.keys@[j]@ == k;
                        lemma_entry_at(self.keys@, self.records@, j);
                        if j < n {
                            lemma_entry_at(ks, rs, j);
                        }
                    }
                    assert(self@ =~= old(self)@.insert(key@, index));
                }
            },
        }
    }

    /// Removes the record of `key`, if it has one. Memory only.
    pub fn delete(&mut self, key: &str)
        requires
            old(self).wf(),
        ensures
            final(self).wf(),
            final(self)@ == old(self)@.remove(key@),
    {
        let ghost ks = self.keys@;
        let ghost rs = self.records@;
        match self.find(key) {
            Some(i) => {
                self.keys.remove(i);
                self.records.remove(i);
                proof {
                    let i = i as int;
                    assert(key_views(self.keys@) =~= key_views(ks).remove(i));
                    assert forall|a: int, b: int|
                        0 <= a < key_views(self.keys@).len() && 0 <= b < key_views(self.keys@).len() && a != b
                        implies key_views(self.keys@)[a] != key_views(self.keys@)[b] by {
                        let a0 = if a < i { a } else { a + 1 };
                        let b0 = if b < i { b } else { b + 1 };
                        assert(key_views(ks)[a0] != key_views(ks)[b0]);
                    }
                    lemma_entry_at(ks, rs, i);
                    assert forall|k: Seq<char>|
                        self@.contains_key(k) == old(self)@.remove(key@).contains_key(k) by {
                        lemma_has_key(ks, rs, k);
                        lemma_has_key(self.keys@, self.records@, k);
                        if self@.contains_key(k) {
                            let j = choose|j: int| 0 <= j < self.keys@.len() && #[trigger] self.keys@[j]@ == k;
                            let j0 = if j < i { j } else { j + 1 };
                            assert(ks[j0]@ == k);
                            assert(key_views(ks)[j0] != key_views(ks)[i]);
                        } else if old(self)@.contains_key(k) && k != key@ {
                            let j0 = choose|j: int| 0 <= j < ks.len() && #[trigger] ks[j]@ == k;
                            assert(j0 != i);
                            let j = if j0 < i { j0 } else { j0 - 1 };
                            assert(self.keys@[j]@ == k);
                        }
                    }
                    assert forall|k: Seq<char>| #[trigger]
                        self@.contains_key(k) implies self@[k] == old(self)@.remove(key@)[k] by {
                        lemma_has_key(self.keys@, self.records@, k);
                        let j = choose|j: int| 0 <= j < self.keys@.len() && #[trigger] self.keys@[j]@ == k;
                        lemma_entry_at(self.keys@, self.records@, j);
                        let j0 = if j < i { j } else { j + 1 };
                        lemma_entry_at(ks, rs, j0);
                    }
                    assert(self@ =~= old(self)@.remove(key@));
                }
            },
            None => {
                proof {
                    assert(self@ =~= old(self)@.remove(key@));
                }
            },
        }
    }
    /// Replaces the record of `key` by `apply` of it. The new record is written
    /// through `write` first; memory changes only when that succeeds, so on any
    /// failure the old record stays. A key without a record is an index error.
    pub fn update<F: FnOnce(&T) -> T, W: Fn(&str, &T) -> Result<(), DBError>>(
        &mut self,
        key: &str,
        apply: F,
        write: &W,
    ) -> (r: Result<(), DBError>)
        requires
            old(self).wf(),
            forall|t: &T| #[trigger] apply.requires((t,)),
            forall|s: &str, t: &T| #[trigger] write.requires((s, t)),
        ensures
            final(self).wf(),
            !old(self)@.contains_key(key@) ==> (match r {
                Ok(_) => false,
                Err(e) => e.kind == ErrorKind::Index,
            }),
            old(self)@.contains_key(key@) ==> exists|new: T| #[trigger]
                apply.ensures((&old(self)@[key@],), new) && write.ensures((key, &new), r) && (r is Ok
                    ==> final(self)@ == old(self)@.insert(key@, new)),
            r is Err ==> final(self)@ == old(self)@,
    {
        match self.find(key) {
            None => {
                let mut cause = "key ".to_owned();
                cause.append(key);
                cause.append(" not found when attempting to edit its index");
                Err(DBError::index(cause.as_str()))
            },
            Some(i) => {
                proof {
                    lemma_entry_at(self.keys@, self.records@, i as int);
                }
                let new = apply(&self.records[i]);
                let written = write(key, &new);
                if written.is_ok() {
                    self.attach(key, new);
                }
                written
            },
        }
    }

    /// The keys whose record satisfies `apply`, each once, in index order.
    pub fn search<F: Fn(&T) -> bool>(&self, apply: &F) -> (r: Vec<String>)
        requires
            self.wf(),
            forall|t: &T| #[trigger] apply.requires((t,)),
        ensures
            found_by(self@, *apply, key_views(r@)),
    {
        let mut results: Vec<String> = Vec::new();
        let ghost mut from: Seq<int> = Seq::empty();
        let mut i: usize = 0;
        while i < self.keys.len()
            invariant
                self.wf(),
                forall|t: &T| #[trigger] apply.requires((t,)),
                i <= self.keys@.len(),
                key_views(results@).no_duplicates(),
                from.len() == results@.len(),
                forall|t: int|
                    0 <= t < from.len() ==> 0 <= #[trigger] from[t] < i && self.keys@[from[t]]@
                        == results@[t]@ && apply.ensures((&self.records@[from[t]],), true),
                forall|j: int|
                    0 <= j < i ==> key_views(results@).contains(#[trigger] self.keys@[j]@)
                        || apply.ensures((&self.records@[j],), false),
            decreases self.keys.len() - i,
        {
            let ghost before = results@;
            if apply(&self.records[i]) {
                results.push(self.keys[i].clone());
                proof {
                    from = from.push(i as int);
                    assert(key_views(results@) =~= key_views(before).push(self.keys@[i as int]@));
                    assert forall|t: int| 0 <= t < before.len() implies key_views(before)[t]
                        != self.keys@[i as int]@ by {
                        assert(key_views(self.keys@)[from[t]] != key_views(self.keys@)[i as int]);
                    }
                    assert forall|j: int| 0 <= j <= i implies key_views(results@).contains(
                        #[trigger] self.keys@[j]@,
                    ) || apply.ensures((&self.records@[j],), false) by {
                        if j == i {
                            assert(key_views(results@)[before.len() as int] == self.keys@[j]@);
                        } else if key_views(before).contains(self.keys@[j]@) {
                            let t = choose|t: int|
                                0 <= t < before.len() && key_views(before)[t] == self.keys@[j]@;
                            assert(key_views(results@)[t] == self.keys@[j]@);
                        }
                    }
                }
            }
            i += 1;
        }
        proof {
            assert forall|k: Seq<char>| #[trigger] key_views(results@).contains(k) implies self@.contains_key(k)
                && apply.ensures((&self@[k],), true) by {
                let t = choose|t: int| 0 <= t < key_views(results@).len() && key_views(results@)[t] == k;
                lemma_entry_at(self.keys@, self.records@, from[t]);
            }
            assert forall|k: Seq<char>| #[trigger]
                self@.contains_key(k) && !key_views(results@).contains(k) implies apply.ensures(
                (&self@[k],),
                false,
            ) by {
                lemma_has_key(self.keys@, self.records@, k);
                let j = choose|j: int| 0 <= j < self.keys@.len() && #[trigger] self.keys@[j]@ == k;
                lemma_entry_at(self.keys@, self.records@, j);
            }
        }
        results
    }
}

} // verus!
