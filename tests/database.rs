use sfsdb::cache::Cache;
use sfsdb::rank::rank_top;
use sfsdb::table::CacheCount;
use sfsdb::{new, new_cached, new_indexed, DBError, ErrorKind};
use std::cell::{Cell, RefCell};
use std::collections::HashMap;

/// An in-memory blob store that counts its reads and writes.
struct MemStore {
    blobs: RefCell<HashMap<String, Vec<u8>>>,
    reads: Cell<usize>,
    writes: Cell<usize>,
}

impl MemStore {
    fn new() -> Self {
        MemStore { blobs: RefCell::new(HashMap::new()), reads: Cell::new(0), writes: Cell::new(0) }
    }

    fn read(&self, key: &str) -> Result<Vec<u8>, DBError> {
        self.reads.set(self.reads.get() + 1);
        match self.blobs.borrow().get(key) {
            Some(b) => Ok(b.clone()),
            None => Err(DBError::load(&format!("{} not found", key))),
        }
    }

    fn write(&self, key: &str, bytes: &Vec<u8>) -> Result<(), DBError> {
        self.writes.set(self.writes.get() + 1);
        self.blobs.borrow_mut().insert(key.to_owned(), bytes.clone());
        Ok(())
    }

    fn remove(&self, key: &str) -> Result<(), DBError> {
        match self.blobs.borrow_mut().remove(key) {
            Some(_) => Ok(()),
            None => Err(DBError::delete(&format!("Could not delete {}", key))),
        }
    }
}

fn encode<T: serde::Serialize>(v: &T) -> Vec<u8> {
    rmp_serde::to_vec(v).unwrap()
}

fn decode<T: serde::de::DeserializeOwned>(b: &[u8]) -> T {
    rmp_serde::from_slice(b).unwrap()
}

#[test]
fn integrity() {
    let store = MemStore::new();
    let mut db = new_cached("test_db", None, 0);
    db.save_encoded("some_key", encode(&"some_data".to_owned()), &|k: &str, b: &Vec<u8>| {
        store.write(k, b)
    })
    .unwrap();

    let loaded: String = decode(&db.load_encoded("some_key", &|k: &str| store.read(k)).unwrap());

    assert_eq!(loaded, "some_data".to_owned());
}

fn spamload(times: usize, key: &str, db: &mut sfsdb::CachedDB, store: &MemStore) {
    for _ in 0..times {
        let v: u64 = decode(&db.load_encoded(key, &|k: &str| store.read(k)).unwrap());
        assert_eq!(v, 41423141);
    }
}

#[test]
fn cache() {
    let store = MemStore::new();
    let mut db = new_cached("test_db", Some(6), 20);
    let u: u64 = 41423141;

    for i in 0..200 {
        db.save_encoded(&i.to_string(), encode(&u), &|k: &str, b: &Vec<u8>| store.write(k, b))
            .unwrap();
    }

    spamload(500, "3", &mut db, &store);

    let before = store.reads.get();
    spamload(40, "3", &mut db, &store);
    let cached = store.reads.get() - before;

    let before = store.reads.get();
    spamload(40, "120", &mut db, &store);
    let uncached = store.reads.get() - before;

    // The cached key is answered from memory, the other one from the store.
    assert!(uncached > cached);
}

#[test]
fn round_trip_of_several_types() {
    let store = MemStore::new();
    let mut db = new_cached("db", Some(1), 3);
    let w = |k: &str, b: &Vec<u8>| store.write(k, b);
    db.save_encoded("n", encode(&7u64), &w).unwrap();
    db.save_encoded("s", encode(&"text".to_owned()), &w).unwrap();
    db.save_encoded("v", encode(&vec![1i32, -2, 3]), &w).unwrap();
    let r = |k: &str| store.read(k);
    for _ in 0..10 {
        let n: u64 = decode(&db.load_encoded("n", &r).unwrap());
        let s: String = decode(&db.load_encoded("s", &r).unwrap());
        let v: Vec<i32> = decode(&db.load_encoded("v", &r).unwrap());
        assert_eq!(n, 7);
        assert_eq!(s, "text");
        assert_eq!(v, vec![1, -2, 3]);
    }
}

#[test]
fn cache_transparency() {
    let store = MemStore::new();
    let mut db = new_cached("db", Some(1), 1000);
    let w = |k: &str, b: &Vec<u8>| store.write(k, b);
    db.save_encoded("hot", encode(&1u64), &w).unwrap();
    db.save_encoded("cold", encode(&2u64), &w).unwrap();
    assert!(db.is_cached("hot"));
    assert!(!db.is_cached("cold"));
    let r = |k: &str| store.read(k);
    let hot: u64 = decode(&db.load_encoded("hot", &r).unwrap());
    let cold: u64 = decode(&db.load_encoded("cold", &r).unwrap());
    assert_eq!((hot, cold), (1, 2));
    assert_eq!(store.reads.get(), 1);
    // Saving again while the key is cached keeps the cached copy current.
    db.save_encoded("hot", encode(&3u64), &w).unwrap();
    let hot: u64 = decode(&db.load_encoded("hot", &r).unwrap());
    assert_eq!(hot, 3);
}

#[test]
fn resync_keeps_top_counts() {
    let store = MemStore::new();
    let mut db = new_cached("db", Some(3), 10000);
    let w = |k: &str, b: &Vec<u8>| store.write(k, b);
    let r = |k: &str| store.read(k);
    for (i, key) in ["p", "q", "r", "s", "t"].iter().enumerate() {
        db.save_encoded(key, encode(&(i as u64)), &w).unwrap();
    }
    for (key, times) in [("p", 1), ("q", 9), ("r", 4), ("s", 7), ("t", 2)] {
        for _ in 0..times {
            db.load_encoded(key, &r).unwrap();
        }
    }
    db.resync(&r);
    let cached: Vec<bool> = ["p", "q", "r", "s", "t"].iter().map(|k| db.is_cached(k)).collect();
    assert_eq!(cached, vec![false, true, true, true, false]);
    assert_eq!(db.uses("q"), Some(9));
    // The refreshed cache answers with the stored values.
    let v: u64 = decode(&db.load_encoded("s", &r).unwrap());
    assert_eq!(v, 3);
}

#[test]
fn resync_without_capacity_caches_every_key() {
    let store = MemStore::new();
    let mut db = new_cached("db", None, 10000);
    let w = |k: &str, b: &Vec<u8>| store.write(k, b);
    db.save_encoded("a", encode(&1u64), &w).unwrap();
    db.save_encoded("b", encode(&2u64), &w).unwrap();
    db.resync(&|k: &str| store.read(k));
    assert!(db.is_cached("a") && db.is_cached("b"));
}

#[test]
fn resync_leaves_unreadable_key_out() {
    let store = MemStore::new();
    let mut db = new_cached("db", Some(1), 10000);
    let w = |k: &str, b: &Vec<u8>| store.write(k, b);
    db.save_encoded("a", encode(&1u64), &w).unwrap();
    db.save_encoded("b", encode(&2u64), &w).unwrap();
    for _ in 0..3 {
        db.load_encoded("b", &|k: &str| store.read(k)).unwrap();
    }
    store.blobs.borrow_mut().remove("b");
    db.resync(&|k: &str| store.read(k));
    assert!(!db.is_cached("a"));
    assert!(!db.is_cached("b"));
}

#[test]
fn capacity_eviction() {
    let store = MemStore::new();
    let mut db = new_cached("db", Some(2), 1000);
    let w = |k: &str, b: &Vec<u8>| store.write(k, b);
    let r = |k: &str| store.read(k);
    for key in ["a", "b", "c"] {
        db.save_encoded(key, encode(&key.to_owned()), &w).unwrap();
    }
    for (key, times) in [("a", 10), ("b", 5), ("c", 1)] {
        for _ in 0..times {
            db.load_encoded(key, &r).unwrap();
        }
    }
    db.resync(&r);
    assert!(db.is_cached("a"));
    assert!(db.is_cached("b"));
    assert!(!db.is_cached("c"));
}

#[test]
fn automatic_resync_after_interval() {
    let store = MemStore::new();
    let mut db = new_cached("db", Some(1), 2);
    let w = |k: &str, b: &Vec<u8>| store.write(k, b);
    let r = |k: &str| store.read(k);
    db.save_encoded("a", encode(&1u64), &w).unwrap();
    db.save_encoded("b", encode(&2u64), &w).unwrap();
    assert!(db.is_cached("a"));
    for _ in 0..3 {
        db.load_encoded("b", &r).unwrap();
    }
    assert!(db.is_cached("a"));
    // The fourth load passes the interval of two and refreshes first.
    db.load_encoded("b", &r).unwrap();
    assert!(db.is_cached("b"));
    assert!(!db.is_cached("a"));
}

#[test]
fn idempotent_delete() {
    let store = MemStore::new();
    let mut db = new_cached("db", None, 1000);
    let w = |k: &str, b: &Vec<u8>| store.write(k, b);
    db.save_encoded("kept", encode(&1u64), &w).unwrap();
    let rm = |k: &str| store.remove(k);
    let absent = db.delete_with("absent", &rm);
    assert!(absent.is_err());
    assert!(db.is_cached("kept"));
    assert_eq!(db.uses("kept"), Some(0));
    assert_eq!(db.uses("absent"), None);

    db.save_encoded("gone", encode(&2u64), &w).unwrap();
    assert!(db.delete_with("gone", &rm).is_ok());
    let _ = db.delete_with("gone", &rm);
    assert!(!db.is_cached("gone"));
    assert_eq!(db.uses("gone"), None);
    assert!(db.is_cached("kept"));
    assert!(!store.blobs.borrow().contains_key("gone"));
}

#[test]
fn load_of_missing_key_is_load_error() {
    let store = MemStore::new();
    let mut db = new_cached("db", None, 1000);
    let e = db.load_encoded("nothing", &|k: &str| store.read(k)).unwrap_err();
    assert_eq!(e.kind(), ErrorKind::Load);
    assert_eq!(e.cause(), "nothing not found");
}

#[test]
fn failed_write_changes_nothing() {
    let mut db = new_cached("db", None, 1000);
    let e = db
        .save_encoded("k", vec![1, 2], &|_k: &str, _b: &Vec<u8>| Err(DBError::save("disk full")))
        .unwrap_err();
    assert_eq!(e.kind(), ErrorKind::Save);
    assert!(!db.is_cached("k"));
    assert_eq!(db.uses("k"), None);
}

#[test]
fn empty_key_index_rejection() {
    let store = MemStore::new();
    let index_store = MemStore::new();
    let mut db = new_indexed::<u32>("db", None, 1000);
    let e = db
        .save_with_index(
            "",
            encode(&5u64),
            9,
            &|k: &str, b: &Vec<u8>| store.write(k, b),
            &|k: &str, r: &u32| index_store.write(k, &encode(r)),
        )
        .unwrap_err();
    assert_eq!(e.kind(), ErrorKind::Index);
    assert_eq!(store.writes.get(), 0);
    assert_eq!(index_store.writes.get(), 0);
    assert_eq!(db.get_index(""), None);
    assert_eq!(db.uses(""), None);
    assert!(!db.is_cached(""));
}

#[test]
fn add_index_rejects_empty_key() {
    let mut db = new_indexed::<u32>("db", None, 1000);
    let e = db.add_index("", 1, &|_k: &str, _r: &u32| Ok(())).unwrap_err();
    assert_eq!(e.kind(), ErrorKind::Index);
    assert_eq!(e.cause(), "Empty key");
}

#[derive(Clone, Debug, PartialEq)]
struct Meta {
    tag: String,
    size: u32,
}

#[test]
fn search_with_zero_and_many_matches() {
    let store = MemStore::new();
    let index_store = MemStore::new();
    let mut db = new_indexed::<Meta>("db", Some(2), 1000);
    let w = |k: &str, b: &Vec<u8>| store.write(k, b);
    let wi = |k: &str, m: &Meta| index_store.write(k, &encode(&(m.tag.clone(), m.size)));
    for (key, tag, size) in [("a", "red", 3), ("b", "blue", 10), ("c", "red", 12), ("d", "green", 1)] {
        db.save_with_index(key, encode(&size), Meta { tag: tag.to_owned(), size }, &w, &wi).unwrap();
    }
    let none = db.search_with(&|m: &Meta| m.tag == "black");
    assert!(none.is_empty());
    let mut red = db.search_with(&|m: &Meta| m.tag == "red");
    red.sort();
    assert_eq!(red, vec!["a".to_owned(), "c".to_owned()]);
    let mut big = db.search_with(&|m: &Meta| m.size >= 10);
    big.sort();
    assert_eq!(big, vec!["b".to_owned(), "c".to_owned()]);
    assert_eq!(db.search_with(&|_m: &Meta| true).len(), 4);
    assert_eq!(index_store.writes.get(), 4);
}

#[test]
fn edit_and_delete_index() {
    let index_store = MemStore::new();
    let mut db = new_indexed::<u32>("db", None, 1000);
    let wi = |k: &str, r: &u32| index_store.write(k, &encode(r));
    db.add_index("k", 4, &wi).unwrap();
    assert_eq!(db.get_index("k"), Some(&4));
    db.edit_index("k", |r: &u32| r * 10, &wi).unwrap();
    assert_eq!(db.get_index("k"), Some(&40));
    let stored: u32 = decode(&index_store.blobs.borrow()["k"]);
    assert_eq!(stored, 40);

    let missing = db.edit_index("other", |r: &u32| r + 1, &wi).unwrap_err();
    assert_eq!(missing.kind(), ErrorKind::Index);
    assert_eq!(missing.cause(), "key other not found when attempting to edit its index");

    // A failed write keeps the old record.
    let failed = db.edit_index("k", |r: &u32| r + 1, &|_k: &str, _r: &u32| Err(DBError::save("no")));
    assert!(failed.is_err());
    assert_eq!(db.get_index("k"), Some(&40));

    db.delete_index("k", &|k: &str| index_store.remove(k)).unwrap();
    assert_eq!(db.get_index("k"), None);
    assert!(index_store.blobs.borrow().is_empty());
    assert!(db.delete_index("", &|k: &str| index_store.remove(k)).is_ok());
}

#[test]
fn indexed_delete_removes_value_and_record() {
    let store = MemStore::new();
    let index_store = MemStore::new();
    let mut db = new_indexed::<u32>("db", None, 1000);
    let w = |k: &str, b: &Vec<u8>| store.write(k, b);
    let wi = |k: &str, r: &u32| index_store.write(k, &encode(r));
    db.save_with_index("k", encode(&1u64), 7, &w, &wi).unwrap();
    db.save_encoded("plain", encode(&2u64), &w).unwrap();
    let r = db.delete_with("k", &|k: &str| store.remove(k), &|k: &str| index_store.remove(k));
    assert!(r.is_ok());
    assert_eq!(db.get_index("k"), None);
    assert!(!db.is_cached("k"));
    assert!(store.blobs.borrow().get("k").is_none());
    assert!(index_store.blobs.borrow().is_empty());
    // A key without a record leaves the index files alone.
    let r = db.delete_with("plain", &|k: &str| store.remove(k), &|k: &str| index_store.remove(k));
    assert!(r.is_ok());
}

#[test]
fn attach_loaded_restores_records() {
    let mut db = new_indexed::<u32>("db", None, 10);
    db.attach_loaded("x", 1);
    db.attach_loaded("y", 2);
    db.attach_loaded("x", 3);
    assert_eq!(db.get_index("x"), Some(&3));
    assert_eq!(db.get_index("y"), Some(&2));
    assert_eq!(db.search_with(&|r: &u32| *r > 1).len(), 2);
    assert_eq!(db.location(), "db");
}

#[test]
fn counters_rebase_by_five() {
    let mut counts = CacheCount::new();
    counts.add_tracker("x".to_owned());
    counts.add_tracker("y".to_owned());
    for _ in 0..12 {
        assert!(counts.increase_use("x"));
    }
    for _ in 0..4 {
        counts.increase_use("y");
    }
    assert!(!counts.increase_use("z"));
    assert_eq!(counts.get("z"), None);
    counts.reset();
    assert_eq!(counts.get("x"), Some(2));
    assert_eq!(counts.get("y"), Some(0));
    counts.del_tracker("x");
    assert_eq!(counts.get("x"), None);
    counts.del_tracker("x");
    assert_eq!(counts.get("y"), Some(0));
}

#[test]
fn cache_tracks_and_signals_resync() {
    let mut cache = Cache::new(Some(4), 2);
    cache.add_tracker("k".to_owned());
    assert!(cache.increase_use("k"));
    assert!(!cache.should_resync());
    cache.timer = 3;
    assert!(cache.should_resync());
    assert_eq!(cache.count.get("k"), Some(1));
    assert!(cache.lookup("k").is_none());
    cache.record_save("k", vec![9, 8]);
    assert_eq!(cache.lookup("k"), Some(&vec![9, 8]));
    assert_eq!(cache.count.get("k"), Some(0));
    cache.forget("k");
    assert!(cache.lookup("k").is_none());
}

#[test]
fn rank_top_orders_largest_first() {
    let counts = vec![5u64, 9, 1, 9, 3];
    let none = vec![false; 5];
    let top = rank_top(&counts, &none, Some(3));
    assert_eq!(top.len(), 3);
    assert_eq!(counts[top[0]], 9);
    assert_eq!(counts[top[1]], 9);
    assert_eq!(top[2], 0);
    assert_eq!(rank_top(&counts, &none, None).len(), 5);
    assert_eq!(rank_top(&counts, &none, Some(0)).len(), 0);
    assert_eq!(rank_top(&counts, &none, Some(10)).len(), 5);
    assert!(rank_top(&Vec::new(), &Vec::new(), Some(2)).is_empty());
}

#[test]
fn rank_top_prefers_marked_on_ties() {
    let counts = vec![2u64, 2, 2, 1];
    let marked = vec![false, false, true, true];
    assert_eq!(rank_top(&counts, &marked, Some(1)), vec![2]);
    let two = rank_top(&counts, &marked, Some(2));
    assert_eq!(two[0], 2);
    assert!(two[1] == 0 || two[1] == 1);
    // A larger count still wins over a marked position.
    assert_eq!(rank_top(&vec![1u64, 3], &vec![true, false], Some(1)), vec![1]);
}

#[test]
fn resync_keeps_cached_keys_on_ties() {
    let store = MemStore::new();
    let mut db = new_cached("db", Some(2), 1000);
    let w = |k: &str, b: &Vec<u8>| store.write(k, b);
    for i in 0..50u64 {
        db.save_encoded(&i.to_string(), encode(&i), &w).unwrap();
    }
    for _ in 0..20 {
        db.resync(&|k: &str| store.read(k));
        assert!(db.is_cached("0") && db.is_cached("1"));
    }
    assert_eq!(store.reads.get(), 0);
}

#[test]
fn error_kinds_and_time() {
    let cases = [
        (DBError::save("a"), ErrorKind::Save, "save"),
        (DBError::load("b"), ErrorKind::Load, "load"),
        (DBError::delete("c"), ErrorKind::Delete, "delete"),
        (DBError::index("d"), ErrorKind::Index, "index"),
    ];
    for (e, kind, name) in cases {
        assert_eq!(e.kind(), kind);
        assert_eq!(kind.name(), name);
        assert!(e.when.hour < 24 && e.when.minute < 60 && e.when.second < 60);
    }
    assert_eq!(DBError::save("why").cause(), "why");
}

#[test]
fn simple_database_location() {
    let db = new("some/where");
    assert_eq!(db.location(), "some/where");
}

#[test]
fn zero_capacity_caches_nothing() {
    let store = MemStore::new();
    let mut db = new_cached("db", Some(0), 1);
    let w = |k: &str, b: &Vec<u8>| store.write(k, b);
    let r = |k: &str| store.read(k);
    db.save_encoded("a", encode(&1u64), &w).unwrap();
    db.save_encoded("b", encode(&2u64), &w).unwrap();
    assert!(!db.is_cached("a") && !db.is_cached("b"));
    for _ in 0..5 {
        let v: u64 = decode(&db.load_encoded("a", &r).unwrap());
        assert_eq!(v, 1);
    }
    assert!(!db.is_cached("a") && !db.is_cached("b"));
    assert_eq!(store.reads.get(), 5);
}

#[test]
fn cache_never_exceeds_capacity() {
    let store = MemStore::new();
    let mut db = new_cached("db", Some(2), 3);
    let w = |k: &str, b: &Vec<u8>| store.write(k, b);
    let r = |k: &str| store.read(k);
    let keys = ["k0", "k1", "k2", "k3", "k4"];
    for (i, key) in keys.iter().enumerate() {
        db.save_encoded(key, encode(&(i as u64)), &w).unwrap();
        assert!(keys.iter().filter(|k| db.is_cached(k)).count() <= 2);
    }
    for round in 0..30 {
        let key = keys[round % 5];
        let v: u64 = decode(&db.load_encoded(key, &r).unwrap());
        assert_eq!(v, (round % 5) as u64);
        assert!(keys.iter().filter(|k| db.is_cached(k)).count() <= 2);
    }
    let _ = db.delete_with("k0", &|k: &str| store.remove(k));
    db.save_encoded("k5", encode(&5u64), &w).unwrap();
    assert!(keys.iter().chain(["k5"].iter()).filter(|k| db.is_cached(k)).count() <= 2);
}
