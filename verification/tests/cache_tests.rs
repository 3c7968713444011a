use pastebin_server::cache::RecordCache;
use pastebin_server::store::MemStore;
use pastebin_server::crypto::Crypto;
use pastebin_server::dto::Record;
use pastebin_server::time::UnixTimestamp;

fn record(title: &str, now: u64) -> Record {
    Record {
        title: title.to_owned(),
        lang: "go".to_owned(),
        content: "hello".to_owned(),
        expiration_seconds: 60,
        saving_time: UnixTimestamp::from_seconds(now),
    }
}

#[test]
fn seed_then_hit_counts_one() {
    let crypto = Crypto::new("asdf");
    let mut cache = RecordCache::new(16);
    let key = crypto.encode_id(1);
    cache.force_update(&key, &record("t", 1000), 0, 1060, 1000);
    let (rec, count) = cache.access(&key, 1000).unwrap();
    assert_eq!(count, 1);
    assert_eq!(rec.title, "t");
    let (_, count2) = cache.access(&key, 1000).unwrap();
    assert_eq!(count2, 2);
}

#[test]
fn dead_seed_is_a_no_op() {
    let crypto = Crypto::new("asdf");
    let mut cache = RecordCache::new(16);
    let key = crypto.encode_id(2);
    cache.force_update(&key, &record("t", 1000), 5, 1000, 1000);
    assert!(cache.access(&key, 1000).is_none());
}

#[test]
fn expired_entry_reads_as_miss() {
    let crypto = Crypto::new("asdf");
    let mut cache = RecordCache::new(16);
    let key = crypto.encode_id(3);
    cache.force_update(&key, &record("t", 1000), 0, 1060, 1000);
    assert!(cache.access(&key, 1059).is_some());
    assert!(cache.access(&key, 1060).is_none());
}

#[test]
fn seed_never_regresses_a_count() {
    let crypto = Crypto::new("asdf");
    let mut cache = RecordCache::new(16);
    let key = crypto.encode_id(4);
    cache.force_update(&key, &record("t", 1000), 9, 1060, 1000);
    // a stale backfill with a lower count must not lower the observation
    cache.force_update(&key, &record("t", 1000), 3, 1030, 1000);
    let (_, count) = cache.access(&key, 1000).unwrap();
    assert_eq!(count, 10);
    // nor may it shorten the entry's life
    assert!(cache.access(&key, 1050).is_some());
}

#[test]
fn reconcile_drains_once_and_is_idempotent() {
    let crypto = Crypto::new("asdf");
    let mut cache = RecordCache::new(16);
    let key = crypto.encode_id(5);
    cache.force_update(&key, &record("t", 1000), 0, 2000, 1000);
    let _ = cache.access(&key, 1000);
    let _ = cache.access(&key, 1000);
    let _ = cache.access(&key, 1000);
    let flush = cache.reconcile();
    assert_eq!(flush.len(), 1);
    assert_eq!(flush[0].0.as_str(), key.as_str());
    assert_eq!(flush[0].1, 3);
    // the reported count is unchanged by the drain: the delta moved
    // into the reconciled count
    let (_, count) = cache.access(&key, 1000).unwrap();
    assert_eq!(count, 4);
    let _ = cache.reconcile();
    // a second pass with no new hits flushes nothing
    let flush2 = cache.reconcile();
    assert!(flush2.is_empty());
    let (_, count2) = cache.access(&key, 1000).unwrap();
    assert_eq!(count2, 5);
}

#[test]
fn eviction_keeps_live_entries_at_or_below_capacity() {
    let crypto = Crypto::new("asdf");
    let mut cache = RecordCache::new(8);
    let mut keys = Vec::new();
    for id in 0..8u32 {
        let key = crypto.encode_id(id);
        cache.force_update(&key, &record("t", 1000), 0, 2000, 1000);
        keys.push(key);
    }
    cache.evict(1000);
    // at capacity, the random draw can never fall outside it: every
    // live entry survives
    for key in &keys {
        assert!(cache.access(key, 1000).is_some());
    }
}

#[test]
fn eviction_always_removes_expired_entries() {
    let crypto = Crypto::new("asdf");
    let mut cache = RecordCache::new(8);
    let dead = crypto.encode_id(100);
    let live = crypto.encode_id(101);
    cache.force_update(&dead, &record("d", 1000), 0, 1500, 1000);
    cache.force_update(&live, &record("l", 1000), 0, 9000, 1000);
    cache.evict(1500);
    assert!(cache.access(&dead, 1000).is_none());
    assert!(cache.access(&live, 1600).is_some());
    // once evicted, a fresh seed may resurrect the key
    cache.force_update(&dead, &record("d", 1600), 0, 9000, 1600);
    assert!(cache.access(&dead, 1600).is_some());
}

#[test]
fn reconciliation_coalesces_hits_into_one_store_write() {
    let crypto = Crypto::new("asdf");
    let mut store = MemStore::new();
    let mut cache = RecordCache::new(8);
    let key = crypto.encode_id(9);
    let rec = record("t", 1000);
    store.save(&key, &rec, 60, 1000);
    cache.force_update(&key, &rec, 0, 1060, 1000);
    for _ in 0..3 {
        assert!(cache.access(&key, 1000).is_some());
    }
    let flush = cache.reconcile();
    assert_eq!(flush.len(), 1);
    for (k, delta) in &flush {
        assert_eq!(store.incr_view(k, *delta, 1000), Some(3));
    }
    // the store read counts itself on top of the three coalesced hits
    let (_, count) = store.access(&key, 1000).unwrap();
    assert_eq!(count, 4);
}
