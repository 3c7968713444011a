use pastebin_server::crypto::Crypto;
use pastebin_server::dto::Record;
use pastebin_server::store::MemStore;
use pastebin_server::time::UnixTimestamp;

fn record(title: &str, content: &str, ttl: u32, now: u64) -> Record {
    Record {
        title: title.to_owned(),
        lang: "go".to_owned(),
        content: content.to_owned(),
        expiration_seconds: ttl,
        saving_time: UnixTimestamp::from_seconds(now),
    }
}

#[test]
fn save_then_access_counts_one() {
    let crypto = Crypto::new("asdf");
    let mut store = MemStore::new();
    let key = crypto.encode_id(1);
    let now = 1000;
    store.save(&key, &record("t", "hello", 60, now), 60, now);
    let (rec, count) = store.access(&key, now).unwrap();
    assert_eq!(count, 1);
    assert_eq!(rec.title, "t");
    assert_eq!(rec.content, "hello");
    assert_eq!(rec.lang, "go");
    assert_eq!(rec.expiration_seconds, 60);
}

#[test]
fn repeated_accesses_accumulate() {
    let crypto = Crypto::new("asdf");
    let mut store = MemStore::new();
    let key = crypto.encode_id(2);
    store.save(&key, &record("t", "c", 60, 1000), 60, 1000);
    for expected in 1..=10u64 {
        let (_, count) = store.access(&key, 1000).unwrap();
        assert_eq!(count, expected);
    }
}

#[test]
fn expired_key_reads_as_absent() {
    let crypto = Crypto::new("asdf");
    let mut store = MemStore::new();
    let key = crypto.encode_id(3);
    store.save(&key, &record("t", "c", 60, 1000), 60, 1000);
    assert!(store.access(&key, 1059).is_some());
    assert!(store.access(&key, 1060).is_none());
    assert!(store.access(&key, 2000).is_none());
    assert!(!store.exists_key(&key, 1060));
}

#[test]
fn absent_key_reads_as_none() {
    let crypto = Crypto::new("asdf");
    let mut store = MemStore::new();
    let key = crypto.encode_id(4);
    assert!(store.access(&key, 0).is_none());
    assert!(!store.exists_key(&key, 0));
}

#[test]
fn incr_view_adds_delta() {
    let crypto = Crypto::new("asdf");
    let mut store = MemStore::new();
    let key = crypto.encode_id(5);
    store.save(&key, &record("t", "c", 60, 1000), 60, 1000);
    assert_eq!(store.incr_view(&key, 7, 1000), Some(7));
    assert_eq!(store.incr_view(&key, 3, 1000), Some(10));
    let (_, count) = store.access(&key, 1000).unwrap();
    assert_eq!(count, 11);
    let other = crypto.encode_id(6);
    assert_eq!(store.incr_view(&other, 1, 1000), None);
}

#[test]
fn delete_reports_liveness() {
    let crypto = Crypto::new("asdf");
    let mut store = MemStore::new();
    let key = crypto.encode_id(7);
    store.save(&key, &record("t", "c", 60, 1000), 60, 1000);
    assert!(store.delete(&key, 1000));
    assert!(store.access(&key, 1000).is_none());
    assert!(!store.delete(&key, 1000));
}

#[test]
fn save_overwrites_whole_entry() {
    let crypto = Crypto::new("asdf");
    let mut store = MemStore::new();
    let key = crypto.encode_id(8);
    store.save(&key, &record("old", "old", 60, 1000), 60, 1000);
    let _ = store.access(&key, 1000);
    store.save(&key, &record("new", "new", 120, 1000), 120, 1000);
    let (rec, count) = store.access(&key, 1000).unwrap();
    assert_eq!(count, 1);
    assert_eq!(rec.title, "new");
}
