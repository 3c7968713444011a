use pastebin_server::config::{CacheConfig, Config, RedisConfig, SecurityConfig, ServerConfig};
use pastebin_server::dto::{FindRecordInput, SaveRecordInput};
use pastebin_server::error::PastebinErrorCode;
use pastebin_server::svc::PastebinService;

fn config(cache: bool, anti_bot: bool, block_rules: Option<Vec<String>>) -> Config {
    Config {
        server: ServerConfig {
            bind_addr: "127.0.0.1:8888".to_owned(),
            host_addr: "localhost:8888".to_owned(),
        },
        security: SecurityConfig {
            secret_key: "asdf".to_owned(),
            max_body_length: 1024,
            max_title_chars: 32,
            max_expiration_seconds: 600,
            max_qps: 100,
            block_rules,
            anti_bot,
        },
        redis: RedisConfig {
            url: "redis://localhost".to_owned(),
            key_prefix: "pastebin".to_owned(),
            max_open_connections: 20,
        },
        cache: if cache {
            Some(CacheConfig { update_duration_seconds: 2, capacity: 64 })
        } else {
            None
        },
    }
}

fn save_input(title: &str, lang: &str, content: &str, ttl: u32) -> SaveRecordInput {
    SaveRecordInput {
        title: title.to_owned(),
        lang: lang.to_owned(),
        content: content.to_owned(),
        expiration_seconds: ttl,
    }
}

#[test]
fn save_then_find_within_ttl_then_not_found_after() {
    for with_cache in [false, true] {
        let mut svc = PastebinService::new(config(with_cache, false, None)).unwrap();
        let now = 1000;
        let out = svc.save_record(save_input("t", "go", "hello", 60), now).unwrap();
        let key_str = out.key.as_str().to_owned();

        let found = svc.find_record(FindRecordInput { key: key_str.clone() }, now + 30).unwrap();
        assert_eq!(found.view_count, 1);
        assert_eq!(found.record.title, "t");
        assert_eq!(found.record.lang, "go");
        assert_eq!(found.record.content, "hello");
        assert_eq!(found.record.expiration_seconds, 60);
        assert_eq!(found.record.saving_time.seconds(), now);

        let gone = svc.find_record(FindRecordInput { key: key_str }, now + 60);
        assert_eq!(gone.unwrap_err().code, PastebinErrorCode::NotFound);
    }
}

#[test]
fn find_counts_rise_across_reads() {
    let mut svc = PastebinService::new(config(true, false, None)).unwrap();
    let out = svc.save_record(save_input("t", "go", "hello", 60), 1000).unwrap();
    let key_str = out.key.as_str().to_owned();
    for expected in 1..=5u64 {
        let found = svc.find_record(FindRecordInput { key: key_str.clone() }, 1000).unwrap();
        assert_eq!(found.view_count, expected);
    }
}

#[test]
fn find_accepts_any_letter_case() {
    let mut svc = PastebinService::new(config(true, false, None)).unwrap();
    let out = svc.save_record(save_input("t", "go", "hello", 60), 1000).unwrap();
    let upper = out.key.as_str().to_ascii_uppercase();
    let found = svc.find_record(FindRecordInput { key: upper }, 1000).unwrap();
    assert_eq!(found.record.content, "hello");
}

#[test]
fn too_long_expiration_is_refused_before_any_write() {
    let mut svc = PastebinService::new(config(true, false, None)).unwrap();
    let err = svc.save_record(save_input("t", "go", "hello", 601), 1000).unwrap_err();
    assert_eq!(err.code, PastebinErrorCode::TooLongExpirations);
    assert_eq!(err.message, "TooLongExpirations");
    // the boundary value is still accepted
    assert!(svc.save_record(save_input("t", "go", "hello", 600), 1000).is_ok());
}

#[test]
fn too_long_title_and_content_are_refused() {
    let mut svc = PastebinService::new(config(false, false, None)).unwrap();
    let long_title = "x".repeat(33);
    let err = svc.save_record(save_input(&long_title, "go", "hello", 60), 1000).unwrap_err();
    assert_eq!(err.code, PastebinErrorCode::TooLongTitle);
    let long_content = "y".repeat(1025);
    let err2 = svc.save_record(save_input("t", "go", &long_content, 60), 1000).unwrap_err();
    assert_eq!(err2.code, PastebinErrorCode::TooLongContent);
}

#[test]
fn bad_key_is_refused_without_lookup() {
    let mut svc = PastebinService::new(config(true, false, None)).unwrap();
    let err = svc.find_record(FindRecordInput { key: "not-a-key".to_owned() }, 1000).unwrap_err();
    assert_eq!(err.code, PastebinErrorCode::BadKey);
    assert_eq!(err.message, "BadKey");
}

#[test]
fn valid_but_absent_key_is_not_found() {
    let mut svc = PastebinService::new(config(true, false, None)).unwrap();
    // a key minted by the same codec that was never saved
    let crypto = pastebin_server::crypto::Crypto::new("asdf");
    let key = crypto.encode_id(424242);
    let err = svc.find_record(FindRecordInput { key: key.as_str().to_owned() }, 1000).unwrap_err();
    assert_eq!(err.code, PastebinErrorCode::NotFound);
}

#[test]
fn blocked_input_gets_a_key_but_nothing_is_stored() {
    let rules = Some(vec!["forbidden".to_owned()]);
    let mut svc = PastebinService::new(config(true, false, rules)).unwrap();
    let out = svc.save_record(save_input("t", "go", "very forbidden text", 60), 1000).unwrap();
    let err = svc.find_record(FindRecordInput { key: out.key.as_str().to_owned() }, 1000).unwrap_err();
    assert_eq!(err.code, PastebinErrorCode::NotFound);
    // an inoffensive input passes the same rules
    let ok = svc.save_record(save_input("t", "go", "hello", 60), 1000).unwrap();
    assert!(svc.find_record(FindRecordInput { key: ok.key.as_str().to_owned() }, 1000).is_ok());
}

#[test]
fn invalid_block_pattern_refuses_construction() {
    let rules = Some(vec!["(unclosed".to_owned()]);
    assert!(PastebinService::new(config(false, false, rules)).is_err());
}

#[test]
fn unconfirmed_save_deactivates() {
    let mut svc = PastebinService::new(config(false, true, None)).unwrap();
    let out = svc.save_record(save_input("t", "go", "hello", 60), 1000).unwrap();
    // the delay elapses with no confirming find: the key is deleted
    assert!(svc.deactivate_new_key(&out.key, 1000));
    let err = svc.find_record(FindRecordInput { key: out.key.as_str().to_owned() }, 1000).unwrap_err();
    assert_eq!(err.code, PastebinErrorCode::NotFound);
}

#[test]
fn confirmed_save_survives_deactivation() {
    let mut svc = PastebinService::new(config(false, true, None)).unwrap();
    let out = svc.save_record(save_input("t", "go", "hello", 60), 1000).unwrap();
    let key_str = out.key.as_str().to_owned();
    // a find confirms the key: the pending deactivation is cancelled
    assert!(svc.find_record(FindRecordInput { key: key_str.clone() }, 1000).is_ok());
    assert!(!svc.deactivate_new_key(&out.key, 1000));
    assert!(svc.find_record(FindRecordInput { key: key_str }, 1000).is_ok());
}

#[test]
fn distinct_saves_get_distinct_keys() {
    let mut svc = PastebinService::new(config(false, false, None)).unwrap();
    let a = svc.save_record(save_input("a", "go", "one", 60), 1000).unwrap();
    let b = svc.save_record(save_input("b", "go", "two", 60), 1000).unwrap();
    assert_ne!(a.key.as_str(), b.key.as_str());
    let fa = svc.find_record(FindRecordInput { key: a.key.as_str().to_owned() }, 1000).unwrap();
    let fb = svc.find_record(FindRecordInput { key: b.key.as_str().to_owned() }, 1000).unwrap();
    assert_eq!(fa.record.content, "one");
    assert_eq!(fb.record.content, "two");
}

#[test]
fn reconciliation_keeps_reported_counts_rising() {
    let mut svc = PastebinService::new(config(true, false, None)).unwrap();
    let out = svc.save_record(save_input("t", "go", "hello", 60), 1000).unwrap();
    let key_str = out.key.as_str().to_owned();
    for expected in 1..=3u64 {
        let found = svc.find_record(FindRecordInput { key: key_str.clone() }, 1000).unwrap();
        assert_eq!(found.view_count, expected);
    }
    // draining the pending hits into the store must not lower what a
    // reader sees
    svc.reconcile_cache(1000);
    let found = svc.find_record(FindRecordInput { key: key_str.clone() }, 1000).unwrap();
    assert_eq!(found.view_count, 4);
    // a second cycle with one new hit keeps counting
    svc.reconcile_cache(1000);
    let found = svc.find_record(FindRecordInput { key: key_str }, 1000).unwrap();
    assert_eq!(found.view_count, 5);
}
