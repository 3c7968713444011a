use pastebin_server::limiter::{TokenBucket, consume_next, refill_next};

#[test]
fn ten_consumes_against_capacity_five() {
    let mut bucket = TokenBucket::new(1, 5, 5);
    bucket.refill();
    let mut admitted = 0;
    let mut denied = 0;
    for _ in 0..10 {
        if bucket.consume() {
            admitted += 1;
        } else {
            denied += 1;
        }
    }
    assert_eq!(admitted, 5);
    assert_eq!(denied, 5);
}

#[test]
fn exhausted_bucket_denies_until_refill() {
    let mut bucket = TokenBucket::new(1, 3, 3);
    bucket.refill();
    for _ in 0..3 {
        assert!(bucket.consume());
    }
    // drained: one more consume is denied
    assert!(!bucket.consume());
    // one period's refill makes `amount` tokens available again
    bucket.refill();
    for _ in 0..3 {
        assert!(bucket.consume());
    }
    assert!(!bucket.consume());
}

#[test]
fn refill_saturates_at_capacity() {
    let mut bucket = TokenBucket::new(1, 10, 4);
    bucket.refill();
    bucket.refill();
    let mut admitted = 0;
    for _ in 0..100 {
        if bucket.consume() {
            admitted += 1;
        }
    }
    assert_eq!(admitted, 4);
}

#[test]
fn fresh_bucket_is_empty() {
    let mut bucket = TokenBucket::new(1, 5, 5);
    assert!(!bucket.consume());
}

#[test]
fn cas_step_values() {
    assert_eq!(consume_next(0), None);
    assert_eq!(consume_next(1), Some(0));
    assert_eq!(consume_next(10), Some(9));
    assert_eq!(refill_next(0, 5, 3), 3);
    assert_eq!(refill_next(2, 5, 10), 7);
    assert_eq!(refill_next(10, 1, 10), 10);
    assert_eq!(refill_next(u64::MAX, u64::MAX, u64::MAX), u64::MAX);
}
