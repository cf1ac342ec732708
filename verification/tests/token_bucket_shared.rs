use rate_limiters::limiter::RateLimiterShared;
use rate_limiters::token_bucket::TokenBucketShared;
use std::sync::Arc;
use std::time::Duration;
use std::time::Instant;

fn wait(span: Duration) {
    let start = Instant::now();
    while start.elapsed() < span {
        std::hint::spin_loop();
    }
}

fn shareable<T: Send + Sync>(_: &T) {}

#[test]
fn try_acquire_basic() {
    let bucket = TokenBucketShared::new(10, 1);

    assert!(bucket.try_acquire(5));
    assert!(bucket.try_acquire(5));

    assert!(!bucket.try_acquire(1));
}

#[test]
fn try_acquire_with_refill_after_delay() {
    let bucket = TokenBucketShared::new(10, 1);
    assert!(bucket.try_acquire(10));

    wait(Duration::from_secs(1));
    assert!(bucket.try_acquire(1));
    assert!(!bucket.try_acquire(1));
}

#[test]
fn token_bucket_shared_zero_rate_admits_exactly_the_capacity() {
    let bucket = Arc::new(TokenBucketShared::new(10, 0));
    shareable(&bucket);
    let mut admitted = 0;
    for _ in 0..20 {
        let handle = Arc::clone(&bucket);
        if handle.try_acquire(1) {
            admitted += 1;
        }
    }
    assert_eq!(admitted, 10);
    assert_eq!(bucket.get_limit(), 10);
    assert_eq!(bucket.get_used(), 10);
    assert_eq!(bucket.get_remaining(), 0);
    assert_eq!(bucket.get_reset(), u64::MAX);
    bucket.refresh();
    assert_eq!(bucket.get_remaining(), 0);
}

#[test]
fn token_bucket_shared_edges() {
    let bucket = TokenBucketShared::new(3, 0);
    assert!(bucket.try_acquire(0));
    assert!(!bucket.try_acquire(4));
    assert_eq!(bucket.get_remaining(), 3);
    assert!(bucket.try_acquire(3));
    assert!(bucket.try_acquire(0));
    assert!(!bucket.try_acquire(1));
}
