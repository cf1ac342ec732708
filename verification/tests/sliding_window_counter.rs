use rate_limiters::limiter::RateLimiter;
use rate_limiters::limiter::RateLimiterShared;
use rate_limiters::sliding_window_counter::SlidingWindowCounter;
use rate_limiters::sliding_window_counter::SlidingWindowCounterShared;
use std::time::Duration;
use std::time::Instant;
use std::time::SystemTime;
use std::time::UNIX_EPOCH;

const SEC: u64 = 1_000_000_000;

fn idle(span: Duration) {
    let start = Instant::now();
    while start.elapsed() < span {
        std::hint::spin_loop();
    }
}

fn since_epoch() -> Duration {
    SystemTime::now().duration_since(UNIX_EPOCH).unwrap()
}

/// Waits until the wall clock is in the first part of a second, so that the
/// few steps that follow fall into that same second.
fn early_in_second() {
    while since_epoch().subsec_millis() >= 300 {
        std::hint::spin_loop();
    }
}

#[test]
fn sliding_window_counter_tests_basic_test() {
    early_in_second();
    let now_unix = since_epoch().as_secs();

    let mut bucket = SlidingWindowCounter::new(10, 2);
    assert_eq!(bucket.get_limit(), 10);
    assert_eq!(bucket.get_remaining(), 10);
    assert_eq!(bucket.get_used(), 0);
    assert!(bucket.get_reset() >= now_unix);

    assert!(bucket.try_acquire(5));
    assert_eq!(bucket.get_limit(), 10);
    assert_eq!(bucket.get_remaining(), 5);
    assert_eq!(bucket.get_used(), 5);
    let diff = bucket.get_reset() - now_unix;
    assert_eq!(diff, 2);

    assert!(bucket.try_acquire(5));
    assert_eq!(bucket.get_limit(), 10);
    assert_eq!(bucket.get_remaining(), 0);
    assert_eq!(bucket.get_used(), 10);
    let diff = bucket.get_reset() - now_unix;
    assert_eq!(diff, 2);

    assert!(!bucket.try_acquire(1));
    assert_eq!(bucket.get_limit(), 10);
    assert_eq!(bucket.get_remaining(), 0);
    assert_eq!(bucket.get_used(), 10);
    let diff = bucket.get_reset() - now_unix;
    assert_eq!(diff, 2);

    idle(Duration::from_secs(1));
    bucket.refresh();
    assert_eq!(bucket.get_limit(), 10);
    assert_eq!(bucket.get_remaining(), 0);
    assert_eq!(bucket.get_used(), 10);
    let diff = bucket.get_reset() - now_unix;
    assert_eq!(diff, 2);

    idle(Duration::from_secs(1));
    bucket.refresh();
    assert_eq!(bucket.get_limit(), 10);
    assert_eq!(bucket.get_remaining(), 10);
    assert_eq!(bucket.get_used(), 0);
    let diff = bucket.get_reset() - now_unix;
    assert_eq!(diff, 2);
}

#[test]
fn sliding_counter_starts_idle() {
    let counter = SlidingWindowCounter::new(4, 9);
    assert_eq!(counter.get_limit(), 4);
    assert_eq!(counter.get_remaining(), 4);
    assert_eq!(counter.get_used(), 0);
}

#[test]
fn sliding_counter_entry_stays_while_its_age_is_no_more_than_the_window() {
    let mut counter = SlidingWindowCounter::new(2, 1);
    assert!(counter.try_acquire_at(0, 1));
    assert!(counter.try_acquire_at(5, 1));
    // At exactly one second the first entry is still in the window.
    assert!(!counter.try_acquire_at(SEC, 1));
    assert_eq!(counter.get_used(), 2);
    // One nanosecond later it is gone, the second one is not.
    assert!(counter.try_acquire_at(SEC + 1, 1));
    assert_eq!(counter.get_used(), 2);
    assert!(!counter.try_acquire_at(SEC + 5, 1));
    assert!(counter.try_acquire_at(SEC + 6, 1));
}

#[test]
fn sliding_counter_enters_one_entry_for_each_unit() {
    let mut counter = SlidingWindowCounter::new(10, 2);
    assert!(counter.try_acquire_at(0, 3));
    assert_eq!(counter.get_used(), 3);
    assert_eq!(counter.get_remaining(), 7);
    assert!(counter.try_acquire_at(SEC, 4));
    assert_eq!(counter.get_used(), 7);
    assert!(!counter.try_acquire_at(SEC, 4));
    assert_eq!(counter.get_used(), 7);
    // The three entries of time 0 leave together.
    counter.refresh_at(2 * SEC + 1);
    assert_eq!(counter.get_used(), 4);
    assert_eq!(counter.get_remaining(), 6);
    counter.refresh_at(3 * SEC + 1);
    assert_eq!(counter.get_used(), 0);
    assert_eq!(counter.get_remaining(), 10);
}

#[test]
fn sliding_counter_no_units_are_always_admitted() {
    let mut counter = SlidingWindowCounter::new(2, 5);
    assert!(counter.try_acquire_at(0, 0));
    assert_eq!(counter.get_used(), 0);
    assert!(counter.try_acquire_at(0, 2));
    assert!(counter.try_acquire_at(1, 0));
    assert_eq!(counter.get_used(), 2);
    assert_eq!(counter.reset_at(0, 0), 5);
    assert_eq!(counter.reset_at(1, 0), 4);
    let mut none = SlidingWindowCounter::new(0, 5);
    assert!(none.try_acquire_at(0, 0));
    assert!(!none.try_acquire_at(0, 1));
}

#[test]
fn sliding_counter_more_than_the_capacity_is_never_admitted() {
    let mut counter = SlidingWindowCounter::new(3, 1);
    assert!(!counter.try_acquire_at(0, 4));
    assert_eq!(counter.get_used(), 0);
    assert!(!counter.try_acquire_at(0, u32::MAX));
    assert!(counter.try_acquire_at(0, 3));
    assert!(!counter.try_acquire_at(100 * SEC, 4));
    assert_eq!(counter.get_used(), 0);
}

#[test]
fn sliding_counter_only_the_front_is_purged() {
    let mut counter = SlidingWindowCounter::new(3, 1);
    assert!(counter.try_acquire_at(10 * SEC, 1));
    // The clock runs backwards: the new entry is older than the one before it.
    assert!(counter.try_acquire_at(0, 1));
    assert_eq!(counter.get_used(), 2);
    // At 10.5 s the entry of time 0 is older than the window, but the front is not.
    counter.refresh_at(10 * SEC + SEC / 2);
    assert_eq!(counter.get_used(), 2);
    counter.refresh_at(11 * SEC + 1);
    assert_eq!(counter.get_used(), 0);
}

#[test]
fn sliding_counter_refresh_twice_is_refresh_once() {
    let mut once = SlidingWindowCounter::new(5, 1);
    let mut twice = SlidingWindowCounter::new(5, 1);
    for start in [0u64, 400_000_000, 800_000_000] {
        assert!(once.try_acquire_at(start, 1));
        assert!(twice.try_acquire_at(start, 1));
    }
    once.refresh_at(SEC + 400_000_000);
    twice.refresh_at(SEC + 400_000_000);
    twice.refresh_at(SEC + 400_000_000);
    assert_eq!(once.get_used(), 2);
    assert_eq!(twice.get_used(), 2);
    assert_eq!(once.reset_at(0, 0), twice.reset_at(0, 0));
}

#[test]
fn sliding_counter_used_and_remaining_make_up_the_limit() {
    let mut counter = SlidingWindowCounter::new(10, 2);
    let mut now: u64 = 0;
    for units in [3u32, 9, 0, 4, 2, 7, 1, 10] {
        counter.try_acquire_at(now, units);
        assert_eq!(counter.get_used() + counter.get_remaining(), counter.get_limit());
        now += 700_000_000;
    }
}

#[test]
fn sliding_counter_reset_is_when_the_oldest_entry_leaves() {
    let mut counter = SlidingWindowCounter::new(10, 2);
    let wall = 1_000 * SEC as u128;
    // With an empty queue it is the second that the wall clock reads.
    assert_eq!(counter.reset_at(0, wall + 999_999_999), 1_000);
    assert!(counter.try_acquire_at(SEC / 2, 1));
    assert!(counter.try_acquire_at(SEC, 1));
    // The oldest entry was made at 0.5 s and leaves at 2.5 s.
    assert_eq!(counter.reset_at(SEC, wall), 1_001);
    assert_eq!(counter.reset_at(SEC, wall + 500_000_000), 1_002);
    assert_eq!(counter.reset_at(2 * SEC, wall + 499_999_999), 1_000);
    // Once that moment has passed it is the second of the wall clock.
    assert_eq!(counter.reset_at(3 * SEC, wall), 1_000);
    assert_eq!(counter.reset_at(0, wall), 1_002);
}

#[test]
fn sliding_counter_reset_with_the_longest_window_and_the_latest_clock() {
    let mut counter = SlidingWindowCounter::new(1, u64::MAX);
    assert!(counter.try_acquire_at(u64::MAX, 1));
    assert_eq!(counter.reset_at(0, 0), u64::MAX);
    assert_eq!(counter.reset_at(u64::MAX, u128::MAX), u64::MAX);
    assert!(!counter.try_acquire_at(u64::MAX, 1));
}

#[test]
fn sliding_counter_shared_sequence() {
    let counter = SlidingWindowCounterShared::new(10, 3600);
    assert_eq!(counter.get_limit(), 10);
    assert!(counter.try_acquire(0));
    assert!(!counter.try_acquire(11));
    assert!(counter.try_acquire(5));
    assert!(counter.try_acquire(5));
    assert!(!counter.try_acquire(1));
    counter.refresh();
    assert_eq!(counter.get_used(), 10);
    assert_eq!(counter.get_remaining(), 0);
    let now_unix = since_epoch().as_secs();
    let reset = counter.get_reset();
    assert!(reset >= now_unix + 3598 && reset <= now_unix + 3601);
}

#[test]
fn sliding_counter_shared_admits_exactly_the_capacity() {
    let counter = SlidingWindowCounterShared::new(10, 3600);
    let mut admitted = 0;
    for _ in 0..20 {
        if counter.try_acquire(1) {
            admitted += 1;
        }
    }
    assert_eq!(admitted, 10);
}

#[test]
fn sliding_counter_grants_the_capacity_in_any_window() {
    let mut counter = SlidingWindowCounter::new(3, 2);
    let mut granted: Vec<u64> = Vec::new();
    // One unit every quarter of a second, from 0 s to 10 s.
    for step in 0..41u64 {
        let now = step * SEC / 4;
        if counter.try_acquire_at(now, 1) {
            granted.push(now);
        }
        assert!(counter.get_used() <= 3);
    }
    assert_eq!(granted.len(), 15);
    let quarters: Vec<u64> = granted.iter().map(|now| now / (SEC / 4)).collect();
    assert_eq!(quarters, vec![0, 1, 2, 9, 10, 11, 18, 19, 20, 27, 28, 29, 36, 37, 38]);
    // No window of two seconds holds more than three of them.
    for end in &granted {
        let inside = granted.iter().filter(|now| *now <= end && end - *now <= 2 * SEC).count();
        assert!(inside <= 3);
    }
}

fn shared_between_threads<T: Send + Sync>(_: &T) {}

#[test]
fn sliding_counter_shared_can_be_shared_between_threads() {
    let limiter = std::sync::Arc::new(SlidingWindowCounterShared::new(3, 60));
    shared_between_threads(&limiter);
    let other = std::sync::Arc::clone(&limiter);
    assert!(limiter.try_acquire(2));
    assert!(other.try_acquire(1));
    assert!(!limiter.try_acquire(1));
    assert_eq!(other.get_used(), 3);
}
