use rate_limiters::limiter::RateLimiter;
use rate_limiters::limiter::RateLimiterShared;
use rate_limiters::sliding_window_log::SlidingWindowLog;
use rate_limiters::sliding_window_log::SlidingWindowLogShared;
use std::time::Duration;
use std::time::Instant;
use std::time::SystemTime;
use std::time::UNIX_EPOCH;

fn rest(span: Duration) {
    let start = Instant::now();
    while start.elapsed() < span {
        std::hint::spin_loop();
    }
}

fn epoch_time() -> Duration {
    SystemTime::now().duration_since(UNIX_EPOCH).unwrap()
}

/// Waits until the wall clock is in the first part of a second, so that the
/// few steps that follow fall into that same second.
fn top_of_second() {
    while epoch_time().subsec_millis() >= 300 {
        std::hint::spin_loop();
    }
}

#[test]
fn sliding_window_log_shared_tests_basic_test() {
    top_of_second();
    let now_unix = epoch_time().as_secs();

    let bucket = SlidingWindowLogShared::new(10, 2);
    assert_eq!(bucket.get_limit(), 10);
    assert_eq!(bucket.get_remaining(), 10);
    assert_eq!(bucket.get_used(), 0);
    assert!(bucket.get_reset() >= now_unix);

    assert!(bucket.try_acquire(5));
    assert_eq!(bucket.get_limit(), 10);
    assert_eq!(bucket.get_remaining(), 5);
    assert_eq!(bucket.get_used(), 5);
    let diff = bucket.get_reset() - now_unix;
    assert_eq!(diff, 2);

    assert!(bucket.try_acquire(5));
    assert_eq!(bucket.get_limit(), 10);
    assert_eq!(bucket.get_remaining(), 0);
    assert_eq!(bucket.get_used(), 10);
    let diff = bucket.get_reset() - now_unix;
    assert_eq!(diff, 2);

    rest(Duration::from_secs(1));
    bucket.refresh();
    assert_eq!(bucket.get_limit(), 10);
    assert_eq!(bucket.get_remaining(), 0);
    assert_eq!(bucket.get_used(), 10);
    let diff = bucket.get_reset() - now_unix;
    assert_eq!(diff, 2);

    rest(Duration::from_secs(1));
    bucket.refresh();
    assert_eq!(bucket.get_limit(), 10);
    assert_eq!(bucket.get_remaining(), 10);
    assert_eq!(bucket.get_used(), 0);
    let diff = bucket.get_reset() - now_unix;
    assert_eq!(diff, 2);
}

#[test]
fn sliding_log_scenario() {
    let mut log = SlidingWindowLog::new(2, 1);
    assert!(log.try_acquire_at(100, 1));
    assert!(log.try_acquire_at(100, 1));
    assert!(!log.try_acquire_at(100, 1));
    assert!(log.try_acquire_at(101, 1));
}

#[test]
fn sliding_log_entry_leaves_when_its_age_reaches_the_window() {
    let mut log = SlidingWindowLog::new(2, 3);
    assert!(log.try_acquire_at(10, 1));
    assert!(log.try_acquire_at(11, 1));
    assert!(!log.try_acquire_at(12, 1));
    assert_eq!(log.get_used(), 2);
    assert!(log.try_acquire_at(13, 1));
    assert_eq!(log.get_used(), 2);
    assert!(log.try_acquire_at(14, 1));
    assert!(!log.try_acquire_at(15, 1));
}

#[test]
fn sliding_log_one_unit_and_several_units_take_the_same_effect() {
    let mut at_once = SlidingWindowLog::new(5, 10);
    let mut one_by_one = SlidingWindowLog::new(5, 10);
    assert!(at_once.try_acquire_at(7, 3));
    for _ in 0..3 {
        assert!(one_by_one.try_acquire_at(7, 1));
    }
    assert_eq!(at_once.get_used(), 3);
    assert_eq!(one_by_one.get_used(), 3);
    assert_eq!(at_once.get_remaining(), one_by_one.get_remaining());
    assert_eq!(at_once.reset_at(0), one_by_one.reset_at(0));
    // Both are refused what does not fit, and admitted what does.
    assert!(!at_once.try_acquire_at(8, 3));
    assert!(one_by_one.try_acquire_at(8, 1));
    assert!(one_by_one.try_acquire_at(8, 1));
    assert!(!one_by_one.try_acquire_at(8, 1));
    assert!(at_once.try_acquire_at(8, 2));
    assert_eq!(at_once.get_used(), one_by_one.get_used());
    at_once.refresh_at(17);
    one_by_one.refresh_at(17);
    assert_eq!(at_once.get_used(), 2);
    assert_eq!(one_by_one.get_used(), 2);
    assert_eq!(at_once.reset_at(0), 18);
    assert_eq!(one_by_one.reset_at(0), 18);
}

#[test]
fn sliding_log_single_unit_at_the_capacity_is_refused() {
    let mut log = SlidingWindowLog::new(1, 60);
    assert!(log.try_acquire_at(0, 1));
    assert!(!log.try_acquire_at(0, 1));
    assert!(!log.try_acquire_at(59, 1));
    assert!(log.try_acquire_at(60, 1));
    let mut none = SlidingWindowLog::new(0, 60);
    assert!(!none.try_acquire_at(0, 1));
    assert!(none.try_acquire_at(0, 0));
}

#[test]
fn sliding_log_no_units_are_always_admitted() {
    let mut log = SlidingWindowLog::new(2, 5);
    assert!(log.try_acquire_at(0, 0));
    assert_eq!(log.get_used(), 0);
    assert!(log.try_acquire_at(0, 2));
    assert!(log.try_acquire_at(1, 0));
    assert_eq!(log.get_used(), 2);
    assert_eq!(log.get_remaining(), 0);
}

#[test]
fn sliding_log_more_than_the_capacity_is_never_admitted() {
    let mut log = SlidingWindowLog::new(3, 1);
    assert!(!log.try_acquire_at(0, 4));
    assert_eq!(log.get_used(), 0);
    assert!(!log.try_acquire_at(0, u32::MAX));
    assert!(log.try_acquire_at(0, 3));
    assert!(!log.try_acquire_at(100, 4));
    assert_eq!(log.get_used(), 0);
}

#[test]
fn sliding_log_clock_running_backwards() {
    let mut log = SlidingWindowLog::new(3, 2);
    assert!(log.try_acquire_at(100, 1));
    // An entry from the future has age zero.
    assert!(log.try_acquire_at(50, 1));
    assert_eq!(log.get_used(), 2);
    log.refresh_at(101);
    assert_eq!(log.get_used(), 2);
    log.refresh_at(102);
    assert_eq!(log.get_used(), 0);
}

#[test]
fn sliding_log_window_of_zero_seconds_keeps_nothing() {
    let mut log = SlidingWindowLog::new(2, 0);
    assert!(log.try_acquire_at(5, 2));
    assert_eq!(log.get_used(), 2);
    assert!(log.try_acquire_at(5, 2));
    assert_eq!(log.get_used(), 2);
    log.refresh_at(5);
    assert_eq!(log.get_used(), 0);
}

#[test]
fn sliding_log_refresh_twice_is_refresh_once() {
    let mut once = SlidingWindowLog::new(5, 2);
    let mut twice = SlidingWindowLog::new(5, 2);
    for start in [10u64, 11, 12] {
        assert!(once.try_acquire_at(start, 1));
        assert!(twice.try_acquire_at(start, 1));
    }
    once.refresh_at(13);
    twice.refresh_at(13);
    twice.refresh_at(13);
    assert_eq!(once.get_used(), 1);
    assert_eq!(twice.get_used(), 1);
    assert_eq!(once.reset_at(0), 14);
    assert_eq!(twice.reset_at(0), 14);
}

#[test]
fn sliding_log_used_and_remaining_make_up_the_limit() {
    let mut log = SlidingWindowLog::new(10, 2);
    let mut now: u64 = 0;
    for units in [3u32, 9, 0, 4, 2, 7, 1, 10] {
        log.try_acquire_at(now, units);
        assert_eq!(log.get_used() + log.get_remaining(), log.get_limit());
        now += 1;
    }
}

#[test]
fn sliding_log_reset_is_when_the_oldest_entry_leaves() {
    let mut log = SlidingWindowLog::new(10, 30);
    assert_eq!(log.reset_at(1_234), 1_234);
    assert!(log.try_acquire_at(1_000, 1));
    assert!(log.try_acquire_at(1_010, 1));
    assert_eq!(log.reset_at(1_234), 1_030);
    log.refresh_at(1_030);
    assert_eq!(log.reset_at(1_234), 1_040);
    let mut late = SlidingWindowLog::new(1, u64::MAX);
    assert!(late.try_acquire_at(1, 1));
    assert_eq!(late.reset_at(0), u64::MAX);
}

#[test]
fn sliding_log_reads_the_wall_clock() {
    let before = epoch_time().as_secs();
    let now = SlidingWindowLog::now_secs();
    let after = epoch_time().as_secs();
    assert!(before <= now && now <= after);
    let mut log = SlidingWindowLog::new(2, 3600);
    let idle_reset = log.get_reset();
    assert!(before <= idle_reset && idle_reset <= epoch_time().as_secs());
    assert!(log.try_acquire(2));
    assert!(!log.try_acquire(1));
    log.refresh();
    assert_eq!(log.get_used(), 2);
    let reset = log.get_reset();
    assert!(reset >= before + 3600 && reset <= epoch_time().as_secs() + 3600);
}

#[test]
fn sliding_log_shared_admits_exactly_the_capacity() {
    let log = SlidingWindowLogShared::new(10, 3600);
    let mut admitted = 0;
    for _ in 0..20 {
        if log.try_acquire(1) {
            admitted += 1;
        }
    }
    assert_eq!(admitted, 10);
    assert_eq!(log.get_used(), 10);
    assert_eq!(log.get_remaining(), 0);
    assert!(log.try_acquire(0));
    assert!(!log.try_acquire(11));
}

#[test]
fn sliding_log_shared_recovers_after_the_window() {
    top_of_second();
    let log = SlidingWindowLogShared::new(2, 1);
    assert!(log.try_acquire(1));
    assert!(log.try_acquire(1));
    assert!(!log.try_acquire(1));
    rest(Duration::from_secs(1));
    assert!(log.try_acquire(1));
}

#[test]
fn sliding_log_grants_the_capacity_in_any_window() {
    let mut log = SlidingWindowLog::new(3, 2);
    let mut granted: Vec<u64> = Vec::new();
    // Two units every second, from second 0 to second 10.
    for now in 0..11u64 {
        if log.try_acquire_at(now, 2) {
            granted.push(now);
            granted.push(now);
        }
        assert!(log.get_used() <= 3);
    }
    assert_eq!(granted, vec![0, 0, 2, 2, 4, 4, 6, 6, 8, 8, 10, 10]);
    // No window of two seconds holds more than three of them.
    for end in &granted {
        let inside = granted.iter().filter(|now| *now <= end && end - *now < 2).count();
        assert!(inside <= 3);
    }
    let mut steady = SlidingWindowLog::new(3, 2);
    let mut admitted = 0;
    for now in 0..11u64 {
        if steady.try_acquire_at(now, 1) {
            admitted += 1;
        }
    }
    assert_eq!(admitted, 11);
    assert_eq!(steady.get_used(), 2);
}

fn shared_between_threads<T: Send + Sync>(_: &T) {}

#[test]
fn sliding_log_shared_can_be_shared_between_threads() {
    let limiter = std::sync::Arc::new(SlidingWindowLogShared::new(3, 60));
    shared_between_threads(&limiter);
    let other = std::sync::Arc::clone(&limiter);
    assert!(limiter.try_acquire(2));
    assert!(other.try_acquire(1));
    assert!(!limiter.try_acquire(1));
    assert_eq!(other.get_used(), 3);
}
