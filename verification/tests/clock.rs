use rate_limiters::clock::held_at_max;
use rate_limiters::clock::secs_after;
use rate_limiters::clock::wall_nanos;
use rate_limiters::clock::wall_secs;
use rate_limiters::clock::MonotonicClock;
use rate_limiters::clock::NANOS_PER_SEC;
use rate_limiters::clock::NEVER;
use std::time::Duration;
use std::time::Instant;
use std::time::SystemTime;
use std::time::UNIX_EPOCH;

fn spin(span: Duration) {
    let start = Instant::now();
    while start.elapsed() < span {
        std::hint::spin_loop();
    }
}

fn unix_time() -> Duration {
    SystemTime::now().duration_since(UNIX_EPOCH).unwrap()
}

#[test]
fn clock_constants() {
    assert_eq!(NANOS_PER_SEC, 1_000_000_000);
    assert_eq!(NEVER, u64::MAX);
}

#[test]
fn clock_secs_after_floors_to_whole_seconds() {
    assert_eq!(secs_after(0, 0), 0);
    assert_eq!(secs_after(999_999_999, 0), 0);
    assert_eq!(secs_after(999_999_999, 1), 1);
    assert_eq!(secs_after(1_500_000_000, 1_499_999_999), 2);
    assert_eq!(secs_after(1_500_000_000, 1_500_000_000), 3);
    assert_eq!(secs_after(7, 1_700_000_000_000_000_000), 1_700_000_000);
}

#[test]
fn clock_secs_after_is_held_at_the_largest_second() {
    let last = u64::MAX as u128 * 1_000_000_000;
    assert_eq!(secs_after(last - 1, 0), u64::MAX - 1);
    assert_eq!(secs_after(last - 1, 1), u64::MAX);
    assert_eq!(secs_after(last, 5_000_000_000), u64::MAX);
    assert_eq!(secs_after(u128::MAX, 0), u64::MAX);
    assert_eq!(secs_after(u128::MAX, 1), u64::MAX);
    assert_eq!(secs_after(u128::MAX, u128::MAX), u64::MAX);
    assert_eq!(secs_after(1, u128::MAX), u64::MAX);
}

#[test]
fn clock_monotonic_counts_from_its_making() {
    let clock = MonotonicClock::new();
    let first = clock.now();
    assert!(first < 1_000_000_000);
    spin(Duration::from_millis(50));
    let second = clock.now();
    assert!(second >= first + 50_000_000);
    assert!(second < 10_000_000_000);
    let third = clock.now();
    assert!(third >= second);
}

#[test]
fn clock_wall_reads_the_unix_time() {
    let before = unix_time();
    let nanos = wall_nanos();
    let secs = wall_secs();
    let after = unix_time();
    assert!(before.as_nanos() <= nanos && nanos <= after.as_nanos());
    assert!(before.as_secs() <= secs && secs <= after.as_secs());
}

#[test]
fn clock_count_is_held_at_the_largest_value() {
    assert_eq!(held_at_max(0), 0);
    assert_eq!(held_at_max(1_500_000_000), 1_500_000_000);
    assert_eq!(held_at_max(u64::MAX as u128 - 1), u64::MAX - 1);
    assert_eq!(held_at_max(u64::MAX as u128), u64::MAX);
    assert_eq!(held_at_max(u64::MAX as u128 + 1), u64::MAX);
    assert_eq!(held_at_max(u128::MAX), u64::MAX);
}
