//! Clock readings as plain integers.
//!
//! The limiters keep time as integers: nanoseconds of a monotonic clock that
//! starts at zero when a limiter is made, and nanoseconds or seconds of the
//! wall clock since the Unix epoch. This file reads the two clocks of the
//! standard library and turns their readings into such integers.

use std::time::Duration;
use std::time::Instant;
use std::time::SystemTime;
use std::time::SystemTimeError;
use vstd::prelude::*;

verus! {

/// Nanoseconds in one second.
pub const NANOS_PER_SEC: u64 = 1_000_000_000;

/// The value that stands for a time that never comes.
pub const NEVER: u64 = u64::MAX;

/// `std::time::Instant`, a reading of the monotonic clock. Nothing is known
/// of what a value of it holds.
#[verifier::external_type_specification]
#[verifier::external_body]
pub struct ExInstant(Instant);

/// `std::time::SystemTime`, a reading of the wall clock. Nothing is known of
/// what a value of it holds.
#[verifier::external_type_specification]
#[verifier::external_body]
pub struct ExSystemTime(SystemTime);

/// `std::time::SystemTimeError`, which says that one wall-clock reading lies
/// before another. Nothing is known of what a value of it holds.
#[verifier::external_type_specification]
#[verifier::external_body]
pub struct ExSystemTimeError(SystemTimeError);

/// `Instant::now` reads the monotonic clock. Nothing is claimed of the reading.
pub assume_specification[ Instant::now ]() -> (now: Instant);

/// `Instant::saturating_duration_since` gives the time from `earlier` to
/// `later`, and zero where `earlier` is the later of the two. Nothing is
/// claimed of the result.
pub assume_specification[ Instant::saturating_duration_since ](
    later: &Instant,
    earlier: Instant,
) -> (elapsed: Duration);

/// `SystemTime::now` reads the wall clock. Nothing is claimed of the reading.
pub assume_specification[ SystemTime::now ]() -> (now: SystemTime);

/// `SystemTime::duration_since`, called with `UNIX_EPOCH`, gives the time from
/// the Unix epoch to `reading`, or an error where `reading` lies before the
/// epoch. Nothing is claimed of the result.
#[verifier::external_body]
fn since_unix_epoch(reading: &SystemTime) -> (elapsed: Result<Duration, SystemTimeError>) {
    reading.duration_since(SystemTime::UNIX_EPOCH)
}

/// `Duration::as_nanos` gives the whole duration in nanoseconds. Nothing is
/// claimed of the result.
pub assume_specification[ Duration::as_nanos ](d: &Duration) -> (nanos: u128);

/// `Duration::as_secs` gives the whole seconds of the duration. Nothing is
/// claimed of the result.
pub assume_specification[ Duration::as_secs ](d: &Duration) -> (secs: u64);

/// The whole seconds in `nanos` nanoseconds, held at `u64::MAX`.
pub open spec fn whole_secs(nanos: nat) -> nat {
    let secs = nanos / (NANOS_PER_SEC as nat);
    if secs > u64::MAX {
        u64::MAX as nat
    } else {
        secs
    }
}

/// The time from `earlier` to `later`, zero where `earlier` is the later one.
pub open spec fn span(earlier: nat, later: nat) -> nat {
    if later >= earlier {
        (later - earlier) as nat
    } else {
        0
    }
}

/// `nanos`, held at `u64::MAX`.
pub open spec fn held(nanos: nat) -> nat {
    if nanos > u64::MAX {
        u64::MAX as nat
    } else {
        nanos
    }
}

/// The second of the Unix clock in which the moment `wait` nanoseconds after
/// `wall` falls.
pub fn secs_after(wall: u128, wait: u128) -> (secs: u64)
    ensures
        secs == whole_secs((wall + wait) as nat),
{
    if wall > u128::MAX - wait {
        u64::MAX
    } else {
        let secs: u128 = (wall + wait) / (NANOS_PER_SEC as u128);
        if secs > u64::MAX as u128 {
            u64::MAX
        } else {
            secs as u64
        }
    }
}

/// A monotonic clock that counts nanoseconds from the moment it was made.
pub struct MonotonicClock {
    anchor: Instant,
}

impl MonotonicClock {
    /// A clock that reads zero now.
    pub fn new() -> (clock: Self) {
        MonotonicClock { anchor: Instant::now() }
    }

    /// Nanoseconds since the clock was made, held at `u64::MAX`.
    pub fn now(&self) -> (nanos: u64) {
        let reading = Instant::now();
        let elapsed = reading.saturating_duration_since(self.anchor);
        let nanos: u128 = elapsed.as_nanos();
        held_at_max(nanos)
    }
}

/// Nanoseconds of the wall clock since the Unix epoch. A clock that is set
/// before the epoch reads as the epoch.
pub fn wall_nanos() -> (nanos: u128) {
    let reading = SystemTime::now();
    match since_unix_epoch(&reading) {
        Ok(elapsed) => elapsed.as_nanos(),
        Err(_) => 0,
    }
}

/// Whole seconds of the wall clock since the Unix epoch. A clock that is set
/// before the epoch reads as the epoch.
pub fn wall_secs() -> (secs: u64) {
    let reading = SystemTime::now();
    match since_unix_epoch(&reading) {
        Ok(elapsed) => elapsed.as_secs(),
        Err(_) => 0,
    }
}

/// A count of nanoseconds as the limiters keep it: held at `u64::MAX`, so
/// that a clock which has counted further stands still there.
pub fn held_at_max(nanos: u128) -> (kept: u64)
    ensures
        kept == held(nanos as nat),
{
    if nanos > u64::MAX as u128 {
        u64::MAX
    } else {
        nanos as u64
    }
}

} // verus!
