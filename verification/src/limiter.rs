//! The capability that every rate limiter offers, in an owned and a shared
//! form.
//!
//! The two traits name the operations and no more. What an operation does
//! depends on the limiter: each limiter states it where it implements the
//! trait, over the mathematical value that it stands for.

use vstd::prelude::*;

verus! {

/// A rate limiter that its owner holds exclusively.
pub trait RateLimiter {
    /// Brings the time-dependent state up to date.
    fn refresh(&mut self);

    /// Refreshes, then admits `tokens` units if there is room for them.
    fn try_acquire(&mut self, tokens: u32) -> (admitted: bool);

    /// The most units that can be in use at once.
    fn get_limit(&self) -> (limit: u32);

    /// The units that there is still room for, as of the last refresh.
    fn get_remaining(&self) -> (remaining: u32);

    /// The units in use, as of the last refresh.
    fn get_used(&self) -> (used: u32);

    /// The Unix time, in seconds, at which capacity is expected back.
    fn get_reset(&self) -> (reset: u64);
}

/// A rate limiter that many callers share. Each operation takes the lock,
/// works on the limiter inside it, and releases the lock, so that no caller
/// sees a state between the refresh, the decision and the entry of a request.
pub trait RateLimiterShared {
    /// Brings the time-dependent state up to date.
    fn refresh(&self);

    /// Refreshes, then admits `tokens` units if there is room for them.
    fn try_acquire(&self, tokens: u32) -> (admitted: bool);

    /// The most units that can be in use at once.
    fn get_limit(&self) -> (limit: u32);

    /// The units that there is still room for, as of the last refresh.
    fn get_remaining(&self) -> (remaining: u32);

    /// The units in use, as of the last refresh.
    fn get_used(&self) -> (used: u32);

    /// The Unix time, in seconds, at which capacity is expected back.
    fn get_reset(&self) -> (reset: u64);
}

/// One request in a run of requests: the time at which it is made, on the
/// clock of the limiter it is made to, and the units it asks for.
pub struct Request {
    pub now: nat,
    pub units: nat,
}

/// Whether the requests are made in the order of their times, as they are
/// while the clock does not run backwards.
pub open spec fn in_time_order(requests: Seq<Request>) -> bool {
    forall|i: int, j: int|
        #![trigger requests[i], requests[j]]
        0 <= i <= j < requests.len() ==> requests[i].now <= requests[j].now
}

/// What the lock of a shared limiter promises of the limiter inside it: its
/// limit is the one that the shared limiter was made with.
pub struct HoldsLimit {
    pub limit: nat,
}

} // verus!
