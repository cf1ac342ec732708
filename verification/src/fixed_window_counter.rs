//! Fixed window counter: a budget of units that is handed out anew once per
//! window.
//!
//! The counter starts with its whole limit. A request for `n` units is
//! admitted when `n` units remain, and takes them. The first refresh that
//! finds the window over gives the whole limit back and starts a new window
//! at that moment.

use crate::clock::secs_after;
use crate::clock::span;
use crate::clock::wall_nanos;
use crate::clock::whole_secs;
use crate::clock::MonotonicClock;
use crate::clock::NANOS_PER_SEC;
use crate::limiter::HoldsLimit;
use crate::limiter::RateLimiter;
use crate::limiter::RateLimiterShared;
use crate::limiter::Request;
use std::sync::Arc;
use vstd::prelude::*;
use vstd::rwlock::RwLock;
use vstd::rwlock::RwLockPredicate;

verus! {

/// A fixed window counter as a mathematical value. The window is in seconds;
/// times are nanoseconds on the counter's own clock, which reads zero when
/// the counter is made.
pub struct FixedWindowView {
    pub limit: nat,
    pub remaining: nat,
    pub window: nat,
    pub last_reset: nat,
}

impl FixedWindowView {
    /// No more remains than the limit.
    pub open spec fn wf(self) -> bool {
        self.remaining <= self.limit
    }

    /// A counter with its whole limit, whose first window begins at zero.
    pub open spec fn fresh(limit: nat, window: nat) -> Self {
        FixedWindowView { limit, remaining: limit, window, last_reset: 0 }
    }

    /// The units that were taken since the last reset.
    pub open spec fn used(self) -> nat {
        (self.limit - self.remaining) as nat
    }

    /// The length of the window in nanoseconds.
    pub open spec fn window_nanos(self) -> nat {
        self.window * (NANOS_PER_SEC as nat)
    }

    /// Whether the window that began at the last reset is over at `now`.
    pub open spec fn expired(self, now: nat) -> bool {
        span(self.last_reset, now) >= self.window_nanos()
    }

    /// The counter after a refresh at `now`: reset where the window is over,
    /// unchanged where it is not.
    pub open spec fn refreshed(self, now: nat) -> Self {
        if self.expired(now) {
            FixedWindowView { remaining: self.limit, last_reset: now, ..self }
        } else {
            self
        }
    }

    /// Whether a request for `units` at `now` is admitted.
    pub open spec fn admits(self, now: nat, units: nat) -> bool {
        self.refreshed(now).remaining >= units
    }

    /// The counter after a request for `units` at `now`.
    pub open spec fn acquired(self, now: nat, units: nat) -> Self {
        let fresh = self.refreshed(now);
        if fresh.remaining >= units {
            FixedWindowView { remaining: (fresh.remaining - units) as nat, ..fresh }
        } else {
            fresh
        }
    }

    /// The Unix second in which the window that began at the last reset ends:
    /// the last reset plus the window, told by a wall clock that reads `wall`
    /// nanoseconds when the counter's clock reads `now`. It stays the same
    /// until a refresh starts the next window, however long ago this one may
    /// have ended, and is held at zero where it would lie before the epoch.
    pub open spec fn reset_time(self, now: nat, wall: nat) -> nat {
        let elapsed = span(self.last_reset, now);
        if elapsed <= self.window_nanos() {
            whole_secs(wall + (self.window_nanos() - elapsed) as nat)
        } else {
            whole_secs(span((elapsed - self.window_nanos()) as nat, wall))
        }
    }

    /// The counter after the requests of `requests`, made in their order.
    pub open spec fn run(self, requests: Seq<Request>) -> Self
        decreases requests.len(),
    {
        if requests.len() == 0 {
            self
        } else {
            self.run(requests.drop_last()).acquired(requests.last().now, requests.last().units)
        }
    }

    /// The units that the requests of `requests`, made in their order, are
    /// granted in all.
    pub open spec fn granted(self, requests: Seq<Request>) -> nat
        decreases requests.len(),
    {
        if requests.len() == 0 {
            0
        } else {
            let before = self.run(requests.drop_last());
            let last = requests.last();
            self.granted(requests.drop_last()) + if before.admits(last.now, last.units) {
                last.units
            } else {
                0
            }
        }
    }
}

/// What is used and what remains make up the limit.
pub proof fn lemma_used_and_remaining(s: FixedWindowView)
    requires
        s.wf(),
    ensures
        s.used() + s.remaining == s.limit,
{
}

/// A refresh and a request keep the counter within its limit and leave limit
/// and window as they are; only a refresh gives units back.
pub proof fn lemma_step_keeps_bound(s: FixedWindowView, now: nat, units: nat)
    requires
        s.wf(),
    ensures
        s.refreshed(now).wf(),
        s.acquired(now, units).wf(),
        s.refreshed(now).limit == s.limit,
        s.acquired(now, units).limit == s.limit,
        s.refreshed(now).window == s.window,
        s.acquired(now, units).window == s.window,
        s.refreshed(now).remaining >= s.remaining,
        s.acquired(now, units).remaining <= s.refreshed(now).remaining,
{
}

/// Whatever requests are made, and whenever, the units in use never exceed the
/// limit.
pub proof fn lemma_bound_holds_over_any_run(s: FixedWindowView, requests: Seq<Request>)
    requires
        s.wf(),
    ensures
        s.run(requests).wf(),
        s.run(requests).limit == s.limit,
        s.run(requests).window == s.window,
        s.run(requests).used() <= s.limit,
    decreases requests.len(),
{
    if requests.len() > 0 {
        lemma_bound_holds_over_any_run(s, requests.drop_last());
        lemma_step_keeps_bound(
            s.run(requests.drop_last()),
            requests.last().now,
            requests.last().units,
        );
    }
}

/// Requests that all fall inside the running window are granted, between
/// them, no more than what remained when the first was made, and so no more
/// than the limit; and the window stays the one that was running.
pub proof fn lemma_one_window_grants_at_most_limit(s: FixedWindowView, requests: Seq<Request>)
    requires
        s.wf(),
        forall|i: int| 0 <= i < requests.len() ==> !s.expired((#[trigger] requests[i]).now),
    ensures
        s.run(requests).last_reset == s.last_reset,
        s.granted(requests) + s.run(requests).remaining == s.remaining,
        s.granted(requests) <= s.limit,
    decreases requests.len(),
{
    if requests.len() > 0 {
        let earlier = requests.drop_last();
        lemma_one_window_grants_at_most_limit(s, earlier);
        lemma_bound_holds_over_any_run(s, earlier);
    }
}

/// Inside the running window, requests for one unit each are granted until
/// nothing remains and refused from then on: of `n` such requests exactly as
/// many are granted as units remained, or all `n` where more remained.
pub proof fn lemma_one_window_single_units(s: FixedWindowView, requests: Seq<Request>)
    requires
        s.wf(),
        forall|i: int| 0 <= i < requests.len() ==> !s.expired((#[trigger] requests[i]).now),
        forall|i: int| 0 <= i < requests.len() ==> (#[trigger] requests[i]).units == 1,
    ensures
        s.granted(requests) == if requests.len() <= s.remaining {
            requests.len()
        } else {
            s.remaining
        },
    decreases requests.len(),
{
    if requests.len() > 0 {
        let earlier = requests.drop_last();
        lemma_one_window_single_units(s, earlier);
        lemma_one_window_grants_at_most_limit(s, earlier);
        lemma_bound_holds_over_any_run(s, earlier);
    }
}

/// One request grants no more than what remained and, where it starts a new
/// window, the limit; and it starts one only a whole window after the last.
pub proof fn lemma_step_within_windows(s: FixedWindowView, now: nat, units: nat)
    requires
        s.wf(),
        s.window > 0,
    ensures
        s.acquired(now, units).last_reset >= s.last_reset,
        s.acquired(now, units).last_reset == s.last_reset || s.acquired(now, units).last_reset
            == now,
        ((if s.admits(now, units) {
            units
        } else {
            0
        }) + s.acquired(now, units).remaining - s.remaining) * s.window_nanos() <= s.limit * (
        s.acquired(now, units).last_reset - s.last_reset),
{
    let window = s.window_nanos();
    assert(window > 0) by (nonlinear_arith)
        requires
            window == s.window * (NANOS_PER_SEC as nat),
            s.window > 0,
            NANOS_PER_SEC == 1_000_000_000,
    ;
    if s.expired(now) {
        assert((s.limit - s.remaining) * window <= s.limit * (now - s.last_reset))
            by (nonlinear_arith)
            requires
                s.remaining <= s.limit,
                now - s.last_reset >= window,
                window > 0,
        ;
    } else {
        assert(0 * window == 0 && s.limit * (s.last_reset - s.last_reset) == 0)
            by (nonlinear_arith);
    }
}

/// Over any run of requests the counter grants no more than what remained
/// and one limit for each whole window by which the run moves the last reset
/// forward.
pub proof fn lemma_run_within_windows(s: FixedWindowView, requests: Seq<Request>)
    requires
        s.wf(),
        s.window > 0,
    ensures
        s.run(requests).last_reset >= s.last_reset,
        s.run(requests).last_reset == s.last_reset || exists|i: int|
            0 <= i < requests.len() && s.run(requests).last_reset == (#[trigger] requests[i]).now,
        (s.granted(requests) + s.run(requests).remaining - s.remaining) * s.window_nanos()
            <= s.limit * (s.run(requests).last_reset - s.last_reset),
    decreases requests.len(),
{
    let window = s.window_nanos();
    if requests.len() > 0 {
        let earlier = requests.drop_last();
        let last = requests.last();
        let before = s.run(earlier);
        let after = s.run(requests);
        lemma_run_within_windows(s, earlier);
        lemma_bound_holds_over_any_run(s, earlier);
        lemma_step_within_windows(before, last.now, last.units);
        let step: nat = if before.admits(last.now, last.units) {
            last.units
        } else {
            0
        };
        assert((s.granted(earlier) + step + after.remaining - s.remaining) * window <= s.limit * (
        after.last_reset - s.last_reset)) by (nonlinear_arith)
            requires
                (s.granted(earlier) + before.remaining - s.remaining) * window <= s.limit * (
                before.last_reset - s.last_reset),
                (step + after.remaining - before.remaining) * window <= s.limit * (
                after.last_reset - before.last_reset),
        ;
        if after.last_reset != s.last_reset && after.last_reset != last.now {
            // The run before the last request moved it, to the time of one
            // of its requests, which is a request of the whole run too.
            let i = choose|i: int|
                0 <= i < earlier.len() && before.last_reset == (#[trigger] earlier[i]).now;
            assert(requests[i] == earlier[i]);
        }
    } else {
        assert(0 * window == 0 && s.limit * (s.last_reset - s.last_reset) == 0)
            by (nonlinear_arith);
    }
}

/// The rate bound: requests made no later than `end` are granted, between
/// them, no more than what remained and one limit for each whole window that
/// fits into the time from the last reset to `end`.
pub proof fn lemma_rate_bound(s: FixedWindowView, requests: Seq<Request>, end: nat)
    requires
        s.wf(),
        s.window > 0,
        s.last_reset <= end,
        forall|i: int| 0 <= i < requests.len() ==> (#[trigger] requests[i]).now <= end,
    ensures
        s.granted(requests) * s.window_nanos() <= s.remaining * s.window_nanos() + s.limit * (end
            - s.last_reset),
{
    lemma_run_within_windows(s, requests);
    let after = s.run(requests);
    let window = s.window_nanos();
    assert(s.granted(requests) * window <= s.remaining * window + s.limit * (end - s.last_reset))
        by (nonlinear_arith)
        requires
            (s.granted(requests) + after.remaining - s.remaining) * window <= s.limit * (
            after.last_reset - s.last_reset),
            s.last_reset <= after.last_reset <= end,
    ;
}

/// A second refresh at the same time changes nothing.
pub proof fn lemma_refresh_idempotent(s: FixedWindowView, now: nat)
    ensures
        s.refreshed(now).refreshed(now) == s.refreshed(now),
{
}

/// Once the window is over, a refresh gives the whole limit back and starts
/// the next window at that moment, and a request made then is admitted for
/// any number of units up to the limit; before that a refresh changes nothing.
pub proof fn lemma_reset_after_window(s: FixedWindowView, now: nat)
    ensures
        span(s.last_reset, now) >= s.window_nanos() ==> s.refreshed(now).remaining == s.limit
            && s.refreshed(now).last_reset == now,
        span(s.last_reset, now) >= s.window_nanos() ==> forall|units: nat|
            units <= s.limit ==> #[trigger] s.admits(now, units),
        span(s.last_reset, now) < s.window_nanos() ==> s.refreshed(now) == s,
{
}

/// Between resets the reset time stays the same: while the two clocks run
/// in step, and the wall clock read no less than the counter's clock has
/// counted since the last reset, a later reading gives the same answer.
pub proof fn lemma_reset_time_stable(s: FixedWindowView, now: nat, wall: nat, later: nat)
    requires
        now >= s.last_reset,
        wall >= now - s.last_reset,
    ensures
        s.reset_time(now + later, wall + later) == s.reset_time(now, wall),
{
}

/// A fixed window counter with its own clock.
pub struct FixedWindowCounter {
    limit: u32,
    remaining: u32,
    window_secs: u64,
    last_reset: u64,
    clock: MonotonicClock,
}

impl View for FixedWindowCounter {
    type V = FixedWindowView;

    closed spec fn view(&self) -> FixedWindowView {
        FixedWindowView {
            limit: self.limit as nat,
            remaining: self.remaining as nat,
            window: self.window_secs as nat,
            last_reset: self.last_reset as nat,
        }
    }
}

impl FixedWindowCounter {
    #[verifier::type_invariant]
    spec fn inv(&self) -> bool {
        self@.wf()
    }

    /// A counter that hands out `limit` units in each window of `window_secs`
    /// seconds. Its clock, and its first window, start now.
    pub fn new(limit: u32, window_secs: u64) -> (counter: Self)
        ensures
            counter@ == FixedWindowView::fresh(limit as nat, window_secs as nat),
    {
        FixedWindowCounter {
            limit,
            remaining: limit,
            window_secs,
            last_reset: 0,
            clock: MonotonicClock::new(),
        }
    }

    /// The length of the window in nanoseconds.
    fn window_nanos(&self) -> (nanos: u128)
        ensures
            nanos == self@.window_nanos(),
    {
        assert(self.window_secs * NANOS_PER_SEC <= u64::MAX * NANOS_PER_SEC) by (nonlinear_arith)
            requires
                self.window_secs <= u64::MAX,
        ;
        (self.window_secs as u128) * (NANOS_PER_SEC as u128)
    }

    /// Refreshes the counter for a clock that reads `now` nanoseconds.
    pub fn refresh_at(&mut self, now: u64)
        ensures
            final(self)@ == old(self)@.refreshed(now as nat),
            final(self)@.wf(),
    {
        proof {
            use_type_invariant(&*self);
        }
        let elapsed: u64 = if now >= self.last_reset {
            now - self.last_reset
        } else {
            0
        };
        if elapsed as u128 >= self.window_nanos() {
            self.remaining = self.limit;
            self.last_reset = now;
        }
    }

    /// Refreshes the counter for a clock that reads `now` nanoseconds, then
    /// admits `tokens` units where that many remain, and takes them.
    pub fn try_acquire_at(&mut self, now: u64, tokens: u32) -> (admitted: bool)
        ensures
            final(self)@ == old(self)@.acquired(now as nat, tokens as nat),
            admitted == old(self)@.admits(now as nat, tokens as nat),
            final(self)@.wf(),
    {
        self.refresh_at(now);
        if self.remaining >= tokens {
            self.remaining = self.remaining - tokens;
            true
        } else {
            false
        }
    }

    /// The Unix second in which the window that began at the last reset ends,
    /// for a counter clock that reads `now` nanoseconds and a wall clock that
    /// reads `wall` nanoseconds since the epoch.
    pub fn reset_at(&self, now: u64, wall: u128) -> (reset: u64)
        ensures
            reset == self@.reset_time(now as nat, wall as nat),
    {
        let elapsed: u128 = if now >= self.last_reset {
            (now - self.last_reset) as u128
        } else {
            0
        };
        let window: u128 = self.window_nanos();
        if elapsed <= window {
            secs_after(wall, window - elapsed)
        } else {
            let over: u128 = elapsed - window;
            if wall >= over {
                secs_after(wall - over, 0)
            } else {
                0
            }
        }
    }
}

impl RateLimiter for FixedWindowCounter {
    /// Refreshes the counter for the time that its clock reads.
    fn refresh(&mut self)
        ensures
            exists|now: nat| final(self)@ == #[trigger] old(self)@.refreshed(now),
            final(self)@.wf(),
    {
        let now: u64 = self.clock.now();
        self.refresh_at(now);
    }

    /// Makes a request for `tokens` units at the time that the counter's
    /// clock reads.
    fn try_acquire(&mut self, tokens: u32) -> (admitted: bool)
        ensures
            exists|now: nat|
                final(self)@ == #[trigger] old(self)@.acquired(now, tokens as nat) && admitted
                    == old(self)@.admits(now, tokens as nat),
            final(self)@.wf(),
    {
        let now: u64 = self.clock.now();
        self.try_acquire_at(now, tokens)
    }

    fn get_limit(&self) -> (limit: u32)
        ensures
            limit == self@.limit,
    {
        self.limit
    }

    fn get_remaining(&self) -> (remaining: u32)
        ensures
            remaining == self@.remaining,
            self@.used() + remaining == self@.limit,
    {
        proof {
            use_type_invariant(self);
        }
        self.remaining
    }

    fn get_used(&self) -> (used: u32)
        ensures
            used == self@.used(),
            used + self@.remaining == self@.limit,
    {
        proof {
            use_type_invariant(self);
        }
        self.limit - self.remaining
    }

    /// The Unix second in which the window that began at the last reset ends,
    /// by the two clocks as they read now.
    fn get_reset(&self) -> (reset: u64)
        ensures
            exists|now: nat, wall: nat| reset == #[trigger] self@.reset_time(now, wall),
    {
        let wall: u128 = wall_nanos();
        let now: u64 = self.clock.now();
        self.reset_at(now, wall)
    }
}

/// A fixed window counter behind a lock, for callers that share it.
pub struct FixedWindowCounterShared {
    inner: Arc<RwLock<FixedWindowCounter, HoldsLimit>>,
}

impl RwLockPredicate<FixedWindowCounter> for HoldsLimit {
    open spec fn inv(self, counter: FixedWindowCounter) -> bool {
        counter@.limit == self.limit
    }
}

impl FixedWindowCounterShared {
    /// The limit that the limiter was made with. It never changes.
    pub closed spec fn limit(&self) -> nat {
        self.inner.pred().limit
    }

    /// A counter that hands out `limit` units in each window of `window_secs`
    /// seconds, behind its lock.
    pub fn new(limit: u32, window_secs: u64) -> (shared: Self)
        ensures
            shared.limit() == limit,
    {
        let counter = FixedWindowCounter::new(limit, window_secs);
        FixedWindowCounterShared {
            inner: Arc::new(RwLock::new(counter, Ghost(HoldsLimit { limit: limit as nat }))),
        }
    }
}

impl RateLimiterShared for FixedWindowCounterShared {
    fn refresh(&self) {
        let (mut counter, handle) = self.inner.acquire_write();
        counter.refresh();
        handle.release_write(counter);
    }

    fn try_acquire(&self, tokens: u32) -> (admitted: bool)
        ensures
            tokens == 0 ==> admitted,
            admitted ==> tokens <= self.limit(),
    {
        let (mut counter, handle) = self.inner.acquire_write();
        proof {
            use_type_invariant(&counter);
        }
        let admitted: bool = counter.try_acquire(tokens);
        handle.release_write(counter);
        admitted
    }

    fn get_limit(&self) -> (limit: u32)
        ensures
            limit == self.limit(),
    {
        let (counter, handle) = self.inner.acquire_write();
        let limit: u32 = counter.get_limit();
        handle.release_write(counter);
        limit
    }

    fn get_remaining(&self) -> (remaining: u32)
        ensures
            remaining <= self.limit(),
    {
        let (counter, handle) = self.inner.acquire_write();
        let remaining: u32 = counter.get_remaining();
        handle.release_write(counter);
        remaining
    }

    fn get_used(&self) -> (used: u32)
        ensures
            used <= self.limit(),
    {
        let (counter, handle) = self.inner.acquire_write();
        let used: u32 = counter.get_used();
        handle.release_write(counter);
        used
    }

    fn get_reset(&self) -> (reset: u64) {
        let (counter, handle) = self.inner.acquire_write();
        let reset: u64 = counter.get_reset();
        handle.release_write(counter);
        reset
    }
}

} // verus!
