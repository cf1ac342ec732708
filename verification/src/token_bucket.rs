//! Token bucket: a store of tokens that refills at a steady rate.
//!
//! The bucket starts full. Time adds `refill_rate` tokens per second, in whole
//! tokens and never beyond the capacity; a request for `n` units is admitted
//! when `n` tokens are there, and takes them.

use crate::clock::secs_after;
use crate::clock::span;
use crate::clock::wall_nanos;
use crate::clock::whole_secs;
use crate::clock::MonotonicClock;
use crate::clock::NANOS_PER_SEC;
use crate::clock::NEVER;
use crate::limiter::HoldsLimit;
use crate::limiter::RateLimiter;
use crate::limiter::RateLimiterShared;
use crate::limiter::Request;
use std::sync::Arc;
use vstd::prelude::*;
use vstd::rwlock::RwLock;
use vstd::rwlock::RwLockPredicate;

verus! {

/// A token bucket as a mathematical value. Times are nanoseconds on the
/// bucket's own clock, which reads zero when the bucket is made.
pub struct TokenBucketView {
    pub capacity: nat,
    pub tokens: nat,
    pub refill_rate: nat,
    pub last_refill: nat,
}

impl TokenBucketView {
    /// A bucket never holds more tokens than its capacity.
    pub open spec fn wf(self) -> bool {
        self.tokens <= self.capacity
    }

    /// A full bucket whose clock reads zero.
    pub open spec fn full(capacity: nat, refill_rate: nat) -> Self {
        TokenBucketView { capacity, tokens: capacity, refill_rate, last_refill: 0 }
    }

    /// The tokens that are missing from a full bucket.
    pub open spec fn used(self) -> nat {
        (self.capacity - self.tokens) as nat
    }

    /// The whole tokens that the time from the last refill to `now` is worth.
    pub open spec fn accrued(self, now: nat) -> nat {
        span(self.last_refill, now) * self.refill_rate / (NANOS_PER_SEC as nat)
    }

    /// The bucket after a refresh at `now`. Where not one whole token has
    /// accrued nothing changes, the time of the last refill included, so that
    /// no fraction of a token is lost.
    pub open spec fn refreshed(self, now: nat) -> Self {
        let gained = self.accrued(now);
        if gained > 0 {
            TokenBucketView {
                tokens: if self.tokens + gained <= self.capacity {
                    self.tokens + gained
                } else {
                    self.capacity
                },
                last_refill: now,
                ..self
            }
        } else {
            self
        }
    }

    /// Whether a request for `units` at `now` is admitted.
    pub open spec fn admits(self, now: nat, units: nat) -> bool {
        self.refreshed(now).tokens >= units
    }

    /// The bucket after a request for `units` at `now`.
    pub open spec fn acquired(self, now: nat, units: nat) -> Self {
        let fresh = self.refreshed(now);
        if fresh.tokens >= units {
            TokenBucketView { tokens: (fresh.tokens - units) as nat, ..fresh }
        } else {
            fresh
        }
    }

    /// The Unix second at which the bucket will be full again, for a wall
    /// clock that reads `wall` nanoseconds: the time it takes to refill all
    /// that is used. A full bucket has nothing to wait for; a bucket that is
    /// not full and never refills answers `NEVER`.
    pub open spec fn reset_time(self, wall: nat) -> nat {
        if self.used() == 0 {
            whole_secs(wall)
        } else if self.refill_rate == 0 {
            NEVER as nat
        } else {
            whole_secs(wall + self.used() * (NANOS_PER_SEC as nat) / self.refill_rate)
        }
    }

    /// The bucket after the requests of `requests`, made in their order.
    pub open spec fn run(self, requests: Seq<Request>) -> Self
        decreases requests.len(),
    {
        if requests.len() == 0 {
            self
        } else {
            self.run(requests.drop_last()).acquired(requests.last().now, requests.last().units)
        }
    }

    /// The units that the requests of `requests`, made in their order, are
    /// granted in all.
    pub open spec fn granted(self, requests: Seq<Request>) -> nat
        decreases requests.len(),
    {
        if requests.len() == 0 {
            0
        } else {
            let before = self.run(requests.drop_last());
            let last = requests.last();
            self.granted(requests.drop_last()) + if before.admits(last.now, last.units) {
                last.units
            } else {
                0
            }
        }
    }
}

/// What is used and what remains make up the capacity.
pub proof fn lemma_used_and_remaining(s: TokenBucketView)
    requires
        s.wf(),
    ensures
        s.used() + s.tokens == s.capacity,
{
}

/// A refresh and a request keep the bucket within its capacity and leave
/// capacity and rate as they are; only a refresh adds tokens.
pub proof fn lemma_step_keeps_bound(s: TokenBucketView, now: nat, units: nat)
    requires
        s.wf(),
    ensures
        s.refreshed(now).wf(),
        s.acquired(now, units).wf(),
        s.refreshed(now).capacity == s.capacity,
        s.acquired(now, units).capacity == s.capacity,
        s.refreshed(now).refill_rate == s.refill_rate,
        s.acquired(now, units).refill_rate == s.refill_rate,
        s.refreshed(now).tokens >= s.tokens,
        s.acquired(now, units).tokens <= s.refreshed(now).tokens,
{
}

/// Whatever requests are made, and whenever, the units in use never exceed the
/// capacity.
pub proof fn lemma_bound_holds_over_any_run(s: TokenBucketView, requests: Seq<Request>)
    requires
        s.wf(),
    ensures
        s.run(requests).wf(),
        s.run(requests).capacity == s.capacity,
        s.run(requests).refill_rate == s.refill_rate,
        s.run(requests).used() <= s.capacity,
    decreases requests.len(),
{
    if requests.len() > 0 {
        lemma_bound_holds_over_any_run(s, requests.drop_last());
        lemma_step_keeps_bound(
            s.run(requests.drop_last()),
            requests.last().now,
            requests.last().units,
        );
    }
}

/// One request grants no more than the tokens that were there and those
/// that the time by which it moves the last refill forward is worth.
pub proof fn lemma_step_within_accrual(s: TokenBucketView, now: nat, units: nat)
    requires
        s.wf(),
    ensures
        s.acquired(now, units).last_refill >= s.last_refill,
        s.acquired(now, units).last_refill == s.last_refill || s.acquired(now, units).last_refill
            == now,
        ((if s.admits(now, units) {
            units
        } else {
            0
        }) + s.acquired(now, units).tokens) * NANOS_PER_SEC <= s.tokens * NANOS_PER_SEC + (
        s.acquired(now, units).last_refill - s.last_refill) * s.refill_rate,
{
    let worth = span(s.last_refill, now) * s.refill_rate;
    let gained = s.accrued(now);
    let fresh = s.refreshed(now);
    if gained > 0 {
        assert(gained * NANOS_PER_SEC <= worth && worth > 0) by (nonlinear_arith)
            requires
                gained == worth / (NANOS_PER_SEC as nat),
                gained > 0,
                NANOS_PER_SEC == 1_000_000_000,
        ;
        assert(span(s.last_refill, now) > 0) by (nonlinear_arith)
            requires
                span(s.last_refill, now) * s.refill_rate > 0,
        ;
        assert(fresh.tokens * NANOS_PER_SEC <= s.tokens * NANOS_PER_SEC + gained * NANOS_PER_SEC)
            by (nonlinear_arith)
            requires
                fresh.tokens <= s.tokens + gained,
        ;
    } else {
        assert((s.last_refill - s.last_refill) * s.refill_rate == 0) by (nonlinear_arith);
    }
}

/// Over any run of requests the bucket grants no more than the tokens it had
/// and those that the time by which the run moves the last refill forward is
/// worth.
pub proof fn lemma_run_within_accrual(s: TokenBucketView, requests: Seq<Request>)
    requires
        s.wf(),
    ensures
        s.run(requests).last_refill >= s.last_refill,
        s.run(requests).last_refill == s.last_refill || exists|i: int|
            0 <= i < requests.len() && s.run(requests).last_refill == (#[trigger] requests[i]).now,
        (s.granted(requests) + s.run(requests).tokens) * NANOS_PER_SEC <= s.tokens * NANOS_PER_SEC
            + (s.run(requests).last_refill - s.last_refill) * s.refill_rate,
    decreases requests.len(),
{
    if requests.len() > 0 {
        let earlier = requests.drop_last();
        let last = requests.last();
        let before = s.run(earlier);
        let after = s.run(requests);
        lemma_run_within_accrual(s, earlier);
        lemma_bound_holds_over_any_run(s, earlier);
        lemma_step_within_accrual(before, last.now, last.units);
        let step: nat = if before.admits(last.now, last.units) {
            last.units
        } else {
            0
        };
        assert((s.granted(earlier) + step + after.tokens) * NANOS_PER_SEC <= s.tokens
            * NANOS_PER_SEC + (after.last_refill - s.last_refill) * s.refill_rate)
            by (nonlinear_arith)
            requires
                (s.granted(earlier) + before.tokens) * NANOS_PER_SEC <= s.tokens * NANOS_PER_SEC
                    + (before.last_refill - s.last_refill) * s.refill_rate,
                (step + after.tokens) * NANOS_PER_SEC <= before.tokens * NANOS_PER_SEC + (
                after.last_refill - before.last_refill) * s.refill_rate,
                before.refill_rate == s.refill_rate,
        ;
        if after.last_refill != s.last_refill && after.last_refill != last.now {
            // The run before the last request moved it, to the time of one
            // of its requests, which is a request of the whole run too.
            let i = choose|i: int|
                0 <= i < earlier.len() && before.last_refill == (#[trigger] earlier[i]).now;
            assert(requests[i] == earlier[i]);
        }
    } else {
        assert((s.last_refill - s.last_refill) * s.refill_rate == 0) by (nonlinear_arith);
    }
}

/// The rate bound: requests made no later than `end` are granted, between
/// them, no more than the tokens that were there and those that the time from
/// the last refill to `end` is worth at the refill rate.
pub proof fn lemma_rate_bound(s: TokenBucketView, requests: Seq<Request>, end: nat)
    requires
        s.wf(),
        s.last_refill <= end,
        forall|i: int| 0 <= i < requests.len() ==> (#[trigger] requests[i]).now <= end,
    ensures
        s.granted(requests) * NANOS_PER_SEC <= s.tokens * NANOS_PER_SEC + (end - s.last_refill)
            * s.refill_rate,
{
    lemma_run_within_accrual(s, requests);
    let after = s.run(requests);
    assert(s.granted(requests) * NANOS_PER_SEC <= s.tokens * NANOS_PER_SEC + (end - s.last_refill)
        * s.refill_rate) by (nonlinear_arith)
        requires
            (s.granted(requests) + after.tokens) * NANOS_PER_SEC <= s.tokens * NANOS_PER_SEC + (
            after.last_refill - s.last_refill) * s.refill_rate,
            s.last_refill <= after.last_refill <= end,
    ;
}

/// A second refresh at the same time changes nothing.
pub proof fn lemma_refresh_idempotent(s: TokenBucketView, now: nat)
    ensures
        s.refreshed(now).refreshed(now) == s.refreshed(now),
{
    if s.accrued(now) > 0 {
        // The refresh moved the last refill to `now`: no time has passed since.
        assert(0 * s.refill_rate / (NANOS_PER_SEC as nat) == 0) by (nonlinear_arith);
    }
}

/// Once the time since the last refill is worth `k` tokens, a refresh brings
/// `k` tokens back, or fills the bucket where fewer were missing; and a
/// request made then is admitted for as many units as that makes.
pub proof fn lemma_refill_after_wait(s: TokenBucketView, now: nat, k: nat)
    requires
        s.wf(),
        span(s.last_refill, now) * s.refill_rate >= k * NANOS_PER_SEC,
    ensures
        s.refreshed(now).tokens >= s.tokens + k || s.refreshed(now).tokens == s.capacity,
        k >= s.used() ==> s.refreshed(now).tokens == s.capacity,
        forall|units: nat|
            units <= s.tokens + k && units <= s.capacity ==> #[trigger] s.admits(now, units),
{
    let product = span(s.last_refill, now) * s.refill_rate;
    assert(product / (NANOS_PER_SEC as nat) >= k) by (nonlinear_arith)
        requires
            product >= k * NANOS_PER_SEC,
            NANOS_PER_SEC == 1_000_000_000,
    ;
}

/// A bucket with rate zero never gets a token back.
pub proof fn lemma_zero_rate_never_refills(s: TokenBucketView, now: nat)
    requires
        s.refill_rate == 0,
    ensures
        s.refreshed(now) == s,
{
    assert(span(s.last_refill, now) * 0 / (NANOS_PER_SEC as nat) == 0) by (nonlinear_arith);
}

/// With rate zero every unit granted is a token gone for good: however many
/// requests are made, they are granted no more than the tokens that were
/// there, and so no more than the capacity.
pub proof fn lemma_zero_rate_grants_what_is_taken(s: TokenBucketView, requests: Seq<Request>)
    requires
        s.wf(),
        s.refill_rate == 0,
    ensures
        s.granted(requests) + s.run(requests).tokens == s.tokens,
        s.granted(requests) <= s.capacity,
    decreases requests.len(),
{
    if requests.len() > 0 {
        let before = s.run(requests.drop_last());
        lemma_zero_rate_grants_what_is_taken(s, requests.drop_last());
        lemma_bound_holds_over_any_run(s, requests.drop_last());
        lemma_zero_rate_never_refills(before, requests.last().now);
    }
}

/// With rate zero, requests for one unit each are granted until the tokens run
/// out and refused from then on: of `n` such requests exactly as many are
/// granted as there were tokens, or all `n` where there were more.
pub proof fn lemma_zero_rate_single_units(s: TokenBucketView, requests: Seq<Request>)
    requires
        s.wf(),
        s.refill_rate == 0,
        forall|i: int| 0 <= i < requests.len() ==> (#[trigger] requests[i]).units == 1,
    ensures
        s.granted(requests) == if requests.len() <= s.tokens {
            requests.len()
        } else {
            s.tokens
        },
    decreases requests.len(),
{
    if requests.len() > 0 {
        let earlier = requests.drop_last();
        lemma_zero_rate_single_units(s, earlier);
        lemma_zero_rate_grants_what_is_taken(s, earlier);
        lemma_bound_holds_over_any_run(s, earlier);
        lemma_zero_rate_never_refills(s.run(earlier), requests.last().now);
    }
}

/// A token bucket with its own clock.
pub struct TokenBucket {
    capacity: u32,
    tokens: u32,
    refill_rate: u32,
    last_refill: u64,
    clock: MonotonicClock,
}

impl View for TokenBucket {
    type V = TokenBucketView;

    closed spec fn view(&self) -> TokenBucketView {
        TokenBucketView {
            capacity: self.capacity as nat,
            tokens: self.tokens as nat,
            refill_rate: self.refill_rate as nat,
            last_refill: self.last_refill as nat,
        }
    }
}

impl TokenBucket {
    #[verifier::type_invariant]
    spec fn inv(&self) -> bool {
        self@.wf()
    }

    /// A full bucket of `capacity` tokens that gains `refill_rate` tokens per
    /// second. Its clock starts now.
    pub fn new(capacity: u32, refill_rate: u32) -> (bucket: Self)
        ensures
            bucket@ == TokenBucketView::full(capacity as nat, refill_rate as nat),
    {
        TokenBucket {
            capacity,
            tokens: capacity,
            refill_rate,
            last_refill: 0,
            clock: MonotonicClock::new(),
        }
    }

    /// Refreshes the bucket for a clock that reads `now` nanoseconds.
    pub fn refresh_at(&mut self, now: u64)
        ensures
            final(self)@ == old(self)@.refreshed(now as nat),
            final(self)@.wf(),
    {
        proof {
            use_type_invariant(&*self);
        }
        let elapsed: u64 = if now >= self.last_refill {
            now - self.last_refill
        } else {
            0
        };
        assert(elapsed * self.refill_rate <= u64::MAX * u32::MAX) by (nonlinear_arith)
            requires
                elapsed <= u64::MAX,
                self.refill_rate <= u32::MAX,
        ;
        let worth: u128 = (elapsed as u128) * (self.refill_rate as u128);
        let gained: u128 = worth / (NANOS_PER_SEC as u128);
        if gained > 0 {
            let room: u32 = self.capacity - self.tokens;
            if gained >= room as u128 {
                self.tokens = self.capacity;
            } else {
                self.tokens = self.tokens + (gained as u32);
            }
            self.last_refill = now;
        }
    }

    /// Refreshes the bucket for a clock that reads `now` nanoseconds, then
    /// admits `tokens` units where that many tokens are there, and takes them.
    pub fn try_acquire_at(&mut self, now: u64, tokens: u32) -> (admitted: bool)
        ensures
            final(self)@ == old(self)@.acquired(now as nat, tokens as nat),
            admitted == old(self)@.admits(now as nat, tokens as nat),
            final(self)@.wf(),
    {
        self.refresh_at(now);
        if self.tokens >= tokens {
            self.tokens = self.tokens - tokens;
            true
        } else {
            false
        }
    }

    /// The Unix second at which the bucket will be full again, for a wall
    /// clock that reads `wall` nanoseconds since the epoch.
    pub fn reset_at(&self, wall: u128) -> (reset: u64)
        ensures
            reset == self@.reset_time(wall as nat),
    {
        proof {
            use_type_invariant(self);
        }
        let used: u32 = self.capacity - self.tokens;
        if used == 0 {
            secs_after(wall, 0)
        } else if self.refill_rate == 0 {
            NEVER
        } else {
            assert(used * NANOS_PER_SEC <= u32::MAX * NANOS_PER_SEC) by (nonlinear_arith)
                requires
                    used <= u32::MAX,
            ;
            let wait: u64 = (used as u64) * NANOS_PER_SEC / (self.refill_rate as u64);
            secs_after(wall, wait as u128)
        }
    }
}

impl RateLimiter for TokenBucket {
    /// Refreshes the bucket for the time that its clock reads.
    fn refresh(&mut self)
        ensures
            exists|now: nat| final(self)@ == #[trigger] old(self)@.refreshed(now),
            final(self)@.wf(),
    {
        let now: u64 = self.clock.now();
        self.refresh_at(now);
    }

    /// Makes a request for `tokens` units at the time that the bucket's clock
    /// reads.
    fn try_acquire(&mut self, tokens: u32) -> (admitted: bool)
        ensures
            exists|now: nat|
                final(self)@ == #[trigger] old(self)@.acquired(now, tokens as nat) && admitted
                    == old(self)@.admits(now, tokens as nat),
            final(self)@.wf(),
    {
        let now: u64 = self.clock.now();
        self.try_acquire_at(now, tokens)
    }

    fn get_limit(&self) -> (limit: u32)
        ensures
            limit == self@.capacity,
    {
        self.capacity
    }

    fn get_remaining(&self) -> (remaining: u32)
        ensures
            remaining == self@.tokens,
            self@.used() + remaining == self@.capacity,
    {
        proof {
            use_type_invariant(self);
        }
        self.tokens
    }

    fn get_used(&self) -> (used: u32)
        ensures
            used == self@.used(),
            used + self@.tokens == self@.capacity,
    {
        proof {
            use_type_invariant(self);
        }
        self.capacity - self.tokens
    }

    /// The Unix second at which the bucket will be full again, by the wall
    /// clock as it reads now.
    fn get_reset(&self) -> (reset: u64)
        ensures
            exists|wall: nat| reset == #[trigger] self@.reset_time(wall),
    {
        let wall: u128 = wall_nanos();
        self.reset_at(wall)
    }
}

/// A token bucket behind a lock, for callers that share it.
pub struct TokenBucketShared {
    inner: Arc<RwLock<TokenBucket, HoldsLimit>>,
}

impl RwLockPredicate<TokenBucket> for HoldsLimit {
    open spec fn inv(self, bucket: TokenBucket) -> bool {
        bucket@.capacity == self.limit
    }
}

impl TokenBucketShared {
    /// The limit that the limiter was made with. It never changes.
    pub closed spec fn limit(&self) -> nat {
        self.inner.pred().limit
    }

    /// A full bucket of `capacity` tokens that gains `refill_rate` tokens per
    /// second, behind its lock.
    pub fn new(capacity: u32, refill_rate: u32) -> (shared: Self)
        ensures
            shared.limit() == capacity,
    {
        let bucket = TokenBucket::new(capacity, refill_rate);
        TokenBucketShared {
            inner: Arc::new(RwLock::new(bucket, Ghost(HoldsLimit { limit: capacity as nat }))),
        }
    }
}

impl RateLimiterShared for TokenBucketShared {
    fn refresh(&self) {
        let (mut bucket, handle) = self.inner.acquire_write();
        bucket.refresh();
        handle.release_write(bucket);
    }

    fn try_acquire(&self, tokens: u32) -> (admitted: bool)
        ensures
            tokens == 0 ==> admitted,
            admitted ==> tokens <= self.limit(),
    {
        let (mut bucket, handle) = self.inner.acquire_write();
        proof {
            use_type_invariant(&bucket);
        }
        let admitted: bool = bucket.try_acquire(tokens);
        handle.release_write(bucket);
        admitted
    }

    fn get_limit(&self) -> (limit: u32)
        ensures
            limit == self.limit(),
    {
        let (bucket, handle) = self.inner.acquire_write();
        let limit: u32 = bucket.get_limit();
        handle.release_write(bucket);
        limit
    }

    fn get_remaining(&self) -> (remaining: u32)
        ensures
            remaining <= self.limit(),
    {
        let (bucket, handle) = self.inner.acquire_write();
        let remaining: u32 = bucket.get_remaining();
        handle.release_write(bucket);
        remaining
    }

    fn get_used(&self) -> (used: u32)
        ensures
            used <= self.limit(),
    {
        let (bucket, handle) = self.inner.acquire_write();
        let used: u32 = bucket.get_used();
        handle.release_write(bucket);
        used
    }

    fn get_reset(&self) -> (reset: u64) {
        let (bucket, handle) = self.inner.acquire_write();
        let reset: u64 = bucket.get_reset();
        handle.release_write(bucket);
        reset
    }
}

} // verus!
