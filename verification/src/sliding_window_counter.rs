//! Sliding window counter: a queue with the time of each unit admitted in the
//! window that ends now.
//!
//! A request for `n` units is admitted when the queue, once the entries older
//! than the window are dropped, has room for `n` more; it then gets `n`
//! entries with the time of the request. Times come from a monotonic clock.
//! What holds of such a queue is stated and proved in `timeline`.

use crate::clock::secs_after;
use crate::clock::span;
use crate::clock::wall_nanos;
use crate::clock::whole_secs;
use crate::clock::MonotonicClock;
use crate::clock::NANOS_PER_SEC;
use crate::limiter::HoldsLimit;
use crate::limiter::RateLimiter;
use crate::limiter::RateLimiterShared;
use crate::timeline::burst;
use crate::timeline::lemma_times_drop_first;
use crate::timeline::lemma_times_push;
use crate::timeline::purged;
use crate::timeline::times;
use crate::timeline::Timeline;
use std::collections::VecDeque;
use std::sync::Arc;
use vstd::prelude::*;
use vstd::rwlock::RwLock;
use vstd::rwlock::RwLockPredicate;

verus! {

/// The Unix second in which the oldest entry of the queue reaches the end of
/// the window, for a counter clock that reads `now` and a wall clock that
/// reads `wall` nanoseconds. With an empty queue, and once that moment has
/// passed, it is the second of `wall` itself.
pub open spec fn reset_time(q: Timeline, now: nat, wall: nat) -> nat {
    if q.entries.len() > 0 {
        whole_secs(wall + span(now, q.entries[0] + q.window))
    } else {
        whole_secs(wall)
    }
}

/// A sliding window counter with its own clock. As a mathematical value it
/// is the queue that it keeps: the times are nanoseconds on the counter's own
/// clock, which reads zero when the counter is made, the window is in
/// nanoseconds too, and an entry stays while its age is no more than the
/// window.
pub struct SlidingWindowCounter {
    capacity: u32,
    window_secs: u64,
    events: VecDeque<u64>,
    clock: MonotonicClock,
}

impl View for SlidingWindowCounter {
    type V = Timeline;

    closed spec fn view(&self) -> Timeline {
        Timeline {
            capacity: self.capacity as nat,
            window: self.window_secs as nat * (NANOS_PER_SEC as nat),
            keeps_edge: true,
            entries: times(self.events@),
        }
    }
}

impl SlidingWindowCounter {
    #[verifier::type_invariant]
    spec fn inv(&self) -> bool {
        self@.wf()
    }

    /// A counter that admits `capacity` units in any window of `window_secs`
    /// seconds. Its clock starts now.
    pub fn new(capacity: u32, window_secs: u64) -> (counter: Self)
        ensures
            counter@ == Timeline::idle(
                capacity as nat,
                window_secs as nat * (NANOS_PER_SEC as nat),
                true,
            ),
    {
        let counter = SlidingWindowCounter {
            capacity,
            window_secs,
            events: VecDeque::new(),
            clock: MonotonicClock::new(),
        };
        assert(counter@.entries =~= Seq::<nat>::empty());
        counter
    }

    /// The length of the window in nanoseconds.
    fn window_nanos(&self) -> (nanos: u128)
        ensures
            nanos == self@.window,
    {
        assert(self.window_secs * NANOS_PER_SEC <= u64::MAX * NANOS_PER_SEC) by (nonlinear_arith)
            requires
                self.window_secs <= u64::MAX,
        ;
        (self.window_secs as u128) * (NANOS_PER_SEC as u128)
    }

    /// Takes the queue out of the counter and leaves an empty one in its
    /// place. The queue is worked on outside the counter and put back when it
    /// is done, so that the counter is within its capacity at every step.
    fn take_events(&mut self) -> (events: VecDeque<u64>)
        ensures
            events@ == old(self).events@,
            final(self).events@.len() == 0,
            final(self).capacity == old(self).capacity,
            final(self).window_secs == old(self).window_secs,
            final(self).clock == old(self).clock,
    {
        let mut events: VecDeque<u64> = VecDeque::new();
        std::mem::swap(&mut self.events, &mut events);
        events
    }

    /// Drops from the front of the queue the entries that are older than the
    /// window, for a clock that reads `now` nanoseconds.
    pub fn purge_old(&mut self, now: u64)
        ensures
            final(self)@ == old(self)@.refreshed(now as nat),
            final(self)@.wf(),
    {
        proof {
            use_type_invariant(&*self);
        }
        let window: u128 = self.window_nanos();
        let ghost horizon = self@.horizon();
        let mut events = self.take_events();
        loop
            invariant
                horizon == window + 1,
                events@.len() <= old(self).events@.len(),
                purged(times(events@), now as nat, horizon) == purged(
                    old(self)@.entries,
                    now as nat,
                    horizon,
                ),
            ensures
                events@.len() <= old(self).events@.len(),
                times(events@) == purged(old(self)@.entries, now as nat, horizon),
            decreases events.len(),
        {
            if events.len() == 0 {
                break ;
            }
            let front: u64 = events[0];
            let age: u64 = if now >= front {
                now - front
            } else {
                0
            };
            if age as u128 > window {
                proof {
                    lemma_times_drop_first(events@);
                }
                events.pop_front();
            } else {
                break ;
            }
        }
        self.events = events;
    }

    /// Refreshes the counter for a clock that reads `now` nanoseconds.
    pub fn refresh_at(&mut self, now: u64)
        ensures
            final(self)@ == old(self)@.refreshed(now as nat),
            final(self)@.wf(),
    {
        self.purge_old(now);
    }

    /// Refreshes the counter for a clock that reads `now` nanoseconds, then
    /// admits `tokens` units where the queue has room for them, and enters
    /// them with the time `now`.
    pub fn try_acquire_at(&mut self, now: u64, tokens: u32) -> (admitted: bool)
        ensures
            final(self)@ == old(self)@.acquired(now as nat, tokens as nat),
            admitted == old(self)@.admits(now as nat, tokens as nat),
            final(self)@.wf(),
    {
        self.purge_old(now);
        proof {
            use_type_invariant(&*self);
        }
        let ghost fresh = self@;
        if self.events.len() as u64 + tokens as u64 <= self.capacity as u64 {
            let mut events = self.take_events();
            let mut entered: u32 = 0;
            while entered < tokens
                invariant
                    entered <= tokens,
                    fresh.entries.len() + tokens <= old(self).capacity,
                    times(events@) == fresh.entries + burst(now as nat, entered as nat),
                decreases tokens - entered,
            {
                proof {
                    lemma_times_push(events@, now);
                }
                events.push_back(now);
                entered = entered + 1;
            }
            self.events = events;
            true
        } else {
            false
        }
    }

    /// The Unix second in which the oldest entry reaches the end of the
    /// window, for a counter clock that reads `now` nanoseconds and a wall
    /// clock that reads `wall` nanoseconds since the epoch.
    pub fn reset_at(&self, now: u64, wall: u128) -> (reset: u64)
        ensures
            reset == reset_time(self@, now as nat, wall as nat),
    {
        if self.events.len() > 0 {
            let first: u64 = self.events[0];
            let expiry: u128 = first as u128 + self.window_nanos();
            let wait: u128 = if expiry >= now as u128 {
                expiry - now as u128
            } else {
                0
            };
            secs_after(wall, wait)
        } else {
            secs_after(wall, 0)
        }
    }
}

impl RateLimiter for SlidingWindowCounter {
    /// Refreshes the counter for the time that its clock reads.
    fn refresh(&mut self)
        ensures
            exists|now: nat| final(self)@ == #[trigger] old(self)@.refreshed(now),
            final(self)@.wf(),
    {
        let now: u64 = self.clock.now();
        self.purge_old(now);
    }

    /// Makes a request for `tokens` units at the time that the counter's
    /// clock reads.
    fn try_acquire(&mut self, tokens: u32) -> (admitted: bool)
        ensures
            exists|now: nat|
                final(self)@ == #[trigger] old(self)@.acquired(now, tokens as nat) && admitted
                    == old(self)@.admits(now, tokens as nat),
            final(self)@.wf(),
    {
        let now: u64 = self.clock.now();
        self.try_acquire_at(now, tokens)
    }

    fn get_limit(&self) -> (limit: u32)
        ensures
            limit == self@.capacity,
    {
        self.capacity
    }

    fn get_remaining(&self) -> (remaining: u32)
        ensures
            remaining == self@.remaining(),
            self@.used() + remaining == self@.capacity,
    {
        proof {
            use_type_invariant(self);
        }
        let held: usize = self.events.len();
        if held >= self.capacity as usize {
            0
        } else {
            self.capacity - held as u32
        }
    }

    fn get_used(&self) -> (used: u32)
        ensures
            used == self@.used(),
            used + self@.remaining() == self@.capacity,
    {
        proof {
            use_type_invariant(self);
        }
        self.events.len() as u32
    }

    /// The Unix second in which the oldest entry reaches the end of the
    /// window, by the two clocks as they read now.
    fn get_reset(&self) -> (reset: u64)
        ensures
            exists|now: nat, wall: nat| reset == #[trigger] reset_time(self@, now, wall),
    {
        let wall: u128 = wall_nanos();
        let now: u64 = self.clock.now();
        self.reset_at(now, wall)
    }
}

/// A sliding window counter behind a lock, for callers that share it.
pub struct SlidingWindowCounterShared {
    inner: Arc<RwLock<SlidingWindowCounter, HoldsLimit>>,
}

impl RwLockPredicate<SlidingWindowCounter> for HoldsLimit {
    open spec fn inv(self, counter: SlidingWindowCounter) -> bool {
        counter@.capacity == self.limit
    }
}

impl SlidingWindowCounterShared {
    /// The limit that the limiter was made with. It never changes.
    pub closed spec fn limit(&self) -> nat {
        self.inner.pred().limit
    }

    /// A counter that admits `capacity` units in any window of `window_secs`
    /// seconds, behind its lock.
    pub fn new(capacity: u32, window_secs: u64) -> (shared: Self)
        ensures
            shared.limit() == capacity,
    {
        let counter = SlidingWindowCounter::new(capacity, window_secs);
        SlidingWindowCounterShared {
            inner: Arc::new(RwLock::new(counter, Ghost(HoldsLimit { limit: capacity as nat }))),
        }
    }
}

impl RateLimiterShared for SlidingWindowCounterShared {
    fn refresh(&self) {
        let (mut counter, handle) = self.inner.acquire_write();
        counter.refresh();
        handle.release_write(counter);
    }

    fn try_acquire(&self, tokens: u32) -> (admitted: bool)
        ensures
            tokens == 0 ==> admitted,
            admitted ==> tokens <= self.limit(),
    {
        let (mut counter, handle) = self.inner.acquire_write();
        let admitted: bool = counter.try_acquire(tokens);
        handle.release_write(counter);
        admitted
    }

    fn get_limit(&self) -> (limit: u32)
        ensures
            limit == self.limit(),
    {
        let (counter, handle) = self.inner.acquire_write();
        let limit: u32 = counter.get_limit();
        handle.release_write(counter);
        limit
    }

    fn get_remaining(&self) -> (remaining: u32)
        ensures
            remaining <= self.limit(),
    {
        let (counter, handle) = self.inner.acquire_write();
        let remaining: u32 = counter.get_remaining();
        handle.release_write(counter);
        remaining
    }

    fn get_used(&self) -> (used: u32)
        ensures
            used <= self.limit(),
    {
        let (counter, handle) = self.inner.acquire_write();
        let used: u32 = counter.get_used();
        handle.release_write(counter);
        used
    }

    fn get_reset(&self) -> (reset: u64) {
        let (counter, handle) = self.inner.acquire_write();
        let reset: u64 = counter.get_reset();
        handle.release_write(counter);
        reset
    }
}

} // verus!
