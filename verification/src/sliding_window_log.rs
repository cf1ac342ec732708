//! Sliding window log: a queue with the wall-clock second of each unit
//! admitted in the window that ends now.
//!
//! It works as the sliding window counter does, but on whole seconds of the
//! wall clock: an entry is dropped once its age in seconds reaches the window.
//! What holds of such a queue is stated and proved in `timeline`.

use crate::clock::wall_secs;
use crate::limiter::HoldsLimit;
use crate::limiter::RateLimiter;
use crate::limiter::RateLimiterShared;
use crate::timeline::burst;
use crate::timeline::lemma_times_drop_first;
use crate::timeline::lemma_times_push;
use crate::timeline::purged;
use crate::timeline::times;
use crate::timeline::Timeline;
use std::collections::VecDeque;
use std::sync::Arc;
use vstd::prelude::*;
use vstd::rwlock::RwLock;
use vstd::rwlock::RwLockPredicate;

verus! {

/// The Unix second at which the oldest entry of the log reaches the end of
/// the window, held at `u64::MAX`; with an empty log, the second `wall` that
/// the wall clock reads.
pub open spec fn reset_time(q: Timeline, wall: nat) -> nat {
    if q.entries.len() > 0 {
        if q.entries[0] + q.window > u64::MAX {
            u64::MAX as nat
        } else {
            q.entries[0] + q.window
        }
    } else {
        wall
    }
}

/// A sliding window log. It reads the wall clock where it needs the time. As
/// a mathematical value it is the queue that it keeps: the times are seconds
/// of the wall clock since the Unix epoch, the window is in seconds too, and
/// an entry stays while its age is less than the window.
pub struct SlidingWindowLog {
    capacity: u32,
    window_secs: u64,
    log: VecDeque<u64>,
}

impl View for SlidingWindowLog {
    type V = Timeline;

    closed spec fn view(&self) -> Timeline {
        Timeline {
            capacity: self.capacity as nat,
            window: self.window_secs as nat,
            keeps_edge: false,
            entries: times(self.log@),
        }
    }
}

impl SlidingWindowLog {
    #[verifier::type_invariant]
    spec fn inv(&self) -> bool {
        self@.wf()
    }

    /// A log that admits `capacity` units in any window of `window_secs`
    /// seconds.
    pub fn new(capacity: u32, window_secs: u64) -> (limiter: Self)
        ensures
            limiter@ == Timeline::idle(capacity as nat, window_secs as nat, false),
    {
        let limiter = SlidingWindowLog { capacity, window_secs, log: VecDeque::new() };
        assert(limiter@.entries =~= Seq::<nat>::empty());
        limiter
    }

    /// The second that the wall clock reads, counted from the Unix epoch.
    pub fn now_secs() -> (secs: u64) {
        wall_secs()
    }

    /// Takes the queue out of the log and leaves an empty one in its place.
    /// The queue is worked on outside the log and put back when it is done,
    /// so that the log is within its capacity at every step.
    fn take_log(&mut self) -> (log: VecDeque<u64>)
        ensures
            log@ == old(self).log@,
            final(self).log@.len() == 0,
            final(self).capacity == old(self).capacity,
            final(self).window_secs == old(self).window_secs,
    {
        let mut log: VecDeque<u64> = VecDeque::new();
        std::mem::swap(&mut self.log, &mut log);
        log
    }

    /// Drops from the front of the log the entries whose age has reached the
    /// window, for a wall clock that reads the second `now`.
    pub fn cleanup(&mut self, now: u64)
        ensures
            final(self)@ == old(self)@.refreshed(now as nat),
            final(self)@.wf(),
    {
        proof {
            use_type_invariant(&*self);
        }
        let window: u64 = self.window_secs;
        let mut log = self.take_log();
        loop
            invariant
                log@.len() <= old(self).log@.len(),
                purged(times(log@), now as nat, window as nat) == purged(
                    old(self)@.entries,
                    now as nat,
                    window as nat,
                ),
            ensures
                log@.len() <= old(self).log@.len(),
                times(log@) == purged(old(self)@.entries, now as nat, window as nat),
            decreases log.len(),
        {
            if log.len() == 0 {
                break ;
            }
            let front: u64 = log[0];
            let age: u64 = if now >= front {
                now - front
            } else {
                0
            };
            if age >= window {
                proof {
                    lemma_times_drop_first(log@);
                }
                log.pop_front();
            } else {
                break ;
            }
        }
        self.log = log;
    }

    /// Refreshes the log for a wall clock that reads the second `now`.
    pub fn refresh_at(&mut self, now: u64)
        ensures
            final(self)@ == old(self)@.refreshed(now as nat),
            final(self)@.wf(),
    {
        self.cleanup(now);
    }

    /// Refreshes the log for a wall clock that reads the second `now`, then
    /// admits `tokens` units where the log has room for them, and enters them
    /// with the time `now`. A single unit takes a path of its own, to the same
    /// effect.
    pub fn try_acquire_at(&mut self, now: u64, tokens: u32) -> (admitted: bool)
        ensures
            final(self)@ == old(self)@.acquired(now as nat, tokens as nat),
            admitted == old(self)@.admits(now as nat, tokens as nat),
            final(self)@.wf(),
    {
        self.cleanup(now);
        proof {
            use_type_invariant(&*self);
        }
        let ghost fresh = self@;
        if tokens != 1 {
            if self.log.len() as u64 + tokens as u64 <= self.capacity as u64 {
                let mut log = self.take_log();
                let mut entered: u32 = 0;
                while entered < tokens
                    invariant
                        entered <= tokens,
                        fresh.entries.len() + tokens <= old(self).capacity,
                        times(log@) == fresh.entries + burst(now as nat, entered as nat),
                    decreases tokens - entered,
                {
                    proof {
                        lemma_times_push(log@, now);
                    }
                    log.push_back(now);
                    entered = entered + 1;
                }
                self.log = log;
                true
            } else {
                false
            }
        } else if self.log.len() < self.capacity as usize {
            let mut log = self.take_log();
            proof {
                lemma_times_push(log@, now);
                assert(fresh.entries.push(now as nat) =~= fresh.entries + burst(now as nat, 1));
            }
            log.push_back(now);
            self.log = log;
            true
        } else {
            false
        }
    }

    /// The Unix second at which the oldest entry reaches the end of the
    /// window; with an empty log, the second `wall` that the wall clock reads.
    pub fn reset_at(&self, wall: u64) -> (reset: u64)
        ensures
            reset == reset_time(self@, wall as nat),
    {
        if self.log.len() > 0 {
            let oldest: u64 = self.log[0];
            oldest.saturating_add(self.window_secs)
        } else {
            wall
        }
    }
}

impl RateLimiter for SlidingWindowLog {
    /// Refreshes the log for the second that the wall clock reads.
    fn refresh(&mut self)
        ensures
            exists|now: nat| final(self)@ == #[trigger] old(self)@.refreshed(now),
            final(self)@.wf(),
    {
        let now: u64 = Self::now_secs();
        self.cleanup(now);
    }

    /// Makes a request for `tokens` units at the second that the wall clock
    /// reads.
    fn try_acquire(&mut self, tokens: u32) -> (admitted: bool)
        ensures
            exists|now: nat|
                final(self)@ == #[trigger] old(self)@.acquired(now, tokens as nat) && admitted
                    == old(self)@.admits(now, tokens as nat),
            final(self)@.wf(),
    {
        let now: u64 = Self::now_secs();
        self.try_acquire_at(now, tokens)
    }

    fn get_limit(&self) -> (limit: u32)
        ensures
            limit == self@.capacity,
    {
        self.capacity
    }

    fn get_remaining(&self) -> (remaining: u32)
        ensures
            remaining == self@.remaining(),
            self@.used() + remaining == self@.capacity,
    {
        proof {
            use_type_invariant(self);
        }
        let held: u32 = self.log.len() as u32;
        self.capacity.saturating_sub(held)
    }

    fn get_used(&self) -> (used: u32)
        ensures
            used == self@.used(),
            used + self@.remaining() == self@.capacity,
    {
        proof {
            use_type_invariant(self);
        }
        self.log.len() as u32
    }

    /// The Unix second at which the oldest entry reaches the end of the
    /// window; with an empty log, the second that the wall clock reads now.
    fn get_reset(&self) -> (reset: u64)
        ensures
            exists|wall: nat| reset == #[trigger] reset_time(self@, wall),
    {
        let wall: u64 = Self::now_secs();
        self.reset_at(wall)
    }
}

/// A sliding window log behind a lock, for callers that share it.
pub struct SlidingWindowLogShared {
    inner: Arc<RwLock<SlidingWindowLog, HoldsLimit>>,
}

impl RwLockPredicate<SlidingWindowLog> for HoldsLimit {
    open spec fn inv(self, limiter: SlidingWindowLog) -> bool {
        limiter@.capacity == self.limit
    }
}

impl SlidingWindowLogShared {
    /// The limit that the limiter was made with. It never changes.
    pub closed spec fn limit(&self) -> nat {
        self.inner.pred().limit
    }

    /// A log that admits `capacity` units in any window of `window_secs`
    /// seconds, behind its lock.
    pub fn new(capacity: u32, window_secs: u64) -> (shared: Self)
        ensures
            shared.limit() == capacity,
    {
        let limiter = SlidingWindowLog::new(capacity, window_secs);
        SlidingWindowLogShared {
            inner: Arc::new(RwLock::new(limiter, Ghost(HoldsLimit { limit: capacity as nat }))),
        }
    }
}

impl RateLimiterShared for SlidingWindowLogShared {
    fn refresh(&self) {
        let (mut limiter, handle) = self.inner.acquire_write();
        limiter.refresh();
        handle.release_write(limiter);
    }

    fn try_acquire(&self, tokens: u32) -> (admitted: bool)
        ensures
            tokens == 0 ==> admitted,
            admitted ==> tokens <= self.limit(),
    {
        let (mut limiter, handle) = self.inner.acquire_write();
        let admitted: bool = limiter.try_acquire(tokens);
        handle.release_write(limiter);
        admitted
    }

    fn get_limit(&self) -> (limit: u32)
        ensures
            limit == self.limit(),
    {
        let (limiter, handle) = self.inner.acquire_write();
        let limit: u32 = limiter.get_limit();
        handle.release_write(limiter);
        limit
    }

    fn get_remaining(&self) -> (remaining: u32)
        ensures
            remaining <= self.limit(),
    {
        let (limiter, handle) = self.inner.acquire_write();
        let remaining: u32 = limiter.get_remaining();
        handle.release_write(limiter);
        remaining
    }

    fn get_used(&self) -> (used: u32)
        ensures
            used <= self.limit(),
    {
        let (limiter, handle) = self.inner.acquire_write();
        let used: u32 = limiter.get_used();
        handle.release_write(limiter);
        used
    }

    fn get_reset(&self) -> (reset: u64) {
        let (limiter, handle) = self.inner.acquire_write();
        let reset: u64 = limiter.get_reset();
        handle.release_write(limiter);
        reset
    }
}

} // verus!
