//! Sliding windows as the queues of admission times that they keep.
//!
//! A queue holds one time for each unit that was admitted, oldest first. An
//! entry leaves the queue once its age reaches the horizon of the window, and
//! entries are only ever dropped from the front. The two sliding windows of
//! this library differ in the clock they read and in whether an entry whose age
//! is exactly the window is still kept; what is proved of the queue holds of
//! both.

use crate::clock::span;
use crate::limiter::in_time_order;
use crate::limiter::Request;
use vstd::prelude::*;

verus! {

/// Whether an entry made at `at` has reached the age `horizon` by `now`.
pub open spec fn expired(at: nat, now: nat, horizon: nat) -> bool {
    span(at, now) >= horizon
}

/// `entries` without the expired entries at its front: entries are dropped
/// from the front until the first one is not expired.
pub open spec fn purged(entries: Seq<nat>, now: nat, horizon: nat) -> Seq<nat>
    decreases entries.len(),
{
    if entries.len() > 0 && expired(entries[0], now, horizon) {
        purged(entries.drop_first(), now, horizon)
    } else {
        entries
    }
}

/// `count` entries made at `now`.
pub open spec fn burst(now: nat, count: nat) -> Seq<nat> {
    Seq::new(count, |i: int| now)
}

/// `count` requests for one unit each, all made at `now`.
pub open spec fn singles(now: nat, count: nat) -> Seq<Request> {
    Seq::new(count, |i: int| Request { now, units: 1 })
}

/// Whether no entry is older than one behind it.
pub open spec fn chronological(entries: Seq<nat>) -> bool {
    forall|i: int, j: int|
        #![trigger entries[i], entries[j]]
        0 <= i <= j < entries.len() ==> entries[i] <= entries[j]
}

/// The times that a queue of clock readings holds.
pub open spec fn times(readings: Seq<u64>) -> Seq<nat> {
    Seq::new(readings.len(), |i: int| readings[i] as nat)
}

/// Whether `x` is one of `entries` or the time of one of `requests`.
pub open spec fn stems_from(x: nat, entries: Seq<nat>, requests: Seq<Request>) -> bool {
    ||| exists|k: int| 0 <= k < entries.len() && #[trigger] entries[k] == x
    ||| exists|j: int| 0 <= j < requests.len() && (#[trigger] requests[j]).now == x
}

/// A sliding window as a mathematical value. `entries` holds, oldest first,
/// one time for each unit admitted; `window` is in the unit of those times.
/// With `keeps_edge` an entry stays while its age is no more than the window,
/// without it while its age is less than the window.
pub struct Timeline {
    pub capacity: nat,
    pub window: nat,
    pub keeps_edge: bool,
    pub entries: Seq<nat>,
}

impl Timeline {
    /// The queue never holds more entries than the capacity.
    pub open spec fn wf(self) -> bool {
        self.entries.len() <= self.capacity
    }

    /// A sliding window that has admitted nothing yet.
    pub open spec fn idle(capacity: nat, window: nat, keeps_edge: bool) -> Self {
        Timeline { capacity, window, keeps_edge, entries: Seq::empty() }
    }

    /// The units in use: one for each entry.
    pub open spec fn used(self) -> nat {
        self.entries.len()
    }

    /// The room that is left, none where the queue is at the capacity.
    pub open spec fn remaining(self) -> nat {
        if self.entries.len() >= self.capacity {
            0
        } else {
            (self.capacity - self.entries.len()) as nat
        }
    }

    /// The least age at which an entry is dropped.
    pub open spec fn horizon(self) -> nat {
        if self.keeps_edge {
            self.window + 1
        } else {
            self.window
        }
    }

    /// The window after a refresh at `now`.
    pub open spec fn refreshed(self, now: nat) -> Self {
        Timeline { entries: purged(self.entries, now, self.horizon()), ..self }
    }

    /// Whether a request for `units` at `now` is admitted.
    pub open spec fn admits(self, now: nat, units: nat) -> bool {
        self.refreshed(now).entries.len() + units <= self.capacity
    }

    /// The window after a request for `units` at `now`.
    pub open spec fn acquired(self, now: nat, units: nat) -> Self {
        let fresh = self.refreshed(now);
        if fresh.entries.len() + units <= self.capacity {
            Timeline { entries: fresh.entries + burst(now, units), ..fresh }
        } else {
            fresh
        }
    }

    /// The window after the requests of `requests`, made in their order.
    pub open spec fn run(self, requests: Seq<Request>) -> Self
        decreases requests.len(),
    {
        if requests.len() == 0 {
            self
        } else {
            self.run(requests.drop_last()).acquired(requests.last().now, requests.last().units)
        }
    }

    /// The units that the requests of `requests`, made in their order, are
    /// granted in all.
    pub open spec fn granted(self, requests: Seq<Request>) -> nat
        decreases requests.len(),
    {
        if requests.len() == 0 {
            0
        } else {
            let before = self.run(requests.drop_last());
            let last = requests.last();
            self.granted(requests.drop_last()) + if before.admits(last.now, last.units) {
                last.units
            } else {
                0
            }
        }
    }

    /// Whether the queue is chronological and holds no time later than `now`.
    pub open spec fn settled_by(self, now: nat) -> bool {
        &&& chronological(self.entries)
        &&& forall|i: int| 0 <= i < self.entries.len() ==> #[trigger] self.entries[i] <= now
    }

    /// Whether nothing leaves the queue in the course of `requests`: when a
    /// request is made, no entry that was in the queue before the first
    /// request is expired, and none with the time of an earlier request.
    pub open spec fn quiet(self, requests: Seq<Request>) -> bool {
        &&& forall|i: int, k: int|
            0 <= i < requests.len() && 0 <= k < self.entries.len() ==> !expired(
                #[trigger] self.entries[k],
                (#[trigger] requests[i]).now,
                self.horizon(),
            )
        &&& forall|j: int, i: int|
            0 <= j < i < requests.len() ==> !expired(
                (#[trigger] requests[j]).now,
                (#[trigger] requests[i]).now,
                self.horizon(),
            )
    }
}

/// Purging drops some number of entries from the front: all of them expired,
/// and the first that stays is not.
pub proof fn lemma_purged_shape(entries: Seq<nat>, now: nat, horizon: nat) -> (dropped: nat)
    ensures
        dropped <= entries.len(),
        purged(entries, now, horizon) == entries.skip(dropped as int),
        forall|i: int| 0 <= i < dropped ==> expired(#[trigger] entries[i], now, horizon),
        dropped < entries.len() ==> !expired(entries[dropped as int], now, horizon),
    decreases entries.len(),
{
    if entries.len() > 0 && expired(entries[0], now, horizon) {
        let rest = entries.drop_first();
        let inner = lemma_purged_shape(rest, now, horizon);
        let dropped = inner + 1;
        assert forall|i: int| 0 <= i < dropped implies expired(
            #[trigger] entries[i],
            now,
            horizon,
        ) by {
            if i > 0 {
                assert(entries[i] == rest[i - 1]);
            }
        }
        dropped
    } else {
        0
    }
}

/// Purging makes a queue no longer.
pub proof fn lemma_purged_no_longer(entries: Seq<nat>, now: nat, horizon: nat)
    ensures
        purged(entries, now, horizon).len() <= entries.len(),
{
    let _ = lemma_purged_shape(entries, now, horizon);
}

/// In a chronological queue the expired entries all stand at the front, so
/// that purging leaves no expired entry behind: what stays is chronological
/// and lies within the horizon.
pub proof fn lemma_purge_chronological(entries: Seq<nat>, now: nat, horizon: nat)
    requires
        chronological(entries),
    ensures
        chronological(purged(entries, now, horizon)),
        forall|i: int|
            0 <= i < purged(entries, now, horizon).len() ==> !expired(
                #[trigger] purged(entries, now, horizon)[i],
                now,
                horizon,
            ),
{
    let _ = lemma_purged_shape(entries, now, horizon);
}

/// The times of a queue with one more reading at its back.
pub proof fn lemma_times_push(readings: Seq<u64>, reading: u64)
    ensures
        times(readings.push(reading)) == times(readings).push(reading as nat),
{
}

/// The times of a queue without its first reading.
pub proof fn lemma_times_drop_first(readings: Seq<u64>)
    requires
        readings.len() > 0,
    ensures
        times(readings.subrange(1, readings.len() as int)) == times(readings).drop_first(),
{
}

/// What is used and what remains make up the capacity.
pub proof fn lemma_used_and_remaining(q: Timeline)
    requires
        q.wf(),
    ensures
        q.used() + q.remaining() == q.capacity,
{
}

/// A refresh and a request keep the queue within the capacity and leave
/// capacity and window as they are; a refresh makes the queue no longer.
pub proof fn lemma_step_keeps_bound(q: Timeline, now: nat, units: nat)
    requires
        q.wf(),
    ensures
        q.refreshed(now).wf(),
        q.acquired(now, units).wf(),
        q.refreshed(now).capacity == q.capacity,
        q.acquired(now, units).capacity == q.capacity,
        q.refreshed(now).horizon() == q.horizon(),
        q.acquired(now, units).horizon() == q.horizon(),
        q.refreshed(now).used() <= q.used(),
{
    lemma_purged_no_longer(q.entries, now, q.horizon());
}

/// Whatever requests are made, and whenever, the units in use never exceed the
/// capacity.
pub proof fn lemma_bound_holds_over_any_run(q: Timeline, requests: Seq<Request>)
    requires
        q.wf(),
    ensures
        q.run(requests).wf(),
        q.run(requests).capacity == q.capacity,
        q.run(requests).horizon() == q.horizon(),
        q.run(requests).used() <= q.capacity,
    decreases requests.len(),
{
    if requests.len() > 0 {
        lemma_bound_holds_over_any_run(q, requests.drop_last());
        lemma_step_keeps_bound(
            q.run(requests.drop_last()),
            requests.last().now,
            requests.last().units,
        );
    }
}

/// Where the queue is chronological and the clock has not run backwards, the
/// queue after a request holds exactly the units admitted in the window that
/// ends with the request: it is chronological, none of its entries is expired
/// unless this very request made it, and they are no more than the capacity.
pub proof fn lemma_window_holds_at_most_capacity(q: Timeline, now: nat, units: nat)
    requires
        q.wf(),
        q.settled_by(now),
    ensures
        q.acquired(now, units).settled_by(now),
        q.acquired(now, units).entries.len() <= q.capacity,
        forall|i: int|
            0 <= i < q.acquired(now, units).entries.len() ==> {
                ||| !expired(#[trigger] q.acquired(now, units).entries[i], now, q.horizon())
                ||| q.acquired(now, units).entries[i] == now
            },
{
    let _ = lemma_purged_shape(q.entries, now, q.horizon());
}

/// While the clock does not run backwards, whatever requests are made, the
/// queue after the last of them holds no more than the capacity, and nothing
/// that has left the window that ends with that request.
pub proof fn lemma_ordered_run_keeps_window(q: Timeline, requests: Seq<Request>)
    requires
        q.wf(),
        requests.len() > 0,
        in_time_order(requests),
        q.settled_by(requests[0].now),
    ensures
        q.run(requests).settled_by(requests.last().now),
        q.run(requests).entries.len() <= q.capacity,
        forall|i: int|
            0 <= i < q.run(requests).entries.len() ==> {
                ||| !expired(
                    #[trigger] q.run(requests).entries[i],
                    requests.last().now,
                    q.horizon(),
                )
                ||| q.run(requests).entries[i] == requests.last().now
            },
    decreases requests.len(),
{
    let earlier = requests.drop_last();
    let last = requests.last();
    if earlier.len() > 0 {
        lemma_ordered_run_keeps_window(q, earlier);
    }
    lemma_bound_holds_over_any_run(q, earlier);
    lemma_window_holds_at_most_capacity(q.run(earlier), last.now, last.units);
}

/// A second refresh at the same time changes nothing.
pub proof fn lemma_refresh_idempotent(q: Timeline, now: nat)
    ensures
        q.refreshed(now).refreshed(now) == q.refreshed(now),
{
    let _ = lemma_purged_shape(q.entries, now, q.horizon());
}

/// Once every entry is expired, a refresh empties the queue and the whole
/// capacity is there again: a request made then is admitted for any number of
/// units up to the capacity.
pub proof fn lemma_empty_after_window(q: Timeline, now: nat)
    requires
        forall|i: int|
            0 <= i < q.entries.len() ==> expired(#[trigger] q.entries[i], now, q.horizon()),
    ensures
        q.refreshed(now).entries == Seq::<nat>::empty(),
        q.refreshed(now).remaining() == q.capacity,
        forall|units: nat| units <= q.capacity ==> #[trigger] q.admits(now, units),
{
    let _ = lemma_purged_shape(q.entries, now, q.horizon());
}

/// A request for no units is always admitted and does no more than a refresh.
pub proof fn lemma_no_units(q: Timeline, now: nat)
    requires
        q.wf(),
    ensures
        q.admits(now, 0),
        q.acquired(now, 0) == q.refreshed(now),
{
    lemma_purged_no_longer(q.entries, now, q.horizon());
}

/// A request for more units than the capacity is never admitted, whatever the
/// queue holds, and does no more than a refresh.
pub proof fn lemma_more_than_capacity(q: Timeline, now: nat, units: nat)
    requires
        units > q.capacity,
    ensures
        !q.admits(now, units),
        q.acquired(now, units) == q.refreshed(now),
{
}

/// Where an entry outlasts the moment it is made, a request for several units
/// does what as many requests for one unit each, made at the same time, do:
/// where the one is admitted the others all are, and the queue ends up the
/// same.
pub proof fn lemma_one_by_one(q: Timeline, now: nat, units: nat)
    requires
        q.wf(),
        q.horizon() > 0,
        units >= 1,
        q.admits(now, units),
    ensures
        q.granted(singles(now, units)) == units,
        q.run(singles(now, units)) == q.acquired(now, units),
    decreases units,
{
    let earlier = singles(now, units).drop_last();
    if units == 1 {
        assert(q.granted(earlier) == 0);
    } else {
        let fewer = (units - 1) as nat;
        assert(earlier =~= singles(now, fewer));
        lemma_one_by_one(q, now, fewer);
        // The queue before the last request is what was kept and the entries
        // of the requests before it; its front is not expired, so that the
        // last request drops nothing.
        let kept = purged(q.entries, now, q.horizon());
        let before = kept + burst(now, fewer);
        let _ = lemma_purged_shape(q.entries, now, q.horizon());
        assert(before + burst(now, 1) =~= kept + burst(now, units));
    }
}

/// Every entry of the queue after a run was in the queue before it or has the
/// time of a request of the run.
pub proof fn lemma_entries_stem_from(q: Timeline, requests: Seq<Request>)
    ensures
        forall|m: int|
            0 <= m < q.run(requests).entries.len() ==> stems_from(
                #[trigger] q.run(requests).entries[m],
                q.entries,
                requests,
            ),
    decreases requests.len(),
{
    if requests.len() > 0 {
        let before = q.run(requests.drop_last());
        lemma_entries_stem_from(q, requests.drop_last());
        let _ = lemma_purged_shape(before.entries, requests.last().now, before.horizon());
    }
}

/// While nothing leaves the queue, every unit granted is room gone: however
/// many requests are made, they are granted no more than the room that was
/// there, and so no more than the capacity.
pub proof fn lemma_quiet_run_grants_what_is_taken(q: Timeline, requests: Seq<Request>)
    requires
        q.wf(),
        q.quiet(requests),
    ensures
        q.run(requests).entries.len() == q.entries.len() + q.granted(requests),
        q.granted(requests) + q.run(requests).remaining() == q.remaining(),
        q.granted(requests) <= q.capacity,
    decreases requests.len(),
{
    if requests.len() > 0 {
        let earlier = requests.drop_last();
        let before = q.run(earlier);
        assert(q.quiet(earlier));
        lemma_quiet_run_grants_what_is_taken(q, earlier);
        lemma_bound_holds_over_any_run(q, earlier);
        // The front of the queue before the last request was there from the
        // start or has the time of an earlier request: either way it is not
        // expired when the last request is made, which so drops nothing.
        lemma_entries_stem_from(q, earlier);
        if before.entries.len() > 0 {
            assert(stems_from(before.entries[0], q.entries, earlier));
        }
    }
}

/// While nothing leaves the queue, requests for one unit each are granted
/// until the queue is full and refused from then on: of `n` such requests
/// exactly as many are granted as there was room for, or all `n` where there
/// was room for more.
pub proof fn lemma_quiet_run_single_units(q: Timeline, requests: Seq<Request>)
    requires
        q.wf(),
        q.quiet(requests),
        forall|i: int| 0 <= i < requests.len() ==> (#[trigger] requests[i]).units == 1,
    ensures
        q.granted(requests) == if requests.len() <= q.remaining() {
            requests.len()
        } else {
            q.remaining()
        },
    decreases requests.len(),
{
    if requests.len() > 0 {
        let earlier = requests.drop_last();
        assert(q.quiet(earlier));
        assert(forall|i: int| 0 <= i < earlier.len() ==> (#[trigger] earlier[i]).units == 1);
        lemma_quiet_run_single_units(q, earlier);
        lemma_quiet_run_grants_what_is_taken(q, requests);
    }
}

} // verus!
