use vstd::arithmetic::div_mod::{
    lemma_basic_div, lemma_div_plus_one, lemma_fundamental_div_mod, lemma_small_mod,
};
use vstd::prelude::*;

verus! {

/// Largest interval a timer may be configured with, in time units.
pub const MAX_INTERVAL: u64 = 1_000_000_000_000_000_000;

/// Largest time delta a single frame may carry, in time units.
pub const MAX_DELTA: u64 = 1_000_000_000;

/// A repeating countdown: it accumulates frame deltas and reports, once per
/// elapsed interval, that the interval just finished, keeping the remainder
/// of the accumulated time.
#[derive(Clone, Copy)]
pub struct RepeatTimer {
    pub interval: u64,
    pub elapsed: u64,
}

impl RepeatTimer {
    /// A well-formed timer has a positive, bounded interval and strictly less
    /// than one interval of accumulated time.
    pub open spec fn wf(self) -> bool {
        0 < self.interval <= MAX_INTERVAL && self.elapsed < self.interval
    }

    /// A fresh repeating timer with nothing accumulated yet.
    pub fn new(interval: u64) -> (t: RepeatTimer)
        requires
            0 < interval <= MAX_INTERVAL,
        ensures
            t.wf(),
            t.interval == interval,
            t.elapsed == 0,
    {
        RepeatTimer { interval, elapsed: 0 }
    }

    /// Advance the timer by one frame's delta. Returns true when the interval
    /// just finished; the accumulated time then keeps the remainder modulo
    /// the interval, so no elapsed time is lost across firings.
    pub fn tick(&mut self, delta: u64) -> (fired: bool)
        requires
            old(self).wf(),
            delta <= MAX_DELTA,
        ensures
            final(self).wf(),
            final(self).interval == old(self).interval,
            fired == (old(self).elapsed + delta >= old(self).interval),
            final(self).elapsed as int == (old(self).elapsed + delta) % (
            old(self).interval as int),
    {
        let total = self.elapsed + delta;
        if total >= self.interval {
            self.elapsed = total % self.interval;
            true
        } else {
            proof {
                lemma_small_mod(total as nat, self.interval as nat);
            }
            self.elapsed = total;
            false
        }
    }
}

/// Total time carried by a sequence of frame deltas.
pub open spec fn total_time(deltas: Seq<u64>) -> int
    decreases deltas.len(),
{
    if deltas.len() == 0 {
        0
    } else {
        deltas[0] + total_time(deltas.drop_first())
    }
}

/// How many times a timer with the given interval fires when ticked with
/// each delta in turn, starting from `elapsed` accumulated time. Mirrors
/// `RepeatTimer::tick`: each tick fires at most once and keeps the
/// accumulated time modulo the interval.
pub open spec fn times_fired(interval: int, elapsed: int, deltas: Seq<u64>) -> int
    recommends
        0 < interval,
    decreases deltas.len(),
{
    if deltas.len() == 0 {
        0
    } else {
        let total = elapsed + deltas[0];
        (if total >= interval {
            1int
        } else {
            0int
        }) + times_fired(interval, total % interval, deltas.drop_first())
    }
}

/// Law: as long as no single frame delta exceeds the interval, the timer
/// fires exactly once per full interval of cumulative elapsed time — the
/// number of firings is the integer quotient of the accumulated time by the
/// interval, regardless of how that time is divided into frames.
pub proof fn lemma_timer_fires_once_per_interval(interval: int, elapsed: int, deltas: Seq<u64>)
    requires
        0 < interval,
        0 <= elapsed < interval,
        forall|i: int| 0 <= i < deltas.len() ==> deltas[i] <= interval,
    ensures
        times_fired(interval, elapsed, deltas) == (elapsed + total_time(deltas)) / interval,
    decreases deltas.len(),
{
    if deltas.len() == 0 {
        lemma_basic_div(elapsed, interval);
    } else {
        let d = deltas[0] as int;
        let total = elapsed + d;
        let rest = deltas.drop_first();
        assert(forall|i: int| 0 <= i < rest.len() ==> rest[i] <= interval);
        if total >= interval {
            assert(total < 2 * interval);
            assert(total % interval == total - interval) by {
                lemma_basic_div(total - interval, interval);
                lemma_div_plus_one(total - interval, interval);
                assert(interval + (total - interval) == total);
                assert(total / interval == 1);
                lemma_fundamental_div_mod(total, interval);
                assert(total == interval * (total / interval) + total % interval);
                assert(interval * 1 == interval);
            }
            lemma_timer_fires_once_per_interval(interval, total - interval, rest);
            assert(elapsed + total_time(deltas) == interval + ((total - interval) + total_time(
                rest,
            )));
            lemma_div_plus_one((total - interval) + total_time(rest), interval);
        } else {
            lemma_small_mod(total as nat, interval as nat);
            lemma_timer_fires_once_per_interval(interval, total, rest);
        }
    }
}

} // verus!
