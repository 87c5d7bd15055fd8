//! Rolling tick-duration statistics.
//!
//! The timer keeps the most recent tick durations (in microseconds) in a
//! fixed window, newest first, and reports the newest duration together
//! with the average, minimum and maximum over the window.  Measuring the
//! durations is the caller's business: the loop around the runner hands
//! each elapsed interval in.

use vstd::prelude::*;

verus! {

/// Number of recent tick durations the window holds.
pub const TIMER_WINDOW: usize = 240;

/// One report: the newest duration and the window statistics, microseconds.
#[derive(Clone, Copy, Debug, PartialEq, Eq, Structural)]
pub struct Stats {
    pub dt: u64,
    pub avg: u64,
    pub min: u64,
    pub max: u64,
}

pub open spec fn seq_sum(s: Seq<u64>) -> int
    decreases s.len(),
{
    if s.len() == 0 {
        0
    } else {
        seq_sum(s.drop_last()) + s.last()
    }
}

pub open spec fn seq_min(s: Seq<u64>) -> int
    decreases s.len(),
{
    if s.len() == 0 {
        u64::MAX as int
    } else if s.last() < seq_min(s.drop_last()) {
        s.last() as int
    } else {
        seq_min(s.drop_last())
    }
}

pub open spec fn seq_max(s: Seq<u64>) -> int
    decreases s.len(),
{
    if s.len() == 0 {
        0
    } else if s.last() > seq_max(s.drop_last()) {
        s.last() as int
    } else {
        seq_max(s.drop_last())
    }
}

pub proof fn lemma_seq_sum_bounds(s: Seq<u64>)
    ensures
        0 <= seq_sum(s) <= s.len() * (u64::MAX as int),
    decreases s.len(),
{
    if s.len() > 0 {
        lemma_seq_sum_bounds(s.drop_last());
        assert((s.len() - 1) * (u64::MAX as int) + u64::MAX == s.len() * (u64::MAX as int))
            by (nonlinear_arith);
    }
}

pub proof fn lemma_seq_min_max_bounds(s: Seq<u64>)
    ensures
        0 <= seq_min(s) <= u64::MAX,
        0 <= seq_max(s) <= u64::MAX,
    decreases s.len(),
{
    if s.len() > 0 {
        lemma_seq_min_max_bounds(s.drop_last());
    }
}

/// The rolling window, newest duration first.
pub struct Timer {
    pub window: Vec<u64>,
}

impl Timer {
    pub open spec fn wf(self) -> bool {
        self.window@.len() == TIMER_WINDOW
    }

    /// A fresh timer with an all-zero window.
    pub fn new() -> (t: Timer)
        ensures
            t.wf(),
            forall|i: int| 0 <= i < TIMER_WINDOW ==> t.window@[i] == 0,
    {
        let mut window: Vec<u64> = Vec::new();
        let mut k: usize = 0;
        while k < TIMER_WINDOW
            invariant
                k <= TIMER_WINDOW,
                window@.len() == k,
                forall|i: int| 0 <= i < k ==> window@[i] == 0,
            decreases TIMER_WINDOW - k,
        {
            window.push(0);
            k = k + 1;
        }
        Timer { window }
    }

    /// Record one tick duration and report the window statistics.
    pub fn tick(&mut self, dt_micros: u64) -> (s: Stats)
        requires
            old(self).wf(),
        ensures
            final(self).wf(),
            final(self).window@ =~= seq![dt_micros] + old(self).window@.drop_last(),
            s.dt == dt_micros,
            s.avg == seq_sum(final(self).window@) / (TIMER_WINDOW as int),
            s.min == seq_min(final(self).window@),
            s.max == seq_max(final(self).window@),
    {
        // Shift the window: drop the oldest entry, put the newest in front.
        let mut shifted: Vec<u64> = Vec::new();
        shifted.push(dt_micros);
        let mut k: usize = 0;
        while k < TIMER_WINDOW - 1
            invariant
                old(self).wf(),
                k <= TIMER_WINDOW - 1,
                shifted@.len() == k + 1,
                shifted@[0] == dt_micros,
                forall|i: int| 1 <= i < k + 1 ==> shifted@[i] == old(self).window@[i - 1],
                self == old(self),
            decreases TIMER_WINDOW - k,
        {
            shifted.push(self.window[k]);
            k = k + 1;
        }
        self.window = shifted;
        proof {
            assert(self.window@ =~= seq![dt_micros] + old(self).window@.drop_last());
        }

        // Fold the statistics over the window, oldest to newest.
        let mut sum: u128 = 0;
        let mut min: u64 = u64::MAX;
        let mut max: u64 = 0;
        let mut k: usize = 0;
        while k < TIMER_WINDOW
            invariant
                self.wf(),
                k <= TIMER_WINDOW,
                sum == seq_sum(self.window@.take(k as int)),
                min == seq_min(self.window@.take(k as int)),
                max == seq_max(self.window@.take(k as int)),
            decreases TIMER_WINDOW - k,
        {
            proof {
                lemma_seq_sum_bounds(self.window@.take(k as int));
                lemma_seq_min_max_bounds(self.window@.take(k as int));
                assert(self.window@.take(k as int + 1).drop_last() =~= self.window@.take(k as int));
                assert((k as int) * (u64::MAX as int) + u64::MAX <= (TIMER_WINDOW as int) * (
                u64::MAX as int)) by (nonlinear_arith)
                    requires
                        k < TIMER_WINDOW,
                ;
            }
            let v = self.window[k];
            sum = sum + (v as u128);
            if v < min {
                min = v;
            }
            if v > max {
                max = v;
            }
            k = k + 1;
        }
        proof {
            assert(self.window@.take(TIMER_WINDOW as int) =~= self.window@);
            lemma_seq_sum_bounds(self.window@);
        }
        let avg: u64 = (sum / (TIMER_WINDOW as u128)) as u64;
        proof {
            assert(seq_sum(self.window@) / (TIMER_WINDOW as int) <= u64::MAX as int)
                by (nonlinear_arith)
                requires
                    0 <= seq_sum(self.window@) <= (TIMER_WINDOW as int) * (u64::MAX as int),
            ;
        }
        Stats { dt: dt_micros, avg, min, max }
    }
}

} // verus!
