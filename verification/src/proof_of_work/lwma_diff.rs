//! The linear-weighted moving average (LWMA) difficulty adjustment.
//!
//! The algorithm keeps a bounded window of the most recent observations and
//! derives the next target difficulty from the solve times between them,
//! weighting recent intervals more heavily than old ones.

use crate::proof_of_work::difficulty::{
    Difficulty,
    DifficultyAdjustment,
    DifficultyAdjustmentError,
    DifficultyObservation,
    EpochTime,
};
use std::collections::VecDeque;
use vstd::prelude::*;

verus! {

/// The mathematical content of a [`LinearWeightedMovingAverage`].
pub struct LwmaState {
    /// The observations held, oldest first.
    pub window: Seq<DifficultyObservation>,
    /// The number of intervals the window may span.
    pub block_window: nat,
    /// The desired interval between blocks, in seconds.
    pub target_time: u64,
    /// The difficulty reported while the window spans no interval.
    pub initial_difficulty: u64,
}

/// Accumulated difficulty grows strictly from each observation to the next.
pub open spec fn strictly_increasing(window: Seq<DifficultyObservation>) -> bool {
    forall|i: int, j: int|
        0 <= i < j < window.len() ==> window[i].accumulated_difficulty.0
            < window[j].accumulated_difficulty.0
}

/// The configurations whose weight normaliser fits in 64 bits: the target
/// time is positive and `block_window * (block_window + 1) * target_time`
/// does not exceed `u64::MAX`.
pub open spec fn configuration_fits(block_window: nat, target_time: u64) -> bool {
    &&& target_time > 0
    &&& block_window * (block_window + 1) * target_time <= u64::MAX
}

impl LwmaState {
    /// The state of an engine that has seen no observation yet.
    pub open spec fn empty(block_window: nat, target_time: u64, initial_difficulty: u64) -> Self {
        LwmaState { window: Seq::empty(), block_window, target_time, initial_difficulty }
    }

    /// What every reachable state satisfies.
    pub open spec fn wf(self) -> bool {
        &&& configuration_fits(self.block_window, self.target_time)
        &&& self.window.len() <= self.block_window + 1
        &&& strictly_increasing(self.window)
    }

    /// Whether an observation with this accumulated difficulty may follow the
    /// ones already held.
    pub open spec fn accepts(self, accumulated_difficulty: Difficulty) -> bool {
        self.window.len() == 0 || self.window.last().accumulated_difficulty.0
            < accumulated_difficulty.0
    }

    /// The state after an accepted observation: it is appended, and the
    /// oldest entries beyond `block_window + 1` are dropped.
    pub open spec fn push(self, observation: DifficultyObservation) -> Self {
        let grown = self.window.push(observation);
        let kept = if grown.len() > self.block_window + 1 {
            grown.skip(grown.len() - (self.block_window + 1))
        } else {
            grown
        };
        LwmaState { window: kept, ..self }
    }

    /// The state after `add` was asked to take an observation, accepted or not.
    pub open spec fn add(self, observation: DifficultyObservation) -> Self {
        if self.accepts(observation.accumulated_difficulty) {
            self.push(observation)
        } else {
            self
        }
    }

    /// The target difficulty this state yields.
    pub open spec fn difficulty(self) -> int {
        lwma_difficulty(self.window, self.target_time, self.initial_difficulty)
    }
}

/// The solve time of interval `i`, between observations `i - 1` and `i`:
/// the timestamp difference, taken as 1 where time did not advance, and
/// limited to six target times.
pub open spec fn solve_time(window: Seq<DifficultyObservation>, i: int, target_time: u64) -> int
    recommends
        1 <= i < window.len(),
{
    let this = window[i].timestamp.0;
    let previous = window[i - 1].timestamp.0;
    let raw = if this > previous {
        this - previous
    } else {
        1
    };
    if raw < 6 * target_time {
        raw
    } else {
        6 * target_time
    }
}

/// The sum of `i * solve_time(i)` over the intervals `1..=upto`.
pub open spec fn weighted_solve_times(
    window: Seq<DifficultyObservation>,
    upto: int,
    target_time: u64,
) -> int
    decreases upto,
{
    if upto <= 0 {
        0
    } else {
        weighted_solve_times(window, upto - 1, target_time) + upto * solve_time(
            window,
            upto,
            target_time,
        )
    }
}

/// The quotient `a / b` rounded up, for `a >= 0` and `b > 0`.
pub open spec fn ceil_div(a: int, b: int) -> int
    recommends
        a >= 0,
        b > 0,
{
    if a % b == 0 {
        a / b
    } else {
        a / b + 1
    }
}

/// The sum of the weights `1 + 2 + .. + n`, times the target time.
pub open spec fn weight_normaliser(n: int, target_time: u64) -> int {
    n * (n + 1) / 2 * target_time
}

/// The LWMA target difficulty of a window.
///
/// With fewer than two observations it is the initial difficulty. Otherwise,
/// with `n` intervals, weighted solve-time sum `s`, weight normaliser `k` and
/// `delta` the difficulty accumulated across the window, it is the average
/// difficulty per interval scaled by `k / s`, that is `delta * k / (n * s)`,
/// rounded up and held between 1 and `u64::MAX`.
pub open spec fn lwma_difficulty(
    window: Seq<DifficultyObservation>,
    target_time: u64,
    initial_difficulty: u64,
) -> int {
    if window.len() < 2 {
        initial_difficulty as int
    } else {
        let n = window.len() - 1;
        let s = weighted_solve_times(window, n, target_time);
        let k = weight_normaliser(n, target_time);
        let delta = window[n].accumulated_difficulty.0 - window[0].accumulated_difficulty.0;
        let target = ceil_div(delta * k, n * s);
        if target < 1 {
            1
        } else if target > u64::MAX {
            u64::MAX as int
        } else {
            target
        }
    }
}

/// Each solve time lies between 1 and six target times.
pub proof fn lemma_solve_time_bounds(window: Seq<DifficultyObservation>, i: int, target_time: u64)
    requires
        target_time > 0,
    ensures
        1 <= solve_time(window, i, target_time) <= 6 * target_time,
{
}

/// The weighted sum over `m` intervals lies between `m` and
/// `3 * target_time * m * (m + 1)`.
pub proof fn lemma_weighted_solve_times_bounds(
    window: Seq<DifficultyObservation>,
    m: int,
    target_time: u64,
)
    requires
        target_time > 0,
        m >= 0,
    ensures
        m <= weighted_solve_times(window, m, target_time) <= 3 * target_time * (m * (m + 1)),
    decreases m,
{
    if m > 0 {
        lemma_weighted_solve_times_bounds(window, m - 1, target_time);
        lemma_solve_time_bounds(window, m, target_time);
        let st = solve_time(window, m, target_time);
        let t = target_time as int;
        assert(m * st >= 1 && m * st <= m * (6 * t)) by (nonlinear_arith)
            requires
                m >= 1,
                1 <= st <= 6 * t,
        ;
        assert(3 * t * ((m - 1) * m) + m * (6 * t) == 3 * t * (m * (m + 1))) by (nonlinear_arith);
    } else {
        assert(3 * target_time * (m * (m + 1)) == 0) by (nonlinear_arith)
            requires
                m == 0,
        ;
    }
}

/// A window of `n` intervals under a fitting configuration keeps every
/// intermediate quantity of the computation small.
proof fn lemma_fitting_bounds(n: int, block_window: int, target_time: u64)
    requires
        0 <= n <= block_window,
        target_time > 0,
        block_window * (block_window + 1) * target_time <= u64::MAX,
    ensures
        n * (n + 1) * target_time <= u64::MAX,
        n * (n + 1) <= u64::MAX,
        target_time * (n * (n + 1)) <= u64::MAX,
        n * target_time <= u64::MAX,
        n < 0x1_0000_0000,
        0 <= weight_normaliser(n, target_time) <= u64::MAX,
{
    let t = target_time as int;
    assert(n * (n + 1) <= block_window * (block_window + 1)) by (nonlinear_arith)
        requires
            0 <= n <= block_window,
    ;
    assert(n * (n + 1) * t <= block_window * (block_window + 1) * t) by (nonlinear_arith)
        requires
            n * (n + 1) <= block_window * (block_window + 1),
            t > 0,
    ;
    assert(n * (n + 1) <= n * (n + 1) * t) by (nonlinear_arith)
        requires
            n >= 0,
            t >= 1,
    ;
    assert(t * (n * (n + 1)) == n * (n + 1) * t) by (nonlinear_arith);
    assert(n * t <= n * (n + 1) * t) by (nonlinear_arith)
        requires
            n >= 0,
            t >= 1,
    ;
    assert(n < 0x1_0000_0000) by (nonlinear_arith)
        requires
            n >= 0,
            n * (n + 1) <= 0xffff_ffff_ffff_ffff,
    ;
    let half = n * (n + 1) / 2;
    assert(0 <= half <= n * (n + 1));
    assert(0 <= half * t <= n * (n + 1) * t) by (nonlinear_arith)
        requires
            0 <= half <= n * (n + 1),
            t >= 1,
    ;
}

/// Once an observation with some accumulated difficulty has been offered,
/// whether it was taken or not, no observation with the same or a lesser
/// accumulated difficulty is accepted.
pub proof fn lemma_add_rejects_non_increasing(
    state: LwmaState,
    first: DifficultyObservation,
    second: DifficultyObservation,
)
    requires
        second.accumulated_difficulty.0 <= first.accumulated_difficulty.0,
    ensures
        !state.add(first).accepts(second.accumulated_difficulty),
        state.add(first).add(second) == state.add(first),
{
    if state.accepts(first.accumulated_difficulty) {
        let grown = state.window.push(first);
        assert(grown.last() == first);
        assert(state.push(first).window.last() == first);
    }
}

/// Offering an observation keeps the window bounded and its accumulated
/// difficulties strictly increasing.
pub proof fn lemma_add_preserves_wf(state: LwmaState, observation: DifficultyObservation)
    requires
        state.wf(),
    ensures
        state.add(observation).wf(),
{
    if state.accepts(observation.accumulated_difficulty) {
        let grown = state.window.push(observation);
        assert(strictly_increasing(grown)) by {
            assert forall|i: int, j: int|
                0 <= i < j < grown.len() implies grown[i].accumulated_difficulty.0
                < grown[j].accumulated_difficulty.0 by {
                if j == grown.len() - 1 && i < j {
                    assert(state.window[i].accumulated_difficulty.0
                        <= state.window.last().accumulated_difficulty.0);
                }
            }
        }
    }
}

/// A moving window of observations with the LWMA target computed over it.
pub struct LinearWeightedMovingAverage {
    window: VecDeque<DifficultyObservation>,
    block_window: usize,
    target_time: u64,
    initial_difficulty: u64,
}

impl View for LinearWeightedMovingAverage {
    type V = LwmaState;

    closed spec fn view(&self) -> LwmaState {
        LwmaState {
            window: self.window@,
            block_window: self.block_window as nat,
            target_time: self.target_time,
            initial_difficulty: self.initial_difficulty,
        }
    }
}

/// Whether a configuration is one that [`LinearWeightedMovingAverage::new`]
/// takes.
pub fn configuration_is_valid(block_window: usize, target_time: u64) -> (valid: bool)
    ensures
        valid == configuration_fits(block_window as nat, target_time),
{
    if target_time == 0 {
        return false;
    }
    let w: u128 = block_window as u128;
    assert(w * (w + 1) <= 0xffff_ffff_ffff_ffff * 0x1_0000_0000_0000_0000) by (nonlinear_arith)
        requires
            0 <= w <= 0xffff_ffff_ffff_ffff,
    ;
    let pairs: u128 = w * (w + 1);
    let limit: u128 = (u64::MAX as u128) / (target_time as u128);
    proof {
        let t = target_time as int;
        let m = u64::MAX as int;
        let p = pairs as int;
        vstd::arithmetic::div_mod::lemma_fundamental_div_mod(m, t);
        vstd::arithmetic::div_mod::lemma_mod_bound(m, t);
        if p <= m / t {
            assert(p * t <= (m / t) * t) by (nonlinear_arith)
                requires
                    p <= m / t,
                    t > 0,
            ;
            assert((m / t) * t == t * (m / t)) by (nonlinear_arith);
        } else {
            assert(p * t >= (m / t + 1) * t) by (nonlinear_arith)
                requires
                    p >= m / t + 1,
                    t > 0,
            ;
            assert((m / t + 1) * t == t * (m / t) + t) by (nonlinear_arith);
        }
        assert(block_window as nat * (block_window as nat + 1) == p);
    }
    pairs <= limit
}

impl LinearWeightedMovingAverage {
    #[verifier::type_invariant]
    spec fn inv(&self) -> bool {
        self@.wf()
    }

    /// An engine with an empty window.
    ///
    /// The configuration must fit (see [`configuration_fits`]); whether it
    /// does can be asked of [`configuration_is_valid`].
    pub fn new(block_window: usize, target_time: u64, initial_difficulty: u64) -> (engine: Self)
        requires
            configuration_fits(block_window as nat, target_time),
        ensures
            engine@ == LwmaState::empty(block_window as nat, target_time, initial_difficulty),
            engine@.wf(),
    {
        LinearWeightedMovingAverage {
            window: VecDeque::new(),
            block_window,
            target_time,
            initial_difficulty,
        }
    }

    /// The number of observations held.
    pub fn len(&self) -> (len: usize)
        ensures
            self@.wf(),
            len == self@.window.len(),
    {
        proof {
            use_type_invariant(self);
        }
        self.window.len()
    }

    /// The observation at position `index`, counted from the oldest.
    pub fn observation(&self, index: usize) -> (observation: DifficultyObservation)
        requires
            index < self@.window.len(),
        ensures
            observation == self@.window[index as int],
    {
        self.window[index]
    }

    /// The number of intervals the window may span.
    pub fn block_window(&self) -> (block_window: usize)
        ensures
            block_window == self@.block_window,
    {
        self.block_window
    }

    /// The desired interval between blocks, in seconds.
    pub fn target_time(&self) -> (target_time: u64)
        ensures
            target_time == self@.target_time,
    {
        self.target_time
    }

    /// The difficulty reported while the window spans no interval.
    pub fn initial_difficulty(&self) -> (initial_difficulty: u64)
        ensures
            initial_difficulty == self@.initial_difficulty,
    {
        self.initial_difficulty
    }
}

impl DifficultyAdjustment for LinearWeightedMovingAverage {
    /// Takes a new observation into the window.
    ///
    /// Fails, leaving the window as it was, unless the accumulated
    /// difficulty exceeds that of the newest observation held. Otherwise the
    /// observation is appended and the oldest one leaves if the window would
    /// outgrow `block_window + 1` entries.
    fn add(&mut self, timestamp: EpochTime, accumulated_difficulty: Difficulty) -> (result:
        Result<(), DifficultyAdjustmentError>)
        ensures
            old(self)@.wf(),
            final(self)@.wf(),
            final(self)@ == old(self)@.add(
                DifficultyObservation { timestamp, accumulated_difficulty },
            ),
            old(self)@.accepts(accumulated_difficulty) ==> result is Ok,
            !old(self)@.accepts(accumulated_difficulty) ==> result == Err::<
                (),
                DifficultyAdjustmentError,
            >(DifficultyAdjustmentError::StrictlyIncreasing),
    {
        proof {
            use_type_invariant(&*self);
        }
        let observation = DifficultyObservation { timestamp, accumulated_difficulty };
        let len: usize = self.window.len();
        if len > 0 {
            let newest = self.window[len - 1];
            if accumulated_difficulty.0 <= newest.accumulated_difficulty.0 {
                return Err(DifficultyAdjustmentError::StrictlyIncreasing);
            }
        }
        let ghost before = self.window@;
        // The window is edited outside the engine and put back once it is
        // whole again.
        let mut window: VecDeque<DifficultyObservation> = VecDeque::new();
        core::mem::swap(&mut self.window, &mut window);
        if len > self.block_window {
            let _ = window.pop_front();
        }
        window.push_back(observation);
        proof {
            let grown = before.push(observation);
            if before.len() > self.block_window {
                assert(window@ =~= grown.skip(grown.len() - (self.block_window + 1)));
            } else {
                assert(window@ =~= grown);
            }
        }
        core::mem::swap(&mut self.window, &mut window);
        Ok(())
    }

    /// The target difficulty for the next block: [`lwma_difficulty`] of the
    /// window. The window is left as it is.
    fn get_difficulty(&self) -> (difficulty: Difficulty)
        ensures
            self@.wf(),
            difficulty.0 == self@.difficulty(),
            self@.window.len() < 2 ==> difficulty.0 == self@.initial_difficulty,
            self@.window.len() >= 2 ==> difficulty.0 >= 1,
    {
        proof {
            use_type_invariant(self);
        }
        let len: usize = self.window.len();
        if len < 2 {
            return Difficulty(self.initial_difficulty);
        }
        let n: usize = len - 1;
        let ghost w = self.window@;
        let ghost t = self.target_time;
        proof {
            lemma_fitting_bounds(n as int, self.block_window as int, t);
        }
        let six_t: u128 = 6 * (self.target_time as u128);
        let mut s: u128 = 0;
        let mut i: usize = 1;
        while i <= n
            invariant
                1 <= i <= n + 1,
                n < usize::MAX,
                n + 1 == w.len(),
                w == self.window@,
                t == self.target_time,
                t > 0,
                six_t == 6 * t,
                n * t <= u64::MAX,
                t * (n * (n + 1)) <= u64::MAX,
                s == weighted_solve_times(w, i - 1, t),
            decreases n + 1 - i,
        {
            let this: u64 = self.window[i].timestamp.0;
            let previous: u64 = self.window[i - 1].timestamp.0;
            let raw: u64 = if this > previous {
                this - previous
            } else {
                1
            };
            let st: u128 = if (raw as u128) < six_t {
                raw as u128
            } else {
                six_t
            };
            proof {
                lemma_weighted_solve_times_bounds(w, i - 1, t);
                assert(st == solve_time(w, i as int, t));
                assert(i * st <= 6 * (n * t)) by (nonlinear_arith)
                    requires
                        1 <= i <= n,
                        0 <= st <= 6 * t,
                ;
                assert(3 * t * ((i - 1) * i) <= 3 * (t * (n * (n + 1)))) by (nonlinear_arith)
                    requires
                        1 <= i <= n,
                        t > 0,
                ;
            }
            s = s + (i as u128) * st;
            i = i + 1;
        }
        proof {
            lemma_weighted_solve_times_bounds(w, n as int, t);
            assert(3 * t * (n * (n + 1)) == 3 * (t * (n * (n + 1)))) by (nonlinear_arith);
        }
        let oldest: u64 = self.window[0].accumulated_difficulty.0;
        let newest: u64 = self.window[n].accumulated_difficulty.0;
        assert(oldest < newest);
        let delta: u64 = newest - oldest;
        let k: u128 = (n as u128) * ((n as u128) + 1) / 2 * (self.target_time as u128);
        assert(k == weight_normaliser(n as int, t));
        assert(delta * k <= 0xffff_ffff_ffff_ffff * 0xffff_ffff_ffff_ffff) by (nonlinear_arith)
            requires
                0 <= delta <= 0xffff_ffff_ffff_ffff,
                0 <= k <= 0xffff_ffff_ffff_ffff,
        ;
        let numerator: u128 = (delta as u128) * k;
        assert(n * s <= 0x1_0000_0000 * (3 * 0xffff_ffff_ffff_ffff)) by (nonlinear_arith)
            requires
                0 <= n < 0x1_0000_0000,
                0 <= s <= 3 * 0xffff_ffff_ffff_ffff,
        ;
        assert(n * s >= 1) by (nonlinear_arith)
            requires
                n >= 1,
                s >= n,
        ;
        let denominator: u128 = (n as u128) * s;
        let quotient: u128 = numerator / denominator;
        let target: u128 = if numerator % denominator == 0 {
            quotient
        } else {
            quotient + 1
        };
        assert(target == ceil_div(delta * k, n * s));
        if target < 1 {
            Difficulty(1)
        } else if target > u64::MAX as u128 {
            Difficulty(u64::MAX)
        } else {
            Difficulty(target as u64)
        }
    }
}

} // verus!
