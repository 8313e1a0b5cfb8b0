//! The timestamp-aware (TSA) difficulty adjustment.
//!
//! The algorithm takes the LWMA target as its base and corrects it for the
//! solve time of the newest block alone: a short solve time dampens the
//! target to a fifth, a long one scales it by an exponential expansion.
//!
//! Everything up to the choice between those two is integer arithmetic and
//! is decided here, and so is the dampened target. The exponential scaling
//! is floating-point arithmetic, which this library does not do: for it,
//! [`TimeStampAdjustment::calculate`] hands out the base and the integers
//! that the scaling starts from.

use crate::proof_of_work::difficulty::{
    Difficulty,
    DifficultyAdjustment,
    DifficultyAdjustmentError,
    DifficultyObservation,
    EpochTime,
};
use crate::proof_of_work::lwma_diff::{
    ceil_div,
    configuration_fits,
    lwma_difficulty,
    LinearWeightedMovingAverage,
    LwmaState,
};
use vstd::prelude::*;

verus! {

/// The softness of the per-block adjustment: the number of target times
/// that make up one period of the exponential expansion.
pub const TSA_SOFTNESS: u64 = 2;

/// The scale by which a solve time is multiplied before it is divided by
/// the target time, so that the quotient keeps three decimal places.
pub const TSA_SCALE: u64 = 1000;

/// What the timestamp-aware adjustment comes to for a window.
#[derive(Clone, Copy, Debug, PartialEq, Eq, Structural)]
pub enum TsaOutcome {
    /// The window holds fewer than three observations: the difficulty is
    /// the initial difficulty, as it stands.
    Initial(Difficulty),
    /// The newest block came quickly: the difficulty is a fifth of `base`,
    /// rounded up.
    Dampen {
        /// The LWMA target of the window.
        base: Difficulty,
        /// The dampened target.
        difficulty: Difficulty,
    },
    /// The newest block took its time: `base` is to be scaled by the
    /// exponential expansion for `solve_time`.
    Expand {
        /// The LWMA target of the window.
        base: Difficulty,
        /// The desired interval between blocks, in seconds.
        target_time: u64,
        /// The adjusted solve time of the newest block.
        solve_time: u128,
        /// The number of whole periods of `TSA_SOFTNESS` target times in
        /// `solve_time`.
        whole_periods: u128,
        /// What is left of `solve_time` beyond the whole periods.
        remainder: u128,
    },
}

/// The solve time of the newest interval of a window of at least two
/// observations: the newest timestamp is taken as one second past its
/// predecessor where time did not advance (a predecessor at `u64::MAX` has
/// no second past it), and the difference is limited to six target times.
pub open spec fn newest_solve_time(window: Seq<DifficultyObservation>, target_time: u64) -> int
    recommends
        window.len() >= 2,
{
    let n = window.len() - 1;
    let previous = window[n - 1].timestamp.0;
    let this = if window[n].timestamp.0 > previous {
        window[n].timestamp.0 as int
    } else if previous < u64::MAX {
        previous + 1
    } else {
        u64::MAX as int
    };
    let raw = this - previous;
    if raw < 6 * target_time {
        raw
    } else {
        6 * target_time
    }
}

/// The time from the oldest observation to the newest, zero where the
/// newest timestamp lies before the oldest.
pub open spec fn window_span(window: Seq<DifficultyObservation>) -> int
    recommends
        window.len() >= 1,
{
    let first = window[0].timestamp.0;
    let last = window[window.len() - 1].timestamp.0;
    if last > first {
        last - first
    } else {
        0
    }
}

/// The accumulated solve time of a window of `n` intervals: the span of
/// the window, rescaled by `span / (n + 1) / target_time` where the average
/// interval, plus one, does not exceed `target_time / TSA_SOFTNESS`.
pub open spec fn accumulated_solve_time(
    window: Seq<DifficultyObservation>,
    target_time: u64,
) -> int
    recommends
        window.len() >= 2,
        target_time > 0,
{
    let n = window.len() - 1;
    let span = window_span(window);
    if span / n + 1 <= target_time / TSA_SOFTNESS {
        (span / (n + 1) / (target_time as int)) * span
    } else {
        span
    }
}

/// The adjusted solve time of the newest block: its solve time scaled by the
/// ratio, to three decimal places, of the average accumulated solve time to
/// the target time.
pub open spec fn adjusted_solve_time(window: Seq<DifficultyObservation>, target_time: u64) -> int
    recommends
        window.len() >= 2,
        target_time > 0,
{
    let n = window.len() - 1;
    let ratio = accumulated_solve_time(window, target_time) / (n + 1) * TSA_SCALE / (
    target_time as int);
    newest_solve_time(window, target_time) * ratio / (TSA_SCALE as int)
}

/// The outcome of the timestamp-aware adjustment for a window.
pub open spec fn tsa_outcome(
    window: Seq<DifficultyObservation>,
    target_time: u64,
    initial_difficulty: u64,
) -> TsaOutcome
    recommends
        target_time > 0,
{
    if window.len() <= 2 {
        TsaOutcome::Initial(Difficulty(initial_difficulty))
    } else {
        let base = Difficulty(lwma_difficulty(window, target_time, initial_difficulty) as u64);
        let solve_time = adjusted_solve_time(window, target_time);
        let period = target_time * TSA_SOFTNESS;
        if solve_time <= target_time / 5 {
            TsaOutcome::Dampen { base, difficulty: Difficulty(ceil_div(base.0 as int, 5) as u64) }
        } else {
            TsaOutcome::Expand {
                base,
                target_time,
                solve_time: solve_time as u128,
                whole_periods: (solve_time / (target_time as int) / (TSA_SOFTNESS as int)) as u128,
                remainder: (solve_time % period) as u128,
            }
        }
    }
}

/// Where the accumulated solve time is rescaled, it becomes zero: the
/// average interval is then below the target time, so the rescaling factor
/// `span / (n + 1) / target_time` is zero.
pub proof fn lemma_rescaled_accumulated_solve_time_is_zero(
    window: Seq<DifficultyObservation>,
    target_time: u64,
)
    requires
        window.len() >= 2,
        target_time > 0,
    ensures
        accumulated_solve_time(window, target_time) == window_span(window)
            || accumulated_solve_time(window, target_time) == 0,
        0 <= accumulated_solve_time(window, target_time) <= u64::MAX,
{
    let n = window.len() - 1;
    let span = window_span(window);
    let t = target_time as int;
    if span / n + 1 <= target_time / TSA_SOFTNESS {
        vstd::arithmetic::div_mod::lemma_div_is_ordered_by_denominator(span, n, n + 1);
        assert(span / (n + 1) <= span / n);
        assert(0 <= span / (n + 1)) by {
            vstd::arithmetic::div_mod::lemma_div_pos_is_pos(span, n + 1);
        }
        assert(span / (n + 1) < t);
        vstd::arithmetic::div_mod::lemma_basic_div(span / (n + 1), t);
        assert(span / (n + 1) / t == 0);
        assert((span / (n + 1) / t) * span == 0) by (nonlinear_arith)
            requires
                span / (n + 1) / t == 0,
        ;
    }
}

/// The adjusted solve time is at most six times the average accumulated
/// solve time, whatever the target time, and the product that it is the
/// thousandth part of at most six thousand times that average.
pub proof fn lemma_adjusted_solve_time_bounds(window: Seq<DifficultyObservation>, target_time: u64)
    requires
        window.len() >= 2,
        target_time > 0,
    ensures
        0 <= newest_solve_time(window, target_time) <= 6 * target_time,
        newest_solve_time(window, target_time) <= u64::MAX,
        0 <= accumulated_solve_time(window, target_time) / (window.len() as int) <= u64::MAX,
        0 <= newest_solve_time(window, target_time) * (accumulated_solve_time(window, target_time)
            / (window.len() as int) * TSA_SCALE / (target_time as int)) <= 6000 * (
        accumulated_solve_time(window, target_time) / (window.len() as int)),
        0 <= adjusted_solve_time(window, target_time) <= 6 * (accumulated_solve_time(
            window,
            target_time,
        ) / (window.len() as int)),
{
    lemma_rescaled_accumulated_solve_time_is_zero(window, target_time);
    let n = window.len() - 1;
    let t = target_time as int;
    let asc = accumulated_solve_time(window, target_time);
    let average = asc / (n + 1);
    assert(0 <= average <= asc) by {
        vstd::arithmetic::div_mod::lemma_div_pos_is_pos(asc, n + 1);
        vstd::arithmetic::div_mod::lemma_div_is_ordered_by_denominator(asc, 1, n + 1);
    }
    let scaled = average * 1000;
    let ratio = scaled / t;
    assert(0 <= ratio && t * ratio <= scaled) by {
        vstd::arithmetic::div_mod::lemma_div_pos_is_pos(scaled, t);
        vstd::arithmetic::div_mod::lemma_fundamental_div_mod(scaled, t);
        vstd::arithmetic::div_mod::lemma_mod_bound(scaled, t);
    }
    let newest = newest_solve_time(window, target_time);
    assert(0 <= newest <= 6 * t);
    assert(0 <= newest * ratio <= 6 * scaled) by (nonlinear_arith)
        requires
            0 <= newest <= 6 * t,
            0 <= ratio,
            t * ratio <= scaled,
    ;
    assert(0 <= newest * ratio / 1000 <= average * 6) by {
        vstd::arithmetic::div_mod::lemma_div_pos_is_pos(newest * ratio, 1000);
        vstd::arithmetic::div_mod::lemma_div_is_ordered(newest * ratio, 6 * scaled, 1000);
        assert(6 * scaled == (average * 6) * 1000);
        vstd::arithmetic::div_mod::lemma_div_multiples_vanish(average * 6, 1000);
    }
}

/// Where the average interval of the window, plus one, does not exceed the
/// target time over the softness, the adjustment dampens: the accumulated
/// solve time is rescaled to zero, and the adjusted solve time with it.
pub proof fn lemma_short_average_interval_dampens(
    window: Seq<DifficultyObservation>,
    target_time: u64,
    initial_difficulty: u64,
)
    requires
        window.len() > 2,
        target_time > 0,
        window_span(window) / (window.len() - 1) + 1 <= target_time / TSA_SOFTNESS,
    ensures
        adjusted_solve_time(window, target_time) == 0,
        tsa_outcome(window, target_time, initial_difficulty) is Dampen,
{
    lemma_rescaled_accumulated_solve_time_is_zero(window, target_time);
    lemma_adjusted_solve_time_bounds(window, target_time);
    let n = window.len() - 1;
    let span = window_span(window);
    let t = target_time as int;
    assert(accumulated_solve_time(window, target_time) == 0) by {
        vstd::arithmetic::div_mod::lemma_div_is_ordered_by_denominator(span, n, n + 1);
        vstd::arithmetic::div_mod::lemma_div_pos_is_pos(span, n + 1);
        vstd::arithmetic::div_mod::lemma_basic_div(span / (n + 1), t);
        assert((span / (n + 1) / t) * span == 0) by (nonlinear_arith)
            requires
                span / (n + 1) / t == 0,
        ;
    }
    assert(0int / (n + 1) == 0);
}

/// The LWMA window with the timestamp-aware adjustment computed over it.
pub struct TimeStampAdjustment {
    lwma_diff: LinearWeightedMovingAverage,
}

impl View for TimeStampAdjustment {
    type V = LwmaState;

    closed spec fn view(&self) -> LwmaState {
        self.lwma_diff@
    }
}

impl TimeStampAdjustment {
    /// An engine with an empty window.
    ///
    /// The configuration must fit (see [`configuration_fits`]).
    pub fn new(block_window: usize, target_time: u64, initial_difficulty: u64) -> (engine:
        TimeStampAdjustment)
        requires
            configuration_fits(block_window as nat, target_time),
        ensures
            engine@ == LwmaState::empty(block_window as nat, target_time, initial_difficulty),
            engine@.wf(),
    {
        let lwma_diff = LinearWeightedMovingAverage::new(
            block_window,
            target_time,
            initial_difficulty,
        );
        TimeStampAdjustment { lwma_diff }
    }

    /// Takes a new observation into the window, as the LWMA engine does.
    pub fn add(&mut self, timestamp: EpochTime, accumulated_difficulty: Difficulty) -> (result:
        Result<(), DifficultyAdjustmentError>)
        ensures
            old(self)@.wf(),
            final(self)@.wf(),
            final(self)@ == old(self)@.add(
                DifficultyObservation { timestamp, accumulated_difficulty },
            ),
            old(self)@.accepts(accumulated_difficulty) ==> result is Ok,
            !old(self)@.accepts(accumulated_difficulty) ==> result == Err::<
                (),
                DifficultyAdjustmentError,
            >(DifficultyAdjustmentError::StrictlyIncreasing),
    {
        self.lwma_diff.add(timestamp, accumulated_difficulty)
    }

    /// The outcome of the adjustment for the window as it stands:
    /// [`tsa_outcome`] of it. The window is left as it is.
    pub fn calculate(&self) -> (outcome: TsaOutcome)
        ensures
            self@.wf(),
            outcome == tsa_outcome(self@.window, self@.target_time, self@.initial_difficulty),
            self@.window.len() <= 2 ==> outcome == TsaOutcome::Initial(
                Difficulty(self@.initial_difficulty),
            ),
    {
        let len: usize = self.lwma_diff.len();
        if len <= 2 {
            return TsaOutcome::Initial(Difficulty(self.lwma_diff.initial_difficulty()));
        }
        let base = self.lwma_diff.get_difficulty();
        let target_time: u64 = self.lwma_diff.target_time();
        let ghost w = self@.window;
        let n: usize = len - 1;
        proof {
            lemma_adjusted_solve_time_bounds(w, target_time);
            lemma_rescaled_accumulated_solve_time_is_zero(w, target_time);
            assert(6 * target_time <= u64::MAX) by {
                let b = self@.block_window as int;
                let t = target_time as int;
                assert(b >= 2);
                assert(6 * t <= b * (b + 1) * t) by (nonlinear_arith)
                    requires
                        b >= 2,
                        t > 0,
                ;
            }
        }
        let t: u128 = target_time as u128;
        let previous: u64 = self.lwma_diff.observation(n - 1).timestamp.0;
        let newest: u64 = self.lwma_diff.observation(n).timestamp.0;
        let oldest: u64 = self.lwma_diff.observation(0).timestamp.0;
        let this: u64 = if newest > previous {
            newest
        } else if previous < u64::MAX {
            previous + 1
        } else {
            u64::MAX
        };
        let raw: u128 = (this - previous) as u128;
        let limit: u128 = 6 * t;
        let newest_solve: u128 = if raw < limit {
            raw
        } else {
            limit
        };
        assert(newest_solve == newest_solve_time(w, target_time));
        let span: u128 = if newest > oldest {
            (newest - oldest) as u128
        } else {
            0
        };
        assert(span == window_span(w));
        let intervals: u128 = n as u128;
        let asc: u128 = if span / intervals + 1 <= t / (TSA_SOFTNESS as u128) {
            let factor: u128 = span / (intervals + 1) / t;
            assert(factor * span == accumulated_solve_time(w, target_time));
            factor * span
        } else {
            span
        };
        assert(asc == accumulated_solve_time(w, target_time));
        let ratio: u128 = asc / (intervals + 1) * (TSA_SCALE as u128) / t;
        let solve_time: u128 = newest_solve * ratio / (TSA_SCALE as u128);
        assert(solve_time == adjusted_solve_time(w, target_time));
        if solve_time <= t / 5 {
            let fifth: u64 = base.0 / 5;
            let difficulty = if base.0 % 5 == 0 {
                Difficulty(fifth)
            } else {
                Difficulty(fifth + 1)
            };
            TsaOutcome::Dampen { base, difficulty }
        } else {
            let period: u128 = t * (TSA_SOFTNESS as u128);
            TsaOutcome::Expand {
                base,
                target_time,
                solve_time,
                whole_periods: solve_time / t / (TSA_SOFTNESS as u128),
                remainder: solve_time % period,
            }
        }
    }
}

} // verus!
