//! Scalar types shared by the difficulty-retargeting algorithms.

use vstd::prelude::*;

verus! {

/// The smallest difficulty a block may have.
pub const MIN_DIFFICULTY: u64 = 1;

/// Proof-of-work difficulty: an unsigned 64-bit quantity whose arithmetic
/// saturates at `u64::MAX`.
#[derive(Clone, Copy, Debug, PartialEq, Eq, Structural, PartialOrd, Ord, Hash)]
pub struct Difficulty(pub u64);

impl Difficulty {
    /// The minimum difficulty, 1.
    pub fn min() -> (d: Difficulty)
        ensures
            d.0 == MIN_DIFFICULTY,
    {
        Difficulty(MIN_DIFFICULTY)
    }

    /// The difficulty as a plain integer.
    pub fn as_u64(self) -> (v: u64)
        ensures
            v == self.0,
    {
        self.0
    }

    /// The sum of two difficulties, held at `u64::MAX` where it would not fit.
    pub fn saturating_add(self, other: Difficulty) -> (sum: Difficulty)
        ensures
            sum.0 == (if self.0 + other.0 > u64::MAX {
                u64::MAX as int
            } else {
                self.0 + other.0
            }),
    {
        if self.0 > u64::MAX - other.0 {
            Difficulty(u64::MAX)
        } else {
            Difficulty(self.0 + other.0)
        }
    }
}

impl From<u64> for Difficulty {
    fn from(value: u64) -> (d: Difficulty) {
        Difficulty(value)
    }
}

impl vstd::std_specs::convert::FromSpecImpl<u64> for Difficulty {
    open spec fn obeys_from_spec() -> bool {
        true
    }

    open spec fn from_spec(value: u64) -> Difficulty {
        Difficulty(value)
    }
}

/// A point in time: whole seconds since the Unix epoch.
#[derive(Clone, Copy, Debug, PartialEq, Eq, Structural, PartialOrd, Ord, Hash)]
pub struct EpochTime(pub u64);

impl EpochTime {
    /// The time as a number of seconds.
    pub fn as_u64(self) -> (v: u64)
        ensures
            v == self.0,
    {
        self.0
    }

    /// The time `seconds` later, held at `u64::MAX` where it would not fit.
    pub fn increase(self, seconds: u64) -> (later: EpochTime)
        ensures
            later.0 == (if self.0 + seconds > u64::MAX {
                u64::MAX as int
            } else {
                self.0 + seconds
            }),
    {
        if self.0 > u64::MAX - seconds {
            EpochTime(u64::MAX)
        } else {
            EpochTime(self.0 + seconds)
        }
    }
}

impl From<u64> for EpochTime {
    fn from(value: u64) -> (t: EpochTime) {
        EpochTime(value)
    }
}

impl vstd::std_specs::convert::FromSpecImpl<u64> for EpochTime {
    open spec fn obeys_from_spec() -> bool {
        true
    }

    open spec fn from_spec(value: u64) -> EpochTime {
        EpochTime(value)
    }
}

/// One block as the retargeting algorithms see it: when it was mined and how
/// much work the chain had accumulated by then.
#[derive(Clone, Copy, Debug, PartialEq, Eq, Structural)]
pub struct DifficultyObservation {
    pub timestamp: EpochTime,
    pub accumulated_difficulty: Difficulty,
}

/// Why an observation was not taken into a window.
#[derive(Clone, Copy, Debug, PartialEq, Eq, Structural)]
pub enum DifficultyAdjustmentError {
    /// The accumulated difficulty did not exceed that of the newest
    /// observation already held.
    StrictlyIncreasing,
}

/// What a difficulty adjustment algorithm offers: it is fed the blocks of the
/// chain one by one, and tells the target difficulty of the block to come.
pub trait DifficultyAdjustment {
    /// Takes the timestamp and the accumulated difficulty of the newest
    /// block. Fails unless the accumulated difficulty has grown.
    fn add(&mut self, timestamp: EpochTime, accumulated_difficulty: Difficulty) -> Result<
        (),
        DifficultyAdjustmentError,
    >;

    /// The target difficulty of the next block.
    fn get_difficulty(&self) -> Difficulty;
}

} // verus!
