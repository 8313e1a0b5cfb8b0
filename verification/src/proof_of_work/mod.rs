//! Difficulty retargeting: the bounded window of observations and the two
//! algorithms that derive the next target difficulty from it.

pub mod difficulty;
pub mod lwma_diff;
pub mod tsa_diff;
