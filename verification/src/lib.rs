//! The core of a proof-of-work base node: the engine that retargets the
//! difficulty of blocks, and the store in which a wallet keeps its outputs
//! while transactions are in flight.
//!
//! [`proof_of_work`] holds the window of observations and the two
//! retargeting algorithms over it. [`output_manager`] holds the store, the
//! model that its operations follow, and the laws of that model.

pub mod output_manager;
pub mod proof_of_work;
