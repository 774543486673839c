//! Monte Carlo estimation of an adversary's chance to capture a quorum inside
//! an XOR-proximity close group of a randomly generated network section.
//!
//! The library models fixed-width identifiers with a bitwise XOR metric,
//! selects close groups of the nearest identifiers around a target point,
//! evaluates three quorum-weighting policies over randomly generated sections,
//! and aggregates the outcomes of many independent trials.

pub mod ageing;
pub mod aggregate;
pub mod basic;
pub mod engine;
pub mod gen;
pub mod group;
pub mod hash;
pub mod id;
pub mod model;
pub mod policy;
pub mod ranks;
pub mod rng;
