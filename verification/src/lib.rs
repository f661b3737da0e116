//! An event-driven stochastic solver for interacting particle systems on
//! finite graphs, in the manner of Gillespie: vertices hold discrete
//! states, change them at rates set by their own state and their
//! neighbors' states, and the solver keeps every per-vertex rate and
//! their total exact while it jumps from event to event.
//!
//! Rates are nonnegative integers in a caller-chosen unit; scaling all of
//! them only rescales simulated time, which is kept in 64-bit fixed
//! point. The hard bounds below keep every sum of rates comfortably
//! inside a machine word.

use vstd::prelude::*;

pub mod assemble_initial_condition;
pub mod exponential_distribution;
pub mod graph;
pub mod ips_rules;
pub mod rng;
pub mod seq_sum;
pub mod solver;
pub mod visualization;
pub mod weighted_index;

verus! {

/// Upper bound on the number of distinct states a rule set may enumerate.
pub const STATE_LIMIT: usize = 16;

/// Upper bound on the number of vertices a graph may have.
pub const VERTEX_LIMIT: usize = 65536;

/// Upper bound on any single vacuum or neighbor rate.
pub const RATE_LIMIT: u64 = 1048576;

/// Upper bound on any single mutation rate:
/// `RATE_LIMIT * (1 + VERTEX_LIMIT)`.
pub const MUTATION_CAP: u64 = 68720525312;

/// Upper bound on the reactivity of one vertex:
/// `STATE_LIMIT * MUTATION_CAP`.
pub const ROW_CAP: u64 = 1099528404992;

/// Upper bound on the total reactivity of a system:
/// `VERTEX_LIMIT * ROW_CAP`.
pub const TOTAL_CAP: u64 = 72058693549555712;

} // verus!
