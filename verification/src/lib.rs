//! One-dimensional binary cellular automata (Wolfram-style elementary rules).
//!
//! The crate decodes a rule index into its 8-entry lookup table, steps a
//! fixed-width generation of binary cells with wrapped (toroidal) neighbor
//! lookups, and keeps an ordered, optionally bounded history of generations.

use vstd::prelude::*;

pub mod engine;
pub mod rule;

verus! {

/// A construction request that violates its precondition is rejected with one
/// of these errors; stepping itself cannot fail.
#[derive(Clone, Copy, Debug, PartialEq, Eq, Structural)]
pub enum AutomatonError {
    /// The rule index lies outside `[0, 255]`.
    InvalidRule,
    /// The width lies below the minimum supported value, 1.
    InvalidWidth,
    /// The initial generation's length differs from the declared width.
    LengthMismatch,
}

} // verus!
