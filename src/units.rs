use vstd::prelude::*;

verus! {

/// Fixed-point scale of every quantity in the library: token amounts and
/// USD values are integers counting millionths.
pub const UNIT: u64 = 1_000_000;

/// Scores (confidence, complexity, ranking sub-scores) are integers in
/// basis points: `SCORE_ONE` stands for 1.0.
pub const SCORE_ONE: u64 = 10_000;

/// Basis points in one whole (fees are given in basis points).
pub const BPS_ONE: u64 = 10_000;

/// Largest token amount, reserve or USD value the pricing model accepts.
pub const MAX_AMOUNT: u64 = 1_000_000_000_000_000;

} // verus!
