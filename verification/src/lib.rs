//! Settlement core of a binary-outcome prediction market with pooled,
//! automated-market-maker liquidity: overflow-safe fixed-point arithmetic,
//! constant-product trade pricing, market and position ledgers, proportional
//! payout settlement, and multi-leg combo bets whose odds are the product of
//! the per-leg implied probabilities.

use vstd::prelude::*;

pub mod combo;
pub mod errors;
pub mod fixed_point;
pub mod interface;
pub mod market;
pub mod positions;
pub mod pricing;
pub mod state;

verus! {

} // verus!
