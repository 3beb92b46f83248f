//! Quotes and route search over the pools of Rhea.

use vstd::prelude::*;

pub mod api;
pub mod curve;
pub mod laws;
pub mod offers;
pub mod pool;
pub mod rated;
pub mod solution;
pub mod stable;

verus! {

/// The whole, in the parts that fees are given in.
pub const FEE_DIVISOR: u32 = 10_000;

} // verus!
