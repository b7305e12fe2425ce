//! Verified core of a hybrid automated-market-maker: fixed-point tick/price
//! arithmetic on 256-bit integers, two liquidity engines (limit orders and
//! concentrated-range orders), and the swap router that merges them.

pub mod amm;
pub mod common;
pub mod limit_orders;
pub mod math;
pub mod range_orders;
pub mod rpc;
pub mod uint256;

use vstd::prelude::*;

verus! {

/// Number of hundredth-pips (millionths) in one whole unit.
pub const ONE_IN_HUNDREDTH_PIPS: u32 = 1_000_000;
/// The maximum liquidity-provider fee, in hundredth-pips: half of one unit.
pub const MAX_LP_FEE: u32 = 500_000;

} // verus!
