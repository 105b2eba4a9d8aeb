//! Constants of the AMM's rules.
use vstd::prelude::*;

verus! {

/// Liquidity that the first deposit into a pool locks for good: it is never
/// minted to anyone, so a pool's supply of liquidity tokens can never reach
/// zero again once the pool holds tokens.
pub const MINIMUM_LIQUIDITY: u64 = 100;

/// An AMM's fee must be strictly below this value.
pub const FEE_LIMIT: u16 = 10000;

/// A swap's fee is `input * fee / FEE_DENOMINATOR`.
pub const FEE_DENOMINATOR: u64 = 1000;

} // verus!
