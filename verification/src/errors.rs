//! The errors that the AMM's instructions return.
use vstd::prelude::*;

verus! {

/// Why an instruction was refused.
#[derive(Clone, Copy, Debug, PartialEq, Eq, Structural)]
pub enum TutorialError {
    /// The fee of a new AMM is not below `FEE_LIMIT`.
    InvalidFee,
    /// The mints of a new pool are not in strictly increasing order.
    InvalidMint,
    /// The first deposit into a pool yields less liquidity than
    /// `MINIMUM_LIQUIDITY`.
    DepositTooSmall,
    /// A swap would pay out less than the trader's minimum.
    OutputTooSmall,
    /// After a swap, the product of the pool's balances went down.
    InvariantViolated,
}

} // verus!
