//! Creating an AMM.
use vstd::prelude::*;

use crate::constants::FEE_LIMIT;
use crate::errors::TutorialError;
use crate::state::{Amm, Pubkey};

verus! {

/// Creates the AMM named `id`, administered by `admin`, charging `fee` on
/// swaps; refused with `InvalidFee` exactly when `fee` is not below
/// `FEE_LIMIT`.
pub fn create_amm(id: Pubkey, admin: Pubkey, fee: u16) -> (res: Result<Amm, TutorialError>)
    ensures
        res is Err <==> fee >= FEE_LIMIT,
        res matches Err(e) ==> e == TutorialError::InvalidFee,
        res matches Ok(amm) ==> amm.id == id && amm.admin == admin && amm.fee == fee,
{
    if fee >= FEE_LIMIT {
        return Err(TutorialError::InvalidFee);
    }
    Ok(Amm { id, admin, fee })
}

} // verus!
