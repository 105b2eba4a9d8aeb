//! Creating a pool of an AMM.
use vstd::prelude::*;

use crate::errors::TutorialError;
use crate::state::{bytes_lt, lemma_key_order_at_first_difference, lemma_key_order_irreflexive, Pool, Pubkey};

verus! {

/// Creates the pool of the AMM whose account is `amm`, recording the mints
/// `mint_a` and `mint_b` given with the instruction. Refused with
/// `InvalidMint` exactly when the key of the pool's A mint account,
/// `mint_a_account`, does not order strictly before that of its B mint
/// account, `mint_b_account`, so that each pair of mints has one pool, with
/// its mints in one order.
pub fn create_pool(
    amm: Pubkey,
    mint_a_account: Pubkey,
    mint_b_account: Pubkey,
    mint_a: Pubkey,
    mint_b: Pubkey,
) -> (res: Result<Pool, TutorialError>)
    ensures
        res is Err <==> !bytes_lt(mint_a_account.bytes@, mint_b_account.bytes@),
        res matches Err(e) ==> e == TutorialError::InvalidMint,
        res matches Ok(pool) ==> pool.amm == amm && pool.mint_a == mint_a && pool.mint_b == mint_b,
        forall|i: int|
            0 <= i < 32 && #[trigger] mint_a_account.bytes@[i] != mint_b_account.bytes@[i]
                && (forall|j: int| 0 <= j < i ==> mint_a_account.bytes@[j] == mint_b_account.bytes@[j])
                ==> (res is Ok <==> (mint_a_account.bytes@[i] as int) < (mint_b_account.bytes@[i] as int)),
        mint_a_account.bytes@ == mint_b_account.bytes@ ==> res is Err,
{
    proof {
        assert forall|i: int|
            0 <= i < 32 && #[trigger] mint_a_account.bytes@[i] != mint_b_account.bytes@[i]
                && (forall|j: int| 0 <= j < i ==> mint_a_account.bytes@[j] == mint_b_account.bytes@[j])
                implies (bytes_lt(mint_a_account.bytes@, mint_b_account.bytes@)
                    <==> (mint_a_account.bytes@[i] as int) < (mint_b_account.bytes@[i] as int)) by {
            lemma_key_order_at_first_difference(mint_a_account.bytes@, mint_b_account.bytes@, i);
        }
        lemma_key_order_irreflexive(mint_a_account.bytes@);
    }
    if !mint_a_account.lt(&mint_b_account) {
        return Err(TutorialError::InvalidMint);
    }
    Ok(Pool { amm, mint_a, mint_b })
}

} // verus!
