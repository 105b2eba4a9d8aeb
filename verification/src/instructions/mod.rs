//! The AMM's instructions, each as the computation that decides what the
//! instruction writes or moves; the transfers themselves are the caller's.
pub mod create_amm;
pub mod create_pool;
pub mod deposit_liquidity;
pub mod swap_exact_tokens_for_tokens;
pub mod withdraw_liquidity;
