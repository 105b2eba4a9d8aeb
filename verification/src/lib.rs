//! Verified core of a constant-product automated market maker: the state of
//! an AMM and its pools, and the arithmetic that decides what each
//! instruction moves (deposits, swaps, withdrawals), computed in signed
//! 64.64 fixed-point numbers through the `fixed` crate.
pub mod constants;
pub mod errors;
pub mod fixed_point;
pub mod instructions;
pub mod state;
