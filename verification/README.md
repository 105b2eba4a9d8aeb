# anchor-v2-uniswap

A constant-product automated market maker for Solana, with its decisions
verified in Verus.

- `src/` is the verified library: the AMM and pool state (`state`), the
  error codes (`errors`), the constants (`constants`), the signed 64.64
  fixed-point operations it takes from the `fixed` crate (`fixed_point`), and
  one module per instruction under `instructions/`. Each instruction is a
  function from account balances and arguments to what the instruction
  writes or moves, with a contract that states the result exactly and the
  inputs on which the arithmetic is defined; the laws of the pool (a swap
  never lowers the product of the balances, a withdrawal stays within the
  pool, a deposit follows the pool's ratio) are proof functions beside them.
- `app/` is the Anchor program around it: the accounts, the entry points and
  the token transfers, minting and burning.
- `tests/` runs the library on concrete values.
