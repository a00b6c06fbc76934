//! Settlement engine of a betting market backed by a share-based staking pool.
//!
//! - `fixed_point`: `a * b / c` on 128-bit values without overflow.
//! - `types`: matches, bets, stake accounts, vesting entries, errors.
//! - `contract`: the aggregate root, its invariant and keyed lookups.
//! - `lifecycle`: match creation and the Future/Current/Finished/Error machine.
//! - `betting`: placing bets and claiming winnings or refunds.
//! - `staking`: share conversions, staking, unstaking and withdrawals.
//! - `vesting`: the queue of rewards that vest over a period, and their swaps.
//! - `settlement`: profit split and the loss saga.
//! - `views`: read-only accessors.
//!
//! Outside calls (token transfers, the liquidity pool) are made by the
//! caller: handlers return what to send, and continuations take the outcome.

pub mod fixed_point;
pub mod types;
pub mod contract;
pub mod lifecycle;
pub mod betting;
pub mod staking;
pub mod vesting;
pub mod settlement;
pub mod views;
