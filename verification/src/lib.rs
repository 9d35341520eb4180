//! Numeric core of a constant-product market maker.
//!
//! The crate has two layers. The lower one is [`Q64_64`], an unsigned
//! fixed-point number with 64 integer bits and 64 fractional bits, whose
//! products, quotients, squares and square roots go through exact 256-bit
//! intermediates ([`U256`]). The upper one is [`CpAmmCalculate`], the formulas
//! of a pool with two reserves: the liquidity tokens issued at launch and for
//! provided liquidity, the amounts that liquidity tokens redeem, the reserves
//! after a swap, the fees, and the checks that keep the ratio of the reserves
//! and their product within a tolerance.
//!
//! Every function is a pure function of its arguments and of the state of the
//! pool that it is given. Its contract states the result over the integers,
//! and Verus proves that the code meets it on every input, without overflow.
//! What holds of the formulas beyond their contracts, such as the direction
//! in which each of them rounds, is stated and proved in the `lemma_` functions
//! of each module.

pub mod cp_amm_calculate;
pub mod error;
pub mod q64_64;
pub mod sqrt;
pub mod wide;

pub use cp_amm_calculate::{CpAmmCalculate, PoolState};
pub use error::ErrorCode;
pub use q64_64::Q64_64;
pub use wide::U256;
