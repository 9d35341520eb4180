//! Reasons for which a pool calculation is refused.

use vstd::prelude::*;

verus! {

/// The reason for which a pool operation stops. Each stands for one
/// precondition or invariant that the operation's inputs break.
#[derive(Debug, Clone, Copy, PartialEq, Eq, Structural)]
pub enum ErrorCode {
    /// The number of liquidity tokens to issue came out as zero.
    LpTokensCalculationFailed,
    /// The first deposit is too small next to the share that stays locked.
    LaunchLiquidityTooSmall,
    /// No ratio of base to quote reserve exists for the given reserves.
    BaseQuoteRatioCalculationFailed,
    /// No square root of the product of the reserves exists for the given reserves.
    ConstantProductCalculationFailed,
    /// New reserves move the ratio of base to quote further than allowed.
    LiquidityRatioToleranceExceeded,
    /// New reserves move the constant product further than allowed.
    ConstantProductToleranceExceeded,
    /// A swap would hand out nothing.
    SwapResultIsZero,
    /// A swap's result is further from its estimate than the caller allows.
    SwapSlippageExceeded,
    /// The fee that a mint takes on a transfer could not be worked out.
    MintTransferFeeCalculationFailed,
}

} // verus!
