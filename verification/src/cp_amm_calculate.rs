//! The formulas of a constant-product pool: launch supply, minting and
//! redemption in proportion, reserves after a swap, fees and tolerance checks.

use crate::error::ErrorCode;
use crate::q64_64::{
    integer_of_raw, product_raw, quotient_raw, raw_of_integer, square_over_integer,
    square_integer, square_times_integer, Q64_64,
};
use crate::sqrt::{lemma_sqrt_square_within_tolerance, sqrt_raw, sqrt_tolerance};
use crate::wide::{pow2_128, pow2_64};
use vstd::arithmetic::div_mod::{lemma_fundamental_div_mod, lemma_fundamental_div_mod_converse};
use vstd::prelude::*;

verus! {

/// Decimals of the liquidity tokens that stay locked at launch.
pub const LP_MINT_INITIAL_DECIMALS: u8 = 5;

/// Liquidity tokens that stay locked at launch: ten to the power of
/// [`LP_MINT_INITIAL_DECIMALS`].
pub const INITIAL_LOCKED_LIQUIDITY: u64 = 100_000;

/// Raw magnitude of the largest relative drift of the constant product that a
/// swap may cause: 0.0001 %.
pub const SWAP_CONSTANT_PRODUCT_TOLERANCE: u128 = 18446744073710;

/// Raw magnitude of the largest relative drift of the ratio of the reserves
/// that providing or withdrawing liquidity may cause: 0.0001 %.
pub const ADJUST_LIQUIDITY_RATIO_TOLERANCE: u128 = 18446744073710;

/// The fee rate that takes everything, in basis points.
pub const FEE_MAX_BASIS_POINTS: u128 = 10000;

/// What a pool shows of itself to the calculator.
#[derive(Debug, Clone, Copy)]
pub struct PoolState {
    /// Square root of the product of the reserves.
    pub constant_product_sqrt: Q64_64,
    /// Base reserve over quote reserve.
    pub base_quote_ratio: Q64_64,
    /// Base reserve.
    pub base_liquidity: u64,
    /// Quote reserve.
    pub quote_liquidity: u64,
    /// Liquidity tokens in existence.
    pub lp_tokens_supply: u64,
    /// Share of a swap that goes to the liquidity providers, in basis points.
    pub providers_fee_rate_basis_points: u16,
    /// Share of a swap that goes to the protocol, in basis points.
    pub protocol_fee_rate_basis_points: u16,
}

impl PoolState {
    /// Whether what the pool stores agrees with its reserves: neither
    /// reserve is zero, the stored square root is within
    /// [`SWAP_CONSTANT_PRODUCT_TOLERANCE`] of the square root of their
    /// product, and the stored ratio within
    /// [`ADJUST_LIQUIDITY_RATIO_TOLERANCE`] of their ratio. A launched pool
    /// is in this state between any two operations.
    pub open spec fn agrees_with_reserves(self) -> bool {
        &&& self.base_liquidity != 0
        &&& self.quote_liquidity != 0
        &&& within_tolerance(
            self.constant_product_sqrt@ as int,
            sqrt_raw(self.base_liquidity * self.quote_liquidity),
            SWAP_CONSTANT_PRODUCT_TOLERANCE as int,
        )
        &&& within_tolerance(
            self.base_quote_ratio@ as int,
            base_quote_ratio_raw(self.base_liquidity as int, self.quote_liquidity as int),
            ADJUST_LIQUIDITY_RATIO_TOLERANCE as int,
        )
    }
}

/// Total supply and launcher's share of the liquidity tokens of a pool that
/// launches with the constant product's square root `sqrt`.
pub open spec fn launch_lp_tokens(sqrt: int) -> Result<(u64, u64), ErrorCode> {
    let supply = integer_of_raw(sqrt);
    if supply == 0 {
        Err(ErrorCode::LpTokensCalculationFailed)
    } else if supply < INITIAL_LOCKED_LIQUIDITY || supply - INITIAL_LOCKED_LIQUIDITY < 4
        * INITIAL_LOCKED_LIQUIDITY {
        Err(ErrorCode::LaunchLiquidityTooSmall)
    } else {
        Ok((supply as u64, (supply - INITIAL_LOCKED_LIQUIDITY) as u64))
    }
}

/// Liquidity tokens to mint when the constant product's square root grows
/// from `current_sqrt` to `new_sqrt` with `supply` tokens in existence: the
/// relative growth times the supply, rounded down; `None` where that is zero
/// or cannot be worked out.
pub open spec fn lp_mint_for_provided_liquidity(current_sqrt: int, supply: int, new_sqrt: int)
    -> Option<u64> {
    if new_sqrt < current_sqrt || current_sqrt == 0 {
        None
    } else {
        let growth = quotient_raw(new_sqrt - current_sqrt, current_sqrt);
        let minted = product_raw(growth, raw_of_integer(supply));
        if growth > u128::MAX || minted > u128::MAX || integer_of_raw(minted) == 0 {
            None
        } else {
            Some(integer_of_raw(minted) as u64)
        }
    }
}

/// Base and quote amount that `lp_tokens` of `supply` liquidity tokens
/// redeem from a pool with the constant product's square root `sqrt` and the
/// ratio `ratio` of its reserves.
pub open spec fn liquidity_from_share(sqrt: int, ratio: int, supply: int, lp_tokens: int)
    -> Option<(u64, u64)> {
    if lp_tokens == 0 || supply == 0 || ratio == 0 {
        None
    } else {
        let share = lp_tokens * pow2_64() / supply;
        let sqrt_share = product_raw(sqrt, share);
        let base_square = square_times_integer(sqrt_share, ratio);
        let quote_square = square_over_integer(sqrt_share, ratio);
        if sqrt_share > u128::MAX || base_square > u128::MAX || quote_square > u128::MAX {
            None
        } else {
            let base = integer_of_raw(sqrt_raw(base_square));
            let quote = integer_of_raw(sqrt_raw(quote_square));
            if base == 0 || quote == 0 {
                None
            } else {
                Some((base as u64, quote as u64))
            }
        }
    }
}

/// The reserve on the other side that keeps the constant product with the
/// square root `sqrt` when this side holds `liquidity`: `sqrt^2 / liquidity`
/// rounded down; `None` where that is zero or needs more than 64 bits.
pub open spec fn opposite_liquidity(sqrt: int, liquidity: int) -> Option<u64> {
    if liquidity == 0 {
        None
    } else {
        let opposite = square_over_integer(sqrt, raw_of_integer(liquidity));
        if opposite == 0 || opposite > u64::MAX {
            None
        } else {
            Some(opposite as u64)
        }
    }
}

/// Base and quote reserve after `swap_amount` came in on the base side
/// (`is_in_out`) or on the quote side.
pub open spec fn afterswap_liquidity(pool: PoolState, swap_amount: int, is_in_out: bool) -> Option<
    (u64, u64),
> {
    if is_in_out {
        let new_base = pool.base_liquidity + swap_amount;
        if new_base > u64::MAX {
            None
        } else {
            match opposite_liquidity(pool.constant_product_sqrt@ as int, new_base) {
                Some(new_quote) => Some((new_base as u64, new_quote)),
                None => None,
            }
        }
    } else {
        let new_quote = pool.quote_liquidity + swap_amount;
        if new_quote > u64::MAX {
            None
        } else {
            match opposite_liquidity(pool.constant_product_sqrt@ as int, new_quote) {
                Some(new_base) => Some((new_base, new_quote as u64)),
                None => None,
            }
        }
    }
}

/// Raw magnitude of `base / quote`, rounded down.
pub open spec fn base_quote_ratio_raw(base: int, quote: int) -> int {
    base * pow2_64() / quote
}

/// Whether `new` is no further from `current` than the share `tolerance` of
/// `current`; all three are raw magnitudes.
pub open spec fn within_tolerance(current: int, new: int, tolerance: int) -> bool {
    let difference = if current >= new {
        current - new
    } else {
        new - current
    };
    difference <= product_raw(current, tolerance)
}

/// What the check of new reserves against the pool's ratio returns: the
/// ratio of the new reserves, where it is within
/// [`ADJUST_LIQUIDITY_RATIO_TOLERANCE`] of `current_ratio`.
pub open spec fn liquidity_ratio_check(current_ratio: int, new_base: int, new_quote: int) -> Result<
    int,
    ErrorCode,
> {
    if new_base == 0 || new_quote == 0 {
        Err(ErrorCode::BaseQuoteRatioCalculationFailed)
    } else if !within_tolerance(
        current_ratio,
        base_quote_ratio_raw(new_base, new_quote),
        ADJUST_LIQUIDITY_RATIO_TOLERANCE as int,
    ) {
        Err(ErrorCode::LiquidityRatioToleranceExceeded)
    } else {
        Ok(base_quote_ratio_raw(new_base, new_quote))
    }
}

/// What the check of new reserves against the pool's constant product
/// returns: success where the square root of their product is within
/// [`SWAP_CONSTANT_PRODUCT_TOLERANCE`] of `current_sqrt`.
pub open spec fn swap_constant_product_check(current_sqrt: int, new_base: int, new_quote: int)
    -> Result<(), ErrorCode> {
    if new_base == 0 || new_quote == 0 {
        Err(ErrorCode::ConstantProductCalculationFailed)
    } else if !within_tolerance(
        current_sqrt,
        sqrt_raw(new_base * new_quote),
        SWAP_CONSTANT_PRODUCT_TOLERANCE as int,
    ) {
        Err(ErrorCode::ConstantProductToleranceExceeded)
    } else {
        Ok(())
    }
}

/// The fee on `amount` at `rate` basis points, rounded down.
pub open spec fn fee_amount(amount: int, rate: int) -> int {
    amount * rate / (FEE_MAX_BASIS_POINTS as int)
}

/// What the check of a swap's result against its estimate returns.
pub open spec fn swap_result_check(swap_result: int, estimate: int, allowed_slippage: int)
    -> Result<(), ErrorCode> {
    let difference = if swap_result >= estimate {
        swap_result - estimate
    } else {
        estimate - swap_result
    };
    if swap_result == 0 {
        Err(ErrorCode::SwapResultIsZero)
    } else if difference > allowed_slippage {
        Err(ErrorCode::SwapSlippageExceeded)
    } else {
        Ok(())
    }
}

/// The calculator of a constant-product pool, for any pool that shows its
/// reserves, its constant product's square root, the ratio of its reserves,
/// its supply of liquidity tokens and its fee rates.
///
/// The calculator reads the pool and returns what an operation would move,
/// mint or burn; it never changes the pool.
pub trait CpAmmCalculate {
    /// The state that the accessors read.
    open spec fn pool(&self) -> PoolState {
        arbitrary()
    }

    /// Square root of the product of the reserves.
    fn constant_product_sqrt(&self) -> (r: Q64_64)
        ensures
            r == self.pool().constant_product_sqrt,
    ;

    /// Base reserve over quote reserve.
    fn base_quote_ratio(&self) -> (r: Q64_64)
        ensures
            r == self.pool().base_quote_ratio,
    ;

    /// Base reserve.
    fn base_liquidity(&self) -> (r: u64)
        ensures
            r == self.pool().base_liquidity,
    ;

    /// Quote reserve.
    fn quote_liquidity(&self) -> (r: u64)
        ensures
            r == self.pool().quote_liquidity,
    ;

    /// Liquidity tokens in existence.
    fn lp_tokens_supply(&self) -> (r: u64)
        ensures
            r == self.pool().lp_tokens_supply,
    ;

    /// Share of a swap that goes to the liquidity providers, in basis points.
    fn providers_fee_rate_basis_points(&self) -> (r: u16)
        ensures
            r == self.pool().providers_fee_rate_basis_points,
    ;

    /// Share of a swap that goes to the protocol, in basis points.
    fn protocol_fee_rate_basis_points(&self) -> (r: u16)
        ensures
            r == self.pool().protocol_fee_rate_basis_points,
    ;

    /// Total supply of liquidity tokens and the launcher's share of it, for a
    /// pool that launches with the given square root of its constant product.
    ///
    /// The supply is the whole part of the square root. The locked amount
    /// stays in the pool for good, and the launcher's share must be four
    /// times the locked amount at least.
    fn calculate_launch_lp_tokens(constant_product_sqrt: Q64_64) -> (r: Result<
        (u64, u64),
        ErrorCode,
    >)
        ensures
            r == launch_lp_tokens(constant_product_sqrt@ as int),
    {
        let lp_tokens_supply = constant_product_sqrt.to_u64();
        if lp_tokens_supply == 0 {
            return Err(ErrorCode::LpTokensCalculationFailed);
        }
        let difference = lp_tokens_supply.checked_sub(INITIAL_LOCKED_LIQUIDITY).ok_or(
            ErrorCode::LaunchLiquidityTooSmall,
        )?;
        if difference < INITIAL_LOCKED_LIQUIDITY * 4 {
            return Err(ErrorCode::LaunchLiquidityTooSmall);
        }
        Ok((lp_tokens_supply, difference))
    }

    /// Liquidity tokens to mint for liquidity that raises the square root of
    /// the constant product to `new_constant_product_sqrt`.
    fn calculate_lp_mint_for_provided_liquidity(&self, new_constant_product_sqrt: Q64_64) -> (r:
        Option<u64>)
        ensures
            r == lp_mint_for_provided_liquidity(
                self.pool().constant_product_sqrt@ as int,
                self.pool().lp_tokens_supply as int,
                new_constant_product_sqrt@ as int,
            ),
    {
        let provided_liquidity = new_constant_product_sqrt.checked_sub(
            self.constant_product_sqrt(),
        )?;
        let share_from_current_liquidity = provided_liquidity.checked_div(
            self.constant_product_sqrt(),
        )?;
        let tokens_to_mint = share_from_current_liquidity.checked_mul(
            Q64_64::from_u64(self.lp_tokens_supply()),
        )?.to_u64();
        if tokens_to_mint == 0 {
            return None;
        }
        Some(tokens_to_mint)
    }

    /// Base and quote amount that `lp_tokens` liquidity tokens redeem.
    fn calculate_liquidity_from_share(&self, lp_tokens: u64) -> (r: Option<(u64, u64)>)
        ensures
            r == liquidity_from_share(
                self.pool().constant_product_sqrt@ as int,
                self.pool().base_quote_ratio@ as int,
                self.pool().lp_tokens_supply as int,
                lp_tokens as int,
            ),
    {
        if lp_tokens == 0 {
            return None;
        }
        let supply = self.lp_tokens_supply();
        proof {
            if supply != 0 {
                lemma_quotient_of_integers(lp_tokens as int, supply as int);
            }
        }
        let liquidity_share = Q64_64::from_u64(lp_tokens).checked_div(Q64_64::from_u64(supply))?;
        let constant_product_sqrt_share = self.constant_product_sqrt().checked_mul(
            liquidity_share,
        )?;
        let base_withdraw_square = constant_product_sqrt_share.checked_square_mul_as_u128(
            self.base_quote_ratio(),
        )?;
        let quote_withdraw_square = constant_product_sqrt_share.checked_square_div_as_u128(
            self.base_quote_ratio(),
        )?;
        let base_withdraw = Q64_64::sqrt_from_u128(base_withdraw_square).to_u64();
        let quote_withdraw = Q64_64::sqrt_from_u128(quote_withdraw_square).to_u64();
        if base_withdraw == 0 || quote_withdraw == 0 {
            return None;
        }
        Some((base_withdraw, quote_withdraw))
    }

    /// Base and quote reserve after a swap that brings `swap_amount` in on
    /// the base side (`is_in_out`) or on the quote side.
    fn calculate_afterswap_liquidity(&self, swap_amount: u64, is_in_out: bool) -> (r: Option<
        (u64, u64),
    >)
        ensures
            r == afterswap_liquidity(self.pool(), swap_amount as int, is_in_out),
    {
        if is_in_out {
            let new_base_liquidity = self.base_liquidity().checked_add(swap_amount)?;
            let new_quote_liquidity = self.calculate_opposite_liquidity(new_base_liquidity)?;
            Some((new_base_liquidity, new_quote_liquidity))
        } else {
            let new_quote_liquidity = self.quote_liquidity().checked_add(swap_amount)?;
            let new_base_liquidity = self.calculate_opposite_liquidity(new_quote_liquidity)?;
            Some((new_base_liquidity, new_quote_liquidity))
        }
    }

    /// The ratio of the new reserves, where it is within
    /// [`ADJUST_LIQUIDITY_RATIO_TOLERANCE`] of the pool's ratio.
    fn validate_and_calculate_liquidity_ratio(
        &self,
        new_base_liquidity: u64,
        new_quote_liquidity: u64,
    ) -> (r: Result<Q64_64, ErrorCode>)
        ensures
            match r {
                Ok(ratio) => liquidity_ratio_check(
                    self.pool().base_quote_ratio@ as int,
                    new_base_liquidity as int,
                    new_quote_liquidity as int,
                ) == Ok::<int, ErrorCode>(ratio@ as int),
                Err(error) => liquidity_ratio_check(
                    self.pool().base_quote_ratio@ as int,
                    new_base_liquidity as int,
                    new_quote_liquidity as int,
                ) == Err::<int, ErrorCode>(error),
            },
    {
        let new_base_quote_ratio = Self::calculate_base_quote_ratio(
            new_base_liquidity,
            new_quote_liquidity,
        ).ok_or(ErrorCode::BaseQuoteRatioCalculationFailed)?;
        let current = self.base_quote_ratio();
        let difference = current.abs_diff(new_base_quote_ratio);
        let allowed_difference = share_of(current, ADJUST_LIQUIDITY_RATIO_TOLERANCE);
        if difference.raw_value() > allowed_difference.raw_value() {
            return Err(ErrorCode::LiquidityRatioToleranceExceeded);
        }
        Ok(new_base_quote_ratio)
    }

    /// Checks that the square root of the product of the new reserves is
    /// within [`SWAP_CONSTANT_PRODUCT_TOLERANCE`] of the pool's.
    fn validate_swap_constant_product(&self, new_base_liquidity: u64, new_quote_liquidity: u64)
        -> (r: Result<(), ErrorCode>)
        ensures
            r == swap_constant_product_check(
                self.pool().constant_product_sqrt@ as int,
                new_base_liquidity as int,
                new_quote_liquidity as int,
            ),
    {
        let new_constant_product_sqrt = Self::calculate_constant_product_sqrt(
            new_base_liquidity,
            new_quote_liquidity,
        ).ok_or(ErrorCode::ConstantProductCalculationFailed)?;
        let current = self.constant_product_sqrt();
        let difference = current.abs_diff(new_constant_product_sqrt);
        let allowed_difference = share_of(current, SWAP_CONSTANT_PRODUCT_TOLERANCE);
        if difference.raw_value() > allowed_difference.raw_value() {
            return Err(ErrorCode::ConstantProductToleranceExceeded);
        }
        Ok(())
    }

    /// The protocol's fee on a swap of `swap_amount`, rounded down.
    fn calculate_protocol_fee_amount(&self, swap_amount: u64) -> (r: u64)
        ensures
            r == fee_amount(swap_amount as int, self.pool().protocol_fee_rate_basis_points as int)
                % pow2_64(),
            self.pool().protocol_fee_rate_basis_points <= FEE_MAX_BASIS_POINTS ==> r == fee_amount(
                swap_amount as int,
                self.pool().protocol_fee_rate_basis_points as int,
            ) && r <= swap_amount,
    {
        fee_on(swap_amount, self.protocol_fee_rate_basis_points())
    }

    /// The liquidity providers' fee on a swap of `swap_amount`, rounded down.
    fn calculate_providers_fee_amount(&self, swap_amount: u64) -> (r: u64)
        ensures
            r == fee_amount(swap_amount as int, self.pool().providers_fee_rate_basis_points as int)
                % pow2_64(),
            self.pool().providers_fee_rate_basis_points <= FEE_MAX_BASIS_POINTS ==> r == fee_amount(
                swap_amount as int,
                self.pool().providers_fee_rate_basis_points as int,
            ) && r <= swap_amount,
    {
        fee_on(swap_amount, self.providers_fee_rate_basis_points())
    }

    /// The reserve on the other side that keeps the constant product when
    /// this side holds `x_liquidity`.
    fn calculate_opposite_liquidity(&self, x_liquidity: u64) -> (r: Option<u64>)
        ensures
            r == opposite_liquidity(self.pool().constant_product_sqrt@ as int, x_liquidity as int),
    {
        let opposite_liquidity = self.constant_product_sqrt().checked_square_div_as_u64(
            Q64_64::from_u64(x_liquidity),
        )?;
        if opposite_liquidity == 0 {
            return None;
        }
        Some(opposite_liquidity)
    }

    /// Checks a swap's result against its estimate: the result must not be
    /// zero, nor further from the estimate than `allowed_slippage`.
    fn check_swap_result(swap_result: u64, estimated_swap_result: u64, allowed_slippage: u64) -> (r:
        Result<(), ErrorCode>)
        ensures
            r == swap_result_check(
                swap_result as int,
                estimated_swap_result as int,
                allowed_slippage as int,
            ),
    {
        if swap_result == 0 {
            return Err(ErrorCode::SwapResultIsZero);
        }
        let difference = if swap_result >= estimated_swap_result {
            swap_result - estimated_swap_result
        } else {
            estimated_swap_result - swap_result
        };
        if difference > allowed_slippage {
            return Err(ErrorCode::SwapSlippageExceeded);
        }
        Ok(())
    }

    /// Base reserve over quote reserve, rounded down; `None` where a reserve
    /// is zero.
    fn calculate_base_quote_ratio(base_liquidity: u64, quote_liquidity: u64) -> (r: Option<Q64_64>)
        ensures
            match r {
                Some(ratio) => {
                    &&& base_liquidity != 0
                    &&& quote_liquidity != 0
                    &&& ratio@ == base_quote_ratio_raw(base_liquidity as int, quote_liquidity as int)
                    &&& ratio@ != 0
                },
                None => base_liquidity == 0 || quote_liquidity == 0,
            },
    {
        if base_liquidity == 0 || quote_liquidity == 0 {
            return None;
        }
        proof {
            lemma_quotient_of_integers(base_liquidity as int, quote_liquidity as int);
            lemma_ratio_positive(base_liquidity as int, quote_liquidity as int);
        }
        let ratio = Q64_64::from_u64(base_liquidity).checked_div(
            Q64_64::from_u64(quote_liquidity),
        )?;
        if ratio.is_zero() {
            return None;
        }
        Some(ratio)
    }

    /// Square root of the product of the reserves; `None` where a reserve is
    /// zero.
    fn calculate_constant_product_sqrt(base_liquidity: u64, quote_liquidity: u64) -> (r: Option<
        Q64_64,
    >)
        ensures
            match r {
                Some(sqrt) => {
                    &&& base_liquidity != 0
                    &&& quote_liquidity != 0
                    &&& sqrt@ == sqrt_raw(base_liquidity * quote_liquidity)
                    &&& sqrt@ != 0
                    &&& base_liquidity * quote_liquidity - sqrt_tolerance(
                        base_liquidity * quote_liquidity,
                    ) <= square_integer(sqrt@ as int) <= base_liquidity * quote_liquidity
                        + sqrt_tolerance(base_liquidity * quote_liquidity)
                },
                None => base_liquidity == 0 || quote_liquidity == 0,
            },
    {
        if base_liquidity == 0 || quote_liquidity == 0 {
            return None;
        }
        proof {
            lemma_product_of_reserves(base_liquidity, quote_liquidity);
        }
        let product: u128 = (base_liquidity as u128) * (quote_liquidity as u128);
        proof {
            lemma_sqrt_square_within_tolerance(product);
        }
        let constant_product_sqrt = Q64_64::sqrt_from_u128(product);
        if constant_product_sqrt.is_zero() {
            return None;
        }
        Some(constant_product_sqrt)
    }
}

impl CpAmmCalculate for PoolState {
    open spec fn pool(&self) -> PoolState {
        *self
    }

    fn constant_product_sqrt(&self) -> (r: Q64_64) {
        self.constant_product_sqrt
    }

    fn base_quote_ratio(&self) -> (r: Q64_64) {
        self.base_quote_ratio
    }

    fn base_liquidity(&self) -> (r: u64) {
        self.base_liquidity
    }

    fn quote_liquidity(&self) -> (r: u64) {
        self.quote_liquidity
    }

    fn lp_tokens_supply(&self) -> (r: u64) {
        self.lp_tokens_supply
    }

    fn providers_fee_rate_basis_points(&self) -> (r: u16) {
        self.providers_fee_rate_basis_points
    }

    fn protocol_fee_rate_basis_points(&self) -> (r: u16) {
        self.protocol_fee_rate_basis_points
    }
}

/// The fee on `amount` at `rate` basis points, rounded down, and cut to its
/// lowest 64 bits.
fn fee_on(amount: u64, rate: u16) -> (r: u64)
    ensures
        r == fee_amount(amount as int, rate as int) % pow2_64(),
        rate <= FEE_MAX_BASIS_POINTS ==> r == fee_amount(amount as int, rate as int) && r <= amount,
{
    assert(amount * rate <= 0xffff_ffff_ffff_ffff * 0xffff) by (nonlinear_arith);
    assert(rate <= FEE_MAX_BASIS_POINTS ==> amount * rate <= amount * 10000) by (nonlinear_arith);
    let fee: u128 = (amount as u128) * (rate as u128) / FEE_MAX_BASIS_POINTS;
    (fee % 0x1_0000_0000_0000_0000) as u64
}

/// The share `tolerance` of `current`, rounded down; `tolerance` is a raw
/// magnitude that stands for one at most.
fn share_of(current: Q64_64, tolerance: u128) -> (r: Q64_64)
    requires
        tolerance <= pow2_64(),
    ensures
        r@ == product_raw(current@ as int, tolerance as int),
{
    proof {
        lemma_product_with_fraction(current@ as int, tolerance as int);
    }
    current.checked_mul(Q64_64::new(tolerance)).expect("Integer overflow when casting to u128")
}

/// The locked amount is ten to the power of the decimals of the locked
/// liquidity tokens.
pub proof fn lemma_locked_liquidity_is_a_power_of_ten()
    ensures
        INITIAL_LOCKED_LIQUIDITY == vstd::arithmetic::power::pow(
            10,
            LP_MINT_INITIAL_DECIMALS as nat,
        ),
{
    reveal_with_fuel(vstd::arithmetic::power::pow, 6);
}

/// The launch guard: a pool launches only where the whole part of the square
/// root of its constant product is five times the locked amount at least; it
/// then issues that many liquidity tokens in all, and the launcher has all of
/// them but the locked amount, which is four times the locked amount or more.
pub proof fn lemma_launch_guard(sqrt: u128)
    ensures
        integer_of_raw(sqrt as int) == 0 ==> launch_lp_tokens(sqrt as int) == Err::<
            (u64, u64),
            ErrorCode,
        >(ErrorCode::LpTokensCalculationFailed),
        0 < integer_of_raw(sqrt as int) < 5 * INITIAL_LOCKED_LIQUIDITY ==> launch_lp_tokens(
            sqrt as int,
        ) == Err::<(u64, u64), ErrorCode>(ErrorCode::LaunchLiquidityTooSmall),
        integer_of_raw(sqrt as int) >= 5 * INITIAL_LOCKED_LIQUIDITY ==> launch_lp_tokens(
            sqrt as int,
        ) == Ok::<(u64, u64), ErrorCode>(
            (
                integer_of_raw(sqrt as int) as u64,
                (integer_of_raw(sqrt as int) - INITIAL_LOCKED_LIQUIDITY) as u64,
            ),
        ),
        launch_lp_tokens(sqrt as int) matches Ok((supply, share)) ==> share >= 4
            * INITIAL_LOCKED_LIQUIDITY && supply == share + INITIAL_LOCKED_LIQUIDITY,
{
}

/// A swap keeps the constant product: the reserve that the calculator puts
/// on the other side is the largest whose product with this side does not
/// exceed the square of the constant product's square root.
pub proof fn lemma_opposite_liquidity_keeps_product(sqrt: u128, liquidity: u64)
    ensures
        opposite_liquidity(sqrt as int, liquidity as int) matches Some(opposite) ==> {
            &&& opposite > 0
            &&& liquidity > 0
            &&& liquidity * opposite * pow2_128() <= sqrt * sqrt
            &&& sqrt * sqrt < liquidity * (opposite + 1) * pow2_128()
        },
{
    if liquidity != 0 {
        let divisor = raw_of_integer(liquidity as int) * pow2_64();
        assert(divisor == liquidity * pow2_128());
        let square = sqrt * sqrt;
        let quotient = square / divisor;
        lemma_fundamental_div_mod(square, divisor);
        assert(divisor * quotient == liquidity * quotient * pow2_128()) by (nonlinear_arith)
            requires
                divisor == liquidity * pow2_128(),
        ;
        assert(divisor * (quotient + 1) == liquidity * (quotient + 1) * pow2_128())
            by (nonlinear_arith)
            requires
                divisor == liquidity * pow2_128(),
        ;
        assert(divisor * (quotient + 1) == divisor * quotient + divisor) by (nonlinear_arith);
    }
}

/// Minting rounds in the pool's favour: the tokens minted are to the supply
/// at most as the growth of the constant product's square root is to that
/// square root.
pub proof fn lemma_lp_mint_rounds_down(current_sqrt: u128, supply: u64, new_sqrt: u128)
    ensures
        lp_mint_for_provided_liquidity(
            current_sqrt as int,
            supply as int,
            new_sqrt as int,
        ) matches Some(minted) ==> {
            &&& minted > 0
            &&& new_sqrt > current_sqrt
            &&& minted * current_sqrt <= (new_sqrt - current_sqrt) * supply
        },
{
    if new_sqrt >= current_sqrt && current_sqrt != 0 {
        let b = pow2_64();
        let provided = new_sqrt - current_sqrt;
        let growth = quotient_raw(provided, current_sqrt as int);
        let minted_raw = product_raw(growth, raw_of_integer(supply as int));
        let minted = integer_of_raw(minted_raw);
        // growth * current_sqrt <= provided * 2^64
        lemma_fundamental_div_mod(provided * b, current_sqrt as int);
        assert(0 <= provided * b) by (nonlinear_arith)
            requires
                0 <= provided,
                0 < b,
        ;
        assert(0 <= growth) by {
            vstd::arithmetic::div_mod::lemma_div_is_ordered(0, provided * b, current_sqrt as int);
        }
        assert(current_sqrt * growth <= provided * b);
        // minted_raw == growth * supply
        assert(growth * (supply * b) == (growth * supply) * b) by (nonlinear_arith);
        lemma_fundamental_div_mod_converse(growth * (supply * b), b, growth * supply, 0);
        assert(minted_raw == growth * supply);
        // minted * 2^64 <= growth * supply
        lemma_fundamental_div_mod(minted_raw, b);
        assert(b * minted <= growth * supply);
        // Together: minted * current_sqrt * 2^64 <= provided * supply * 2^64.
        assert(minted * current_sqrt * b <= provided * supply * b) by (nonlinear_arith)
            requires
                b * minted <= growth * supply,
                current_sqrt * growth <= provided * b,
                0 <= growth,
                0 <= supply,
                0 <= current_sqrt,
                0 < b,
        ;
        assert(minted * current_sqrt <= provided * supply) by (nonlinear_arith)
            requires
                minted * current_sqrt * b <= provided * supply * b,
                0 < b,
        ;
        if provided == 0 {
            assert(provided * b == 0);
            assert(growth == 0);
            assert(growth * supply == 0) by (nonlinear_arith)
                requires
                    growth == 0,
            ;
        }
    }
}

/// A pool that stores the square root and the ratio which the calculator
/// works out for its reserves agrees with its reserves.
pub proof fn lemma_calculated_state_agrees(pool: PoolState)
    requires
        pool.base_liquidity != 0,
        pool.quote_liquidity != 0,
        pool.constant_product_sqrt@ == sqrt_raw(pool.base_liquidity * pool.quote_liquidity),
        pool.base_quote_ratio@ == base_quote_ratio_raw(
            pool.base_liquidity as int,
            pool.quote_liquidity as int,
        ),
    ensures
        pool.agrees_with_reserves(),
{
    lemma_same_within_tolerance(
        pool.constant_product_sqrt@,
        SWAP_CONSTANT_PRODUCT_TOLERANCE,
    );
    lemma_same_within_tolerance(pool.base_quote_ratio@, ADJUST_LIQUIDITY_RATIO_TOLERANCE);
}

/// A swap that passes the check of the constant product leaves a pool that
/// agrees with its reserves, once the pool holds the new reserves and their
/// ratio and keeps the square root of its constant product.
pub proof fn lemma_validated_swap_agrees(before: PoolState, after: PoolState)
    requires
        swap_constant_product_check(
            before.constant_product_sqrt@ as int,
            after.base_liquidity as int,
            after.quote_liquidity as int,
        ) is Ok,
        after.constant_product_sqrt == before.constant_product_sqrt,
        after.base_quote_ratio@ == base_quote_ratio_raw(
            after.base_liquidity as int,
            after.quote_liquidity as int,
        ),
    ensures
        after.agrees_with_reserves(),
{
    lemma_same_within_tolerance(after.base_quote_ratio@, ADJUST_LIQUIDITY_RATIO_TOLERANCE);
}

/// New reserves that pass the check of the ratio leave a pool that agrees
/// with its reserves, once the pool holds them, the ratio that the check
/// returned and the square root of their product.
pub proof fn lemma_validated_liquidity_agrees(before: PoolState, after: PoolState)
    requires
        liquidity_ratio_check(
            before.base_quote_ratio@ as int,
            after.base_liquidity as int,
            after.quote_liquidity as int,
        ) == Ok::<int, ErrorCode>(after.base_quote_ratio@ as int),
        after.constant_product_sqrt@ == sqrt_raw(after.base_liquidity * after.quote_liquidity),
    ensures
        after.agrees_with_reserves(),
        within_tolerance(
            before.base_quote_ratio@ as int,
            after.base_quote_ratio@ as int,
            ADJUST_LIQUIDITY_RATIO_TOLERANCE as int,
        ),
{
    lemma_calculated_state_agrees(after);
}

/// A raw magnitude is within any tolerance of itself: reserves in the pool's
/// own ratio pass the check of the ratio, and reserves with the pool's own
/// constant product pass the check of the constant product.
pub proof fn lemma_same_within_tolerance(current: u128, tolerance: u128)
    ensures
        within_tolerance(current as int, current as int, tolerance as int),
{
    assert(0 <= current * tolerance) by (nonlinear_arith);
    vstd::arithmetic::div_mod::lemma_div_is_ordered(0, current * tolerance, pow2_64());
}

/// A fee never takes more than the amount it is taken from, as long as the
/// rate is no more than the whole.
pub proof fn lemma_fee_within_amount(amount: u64, rate: u16)
    requires
        rate <= FEE_MAX_BASIS_POINTS,
    ensures
        0 <= fee_amount(amount as int, rate as int) <= amount,
{
    assert(0 <= amount * rate <= amount * 10000) by (nonlinear_arith)
        requires
            0 <= rate <= 10000,
            0 <= amount,
    ;
}

/// The quotient of two whole numbers as 64.64 numbers is the quotient of the
/// first, scaled by 2^64, and the second.
pub proof fn lemma_quotient_of_integers(numerator: int, denominator: int)
    requires
        0 <= numerator,
        0 < denominator,
    ensures
        quotient_raw(raw_of_integer(numerator), raw_of_integer(denominator)) == numerator
            * pow2_64() / denominator,
        0 <= numerator * pow2_64() / denominator <= numerator * pow2_64(),
        numerator >= denominator ==> numerator * pow2_64() / denominator >= pow2_64(),
{
    let b = pow2_64();
    let scaled = numerator * b;
    let q = scaled / denominator;
    let r = scaled % denominator;
    lemma_fundamental_div_mod(scaled, denominator);
    assert(scaled == denominator * q + r);
    assert((denominator * q) * b == q * (denominator * b)) by (nonlinear_arith);
    assert(0 <= r * b < denominator * b) by (nonlinear_arith)
        requires
            0 <= r < denominator,
            0 < b,
    ;
    assert(scaled * b == q * (denominator * b) + r * b) by (nonlinear_arith)
        requires
            scaled == denominator * q + r,
            (denominator * q) * b == q * (denominator * b),
    ;
    lemma_fundamental_div_mod_converse(scaled * b, denominator * b, q, r * b);
    assert(0 <= scaled) by (nonlinear_arith)
        requires
            scaled == numerator * b,
            0 <= numerator,
            0 < b,
    ;
    assert(0 <= q <= scaled) by (nonlinear_arith)
        requires
            scaled == denominator * q + r,
            0 <= r < denominator,
            0 <= scaled,
    ;
    if numerator >= denominator {
        assert(q >= b) by (nonlinear_arith)
            requires
                scaled == denominator * q + r,
                scaled == numerator * b,
                0 <= r < denominator,
                numerator >= denominator,
                0 < b,
        ;
    }
}

/// A share of a number, the share being one at most, is not larger than the
/// number.
pub proof fn lemma_product_with_fraction(a: int, fraction: int)
    requires
        0 <= a,
        0 <= fraction <= pow2_64(),
    ensures
        0 <= product_raw(a, fraction) <= a,
{
    let b = pow2_64();
    assert(0 <= a * fraction <= a * b) by (nonlinear_arith)
        requires
            0 <= a,
            0 <= fraction <= b,
    ;
    lemma_fundamental_div_mod_converse(a * b, b, a, 0);
    vstd::arithmetic::div_mod::lemma_div_is_ordered(a * fraction, a * b, b);
    vstd::arithmetic::div_mod::lemma_div_is_ordered(0, a * fraction, b);
}

/// The ratio of two reserves that are not zero is not zero.
proof fn lemma_ratio_positive(base: int, quote: int)
    requires
        0 < base,
        0 < quote < pow2_64(),
    ensures
        base_quote_ratio_raw(base, quote) >= 1,
        base < pow2_64() ==> base_quote_ratio_raw(base, quote) <= u128::MAX,
{
    let b = pow2_64();
    let scaled = base * b;
    assert(scaled >= b) by (nonlinear_arith)
        requires
            scaled == base * b,
            1 <= base,
            0 < b,
    ;
    lemma_fundamental_div_mod(scaled, quote);
    let q = scaled / quote;
    let r = scaled % quote;
    assert(q >= 1) by (nonlinear_arith)
        requires
            scaled == quote * q + r,
            0 <= r < quote,
            scaled >= b,
            quote < b,
    ;
    assert(q <= scaled) by (nonlinear_arith)
        requires
            scaled == quote * q + r,
            0 <= r < quote,
            q >= 1,
    ;
    if base < b {
        assert(base * b <= (b - 1) * b) by (nonlinear_arith)
            requires
                base <= b - 1,
                0 < b,
        ;
    }
}

/// The product of two reserves fits in 128 bits, and is not zero where
/// neither reserve is.
proof fn lemma_product_of_reserves(base: u64, quote: u64)
    ensures
        0 <= base * quote <= u128::MAX,
        base != 0 && quote != 0 ==> base * quote >= 1,
{
    assert(0 <= base * quote <= 0xffff_ffff_ffff_ffff * 0xffff_ffff_ffff_ffff) by (nonlinear_arith);
    assert(base != 0 && quote != 0 ==> base * quote >= 1) by (nonlinear_arith);
}

} // verus!
