use cpmm::cp_amm_calculate::{
    CpAmmCalculate, PoolState, ADJUST_LIQUIDITY_RATIO_TOLERANCE, FEE_MAX_BASIS_POINTS,
    INITIAL_LOCKED_LIQUIDITY, LP_MINT_INITIAL_DECIMALS, SWAP_CONSTANT_PRODUCT_TOLERANCE,
};
use cpmm::error::ErrorCode;
use cpmm::q64_64::Q64_64;
use primitive_types::U512;

/// The conversion from `Q64_64` to `f64`, which the library leaves to its
/// callers.
trait ToFloat {
    fn to_f64(&self) -> f64;
}

impl ToFloat for Q64_64 {
    fn to_f64(&self) -> f64 {
        let (high_bits, low_bits) = self.split();
        let fractional_part = (low_bits as f64) / 18446744073709551616.0;
        high_bits as f64 + fractional_part
    }
}

struct TestCpAmm {
    base_liquidity: u64,
    quote_liquidity: u64,
    constant_product_sqrt: Q64_64,
    base_quote_ratio: Q64_64,
    lp_tokens_supply: u64,
    providers_fee_rate_basis_points: u16,
    protocol_fee_rate_basis_points: u16,
}

impl CpAmmCalculate for TestCpAmm {
    fn constant_product_sqrt(&self) -> Q64_64 {
        self.constant_product_sqrt
    }

    fn base_quote_ratio(&self) -> Q64_64 {
        self.base_quote_ratio
    }

    fn base_liquidity(&self) -> u64 {
        self.base_liquidity
    }

    fn quote_liquidity(&self) -> u64 {
        self.quote_liquidity
    }

    fn lp_tokens_supply(&self) -> u64 {
        self.lp_tokens_supply
    }

    fn providers_fee_rate_basis_points(&self) -> u16 {
        self.providers_fee_rate_basis_points
    }

    fn protocol_fee_rate_basis_points(&self) -> u16 {
        self.protocol_fee_rate_basis_points
    }
}

#[test]
fn test_calculate_none_base_quote_ratio_extreme() {
    let liquidity1: u64 = 0;
    let liquidity2: u64 = 0;
    let liquidity3: u64 = 1;
    let liquidity4: u64 = u64::MAX;
    let result1 = 5.421010862427522e-20;
    let result2 = 1.8446744073709552e19;
    assert_eq!(TestCpAmm::calculate_base_quote_ratio(liquidity3, liquidity4).unwrap().to_f64(), result1);
    assert_eq!(TestCpAmm::calculate_base_quote_ratio(liquidity4, liquidity3).unwrap().to_f64(), result2);
    assert!(TestCpAmm::calculate_base_quote_ratio(liquidity1, liquidity2).is_none());
}

#[test]
fn test_calculate_base_quote_ratio_sqrt() {
    let liquidity1: u64 = 250;
    let liquidity2: u64 = 100;
    let result1 = 2.5;
    let result2 = 0.4;
    assert_eq!(TestCpAmm::calculate_base_quote_ratio(liquidity1, liquidity2).unwrap().to_f64(), result1);
    assert_eq!(TestCpAmm::calculate_base_quote_ratio(liquidity2, liquidity1).unwrap().to_f64(), result2);
}

#[test]
fn test_calculate_constant_product_sqrt_extreme() {
    let liquidity1: u64 = 0;
    let liquidity2: u64 = u64::MAX;
    let liquidity3: u64 = 1;
    assert!(TestCpAmm::calculate_constant_product_sqrt(liquidity1, liquidity2).is_none());
    assert_eq!(TestCpAmm::calculate_constant_product_sqrt(liquidity2, liquidity2).unwrap().raw_value(), (u64::MAX as u128) << 64);
    assert_eq!(TestCpAmm::calculate_constant_product_sqrt(liquidity3, liquidity3).unwrap().raw_value(), 1 << 64);
}

#[test]
fn test_calculate_constant_product_sqrt() {
    let liquidity1: u64 = 250;
    let liquidity2: u64 = 100;
    let result = ((liquidity1 * liquidity2) as f64).sqrt();
    assert_eq!(TestCpAmm::calculate_constant_product_sqrt(liquidity1, liquidity2).unwrap().to_f64(), result);
}

#[test]
fn pool_fields_are_read_through_the_accessors() {
    let pool = TestCpAmm {
        base_liquidity: 1000,
        quote_liquidity: 1000,
        constant_product_sqrt: Q64_64::from_u64(1000),
        base_quote_ratio: Q64_64::from_u64(1),
        lp_tokens_supply: 1000,
        providers_fee_rate_basis_points: 30,
        protocol_fee_rate_basis_points: 5,
    };
    assert_eq!(pool.calculate_providers_fee_amount(10_000), 30);
    assert_eq!(pool.calculate_protocol_fee_amount(10_000), 5);
}

fn pool(base_liquidity: u64, quote_liquidity: u64, lp_tokens_supply: u64) -> TestCpAmm {
    TestCpAmm {
        base_liquidity,
        quote_liquidity,
        constant_product_sqrt: TestCpAmm::calculate_constant_product_sqrt(base_liquidity, quote_liquidity).unwrap(),
        base_quote_ratio: TestCpAmm::calculate_base_quote_ratio(base_liquidity, quote_liquidity).unwrap(),
        lp_tokens_supply,
        providers_fee_rate_basis_points: 30,
        protocol_fee_rate_basis_points: 5,
    }
}

#[test]
fn constants() {
    assert_eq!(LP_MINT_INITIAL_DECIMALS, 5);
    assert_eq!(INITIAL_LOCKED_LIQUIDITY, 10_u64.pow(LP_MINT_INITIAL_DECIMALS as u32));
    assert_eq!(SWAP_CONSTANT_PRODUCT_TOLERANCE, 18446744073710);
    assert_eq!(ADJUST_LIQUIDITY_RATIO_TOLERANCE, 18446744073710);
    assert_eq!(FEE_MAX_BASIS_POINTS, 10000);
    let one_millionth = Q64_64::new(SWAP_CONSTANT_PRODUCT_TOLERANCE).to_f64();
    assert!((one_millionth - 0.000001).abs() < 1e-18);
}

#[test]
fn constant_product_sqrt_and_ratio_of_given_reserves() {
    let sqrt = TestCpAmm::calculate_constant_product_sqrt(250, 100).unwrap();
    assert!((sqrt.to_f64() - 25000f64.sqrt()).abs() < 1e-9);
    assert_eq!(sqrt.raw_value(), 2916686334356757942940);
    assert_eq!(TestCpAmm::calculate_base_quote_ratio(250, 100).unwrap().raw_value(), 5 << 63);
    assert_eq!(TestCpAmm::calculate_base_quote_ratio(250, 100).unwrap().to_f64(), 2.5);
    assert_eq!(TestCpAmm::calculate_base_quote_ratio(100, 250).unwrap().to_f64(), 0.4);
    assert_eq!(TestCpAmm::calculate_base_quote_ratio(100, 250).unwrap().raw_value(), 7378697629483820646);
    assert!(TestCpAmm::calculate_base_quote_ratio(0, 250).is_none());
    assert!(TestCpAmm::calculate_base_quote_ratio(250, 0).is_none());
    assert!(TestCpAmm::calculate_constant_product_sqrt(0, 250).is_none());
    assert!(TestCpAmm::calculate_constant_product_sqrt(250, 0).is_none());
    assert!(TestCpAmm::calculate_constant_product_sqrt(0, 0).is_none());
}

#[test]
fn launch_guard() {
    let too_small = Err(ErrorCode::LaunchLiquidityTooSmall);
    assert_eq!(TestCpAmm::calculate_launch_lp_tokens(Q64_64::from_u64(124_999)), too_small);
    assert_eq!(TestCpAmm::calculate_launch_lp_tokens(Q64_64::from_u64(1)), too_small);
    assert_eq!(TestCpAmm::calculate_launch_lp_tokens(Q64_64::from_u64(99_999)), too_small);
    assert_eq!(TestCpAmm::calculate_launch_lp_tokens(Q64_64::from_u64(100_000)), too_small);
    assert_eq!(TestCpAmm::calculate_launch_lp_tokens(Q64_64::from_u64(499_999)), too_small);
    assert_eq!(TestCpAmm::calculate_launch_lp_tokens(Q64_64::new((500_000 << 64) - 1)), too_small);
    assert_eq!(TestCpAmm::calculate_launch_lp_tokens(Q64_64::from_u64(500_000)), Ok((500_000, 400_000)));
    let supply = 100_000 * 10;
    assert_eq!(
        TestCpAmm::calculate_launch_lp_tokens(Q64_64::from_u64(supply)),
        Ok((supply, supply - 100_000))
    );
    assert_eq!(
        TestCpAmm::calculate_launch_lp_tokens(Q64_64::max_value()),
        Ok((u64::MAX, u64::MAX - 100_000))
    );
}

#[test]
fn launch_with_a_square_root_below_one_mints_nothing() {
    let failed = Err(ErrorCode::LpTokensCalculationFailed);
    assert_eq!(TestCpAmm::calculate_launch_lp_tokens(Q64_64::from_u64(0)), failed);
    assert_eq!(TestCpAmm::calculate_launch_lp_tokens(Q64_64::new((1 << 64) - 1)), failed);
}

#[test]
fn swap_on_even_reserves() {
    let pool = pool(1000, 1000, 1000);
    assert_eq!(pool.constant_product_sqrt.raw_value(), 1000 << 64);
    assert_eq!(pool.calculate_opposite_liquidity(500), Some(2000));
    assert_eq!(pool.calculate_opposite_liquidity(1000), Some(1000));
    assert_eq!(pool.calculate_opposite_liquidity(3), Some(333333));
    assert_eq!(pool.calculate_afterswap_liquidity(500, true), Some((1500, 666)));
    assert_eq!(pool.calculate_afterswap_liquidity(500, false), Some((666, 1500)));
    assert_eq!(pool.calculate_afterswap_liquidity(0, true), Some((1000, 1000)));
}

#[test]
fn swap_results_that_do_not_exist() {
    let pool = pool(1000, 1000, 1000);
    // The other side would hold nothing.
    assert_eq!(pool.calculate_opposite_liquidity(1_000_001), None);
    assert_eq!(pool.calculate_opposite_liquidity(1_000_000), Some(1));
    // This side holds nothing.
    assert_eq!(pool.calculate_opposite_liquidity(0), None);
    // The reserve after the swap needs more than 64 bits.
    assert_eq!(pool.calculate_afterswap_liquidity(u64::MAX, true), None);
    assert_eq!(pool.calculate_afterswap_liquidity(u64::MAX - 999, false), None);
    assert_eq!(pool.calculate_afterswap_liquidity(u64::MAX - 1000, false), None);
    // The other side needs more than 64 bits.
    let deep = TestCpAmm {
        base_liquidity: u64::MAX,
        quote_liquidity: u64::MAX,
        constant_product_sqrt: Q64_64::from_u64(u64::MAX),
        base_quote_ratio: Q64_64::one(),
        lp_tokens_supply: 1,
        providers_fee_rate_basis_points: 0,
        protocol_fee_rate_basis_points: 0,
    };
    assert_eq!(deep.calculate_opposite_liquidity(u64::MAX - 1), None);
    assert_eq!(deep.calculate_opposite_liquidity(u64::MAX), Some(u64::MAX));
}

#[test]
fn swap_must_keep_the_constant_product() {
    let small = pool(1000, 1000, 1000);
    let exceeded = Err(ErrorCode::ConstantProductToleranceExceeded);
    assert_eq!(small.validate_swap_constant_product(1000, 1000), Ok(()));
    assert_eq!(small.validate_swap_constant_product(500, 2000), Ok(()));
    // On reserves this small one unit is more than the tolerance allows.
    assert_eq!(small.validate_swap_constant_product(1500, 666), exceeded);
    assert_eq!(small.validate_swap_constant_product(1500, 667), exceeded);
    assert_eq!(
        small.validate_swap_constant_product(0, 5),
        Err(ErrorCode::ConstantProductCalculationFailed)
    );
    assert_eq!(
        small.validate_swap_constant_product(5, 0),
        Err(ErrorCode::ConstantProductCalculationFailed)
    );

    let large = pool(1_000_000_000_000, 1_000_000_000_000, 1_000_000_000_000);
    let after = large.calculate_afterswap_liquidity(500_000_000_000, true).unwrap();
    assert_eq!(after, (1_500_000_000_000, 666_666_666_666));
    assert_eq!(large.validate_swap_constant_product(after.0, after.1), Ok(()));
    assert_eq!(large.validate_swap_constant_product(after.0, after.1 - 1_000_000), Ok(()));
    assert_eq!(large.validate_swap_constant_product(after.0, after.1 - 2_000_000), exceeded);
    assert_eq!(large.validate_swap_constant_product(after.0, after.1 + 3_000_000), exceeded);
}

#[test]
fn slippage_guard() {
    assert_eq!(TestCpAmm::check_swap_result(0, 100, 10), Err(ErrorCode::SwapResultIsZero));
    assert_eq!(TestCpAmm::check_swap_result(0, 0, 0), Err(ErrorCode::SwapResultIsZero));
    assert_eq!(TestCpAmm::check_swap_result(120, 100, 10), Err(ErrorCode::SwapSlippageExceeded));
    assert_eq!(TestCpAmm::check_swap_result(89, 100, 10), Err(ErrorCode::SwapSlippageExceeded));
    assert_eq!(TestCpAmm::check_swap_result(111, 100, 10), Err(ErrorCode::SwapSlippageExceeded));
    assert_eq!(TestCpAmm::check_swap_result(105, 100, 10), Ok(()));
    assert_eq!(TestCpAmm::check_swap_result(110, 100, 10), Ok(()));
    assert_eq!(TestCpAmm::check_swap_result(90, 100, 10), Ok(()));
    assert_eq!(TestCpAmm::check_swap_result(100, 100, 0), Ok(()));
    assert_eq!(TestCpAmm::check_swap_result(u64::MAX, 1, u64::MAX), Ok(()));
    assert_eq!(TestCpAmm::check_swap_result(1, u64::MAX, u64::MAX - 1), Ok(()));
    assert_eq!(TestCpAmm::check_swap_result(1, u64::MAX, u64::MAX - 2), Err(ErrorCode::SwapSlippageExceeded));
}

#[test]
fn liquidity_must_keep_the_ratio() {
    let small = pool(4000, 1000, 2000);
    let exceeded = Err(ErrorCode::LiquidityRatioToleranceExceeded);
    let failed = Err(ErrorCode::BaseQuoteRatioCalculationFailed);
    assert_eq!(small.validate_and_calculate_liquidity_ratio(4000, 1000), Ok(Q64_64::from_u64(4)));
    assert_eq!(small.validate_and_calculate_liquidity_ratio(8000, 2000), Ok(Q64_64::from_u64(4)));
    assert_eq!(small.validate_and_calculate_liquidity_ratio(4001, 1000), exceeded);
    assert_eq!(small.validate_and_calculate_liquidity_ratio(0, 1000), failed);
    assert_eq!(small.validate_and_calculate_liquidity_ratio(4000, 0), failed);

    let large = pool(4_000_000_000, 1_000_000_000, 2_000_000_000);
    assert_eq!(
        large.validate_and_calculate_liquidity_ratio(4_000_004_000, 1_000_000_000),
        Ok(Q64_64::new(73787050081814501302))
    );
    assert_eq!(large.validate_and_calculate_liquidity_ratio(4_000_004_001, 1_000_000_000), exceeded);
    assert_eq!(
        large.validate_and_calculate_liquidity_ratio(3_999_996_000, 1_000_000_000),
        Ok(Q64_64::new(73786902507861911625))
    );
    assert_eq!(large.validate_and_calculate_liquidity_ratio(3_999_995_999, 1_000_000_000), exceeded);
}

#[test]
fn lp_tokens_for_provided_liquidity() {
    let current = pool(1000, 1000, 1000);
    let grown = TestCpAmm::calculate_constant_product_sqrt(1100, 1100).unwrap();
    // A tenth of the supply, rounded down: a tenth has no exact 64.64 form.
    assert_eq!(current.calculate_lp_mint_for_provided_liquidity(grown), Some(99));
    let other = pool(2000, 500, 12345);
    let grown = TestCpAmm::calculate_constant_product_sqrt(2400, 600).unwrap();
    assert_eq!(other.calculate_lp_mint_for_provided_liquidity(grown), Some(2468));
    let doubled = TestCpAmm::calculate_constant_product_sqrt(2000, 2000).unwrap();
    assert_eq!(current.calculate_lp_mint_for_provided_liquidity(doubled), Some(1000));
}

#[test]
fn lp_tokens_that_cannot_be_minted() {
    let current = pool(1000, 1000, 1000);
    let sqrt = current.constant_product_sqrt;
    // No growth.
    assert_eq!(current.calculate_lp_mint_for_provided_liquidity(sqrt), None);
    // The square root went down.
    assert_eq!(current.calculate_lp_mint_for_provided_liquidity(Q64_64::new(sqrt.raw_value() - 1)), None);
    // Growth too small for one token.
    assert_eq!(current.calculate_lp_mint_for_provided_liquidity(Q64_64::new(sqrt.raw_value() + 1)), None);
    // A pool without a constant product.
    let empty = TestCpAmm { constant_product_sqrt: Q64_64::new(0), ..pool(1000, 1000, 1000) };
    assert_eq!(empty.calculate_lp_mint_for_provided_liquidity(sqrt), None);
    // The relative growth does not fit.
    let tiny = TestCpAmm { constant_product_sqrt: Q64_64::new(1), ..pool(1000, 1000, u64::MAX) };
    assert_eq!(tiny.calculate_lp_mint_for_provided_liquidity(Q64_64::max_value()), None);
    // The number of tokens does not fit.
    let unit = TestCpAmm { constant_product_sqrt: Q64_64::one(), ..pool(1000, 1000, u64::MAX) };
    assert_eq!(unit.calculate_lp_mint_for_provided_liquidity(Q64_64::from_u64(3)), None);
}

#[test]
fn liquidity_for_a_share_of_the_supply() {
    let even = pool(1000, 1000, 1000);
    assert_eq!(even.calculate_liquidity_from_share(1000), Some((1000, 1000)));
    assert_eq!(even.calculate_liquidity_from_share(100), Some((99, 99)));
    let skewed = pool(4000, 1000, 2000);
    assert_eq!(skewed.calculate_liquidity_from_share(2000), Some((4000, 1000)));
    assert_eq!(skewed.calculate_liquidity_from_share(500), Some((1000, 250)));
    let odd = pool(250, 100, 158);
    assert_eq!(odd.calculate_liquidity_from_share(158), Some((250, 100)));
    assert_eq!(odd.calculate_liquidity_from_share(79), Some((125, 50)));
}

#[test]
fn shares_that_redeem_nothing() {
    let skewed = pool(4000, 1000, 2000);
    assert_eq!(skewed.calculate_liquidity_from_share(0), None);
    // An amount rounds to zero.
    assert_eq!(skewed.calculate_liquidity_from_share(1), None);
    // No supply.
    let unissued = TestCpAmm { lp_tokens_supply: 0, ..pool(4000, 1000, 2000) };
    assert_eq!(unissued.calculate_liquidity_from_share(100), None);
    // No ratio.
    let flat = TestCpAmm { base_quote_ratio: Q64_64::new(0), ..pool(4000, 1000, 2000) };
    assert_eq!(flat.calculate_liquidity_from_share(500), None);
    // The share of the square root does not fit.
    let overdrawn = pool(4000, 1000, 1);
    assert_eq!(overdrawn.calculate_liquidity_from_share(u64::MAX), None);
    // The squares do not fit.
    let steep = TestCpAmm {
        constant_product_sqrt: Q64_64::max_value(),
        base_quote_ratio: Q64_64::max_value(),
        ..pool(4000, 1000, 1)
    };
    assert_eq!(steep.calculate_liquidity_from_share(1), None);
    let shallow = TestCpAmm {
        constant_product_sqrt: Q64_64::max_value(),
        base_quote_ratio: Q64_64::new(1),
        ..pool(4000, 1000, 1)
    };
    assert_eq!(shallow.calculate_liquidity_from_share(1), None);
}

#[test]
fn fees_round_down() {
    let pool = pool(1000, 1000, 1000);
    assert_eq!(pool.calculate_providers_fee_amount(20_000), 60);
    assert_eq!(pool.calculate_protocol_fee_amount(20_000), 10);
    assert_eq!(pool.calculate_providers_fee_amount(333), 0);
    assert_eq!(pool.calculate_providers_fee_amount(334), 1);
    assert_eq!(pool.calculate_protocol_fee_amount(1999), 0);
    assert_eq!(pool.calculate_protocol_fee_amount(2000), 1);
    assert_eq!(pool.calculate_providers_fee_amount(0), 0);
    let everything = TestCpAmm {
        providers_fee_rate_basis_points: 10000,
        protocol_fee_rate_basis_points: 10000,
        ..pool
    };
    assert_eq!(everything.calculate_providers_fee_amount(u64::MAX), u64::MAX);
    assert_eq!(everything.calculate_protocol_fee_amount(u64::MAX), u64::MAX);
    let odd = TestCpAmm {
        providers_fee_rate_basis_points: 25,
        protocol_fee_rate_basis_points: 17,
        ..everything
    };
    assert_eq!(odd.calculate_providers_fee_amount(999), 2);
    assert_eq!(odd.calculate_protocol_fee_amount(12_345_678), 20_987);
    assert_eq!(odd.calculate_providers_fee_amount(u64::MAX), 46116860184273879);
}

#[test]
fn fee_rates_above_the_whole_keep_the_lowest_64_bits() {
    let pool = TestCpAmm {
        providers_fee_rate_basis_points: u16::MAX,
        protocol_fee_rate_basis_points: 20000,
        ..pool(1000, 1000, 1000)
    };
    assert_eq!(pool.calculate_providers_fee_amount(u64::MAX), 10210272844798236812);
    assert_eq!(pool.calculate_protocol_fee_amount(1000), 2000);
}

#[test]
fn pool_state_is_a_pool() {
    let state = PoolState {
        constant_product_sqrt: Q64_64::from_u64(1000),
        base_quote_ratio: Q64_64::one(),
        base_liquidity: 1000,
        quote_liquidity: 1000,
        lp_tokens_supply: 1000,
        providers_fee_rate_basis_points: 30,
        protocol_fee_rate_basis_points: 5,
    };
    assert_eq!(state.constant_product_sqrt().raw_value(), 1000 << 64);
    assert_eq!(state.base_quote_ratio().raw_value(), 1 << 64);
    assert_eq!(state.base_liquidity(), 1000);
    assert_eq!(state.quote_liquidity(), 1000);
    assert_eq!(state.lp_tokens_supply(), 1000);
    assert_eq!(state.providers_fee_rate_basis_points(), 30);
    assert_eq!(state.protocol_fee_rate_basis_points(), 5);
    assert_eq!(state.calculate_afterswap_liquidity(500, true), Some((1500, 666)));
    assert_eq!(state.calculate_opposite_liquidity(500), Some(2000));
    assert_eq!(state.calculate_liquidity_from_share(1000), Some((1000, 1000)));
    assert_eq!(state.calculate_providers_fee_amount(20_000), 60);
    assert_eq!(state.validate_swap_constant_product(500, 2000), Ok(()));
    assert_eq!(PoolState::check_swap_result(105, 100, 10), Ok(()));
    assert_eq!(PoolState::calculate_launch_lp_tokens(Q64_64::from_u64(1_000_000)), Ok((1_000_000, 900_000)));
}

/// A small deterministic generator of test inputs.
struct Inputs(u64);

impl Inputs {
    fn next_u64(&mut self) -> u64 {
        self.0 ^= self.0 << 13;
        self.0 ^= self.0 >> 7;
        self.0 ^= self.0 << 17;
        self.0
    }

    /// A number from 1 on, of a random width.
    fn next_reserve(&mut self) -> u64 {
        (self.next_u64() >> (self.next_u64() % 64)).max(1)
    }
}

#[test]
fn a_swap_never_raises_the_constant_product() {
    let mut inputs = Inputs(21);
    for _ in 0..3000 {
        let pool = pool(inputs.next_reserve(), inputs.next_reserve(), 1);
        let sqrt = U512::from(pool.constant_product_sqrt.raw_value());
        let liquidity = inputs.next_reserve();
        if let Some(opposite) = pool.calculate_opposite_liquidity(liquidity) {
            assert!(opposite > 0);
            let kept = (U512::from(liquidity) * U512::from(opposite)) << 128;
            let next = (U512::from(liquidity) * (U512::from(opposite) + U512::from(1))) << 128;
            assert!(kept <= sqrt * sqrt);
            assert!(sqrt * sqrt < next);
        }
    }
}

#[test]
fn unchanged_reserves_keep_the_ratio_and_the_constant_product() {
    let mut inputs = Inputs(22);
    for _ in 0..3000 {
        let base = inputs.next_reserve();
        let quote = inputs.next_reserve();
        let pool = pool(base, quote, 1);
        assert_eq!(pool.validate_and_calculate_liquidity_ratio(base, quote), Ok(pool.base_quote_ratio));
        assert_eq!(pool.validate_swap_constant_product(base, quote), Ok(()));
    }
}

#[test]
fn minting_rounds_in_favour_of_the_pool() {
    let mut inputs = Inputs(23);
    for _ in 0..3000 {
        let base = inputs.next_reserve() >> 1;
        let quote = inputs.next_reserve() >> 1;
        let supply = inputs.next_reserve();
        let current = pool(base.max(1), quote.max(1), supply);
        let grown = TestCpAmm::calculate_constant_product_sqrt(
            base.max(1) + (inputs.next_reserve() >> 1),
            quote.max(1) + (inputs.next_reserve() >> 1),
        )
        .unwrap();
        if let Some(minted) = current.calculate_lp_mint_for_provided_liquidity(grown) {
                    let current_sqrt = current.constant_product_sqrt.raw_value();
            assert!(minted > 0 && grown.raw_value() > current_sqrt);
            let growth = U512::from(grown.raw_value() - current_sqrt);
            assert!(U512::from(minted) * U512::from(current_sqrt) <= growth * U512::from(supply));
        }
    }
}

#[test]
fn fees_never_exceed_the_amount() {
    let mut inputs = Inputs(24);
    for _ in 0..3000 {
        let amount = inputs.next_reserve();
        let pool = TestCpAmm {
            providers_fee_rate_basis_points: (inputs.next_u64() % 10001) as u16,
            protocol_fee_rate_basis_points: (inputs.next_u64() % 10001) as u16,
            ..pool(1000, 1000, 1000)
        };
        let providers = pool.calculate_providers_fee_amount(amount);
        let protocol = pool.calculate_protocol_fee_amount(amount);
        assert!(providers <= amount && protocol <= amount);
        assert_eq!(providers as u128, amount as u128 * pool.providers_fee_rate_basis_points as u128 / 10000);
        assert_eq!(protocol as u128, amount as u128 * pool.protocol_fee_rate_basis_points as u128 / 10000);
    }
}

#[test]
fn error_codes_are_told_apart() {
    let all = [
        ErrorCode::LpTokensCalculationFailed,
        ErrorCode::LaunchLiquidityTooSmall,
        ErrorCode::BaseQuoteRatioCalculationFailed,
        ErrorCode::ConstantProductCalculationFailed,
        ErrorCode::LiquidityRatioToleranceExceeded,
        ErrorCode::ConstantProductToleranceExceeded,
        ErrorCode::SwapResultIsZero,
        ErrorCode::SwapSlippageExceeded,
        ErrorCode::MintTransferFeeCalculationFailed,
    ];
    for (i, first) in all.iter().enumerate() {
        for (j, second) in all.iter().enumerate() {
            assert_eq!(first == second, i == j);
        }
    }
    assert_eq!(format!("{:?}", ErrorCode::MintTransferFeeCalculationFailed), "MintTransferFeeCalculationFailed");
}
