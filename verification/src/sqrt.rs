//! Square roots of whole numbers as 64.64 fixed-point numbers.
//!
//! The root is found in two phases. A binary search over raw magnitudes ends
//! on the coarse root: the largest raw magnitude whose square, cut to 64
//! fractional bits, does not exceed the number. Ten rounds of refinement then
//! move that raw magnitude until the whole part of its square is the number
//! itself, or the rounds are used up.
//!
//! [`sqrt_raw`] says which raw magnitude comes out: the coarse root itself or
//! the coarse root raised by a power of two.
//! [`lemma_sqrt_square_within_tolerance`] bounds how far the square of the
//! result can be from the number, [`lemma_sqrt_square_not_below`] shows that
//! it does not fall short of it, and [`lemma_sqrt_of_square`] that the roots of
//! squares are exact.

use crate::q64_64::{lemma_square_integer_fits, square_integer, Q64_64};
use crate::wide::{pow2_128, pow2_192, pow2_256, pow2_64, U256};
use vstd::prelude::*;

verus! {

/// The largest whole number whose square is at most `n`.
pub open spec fn floor_sqrt(n: nat) -> nat
    decreases n,
{
    if n == 0 {
        0
    } else {
        let below = floor_sqrt((n - 1) as nat);
        if (below + 1) * (below + 1) <= n {
            below + 1
        } else {
            below
        }
    }
}

/// Whether `r` is the largest whole number whose square is at most `n`.
pub open spec fn is_floor_sqrt(r: int, n: int) -> bool {
    0 <= r && r * r <= n < (r + 1) * (r + 1)
}

/// The bound of the coarse search: a raw magnitude `m` passes the search's
/// test `(m * m) >> 64 <= value << 64` exactly while
/// `m * m <= coarse_target(value)`.
pub open spec fn coarse_target(value: int) -> int {
    value * pow2_128() + pow2_64() - 1
}

/// Whether the coarse root `coarse`, raised by `step`, is still a raw
/// magnitude whose square has a whole part of `value` at most.
pub open spec fn step_fits(coarse: int, step: int, value: int) -> bool {
    coarse + step <= u128::MAX && square_integer(coarse + step) <= value
}

/// The step by which the refinement raises a coarse root whose square falls
/// short of `value`: the first of `step`, `step / 2`, `step / 4` and so on
/// down to 2 that fits, and 1 where none of them does.
pub open spec fn refinement_step(coarse: int, step: int, value: int) -> int
    decreases step,
{
    if step <= 1 {
        1
    } else if step_fits(coarse, step, value) {
        step
    } else {
        refinement_step(coarse, step / 2, value)
    }
}

/// The raw magnitude of the square root of `value` that
/// [`Q64_64::sqrt_from_u128`] returns.
///
/// But for 0, 1 and `2^128 - 1`, it is the coarse root, the largest raw
/// magnitude `m` with `m * m <= coarse_target(value)`, where the whole part
/// of the square of the coarse root is `value`; and else the coarse root
/// raised by the largest power of two up to 512 that fits.
pub open spec fn sqrt_raw(value: int) -> int {
    if value == 0 {
        0
    } else if value == 1 {
        pow2_64()
    } else if value == u128::MAX {
        0xffff_ffff_ffff_ffff_0000_0000_0000_0000
    } else {
        let coarse = floor_sqrt(coarse_target(value) as nat) as int;
        if square_integer(coarse) >= value {
            coarse
        } else {
            coarse + refinement_step(coarse, 512, value)
        }
    }
}

/// The largest gap between `value` and the whole part of the square of its
/// root: a millionth of a millionth of `value`, rounded down.
pub open spec fn sqrt_tolerance(value: int) -> int {
    value / 1_000_000_000_000
}

impl Q64_64 {
    /// The square root of `value`.
    ///
    /// The roots of 0 and 1 are exact, and the root of `2^128 - 1` is
    /// `2^64 - 1`. For any other `value`, a binary search finds the largest
    /// raw magnitude `m` with `(m * m) >> 64 <= value << 64`. Ten rounds of
    /// refinement then compare the whole part of the square of `m` with
    /// `value`: they raise `m` while it is too small and lower it while it is
    /// too large, by steps of 512, 256, and so on down to 1, and stop as soon
    /// as the two are equal. A step up that would pass the largest raw
    /// magnitude is left out.
    ///
    /// The result is an approximation: the whole part of its square may miss
    /// `value` by a millionth of a millionth of `value`.
    pub fn sqrt_from_u128(value: u128) -> (r: Q64_64)
        ensures
            r@ == sqrt_raw(value as int),
            value - sqrt_tolerance(value as int) <= square_integer(r@ as int) <= value
                + sqrt_tolerance(value as int),
            value > u64::MAX ==> square_integer(r@ as int) > u64::MAX,
            value < u128::MAX ==> value <= square_integer(r@ as int),
    {
        proof {
            lemma_sqrt_square_within_tolerance(value);
            if value < u128::MAX {
                lemma_sqrt_square_not_below(value);
            }
        }
        if value == 0 {
            return Q64_64::from_u128(0);
        }
        if value == 1 {
            return Q64_64::from_u128(1);
        }
        if value == u128::MAX {
            return Q64_64::from_u64(u64::MAX);
        }
        let scaled_value = U256::from_u128(value).shl64();
        let mut low = U256::zero();
        let mut high = scaled_value;
        let tolerance = U256::from_u128(1);
        proof {
            lemma_coarse_start(value as int);
        }
        while tolerance.lt(&high.sub(low))
            invariant
                2 <= value < u128::MAX,
                tolerance@ == 1,
                scaled_value@ == value * pow2_64(),
                low@ < high@ <= scaled_value@,
                low@ * low@ <= coarse_target(value as int),
                high@ * high@ > coarse_target(value as int),
                0 <= coarse_target(value as int) < pow2_256(),
                scaled_value@ < pow2_192(),
            decreases high@ - low@,
        {
            let mid = low.add(high).half();
            let square = mid.saturating_mul(mid).shr64();
            proof {
                if mid@ * mid@ < pow2_256() {
                    assert(0 <= mid@ * mid@) by (nonlinear_arith);
                    lemma_coarse_test((mid@ * mid@) as int, value as int);
                }
            }
            if square.le(&scaled_value) {
                low = mid;
            } else {
                high = mid;
            }
        }
        proof {
            lemma_root_fits(low@ as int, coarse_target(value as int));
            lemma_floor_sqrt_unique(low@ as int, coarse_target(value as int) as nat);
        }
        let mut low: u128 = low.as_u128();
        let mut approximation: u128 = 512;
        let ghost coarse = low as int;
        let ghost mut raised = false;
        proof {
            lemma_coarse_root(coarse, value as int);
        }
        while approximation >= 1
            invariant
                2 <= value < u128::MAX,
                coarse == floor_sqrt(coarse_target(value as int) as nat),
                pow2_64() <= coarse <= u128::MAX,
                square_integer(coarse) <= value,
                square_integer(coarse) < value ==> coarse < u128::MAX,
                forall|above: int| coarse < above ==> value <= #[trigger] square_integer(above),
                approximation == 512 || approximation == 256 || approximation == 128
                    || approximation == 64 || approximation == 32 || approximation == 16
                    || approximation == 8 || approximation == 4 || approximation == 2
                    || approximation == 1 || approximation == 0,
                !raised ==> approximation >= 1 && low == coarse && (square_integer(coarse) < value
                    ==> sqrt_raw(value as int) == coarse + refinement_step(
                    coarse,
                    approximation as int,
                    value as int,
                )),
                raised && approximation >= 1 ==> low == coarse + 2 * approximation && sqrt_raw(
                    value as int,
                ) == coarse + refinement_step(coarse, 2 * approximation, value as int),
                raised && approximation == 0 ==> low == sqrt_raw(value as int),
            decreases approximation,
        {
            let square = Q64_64::new(low).square_as_u128();
            assert(refinement_step(coarse, 1, value as int) == 1);
            if square < value {
                if let Some(raised_low) = low.checked_add(approximation) {
                    low = raised_low;
                    proof {
                        raised = true;
                    }
                }
            } else if square == value {
                return Q64_64::new(low);
            } else {
                low = low - approximation;
            }
            approximation = approximation / 2;
        }
        Q64_64::new(low)
    }
}

/// Squaring the square root of a whole number gives the number back, up to a
/// millionth of a millionth of it; and where the number needs more than 64
/// bits, so does the whole part of the square of its root.
pub proof fn lemma_sqrt_square_within_tolerance(value: u128)
    ensures
        value - sqrt_tolerance(value as int) <= square_integer(sqrt_raw(value as int)) <= value
            + sqrt_tolerance(value as int),
        value > u64::MAX ==> square_integer(sqrt_raw(value as int)) > u64::MAX,
        0 <= sqrt_raw(value as int) <= u128::MAX,
{
    if value == 0 {
        assert(square_integer(0) == 0) by (nonlinear_arith);
    } else if value == 1 {
        lemma_square_integer_fits(0x1_0000_0000_0000_0000u128);
    } else if value == u128::MAX {
        let root = 0xffff_ffff_ffff_ffff_0000_0000_0000_0000int;
        assert(root * root == 0xffff_ffff_ffff_fffe_0000_0000_0000_0001_0000_0000_0000_0000_0000_0000_0000_0000int)
            by (nonlinear_arith)
            requires
                root == 0xffff_ffff_ffff_ffff_0000_0000_0000_0000int,
        ;
        assert(square_integer(root) == 0xffff_ffff_ffff_fffe_0000_0000_0000_0001int);
    } else {
        lemma_root_close(value as int);
    }
}

/// The square root never falls short: but for the largest number, the whole
/// part of the square of the root of a whole number is that number at least.
pub proof fn lemma_sqrt_square_not_below(value: u128)
    requires
        value < u128::MAX,
    ensures
        value <= square_integer(sqrt_raw(value as int)),
{
    if value == 0 {
        assert(square_integer(0) == 0) by (nonlinear_arith);
    } else if value == 1 {
        lemma_square_integer_fits(0x1_0000_0000_0000_0000u128);
    } else {
        lemma_root_close(value as int);
    }
}

/// The square root of the square of a whole number is that number, without
/// any rounding.
pub proof fn lemma_sqrt_of_square(n: u64)
    ensures
        sqrt_raw(n * n) == n * pow2_64(),
{
    let b = pow2_64();
    let w = pow2_128();
    let value = n * n;
    let root = n * b;
    assert(0 <= value <= 0xffff_ffff_ffff_ffff * 0xffff_ffff_ffff_ffff) by (nonlinear_arith)
        requires
            value == n * n,
            0 <= n <= 0xffff_ffff_ffff_ffff,
    ;
    if n == 0 {
        assert(value == 0);
    } else if n == 1 {
        assert(value == 1);
    } else {
        assert(value >= 2 * n) by (nonlinear_arith)
            requires
                value == n * n,
                2 <= n,
        ;
        assert(root * root == value * w) by (nonlinear_arith)
            requires
                root == n * b,
                value == n * n,
                w == b * b,
        ;
        lemma_shifted_square(root, 1);
        assert(2 * root >= 2 * b) by (nonlinear_arith)
            requires
                root == n * b,
                2 <= n,
                0 < b,
        ;
        assert(is_floor_sqrt(root, coarse_target(value)));
        lemma_floor_sqrt_unique(root, coarse_target(value) as nat);
        assert(square_integer(root) == value) by {
            vstd::arithmetic::div_mod::lemma_fundamental_div_mod_converse(
                root * root,
                w,
                value,
                0,
            );
        }
    }
}

/// `floor_sqrt(n)` is the largest whole number whose square is at most `n`.
pub proof fn lemma_floor_sqrt_bounds(n: nat)
    ensures
        is_floor_sqrt(floor_sqrt(n) as int, n as int),
    decreases n,
{
    if n != 0 {
        lemma_floor_sqrt_bounds((n - 1) as nat);
        let below = floor_sqrt((n - 1) as nat) as int;
        assert((below + 2) * (below + 2) > (below + 1) * (below + 1)) by (nonlinear_arith)
            requires
                0 <= below,
        ;
    } else {
        assert(0 * 0 == 0 && 1 * 1 == 1) by (nonlinear_arith);
    }
}

/// Only one whole number is the largest whose square is at most `n`.
pub proof fn lemma_floor_sqrt_unique(r: int, n: nat)
    requires
        is_floor_sqrt(r, n as int),
    ensures
        r == floor_sqrt(n),
{
    lemma_floor_sqrt_bounds(n);
    let s = floor_sqrt(n) as int;
    if r < s {
        lemma_square_monotonic(r + 1, s);
    } else if s < r {
        lemma_square_monotonic(s + 1, r);
    }
}

/// The refinement raises the coarse root by one at least and by its first
/// step at most.
pub proof fn lemma_refinement_step_bounds(coarse: int, step: int, value: int)
    ensures
        1 <= refinement_step(coarse, step, value),
        refinement_step(coarse, step, value) <= step || refinement_step(coarse, step, value) == 1,
        refinement_step(coarse, step, value) > 1 ==> step_fits(
            coarse,
            refinement_step(coarse, step, value),
            value,
        ),
    decreases step,
{
    if step > 1 && !step_fits(coarse, step, value) {
        lemma_refinement_step_bounds(coarse, step / 2, value);
    }
}

/// Squares of whole numbers grow with the numbers.
pub proof fn lemma_square_monotonic(a: int, b: int)
    requires
        0 <= a <= b,
    ensures
        a * a <= b * b,
{
    assert(a * a <= b * b) by (nonlinear_arith)
        requires
            0 <= a <= b,
    ;
}

/// The whole part of the square of the root that [`sqrt_raw`] names is
/// `value` at least and `value + 1025` at most; below 2^105 it is `value`.
proof fn lemma_root_close(value: int)
    requires
        2 <= value < u128::MAX,
    ensures
        value <= square_integer(sqrt_raw(value)) <= value + 1025,
        value < 0x200_0000_0000_0000_0000_0000_0000 ==> square_integer(sqrt_raw(value)) == value,
        pow2_64() <= sqrt_raw(value) <= u128::MAX,
{
    let w = pow2_128();
    let target = coarse_target(value);
    let coarse = floor_sqrt(target as nat) as int;
    lemma_floor_sqrt_bounds(target as nat);
    lemma_coarse_root(coarse, value);
    if square_integer(coarse) < value {
        let step = refinement_step(coarse, 512, value);
        lemma_refinement_step_bounds(coarse, 512, value);
        let root = coarse + step;
        assert(value <= square_integer(root));
        // The largest step leads to a square that is not far above the target.
        lemma_shifted_square(coarse, 512);
        lemma_square_monotonic(root, coarse + 512);
        assert(512 * coarse < 512 * w);
        assert(root * root <= target + 1024 * w + 262144);
        if value < 0x200_0000_0000_0000_0000_0000_0000 {
            let bound = 0x20_0000_0000_0000_0000_0000_0000_0000int;
            assert(bound * bound
                == 0x400_0000_0000_0000_0000_0000_0000_0000_0000_0000_0000_0000_0000_0000_0000int);
            if coarse >= bound {
                lemma_square_monotonic(bound, coarse);
            }
            assert(512 * coarse < 512 * bound);
            let raised = coarse + 512;
            assert(raised * raised <= target + 1024 * bound + 262144);
            assert(square_integer(raised) <= value);
            assert(step_fits(coarse, 512, value));
            assert(step == 512);
        }
    }
}

/// The whole part of the square of the coarse root is `value` at most, that
/// of any larger raw magnitude is `value` at least, and the coarse root lies
/// between `2^64` and the largest raw magnitude.
proof fn lemma_coarse_root(coarse: int, value: int)
    requires
        2 <= value < u128::MAX,
        is_floor_sqrt(coarse, coarse_target(value)),
    ensures
        pow2_64() <= coarse <= u128::MAX,
        square_integer(coarse) <= value,
        square_integer(coarse) < value ==> coarse < u128::MAX,
        forall|raised: int| coarse < raised ==> value <= #[trigger] square_integer(raised),
{
    let target = coarse_target(value);
    lemma_root_fits(coarse, target);
    if coarse < pow2_64() {
        lemma_square_monotonic(coarse + 1, pow2_64());
    }
    if coarse == u128::MAX {
        let top = u128::MAX as int;
        assert(top * top
            == 0xffff_ffff_ffff_ffff_ffff_ffff_ffff_fffe_0000_0000_0000_0000_0000_0000_0000_0001int)
            by (nonlinear_arith)
            requires
                top == 0xffff_ffff_ffff_ffff_ffff_ffff_ffff_ffffint,
        ;
    }
    assert forall|raised: int| coarse < raised implies value <= #[trigger] square_integer(
        raised,
    ) by {
        lemma_square_monotonic(coarse + 1, raised);
    }
}

/// The test of the coarse search, `(m * m) >> 64 <= value << 64`, holds
/// exactly while `m * m <= coarse_target(value)`.
proof fn lemma_coarse_test(square: int, value: int)
    requires
        0 <= square,
        0 <= value,
    ensures
        (square / pow2_64() <= value * pow2_64()) <==> square <= coarse_target(value),
{
}

/// The coarse search starts on an interval that holds the root.
proof fn lemma_coarse_start(value: int)
    requires
        2 <= value < pow2_128(),
    ensures
        (value * pow2_64()) * (value * pow2_64()) > coarse_target(value),
        0 <= coarse_target(value) < pow2_256(),
        0 < value * pow2_64() < pow2_192(),
{
    let b = pow2_64();
    let w = pow2_128();
    let scaled = value * b;
    let square = value * value;
    assert(scaled * scaled == square * w) by (nonlinear_arith)
        requires
            scaled == value * b,
            square == value * value,
            w == b * b,
    ;
    assert(square >= 2 * value) by (nonlinear_arith)
        requires
            2 <= value,
            square == value * value,
    ;
}

/// A whole number whose square is below `2^256` is below `2^128`.
proof fn lemma_root_fits(low: int, target: int)
    requires
        0 <= low,
        low * low <= target < pow2_256(),
    ensures
        low < pow2_128(),
{
    if low >= pow2_128() {
        lemma_square_monotonic(pow2_128(), low);
    }
}

/// `(r + d)^2` written out.
proof fn lemma_shifted_square(r: int, d: int)
    ensures
        (r + d) * (r + d) == r * r + 2 * (d * r) + d * d,
{
    assert((r + d) * (r + d) == r * r + 2 * (d * r) + d * d) by (nonlinear_arith);
}

} // verus!
