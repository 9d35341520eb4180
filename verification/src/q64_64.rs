//! Unsigned fixed-point numbers with 64 integer bits and 64 fractional bits.
//!
//! A number is held as its raw magnitude, a `u128` that stands for
//! `raw / 2^64`; the view of a [`Q64_64`] is that raw magnitude. There are no
//! negative numbers: a difference that would be negative does not exist.
//!
//! Arithmetic comes in two tiers. The checked operations return `None` where
//! the result does not exist or does not fit. The operators `+ - * /` return
//! the number itself: Verus holds their callers to prove that the result fits,
//! and a caller that Verus has not seen panics where it does not. Products and
//! quotients are worked out in 256 bits and are exact up to the last step,
//! which rounds down to a multiple of `2^-64`.

use crate::wide::{pow2_128, pow2_192, pow2_256, pow2_64, U256, TWO_POW_64};
use vstd::arithmetic::div_mod::{lemma_fundamental_div_mod, lemma_fundamental_div_mod_converse};
use core::cmp::Ordering;
use vstd::prelude::*;

verus! {

/// Raw magnitude of the whole number `n`.
pub open spec fn raw_of_integer(n: int) -> int {
    n * pow2_64()
}

/// Whole part of the number with raw magnitude `raw`.
pub open spec fn integer_of_raw(raw: int) -> int {
    raw / pow2_64()
}

/// Fractional bits of the number with raw magnitude `raw`.
pub open spec fn fraction_of_raw(raw: int) -> int {
    raw % pow2_64()
}

/// Raw magnitude of the product of the numbers with raw magnitudes `a` and `b`,
/// rounded down to a multiple of 2^-64.
pub open spec fn product_raw(a: int, b: int) -> int {
    a * b / pow2_64()
}

/// Raw magnitude of the quotient of the numbers with raw magnitudes `a` and
/// `b`, rounded down to a multiple of 2^-64.
pub open spec fn quotient_raw(a: int, b: int) -> int {
    a * pow2_64() / b
}

/// Whole part of the square of the number with raw magnitude `a`.
pub open spec fn square_integer(a: int) -> int {
    a * a / pow2_128()
}

/// Whole part of the square of the number with raw magnitude `a`, times the
/// number with raw magnitude `m`.
pub open spec fn square_times_integer(a: int, m: int) -> int {
    a * a * m / pow2_192()
}

/// Whole part of the square of the number with raw magnitude `a`, divided by
/// the number with raw magnitude `d`.
pub open spec fn square_over_integer(a: int, d: int) -> int {
    a * a / (d * pow2_64())
}

/// An unsigned 64.64 fixed-point number: the raw magnitude `value` stands for
/// `value / 2^64`.
#[allow(non_camel_case_types)]
#[derive(Debug, Clone, Copy, PartialEq, Eq, Structural)]
pub struct Q64_64 {
    value: u128,
}

impl View for Q64_64 {
    type V = u128;

    /// The raw magnitude.
    closed spec fn view(&self) -> u128 {
        self.value
    }
}

impl Q64_64 {
    /// Number of fractional bits.
    pub const FRACTIONAL_BITS: u32 = 64;

    /// Mask of the fractional bits of a raw magnitude.
    pub const FRACTIONAL_MASK: u128 = 0xffff_ffff_ffff_ffff;

    /// The largest number, with raw magnitude `2^128 - 1`.
    pub fn max_value() -> (r: Q64_64)
        ensures
            r@ == u128::MAX,
    {
        Q64_64 { value: u128::MAX }
    }

    /// The number one, with raw magnitude `2^64`.
    pub fn one() -> (r: Q64_64)
        ensures
            r@ == pow2_64(),
    {
        Q64_64 { value: TWO_POW_64 }
    }

    /// The number with the given raw magnitude.
    pub fn new(value: u128) -> (r: Q64_64)
        ensures
            r@ == value,
    {
        Q64_64 { value }
    }

    /// The whole number `value`, its bits above the 64th dropped.
    pub fn from_u128(value: u128) -> (r: Q64_64)
        ensures
            r@ == raw_of_integer(value as int % pow2_64()),
            value < pow2_64() ==> r@ == raw_of_integer(value as int),
    {
        Q64_64 { value: (value % TWO_POW_64) * TWO_POW_64 }
    }

    /// The whole number `value`.
    pub fn from_u64(value: u64) -> (r: Q64_64)
        ensures
            r@ == raw_of_integer(value as int),
    {
        Q64_64 { value: (value as u128) * TWO_POW_64 }
    }

    /// The whole part: the number rounded down.
    pub fn to_u64(&self) -> (r: u64)
        ensures
            r == integer_of_raw(self@ as int),
    {
        (self.value / TWO_POW_64) as u64
    }

    /// The whole part and the fractional bits.
    pub fn split(&self) -> (r: (u64, u64))
        ensures
            r.0 == integer_of_raw(self@ as int),
            r.1 == fraction_of_raw(self@ as int),
            self@ == raw_of_integer(r.0 as int) + r.1,
    {
        (self.get_integer_bits(), self.get_fractional_bits())
    }

    /// The raw magnitude.
    pub fn raw_value(&self) -> (r: u128)
        ensures
            r == self@,
    {
        self.value
    }

    /// Replaces the raw magnitude.
    pub fn set_raw_value(&mut self, value: u128)
        ensures
            final(self)@ == value,
    {
        self.value = value;
    }

    /// The 64 integer bits.
    pub fn get_integer_bits(&self) -> (r: u64)
        ensures
            r == integer_of_raw(self@ as int),
    {
        (self.value / TWO_POW_64) as u64
    }

    /// The 64 fractional bits.
    pub fn get_fractional_bits(&self) -> (r: u64)
        ensures
            r == fraction_of_raw(self@ as int),
    {
        (self.value % TWO_POW_64) as u64
    }

    /// Whether the number is zero.
    pub fn is_zero(&self) -> (r: bool)
        ensures
            r == (self@ == 0),
    {
        self.value == 0
    }

    /// Whether the number is one.
    pub fn is_one(&self) -> (r: bool)
        ensures
            r == (self@ == pow2_64()),
    {
        self.value == TWO_POW_64
    }

    /// The distance between two numbers.
    pub fn abs_diff(&self, other: Q64_64) -> (r: Q64_64)
        ensures
            self@ >= other@ ==> r@ == self@ - other@,
            self@ < other@ ==> r@ == other@ - self@,
    {
        if self.value >= other.value {
            Q64_64 { value: self.value - other.value }
        } else {
            Q64_64 { value: other.value - self.value }
        }
    }

    /// The sum, or `None` where it does not fit.
    pub fn checked_add(self, rhs: Q64_64) -> (r: Option<Q64_64>)
        ensures
            match r {
                Some(sum) => sum@ == self@ + rhs@,
                None => self@ + rhs@ > u128::MAX,
            },
    {
        match self.value.checked_add(rhs.value) {
            Some(value) => Some(Q64_64 { value }),
            None => None,
        }
    }

    /// The difference, or `None` where `rhs` is larger than `self`.
    pub fn checked_sub(self, rhs: Q64_64) -> (r: Option<Q64_64>)
        ensures
            match r {
                Some(difference) => difference@ == self@ - rhs@,
                None => self@ < rhs@,
            },
    {
        match self.value.checked_sub(rhs.value) {
            Some(value) => Some(Q64_64 { value }),
            None => None,
        }
    }

    /// The product, rounded down, or `None` where it does not fit.
    pub fn checked_mul(self, rhs: Q64_64) -> (r: Option<Q64_64>)
        ensures
            match r {
                Some(product) => product@ == product_raw(self@ as int, rhs@ as int),
                None => product_raw(self@ as int, rhs@ as int) > u128::MAX,
            },
    {
        match U256::mul_u128(self.value, rhs.value).shr64().checked_as_u128() {
            Some(value) => Some(Q64_64 { value }),
            None => None,
        }
    }

    /// The quotient, rounded down, or `None` where `rhs` is zero or the
    /// quotient does not fit.
    pub fn checked_div(self, rhs: Q64_64) -> (r: Option<Q64_64>)
        ensures
            match r {
                Some(quotient) => rhs@ != 0 && quotient@ == quotient_raw(self@ as int, rhs@ as int),
                None => rhs@ == 0 || quotient_raw(self@ as int, rhs@ as int) > u128::MAX,
            },
    {
        if rhs.value == 0 {
            return None;
        }
        let dividend = U256::from_u128(self.value).shl64();
        match dividend.div(U256::from_u128(rhs.value)).checked_as_u128() {
            Some(value) => Some(Q64_64 { value }),
            None => None,
        }
    }

    /// The whole part of the square, as a 256-bit number.
    pub fn compute_square(&self) -> (r: U256)
        ensures
            r@ == square_integer(self@ as int),
            r@ < pow2_128(),
    {
        proof {
            lemma_square_integer_fits(self@);
        }
        if self.is_zero() {
            return U256::zero();
        }
        if self.is_one() {
            return U256::from_u128(1);
        }
        U256::mul_u128(self.value, self.value).shr128()
    }

    /// The whole part of the square.
    pub fn square_as_u128(self) -> (r: u128)
        ensures
            r == square_integer(self@ as int),
    {
        self.compute_square().as_u128()
    }

    /// The whole part of the square, or `None` where it is 2^64 or more.
    pub fn checked_square_as_u64(self) -> (r: Option<u64>)
        ensures
            match r {
                Some(square) => square == square_integer(self@ as int),
                None => square_integer(self@ as int) > u64::MAX,
            },
    {
        self.compute_square().checked_as_u64()
    }

    /// The whole part of the square, where it is below 2^64.
    pub fn square_as_u64(self) -> (r: u64)
        requires
            square_integer(self@ as int) <= u64::MAX,
        ensures
            r == square_integer(self@ as int),
    {
        self.compute_square().as_u64()
    }

    /// The whole part of the square times `factor`, or `None` where it is
    /// 2^128 or more.
    pub fn checked_square_mul_as_u128(self, factor: Q64_64) -> (r: Option<u128>)
        ensures
            match r {
                Some(value) => value == square_times_integer(self@ as int, factor@ as int),
                None => square_times_integer(self@ as int, factor@ as int) > u128::MAX,
            },
    {
        let square = U256::mul_u128(self.value, self.value);
        let upper = U256::mul_u128(square.high, factor.value);
        let lower = U256::mul_u128(square.low, factor.value);
        proof {
            lemma_wide_product_shift(
                self@ as int,
                factor@ as int,
                square.high as int,
                square.low as int,
                upper@ as int,
                lower.high as int,
                lower.low as int,
            );
        }
        upper.add(U256::from_u128(lower.high)).shr64().checked_as_u128()
    }

    /// The whole part of the square divided by `divisor`, or `None` where
    /// `divisor` is zero or the result is 2^128 or more.
    pub fn checked_square_div_as_u128(self, divisor: Q64_64) -> (r: Option<u128>)
        ensures
            match r {
                Some(value) => divisor@ != 0 && value == square_over_integer(
                    self@ as int,
                    divisor@ as int,
                ),
                None => divisor@ == 0 || square_over_integer(self@ as int, divisor@ as int)
                    > u128::MAX,
            },
    {
        if divisor.value == 0 {
            return None;
        }
        let square = U256::mul_u128(self.value, self.value);
        let scaled_divisor = U256::from_u128(divisor.value).shl64();
        square.div(scaled_divisor).checked_as_u128()
    }

    /// The whole part of the square divided by `divisor`, or `None` where
    /// `divisor` is zero or the result is 2^64 or more.
    pub fn checked_square_div_as_u64(self, divisor: Q64_64) -> (r: Option<u64>)
        ensures
            match r {
                Some(value) => divisor@ != 0 && value == square_over_integer(
                    self@ as int,
                    divisor@ as int,
                ),
                None => divisor@ == 0 || square_over_integer(self@ as int, divisor@ as int)
                    > u64::MAX,
            },
    {
        if divisor.value == 0 {
            return None;
        }
        let square = U256::mul_u128(self.value, self.value);
        let scaled_divisor = U256::from_u128(divisor.value).shl64();
        square.div(scaled_divisor).checked_as_u64()
    }
}

impl Q64_64 {
    /// The number with raw magnitude `raw`, for `raw` from 0 to `2^128 - 1`.
    pub closed spec fn of_raw(raw: int) -> Q64_64 {
        Q64_64 { value: raw as u128 }
    }

    /// Two numbers are the same exactly when their raw magnitudes are.
    pub proof fn lemma_equal_by_raw(a: Q64_64, b: Q64_64)
        ensures
            (a == b) <==> (a@ == b@),
    {
    }

    /// `of_raw` and the view undo one another.
    pub proof fn lemma_of_raw(raw: int)
        requires
            0 <= raw <= u128::MAX,
        ensures
            Q64_64::of_raw(raw)@ == raw,
    {
    }
}

impl core::ops::Add for Q64_64 {
    type Output = Q64_64;

    /// The sum, where it fits.
    fn add(self, rhs: Q64_64) -> (r: Q64_64)
        ensures
            r@ == self@ + rhs@,
    {
        self.checked_add(rhs).expect("attempt to add with overflow")
    }
}

impl vstd::std_specs::ops::AddSpecImpl for Q64_64 {
    open spec fn obeys_add_spec() -> bool {
        true
    }

    open spec fn add_req(self, rhs: Q64_64) -> bool {
        self@ + rhs@ <= u128::MAX
    }

    open spec fn add_spec(self, rhs: Q64_64) -> Q64_64 {
        Q64_64::of_raw(self@ + rhs@)
    }
}

impl core::ops::Sub for Q64_64 {
    type Output = Q64_64;

    /// The difference, where `rhs` is not larger than `self`.
    fn sub(self, rhs: Q64_64) -> (r: Q64_64)
        ensures
            r@ == self@ - rhs@,
    {
        self.checked_sub(rhs).expect("attempt to subtract with overflow")
    }
}

impl vstd::std_specs::ops::SubSpecImpl for Q64_64 {
    open spec fn obeys_sub_spec() -> bool {
        true
    }

    open spec fn sub_req(self, rhs: Q64_64) -> bool {
        rhs@ <= self@
    }

    open spec fn sub_spec(self, rhs: Q64_64) -> Q64_64 {
        Q64_64::of_raw(self@ - rhs@)
    }
}

impl core::ops::Mul for Q64_64 {
    type Output = Q64_64;

    /// The product, rounded down, where it fits.
    fn mul(self, rhs: Q64_64) -> (r: Q64_64)
        ensures
            r@ == product_raw(self@ as int, rhs@ as int),
    {
        self.checked_mul(rhs).expect("Integer overflow when casting to u128")
    }
}

impl vstd::std_specs::ops::MulSpecImpl for Q64_64 {
    open spec fn obeys_mul_spec() -> bool {
        true
    }

    open spec fn mul_req(self, rhs: Q64_64) -> bool {
        product_raw(self@ as int, rhs@ as int) <= u128::MAX
    }

    open spec fn mul_spec(self, rhs: Q64_64) -> Q64_64 {
        Q64_64::of_raw(product_raw(self@ as int, rhs@ as int))
    }
}

impl core::ops::Div for Q64_64 {
    type Output = Q64_64;

    /// The quotient, rounded down, where `rhs` is not zero and the quotient fits.
    fn div(self, rhs: Q64_64) -> (r: Q64_64)
        ensures
            r@ == quotient_raw(self@ as int, rhs@ as int),
    {
        if rhs.value == 0 {
            return None.expect("Division by zero!");
        }
        self.checked_div(rhs).expect("Integer overflow when casting to u128")
    }
}

impl vstd::std_specs::ops::DivSpecImpl for Q64_64 {
    open spec fn obeys_div_spec() -> bool {
        true
    }

    open spec fn div_req(self, rhs: Q64_64) -> bool {
        rhs@ != 0 && quotient_raw(self@ as int, rhs@ as int) <= u128::MAX
    }

    open spec fn div_spec(self, rhs: Q64_64) -> Q64_64 {
        Q64_64::of_raw(quotient_raw(self@ as int, rhs@ as int))
    }
}

impl Default for Q64_64 {
    /// The number zero.
    fn default() -> (r: Q64_64)
        ensures
            r@ == 0,
    {
        Q64_64 { value: 0 }
    }
}

impl PartialOrd for Q64_64 {
    /// Numbers are ordered by their raw magnitudes.
    fn partial_cmp(&self, other: &Q64_64) -> (r: Option<Ordering>) {
        if self.value < other.value {
            Some(Ordering::Less)
        } else if self.value == other.value {
            Some(Ordering::Equal)
        } else {
            Some(Ordering::Greater)
        }
    }
}

impl vstd::std_specs::cmp::PartialOrdSpecImpl for Q64_64 {
    open spec fn obeys_partial_cmp_spec() -> bool {
        true
    }

    open spec fn partial_cmp_spec(&self, other: &Q64_64) -> Option<Ordering> {
        if self@ < other@ {
            Some(Ordering::Less)
        } else if self@ == other@ {
            Some(Ordering::Equal)
        } else {
            Some(Ordering::Greater)
        }
    }
}

/// A whole number comes back from its 64.64 form unchanged, and that form
/// has no fractional bits.
pub proof fn lemma_integer_round_trip(n: u64)
    ensures
        integer_of_raw(raw_of_integer(n as int)) == n,
        fraction_of_raw(raw_of_integer(n as int)) == 0,
        0 <= raw_of_integer(n as int) <= u128::MAX,
{
    lemma_fundamental_div_mod_converse(raw_of_integer(n as int), pow2_64(), n as int, 0);
}

/// A raw magnitude is its whole part, scaled, plus its fractional bits, and
/// each of the two fits in 64 bits.
pub proof fn lemma_split_joins(raw: u128)
    ensures
        raw == raw_of_integer(integer_of_raw(raw as int)) + fraction_of_raw(raw as int),
        0 <= integer_of_raw(raw as int) <= u64::MAX,
        0 <= fraction_of_raw(raw as int) <= u64::MAX,
{
    lemma_fundamental_div_mod(raw as int, pow2_64());
}

/// Whole numbers multiply as 64.64 numbers without rounding.
pub proof fn lemma_product_of_integers(m: int, n: int)
    ensures
        product_raw(raw_of_integer(m), raw_of_integer(n)) == raw_of_integer(m * n),
{
    let b = pow2_64();
    assert((m * b) * (n * b) == ((m * n) * b) * b) by (nonlinear_arith);
    lemma_fundamental_div_mod_converse((m * b) * (n * b), b, (m * n) * b, 0);
}

/// The product of two 64.64 numbers does not depend on their order.
pub proof fn lemma_product_commutes(a: int, b: int)
    ensures
        product_raw(a, b) == product_raw(b, a),
{
    assert(a * b == b * a) by (nonlinear_arith);
}

/// Multiplying or dividing by one changes nothing.
pub proof fn lemma_one_is_neutral(a: int)
    ensures
        product_raw(a, pow2_64()) == a,
        quotient_raw(a, pow2_64()) == a,
{
    lemma_fundamental_div_mod_converse(a * pow2_64(), pow2_64(), a, 0);
}

/// The whole part of a square of a 64.64 number fits in 128 bits.
pub proof fn lemma_square_integer_fits(a: u128)
    ensures
        0 <= square_integer(a as int) < pow2_128(),
        a == 0 ==> square_integer(a as int) == 0,
        a == pow2_64() ==> square_integer(a as int) == 1,
{
    assert(0 <= a * a < pow2_128() * pow2_128()) by (nonlinear_arith)
        requires
            0 <= a < pow2_128(),
    ;
    assert(a == 0 ==> a * a == 0) by (nonlinear_arith);
    assert(a == pow2_64() ==> a * a == pow2_128()) by (nonlinear_arith);
}

/// The whole part of `a^2 * m / 2^192`, read off the two partial products of
/// the limbs of `a^2` with `m`.
proof fn lemma_wide_product_shift(
    a: int,
    m: int,
    square_high: int,
    square_low: int,
    upper: int,
    lower_high: int,
    lower_low: int,
)
    requires
        0 <= a < pow2_128(),
        0 <= m < pow2_128(),
        0 <= square_high < pow2_128(),
        0 <= square_low < pow2_128(),
        a * a == square_high * pow2_128() + square_low,
        upper == square_high * m,
        lower_high * pow2_128() + lower_low == square_low * m,
        0 <= lower_high < pow2_128(),
        0 <= lower_low < pow2_128(),
    ensures
        0 <= upper + lower_high < pow2_256(),
        (upper + lower_high) / pow2_64() == square_times_integer(a, m),
{
    let w = pow2_128();
    let total = a * a * m;
    assert(total == (square_high * m) * w + square_low * m) by (nonlinear_arith)
        requires
            total == a * a * m,
            a * a == square_high * w + square_low,
    ;
    let x = upper + lower_high;
    assert(total == x * w + lower_low);
    assert(0 <= upper) by (nonlinear_arith)
        requires
            upper == square_high * m,
            0 <= square_high,
            0 <= m,
    ;
    assert(upper <= (w - 1) * (w - 1)) by (nonlinear_arith)
        requires
            upper == square_high * m,
            0 <= square_high <= w - 1,
            0 <= m <= w - 1,
    ;
    // total / 2^192 == (total / 2^128) / 2^64 == x / 2^64
    lemma_fundamental_div_mod_converse(total, w, x, lower_low);
    assert(total / w == x);
    let q = x / pow2_64();
    let r = x % pow2_64();
    lemma_fundamental_div_mod(x, pow2_64());
    assert(x == pow2_64() * q + r);
    assert(total == q * pow2_192() + (r * w + lower_low));
    lemma_fundamental_div_mod_converse(total, pow2_192(), q, r * w + lower_low);
}

} // verus!
