//! Unsigned 256-bit integers held as two 128-bit limbs.
//!
//! They carry the intermediate results of fixed-point multiplication and
//! division, which do not fit in 128 bits. Every operation is exact: its
//! contract states the result over the unbounded integers.
//!
//! An operation that has a `requires` also tests it when it runs, so that a
//! caller which was not verified panics instead of going on with a wrong
//! number.

use vstd::arithmetic::div_mod::{lemma_fundamental_div_mod, lemma_fundamental_div_mod_converse};
use vstd::prelude::*;

verus! {

/// 2^64, for code that runs.
pub const TWO_POW_64: u128 = 0x1_0000_0000_0000_0000;

/// 2^64, for contracts.
pub open spec fn pow2_64() -> int {
    0x1_0000_0000_0000_0000int
}

/// 2^128.
pub open spec fn pow2_128() -> int {
    0x1_0000_0000_0000_0000_0000_0000_0000_0000int
}

/// 2^192.
pub open spec fn pow2_192() -> int {
    0x1_0000_0000_0000_0000_0000_0000_0000_0000_0000_0000_0000_0000int
}

/// 2^256.
pub open spec fn pow2_256() -> int {
    0x1_0000_0000_0000_0000_0000_0000_0000_0000_0000_0000_0000_0000_0000_0000_0000_0000int
}

/// An unsigned 256-bit integer: `high * 2^128 + low`.
#[derive(Clone, Copy, Debug, PartialEq, Eq, Structural)]
pub struct U256 {
    /// The upper 128 bits.
    pub high: u128,
    /// The lower 128 bits.
    pub low: u128,
}

impl View for U256 {
    type V = nat;

    open spec fn view(&self) -> nat {
        (self.high * pow2_128() + self.low) as nat
    }
}

impl U256 {
    /// The number zero.
    pub fn zero() -> (r: U256)
        ensures
            r@ == 0,
    {
        U256 { high: 0, low: 0 }
    }

    /// Widens a 128-bit number.
    pub fn from_u128(value: u128) -> (r: U256)
        ensures
            r@ == value,
            r.high == 0,
            r.low == value,
    {
        U256 { high: 0, low: value }
    }

    /// The exact product of two 128-bit numbers.
    pub fn mul_u128(a: u128, b: u128) -> (r: U256)
        ensures
            r@ == a * b,
    {
        let a0: u128 = a % TWO_POW_64;
        let a1: u128 = a / TWO_POW_64;
        let b0: u128 = b % TWO_POW_64;
        let b1: u128 = b / TWO_POW_64;
        proof {
            lemma_half_product_fits(a0, b0);
            lemma_half_product_fits(a0, b1);
            lemma_half_product_fits(a1, b0);
            lemma_half_product_fits(a1, b1);
        }
        let p00: u128 = a0 * b0;
        let p01: u128 = a0 * b1;
        let p10: u128 = a1 * b0;
        let p11: u128 = a1 * b1;
        let cross: u128 = p00 / TWO_POW_64 + p01 % TWO_POW_64 + p10 % TWO_POW_64;
        let low: u128 = (cross % TWO_POW_64) * TWO_POW_64 + p00 % TWO_POW_64;
        proof {
            lemma_split_product(a as int, b as int, a1 as int, a0 as int, b1 as int, b0 as int, pow2_64());
            lemma_product_below_pow2_256(a, b);
            assert(a * b == (p11 + p01 / TWO_POW_64 + p10 / TWO_POW_64 + cross / TWO_POW_64)
                * pow2_128() + low);
        }
        let high: u128 = p11 + p01 / TWO_POW_64 + p10 / TWO_POW_64 + cross / TWO_POW_64;
        U256 { high, low }
    }

    /// The largest value, `2^256 - 1`.
    pub fn max_value() -> (r: U256)
        ensures
            r@ == pow2_256() - 1,
    {
        U256 { high: u128::MAX, low: u128::MAX }
    }

    /// Whether `self < other`.
    pub fn lt(&self, other: &U256) -> (r: bool)
        ensures
            r == (self@ < other@),
    {
        self.high < other.high || (self.high == other.high && self.low < other.low)
    }

    /// Whether `self <= other`.
    pub fn le(&self, other: &U256) -> (r: bool)
        ensures
            r == (self@ <= other@),
    {
        self.high < other.high || (self.high == other.high && self.low <= other.low)
    }

    /// The sum, where it fits in 256 bits.
    pub fn add(self, rhs: U256) -> (r: U256)
        requires
            self@ + rhs@ < pow2_256(),
        ensures
            r@ == self@ + rhs@,
    {
        let high: u128 = self.high.checked_add(rhs.high).expect("arithmetic operation overflow");
        if rhs.low <= u128::MAX - self.low {
            U256 { high, low: self.low + rhs.low }
        } else {
            U256 {
                high: high.checked_add(1).expect("arithmetic operation overflow"),
                low: self.low - (u128::MAX - rhs.low) - 1,
            }
        }
    }

    /// The difference, where `rhs` is not larger than `self`.
    pub fn sub(self, rhs: U256) -> (r: U256)
        requires
            rhs@ <= self@,
        ensures
            r@ == self@ - rhs@,
    {
        let high: u128 = self.high.checked_sub(rhs.high).expect("arithmetic operation overflow");
        if rhs.low <= self.low {
            U256 { high, low: self.low - rhs.low }
        } else {
            U256 {
                high: high.checked_sub(1).expect("arithmetic operation overflow"),
                low: u128::MAX - (rhs.low - self.low) + 1,
            }
        }
    }

    /// Half of the number, rounded down.
    pub fn half(self) -> (r: U256)
        ensures
            r@ == self@ / 2,
    {
        U256 {
            high: self.high / 2,
            low: (self.high % 2) * 0x8000_0000_0000_0000_0000_0000_0000_0000 + self.low / 2,
        }
    }

    /// The number shifted right by 64 bits: `self / 2^64`.
    pub fn shr64(self) -> (r: U256)
        ensures
            r@ == self@ / (pow2_64() as nat),
    {
        let r = U256 {
            high: self.high / TWO_POW_64,
            low: (self.high % TWO_POW_64) * TWO_POW_64 + self.low / TWO_POW_64,
        };
        proof {
            lemma_fundamental_div_mod_converse(
                self@ as int,
                pow2_64(),
                r@ as int,
                (self.low % TWO_POW_64) as int,
            );
        }
        r
    }

    /// The number shifted right by 128 bits: `self / 2^128`.
    pub fn shr128(self) -> (r: U256)
        ensures
            r@ == self@ / (pow2_128() as nat),
            r@ == self.high,
    {
        proof {
            lemma_fundamental_div_mod_converse(
                self@ as int,
                pow2_128(),
                self.high as int,
                self.low as int,
            );
        }
        U256 { high: 0, low: self.high }
    }

    /// The number shifted left by 64 bits; bits that leave the top are lost.
    pub fn shl64(self) -> (r: U256)
        ensures
            r@ == (self@ * pow2_64()) % pow2_256(),
            self@ < pow2_192() ==> r@ == self@ * pow2_64(),
    {
        U256 {
            high: (self.high % TWO_POW_64) * TWO_POW_64 + self.low / TWO_POW_64,
            low: (self.low % TWO_POW_64) * TWO_POW_64,
        }
    }

    /// The product with a 128-bit number, or `None` where it needs more than 256 bits.
    pub fn checked_mul_u128(self, factor: u128) -> (r: Option<U256>)
        ensures
            match r {
                Some(product) => product@ == self@ * factor,
                None => self@ * factor >= pow2_256(),
            },
    {
        let upper = U256::mul_u128(self.high, factor);
        let lower = U256::mul_u128(self.low, factor);
        proof {
            lemma_scaled_sum_product(
                self.high as int,
                self.low as int,
                factor as int,
                pow2_128(),
            );
            assert(self@ * factor == upper@ * pow2_128() + lower@);
        }
        if upper.high != 0 {
            return None;
        }
        if lower.high > u128::MAX - upper.low {
            return None;
        }
        Some(U256 { high: upper.low + lower.high, low: lower.low })
    }

    /// The product, or `None` where it needs more than 256 bits.
    pub fn checked_mul(self, rhs: U256) -> (r: Option<U256>)
        ensures
            match r {
                Some(product) => product@ == self@ * rhs@,
                None => self@ * rhs@ >= pow2_256(),
            },
    {
        if rhs.high == 0 {
            self.checked_mul_u128(rhs.low)
        } else if self.high == 0 {
            proof {
                lemma_product_commutes(self@ as int, rhs@ as int);
            }
            rhs.checked_mul_u128(self.low)
        } else {
            proof {
                lemma_product_at_least(self@ as int, rhs@ as int, pow2_128(), pow2_128());
            }
            None
        }
    }

    /// The product, held at `2^256 - 1` where it needs more than 256 bits.
    pub fn saturating_mul(self, rhs: U256) -> (r: U256)
        ensures
            self@ * rhs@ < pow2_256() ==> r@ == self@ * rhs@,
            self@ * rhs@ >= pow2_256() ==> r@ == pow2_256() - 1,
    {
        match self.checked_mul(rhs) {
            Some(product) => product,
            None => U256::max_value(),
        }
    }

    /// Quotient and remainder of the division by a divisor that is not zero.
    pub fn div_mod(self, divisor: U256) -> (r: (U256, U256))
        requires
            divisor@ != 0,
        ensures
            r.0@ == self@ / divisor@,
            r.1@ == self@ % divisor@,
        decreases self@,
    {
        if divisor.high == 0 && divisor.low == 0 {
            return None.expect("division by zero");
        }
        if self.lt(&divisor) {
            proof {
                lemma_fundamental_div_mod_converse(self@ as int, divisor@ as int, 0, self@ as int);
            }
            return (U256::zero(), self);
        }
        let halved = self.half();
        let bit = U256::from_u128(self.low % 2);
        let (inner_quotient, inner_remainder) = halved.div_mod(divisor);
        proof {
            lemma_fundamental_div_mod(halved@ as int, divisor@ as int);
            lemma_division_step(
                self@ as int,
                divisor@ as int,
                inner_quotient@ as int,
                inner_remainder@ as int,
                bit@ as int,
            );
        }
        let gap = divisor.sub(inner_remainder);
        let with_bit = inner_remainder.add(bit);
        let doubled = inner_quotient.add(inner_quotient);
        if gap.le(&with_bit) {
            (doubled.add(U256::from_u128(1)), with_bit.sub(gap))
        } else {
            (doubled, with_bit.add(inner_remainder))
        }
    }

    /// The quotient of the division by a divisor that is not zero, rounded down.
    pub fn div(self, divisor: U256) -> (r: U256)
        requires
            divisor@ != 0,
        ensures
            r@ == self@ / divisor@,
    {
        self.div_mod(divisor).0
    }

    /// The number as 128 bits, or `None` where it is 2^128 or more.
    pub fn checked_as_u128(&self) -> (r: Option<u128>)
        ensures
            match r {
                Some(value) => value == self@,
                None => self@ >= pow2_128(),
            },
    {
        if self.high != 0 {
            return None;
        }
        Some(self.low)
    }

    /// The number as 64 bits, or `None` where it is 2^64 or more.
    pub fn checked_as_u64(&self) -> (r: Option<u64>)
        ensures
            match r {
                Some(value) => value == self@,
                None => self@ >= pow2_64(),
            },
    {
        if self.high != 0 || self.low > 0xffff_ffff_ffff_ffff {
            return None;
        }
        Some(self.low as u64)
    }

    /// The number as 128 bits, where it is below 2^128.
    pub fn as_u128(&self) -> (r: u128)
        requires
            self@ < pow2_128(),
        ensures
            r == self@,
    {
        self.checked_as_u128().expect("Integer overflow when casting to u128")
    }

    /// The number as 64 bits, where it is below 2^64.
    pub fn as_u64(&self) -> (r: u64)
        requires
            self@ < pow2_64(),
        ensures
            r == self@,
    {
        self.checked_as_u64().expect("Integer overflow when casting to u64")
    }
}

/// The product of two 64-bit halves fits in 128 bits.
proof fn lemma_half_product_fits(x: u128, y: u128)
    by (nonlinear_arith)
    requires
        x < 0x1_0000_0000_0000_0000,
        y < 0x1_0000_0000_0000_0000,
    ensures
        x * y <= 0xffff_ffff_ffff_fffe_0000_0000_0000_0001,
{
}

/// Schoolbook expansion of a product of two numbers split at `b`.
proof fn lemma_split_product(a: int, x: int, a1: int, a0: int, b1: int, b0: int, b: int)
    requires
        a == a1 * b + a0,
        x == b1 * b + b0,
    ensures
        a * x == (a1 * b1) * (b * b) + (a0 * b1) * b + (a1 * b0) * b + a0 * b0,
{
    let u = a1 * b;
    let v = b1 * b;
    assert(a * x == u * v + u * b0 + a0 * v + a0 * b0) by (nonlinear_arith)
        requires
            a == u + a0,
            x == v + b0,
    ;
    assert(u * v == (a1 * b1) * (b * b)) by (nonlinear_arith)
        requires
            u == a1 * b,
            v == b1 * b,
    ;
    assert(u * b0 == (a1 * b0) * b) by (nonlinear_arith)
        requires
            u == a1 * b,
    ;
    assert(a0 * v == (a0 * b1) * b) by (nonlinear_arith)
        requires
            v == b1 * b,
    ;
}

/// The product of two 128-bit numbers stays below 2^256.
proof fn lemma_product_below_pow2_256(a: u128, b: u128)
    by (nonlinear_arith)
    ensures
        0 <= a * b <= 0xffff_ffff_ffff_ffff_ffff_ffff_ffff_ffff * 0xffff_ffff_ffff_ffff_ffff_ffff_ffff_ffff,
{
}

/// `(h * w + l) * m` distributes over the two limbs.
proof fn lemma_scaled_sum_product(h: int, l: int, m: int, w: int)
    ensures
        (h * w + l) * m == (h * m) * w + l * m,
{
    assert((h * w + l) * m == (h * m) * w + l * m) by (nonlinear_arith);
}

/// Multiplication of integers commutes.
proof fn lemma_product_commutes(x: int, y: int)
    ensures
        x * y == y * x,
{
    assert(x * y == y * x) by (nonlinear_arith);
}

/// A product of numbers that reach `a` and `b` reaches `a * b`.
proof fn lemma_product_at_least(x: int, y: int, a: int, b: int)
    requires
        0 <= a <= x,
        0 <= b <= y,
    ensures
        a * b <= x * y,
{
    assert(a * b <= x * y) by (nonlinear_arith)
        requires
            0 <= a <= x,
            0 <= b <= y,
    ;
}

/// One step of binary long division: from quotient and remainder of `n / 2`
/// to those of `n`.
proof fn lemma_division_step(n: int, d: int, q: int, r: int, bit: int)
    requires
        0 < d,
        0 <= n,
        n / 2 == q * d + r,
        0 <= r < d,
        0 <= q,
        bit == n % 2,
    ensures
        2 * r + bit >= d ==> n / d == 2 * q + 1 && n % d == 2 * r + bit - d,
        2 * r + bit < d ==> n / d == 2 * q && n % d == 2 * r + bit,
        2 * q + 1 <= n || 2 * r + bit < d,
        2 * q <= n,
{
    assert(2 * (q * d) == (2 * q) * d) by (nonlinear_arith);
    assert((2 * q + 1) * d == (2 * q) * d + d) by (nonlinear_arith);
    assert(n == (2 * q) * d + 2 * r + bit);
    assert(q <= q * d) by (nonlinear_arith)
        requires
            0 <= q,
            1 <= d,
    ;
    if 2 * r + bit >= d {
        lemma_fundamental_div_mod_converse(n, d, 2 * q + 1, 2 * r + bit - d);
    } else {
        lemma_fundamental_div_mod_converse(n, d, 2 * q, 2 * r + bit);
    }
}

} // verus!
