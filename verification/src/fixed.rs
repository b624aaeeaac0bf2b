//! Fixed-point scalars.
//!
//! Every port value, parameter and sample in this crate is a [`Fixed`]: a signed
//! number with 32 integer bits and 32 fractional bits, held in an `i64`. Addition
//! and subtraction saturate at the ends of the range, so no operation on finite
//! inputs can fail; multiplication truncates toward zero and saturates.

use vstd::prelude::*;

verus! {

/// The raw encoding of `1.0`: two to the power of the number of fractional bits.
pub const ONE_RAW: i64 = 4294967296;

/// The largest raw encoding.
pub const MAX_RAW: i64 = 9223372036854775807;

/// The smallest raw encoding.
pub const MIN_RAW: i64 = -9223372036854775808;

/// Brings an integer into the range of raw encodings.
pub open spec fn clamp_raw(x: int) -> int {
    if x < MIN_RAW {
        MIN_RAW as int
    } else if x > MAX_RAW {
        MAX_RAW as int
    } else {
        x
    }
}

/// The quotient of `a` by a positive `b`, rounded toward zero.
pub open spec fn trunc_div(a: int, b: int) -> int
    recommends
        b > 0,
{
    if a >= 0 {
        a / b
    } else {
        -((-a) / b)
    }
}

/// The raw encoding of the saturating sum of two raw encodings.
pub open spec fn add_raw(a: int, b: int) -> int {
    clamp_raw(a + b)
}

/// The raw encoding of the saturating difference of two raw encodings.
pub open spec fn sub_raw(a: int, b: int) -> int {
    clamp_raw(a - b)
}

/// The raw encoding of the product of two raw encodings, rounded toward zero
/// and saturated.
pub open spec fn mul_raw(a: int, b: int) -> int {
    clamp_raw(trunc_div(a * b, ONE_RAW as int))
}

/// The raw encoding of `num / den`, rounded toward zero and saturated. A zero
/// denominator saturates in the direction of the numerator's sign.
pub open spec fn ratio_raw(num: int, den: int) -> int {
    if den == 0 {
        if num > 0 {
            MAX_RAW as int
        } else if num < 0 {
            MIN_RAW as int
        } else {
            0
        }
    } else if den > 0 {
        clamp_raw(trunc_div(num * ONE_RAW, den))
    } else {
        clamp_raw(trunc_div(-num * ONE_RAW, -den))
    }
}

/// `s` is the square root of `n`, rounded down: its square is at most `n`
/// and the square of the next number is more.
pub open spec fn is_root(n: nat, s: nat) -> bool {
    s * s <= n < (s + 1) * (s + 1)
}

/// The square root of `n`, rounded down.
pub open spec fn root(n: nat) -> nat {
    choose|s: nat| is_root(n, s)
}

/// The raw encoding of the square root of a raw encoding, rounded down; the
/// root of a negative number is taken to be zero.
pub open spec fn sqrt_raw(x: int) -> int {
    if x <= 0 {
        0
    } else {
        root((x * ONE_RAW) as nat) as int
    }
}

/// Only one number is the rounded-down square root of `n`.
pub proof fn lemma_root_unique(n: nat, s: nat)
    requires
        is_root(n, s),
    ensures
        root(n) == s,
{
    let r = root(n);
    assert(is_root(n, r));
    if r < s {
        assert((r + 1) * (r + 1) <= s * s) by (nonlinear_arith)
            requires
                r + 1 <= s,
        ;
    } else if s < r {
        assert((s + 1) * (s + 1) <= r * r) by (nonlinear_arith)
            requires
                s + 1 <= r,
        ;
    }
}

/// A signed fixed-point number with 32 fractional bits.
///
/// Its view is the raw encoding as a mathematical integer: the number it stands
/// for is the view divided by [`ONE_RAW`].
#[derive(Clone, Copy, PartialEq, Eq, Structural, Debug)]
pub struct Fixed {
    pub raw: i64,
}

impl View for Fixed {
    type V = int;

    open spec fn view(&self) -> int {
        self.raw as int
    }
}

impl Fixed {
    /// The scalar `0.0`.
    pub fn zero() -> (r: Fixed)
        ensures
            r@ == 0,
    {
        Fixed { raw: 0 }
    }

    /// The scalar `1.0`.
    pub fn one() -> (r: Fixed)
        ensures
            r@ == ONE_RAW,
    {
        Fixed { raw: ONE_RAW }
    }

    /// The scalar with the given raw encoding.
    pub fn from_raw(raw: i64) -> (r: Fixed)
        ensures
            r@ == raw,
    {
        Fixed { raw }
    }

    /// The whole number `n` as a scalar.
    pub fn from_int(n: i32) -> (r: Fixed)
        ensures
            r@ == n * ONE_RAW,
    {
        let wide: i64 = n as i64;
        Fixed { raw: wide * ONE_RAW }
    }

    /// The scalar nearest to `num / den` on the side of zero.
    pub fn from_ratio(num: i32, den: i32) -> (r: Fixed)
        ensures
            r@ == ratio_raw(num as int, den as int),
    {
        let n = Fixed { raw: num as i64 };
        let d = Fixed { raw: den as i64 };
        n.div(d)
    }

    /// The sum, saturated to the representable range.
    pub fn saturating_add(self, other: Fixed) -> (r: Fixed)
        ensures
            r@ == add_raw(self@, other@),
    {
        let wide: i128 = self.raw as i128 + other.raw as i128;
        Fixed { raw: saturate(wide) }
    }

    /// The difference, saturated to the representable range.
    pub fn saturating_sub(self, other: Fixed) -> (r: Fixed)
        ensures
            r@ == sub_raw(self@, other@),
    {
        let wide: i128 = self.raw as i128 - other.raw as i128;
        Fixed { raw: saturate(wide) }
    }

    /// The product, rounded toward zero and saturated.
    pub fn mul(self, other: Fixed) -> (r: Fixed)
        ensures
            r@ == mul_raw(self@, other@),
    {
        let a: i128 = self.raw as i128;
        let b: i128 = other.raw as i128;
        assert(-0x4000_0000_0000_0000_0000_0000_0000_0000 <= a * b
            <= 0x4000_0000_0000_0000_0000_0000_0000_0000) by (nonlinear_arith)
            requires
                -0x8000_0000_0000_0000 <= a <= 0x8000_0000_0000_0000,
                -0x8000_0000_0000_0000 <= b <= 0x8000_0000_0000_0000,
        ;
        let product: i128 = a * b;
        let q: i128 = div_toward_zero(product, ONE_RAW as i128);
        Fixed { raw: saturate(q) }
    }

    /// The quotient, rounded toward zero and saturated. Division by zero
    /// saturates in the direction of the dividend's sign.
    pub fn div(self, other: Fixed) -> (r: Fixed)
        ensures
            r@ == ratio_raw(self@, other@),
    {
        if other.raw == 0 {
            if self.raw > 0 {
                Fixed { raw: MAX_RAW }
            } else if self.raw < 0 {
                Fixed { raw: MIN_RAW }
            } else {
                Fixed { raw: 0 }
            }
        } else {
            let n: i128 = if other.raw > 0 { self.raw as i128 } else { -(self.raw as i128) };
            let d: i128 = if other.raw > 0 { other.raw as i128 } else { -(other.raw as i128) };
            assert(n * ONE_RAW == n * 4294967296);
            let scaled: i128 = n * (ONE_RAW as i128);
            let q: i128 = div_toward_zero(scaled, d);
            Fixed { raw: saturate(q) }
        }
    }

    /// The smaller of two scalars.
    pub fn min(self, other: Fixed) -> (r: Fixed)
        ensures
            r@ == (if self@ <= other@ {
                self@
            } else {
                other@
            }),
    {
        if self.raw <= other.raw {
            self
        } else {
            other
        }
    }

    /// The square root, rounded down; zero for a negative scalar.
    pub fn sqrt(self) -> (r: Fixed)
        ensures
            r@ == sqrt_raw(self@),
    {
        if self.raw <= 0 {
            return Fixed { raw: 0 };
        }
        let n: u128 = (self.raw as u128) * 4294967296u128;
        let mut low: u128 = 0;
        let mut high: u128 = 0x1_0000_0000_0000;
        assert(n < 0x1_0000_0000_0000 * 0x1_0000_0000_0000);
        while high - low > 1
            invariant
                low < high <= 0x1_0000_0000_0000,
                low * low <= n < high * high,
            decreases high - low,
        {
            let middle: u128 = low + (high - low) / 2;
            assert(middle * middle < 0x1_0000_0000_0000 * 0x1_0000_0000_0000) by (nonlinear_arith)
                requires
                    0 <= middle < 0x1_0000_0000_0000,
            ;
            if middle * middle <= n {
                low = middle;
            } else {
                high = middle;
            }
        }
        proof {
            lemma_root_unique(n as nat, low as nat);
        }
        Fixed { raw: low as i64 }
    }

    /// Whether the scalar is at least `1.0`.
    pub fn at_least_one(self) -> (r: bool)
        ensures
            r == (self@ >= ONE_RAW),
    {
        self.raw >= ONE_RAW
    }
}

/// Narrows a wide integer to a raw encoding, saturating at both ends.
fn saturate(x: i128) -> (r: i64)
    ensures
        r == clamp_raw(x as int),
{
    if x < MIN_RAW as i128 {
        MIN_RAW
    } else if x > MAX_RAW as i128 {
        MAX_RAW
    } else {
        x as i64
    }
}

/// Divides by a positive divisor, rounding toward zero.
pub(crate) fn div_toward_zero(a: i128, b: i128) -> (r: i128)
    requires
        b > 0,
        a > -0x7fff_ffff_ffff_ffff_ffff_ffff_ffff_ffff,
    ensures
        r == trunc_div(a as int, b as int),
{
    if a >= 0 {
        let ua: u128 = a as u128;
        let ub: u128 = b as u128;
        let q: u128 = ua / ub;
        q as i128
    } else {
        let ua: u128 = (-a) as u128;
        let ub: u128 = b as u128;
        let q: u128 = ua / ub;
        -(q as i128)
    }
}

} // verus!
