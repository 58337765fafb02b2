//! Single-precision numbers by their bit pattern, and the integer readings of
//! them that the particle store and the rasteriser need.

use vstd::arithmetic::power2::{lemma2_to64, lemma_pow2_adds, lemma_pow2_strictly_increases, pow2};
use vstd::bits::{lemma_u64_shl_is_mul, lemma_u64_shr_is_div};
use vstd::prelude::*;

verus! {

/// Bit pattern of `0.0`.
pub const ZERO_BITS: u32 = 0x0000_0000;

/// Bit pattern of `1.0`.
pub const ONE_BITS: u32 = 0x3F80_0000;

/// Smallest pattern with the sign bit set (`-0.0`).
pub const SIGN_BIT: u32 = 0x8000_0000;

/// Pattern of negative infinity: the largest pattern of a negative number
/// that is not a NaN.
pub const NEG_INFINITY_BITS: u32 = 0xFF80_0000;

/// An IEEE-754 single-precision number, carried by its bit pattern: one sign
/// bit, eight exponent bits, twenty-three fraction bits.
#[derive(Clone, Copy, Debug, PartialEq, Eq)]
pub struct Scalar {
    pub bits: u32,
}

/// A pair of scalars: a position, a velocity or a force in the plane.
#[derive(Clone, Copy, Debug, PartialEq, Eq)]
pub struct Vec2 {
    pub x: Scalar,
    pub y: Scalar,
}

impl Scalar {
    /// The sign bit: set for negative numbers, for `-0.0` and for half of the NaNs.
    pub open spec fn sign(self) -> bool {
        self.bits >= SIGN_BIT
    }

    /// The biased exponent field, `0..=255`.
    pub open spec fn exponent(self) -> int {
        (self.bits as int / 0x80_0000) % 0x100
    }

    /// The fraction field, `0..2^23`.
    pub open spec fn fraction(self) -> int {
        self.bits as int % 0x80_0000
    }

    /// Not a number: the exponent field is all ones and the fraction is not zero.
    pub open spec fn is_nan(self) -> bool {
        self.exponent() == 255 && self.fraction() != 0
    }

    /// The integer `m` of the reading `|value| = m * 2^scale`. Infinity reads as
    /// `2^23 * 2^105`, which is beyond every integer type this crate converts to.
    pub open spec fn significand(self) -> int {
        if self.exponent() == 0 {
            self.fraction()
        } else {
            self.fraction() + 0x80_0000
        }
    }

    /// The power of two of the reading `|value| = significand * 2^scale`.
    pub open spec fn scale(self) -> int {
        if self.exponent() == 0 {
            -149
        } else {
            self.exponent() - 150
        }
    }

    /// The whole part of `|value|`.
    pub open spec fn whole(self) -> int {
        if self.scale() >= 0 {
            self.significand() * pow2(self.scale() as nat)
        } else {
            self.significand() / (pow2((-self.scale()) as nat) as int)
        }
    }

    /// The value rounded toward zero and saturated to the 64-bit signed range;
    /// a NaN reads as zero.
    pub open spec fn truncated(self) -> int {
        if self.is_nan() {
            0
        } else if self.sign() {
            if self.whole() >= 0x8000_0000_0000_0000 {
                -0x8000_0000_0000_0000
            } else {
                -self.whole()
            }
        } else {
            if self.whole() >= 0x8000_0000_0000_0000 {
                0x7FFF_FFFF_FFFF_FFFF
            } else {
                self.whole()
            }
        }
    }

    /// The value is strictly less than zero: it is negative, it is not a NaN,
    /// and it is not `-0.0`.
    pub open spec fn below_zero(self) -> bool {
        self.sign() && !self.is_nan() && self.significand() != 0
    }

    /// `255` times the value as single-precision arithmetic gives it (the exact
    /// product rounded to twenty-four significant bits, ties to even), then
    /// rounded toward zero and saturated to `0..=255`; a NaN reads as zero.
    ///
    /// Below `2^-8` the product is below one, and from `1.0` on it is `255` or
    /// more. In between, the product of the 24-bit significand with `255` has
    /// 31 or 32 bits, of which the lowest 7 or 8 are rounded away.
    pub open spec fn opacity(self) -> int {
        if self.is_nan() || self.sign() || self.exponent() < 119 {
            0
        } else if self.exponent() >= 127 {
            255
        } else {
            let product = 255 * self.significand();
            if product < 0x8000_0000 {
                round_half_even(product, 128) / (pow2((143 - self.exponent()) as nat) as int)
            } else {
                round_half_even(product, 256) / (pow2((142 - self.exponent()) as nat) as int)
            }
        }
    }

    /// The value is strictly greater than zero: it is positive, it is not a
    /// NaN, and it is not `0.0`. Positive infinity is above zero.
    pub open spec fn above_zero(self) -> bool {
        !self.sign() && !self.is_nan() && self.significand() != 0
    }

    /// The value is zero: `0.0` or `-0.0`.
    pub open spec fn zero(self) -> bool {
        self.exponent() == 0 && self.fraction() == 0
    }

    /// Wraps a bit pattern.
    pub fn from_bits(bits: u32) -> (r: Scalar)
        ensures
            r.bits == bits,
    {
        Scalar { bits }
    }

    /// The bit pattern.
    pub fn to_bits(self) -> (r: u32)
        ensures
            r == self.bits,
    {
        self.bits
    }

    /// Splits the pattern into exponent and fraction fields.
    fn fields(self) -> (r: (u32, u32))
        ensures
            r.0 == self.exponent(),
            r.1 == self.fraction(),
            r.0 < 256,
            r.1 < 0x80_0000,
    {
        let bits: u32 = self.bits;
        let e: u32 = (bits >> 23) & 0xff;
        let f: u32 = bits & 0x7f_ffff;
        assert(((bits >> 23) & 0xff) == (bits / 0x80_0000) % 0x100) by (bit_vector);
        assert((bits & 0x7f_ffff) == bits % 0x80_0000) by (bit_vector);
        (e, f)
    }

    /// Whether the value is zero, of either sign.
    pub fn is_zero(self) -> (r: bool)
        ensures
            r == self.zero(),
    {
        let (e, f) = self.fields();
        e == 0 && f == 0
    }

    /// Whether the value is strictly less than zero.
    pub fn is_below_zero(self) -> (r: bool)
        ensures
            r == self.below_zero(),
    {
        let (e, f) = self.fields();
        let bits: u32 = self.bits;
        assert(bits >= SIGN_BIT ==> ((bits > SIGN_BIT) <==> ((bits / 0x80_0000) % 0x100 != 0 || bits
            % 0x80_0000 != 0))) by (bit_vector);
        assert(bits >= SIGN_BIT ==> ((bits <= NEG_INFINITY_BITS) <==> !((bits / 0x80_0000) % 0x100
            == 255 && bits % 0x80_0000 != 0))) by (bit_vector);
        bits > SIGN_BIT && bits <= NEG_INFINITY_BITS
    }

    /// The value rounded toward zero, as a signed 64-bit integer: what the
    /// conversion of a single-precision number to `i64` gives. Values beyond the
    /// range give the nearest end of it, and a NaN gives zero.
    pub fn truncate(self) -> (r: i64)
        ensures
            r == self.truncated(),
    {
        let (e, f) = self.fields();
        let negative: bool = self.bits >= SIGN_BIT;
        if e == 255 && f != 0 {
            return 0;
        }
        if e < 127 {
            proof {
                lemma_small_is_zero(self);
            }
            return 0;
        }
        let sig: u64 = (f as u64) + 0x80_0000;
        if e >= 190 {
            proof {
                lemma_large_saturates(self);
            }
            if negative {
                return i64::MIN;
            } else {
                return i64::MAX;
            }
        }
        let mag: u64 = if e >= 150 {
            let k: u64 = (e - 150) as u64;
            proof {
                lemma_shift_bound(sig, k);
                lemma_u64_shl_is_mul(sig, k);
            }
            sig << k
        } else {
            let k: u64 = (150 - e) as u64;
            proof {
                lemma_u64_shr_is_div(sig, k);
                assert(sig >> k <= sig) by (bit_vector);
            }
            sig >> k
        };
        proof {
            if e >= 150 {
                lemma_shift_bound(sig, (e - 150) as u64);
            }
            assert(mag == self.whole());
            assert(mag < 0x8000_0000_0000_0000);
        }
        if negative {
            -(mag as i64)
        } else {
            mag as i64
        }
    }

    /// The opacity byte of a lifetime: `255` times the value in single
    /// precision, converted to a byte.
    pub fn to_opacity(self) -> (r: u8)
        ensures
            r == self.opacity(),
    {
        let (e, f) = self.fields();
        if (e == 255 && f != 0) || self.bits >= SIGN_BIT || e < 119 {
            return 0;
        }
        if e >= 127 {
            return 255;
        }
        let product: u64 = 255 * ((f as u64) + 0x80_0000);
        let (kept, shift): (u64, u64) = if product < 0x8000_0000 {
            (nearest_even(product, 128), (143 - e) as u64)
        } else {
            (nearest_even(product, 256), (142 - e) as u64)
        };
        proof {
            lemma_u64_shr_is_div(kept, shift);
            lemma2_to64();
            if shift > 16 {
                lemma_pow2_strictly_increases(16, shift as nat);
            }
            // 32 significant bits leave at most 255 * 2^16 after rounding; 31
            // leave at most 2^24, and are then shifted by one place more.
            let bound: int = if product < 0x8000_0000 { 0x200_0000 } else { 0x100_0000 };
            assert(kept < bound);
            assert(pow2(shift as nat) * 256 >= bound);
            assert(kept as int / (pow2(shift as nat) as int) <= 255) by (nonlinear_arith)
                requires
                    0 <= kept < bound,
                    pow2(shift as nat) * 256 >= bound,
                    pow2(shift as nat) > 0,
            ;
        }
        (kept >> shift) as u8
    }
}

/// `n / m` rounded to the nearest integer, a tie going to the even one.
pub open spec fn round_half_even(n: int, m: int) -> int {
    let q = n / m;
    let r = n % m;
    if 2 * r > m || (2 * r == m && q % 2 == 1) {
        q + 1
    } else {
        q
    }
}

/// `n / m` rounded to the nearest integer, a tie going to the even one.
fn nearest_even(n: u64, m: u64) -> (r: u64)
    requires
        0 < m <= 256,
        n < 0x1_0000_0000,
    ensures
        r == round_half_even(n as int, m as int),
        r * m <= n + m / 2,
{
    let q: u64 = n / m;
    let rest: u64 = n % m;
    assert(q * m + rest == n) by (nonlinear_arith)
        requires
            q == n / m,
            rest == n % m,
            m > 0,
    ;
    if 2 * rest > m || (2 * rest == m && q % 2 == 1) {
        assert((q + 1) * m == q * m + m) by (nonlinear_arith);
        q + 1
    } else {
        q
    }
}

/// A number below one has no whole part.
proof fn lemma_small_is_zero(s: Scalar)
    requires
        s.exponent() < 127,
    ensures
        s.whole() == 0,
{
    let k = (-s.scale()) as nat;
    assert(k >= 24);
    lemma2_to64();
    if k > 24 {
        lemma_pow2_strictly_increases(24, k);
    }
    assert(pow2(k) >= 0x100_0000);
    assert(0 <= s.significand() < 0x100_0000);
    assert(s.significand() / (pow2(k) as int) == 0) by (nonlinear_arith)
        requires
            0 <= s.significand() < 0x100_0000,
            pow2(k) >= 0x100_0000,
    ;
}

/// From `2^63` on, the whole part is beyond the signed 64-bit range.
proof fn lemma_large_saturates(s: Scalar)
    requires
        s.exponent() >= 190,
    ensures
        s.whole() >= 0x8000_0000_0000_0000,
{
    let k = s.scale() as nat;
    assert(k >= 40);
    lemma2_to64();
    lemma_pow2_adds(32, 8);
    if k > 40 {
        lemma_pow2_strictly_increases(40, k);
    }
    assert(pow2(k) >= 0x100_0000_0000);
    assert(s.significand() >= 0x80_0000);
    assert(s.significand() * pow2(k) >= 0x8000_0000_0000_0000) by (nonlinear_arith)
        requires
            s.significand() >= 0x80_0000,
            pow2(k) >= 0x100_0000_0000,
    ;
}

/// A 24-bit significand shifted left by fewer than forty places stays below `2^63`.
proof fn lemma_shift_bound(sig: u64, k: u64)
    requires
        sig < 0x100_0000,
        k < 40,
    ensures
        sig * pow2(k as nat) < 0x8000_0000_0000_0000,
{
    lemma2_to64();
    lemma_pow2_adds(32, 7);
    if k < 39 {
        lemma_pow2_strictly_increases(k as nat, 39);
    }
    assert(pow2(k as nat) <= 0x80_0000_0000);
    assert(sig * pow2(k as nat) < 0x8000_0000_0000_0000) by (nonlinear_arith)
        requires
            sig < 0x100_0000,
            pow2(k as nat) <= 0x80_0000_0000,
    ;
}

} // verus!
