//! Single-precision numbers as the engine holds them.
//!
//! A [`Scalar`] is the 32-bit pattern of an IEEE 754 binary32 number. The
//! engine never computes with it: arithmetic is done by the host (see
//! `arith`). What the engine itself needs to know of a number, in order to
//! decide whether an operation is defined, is read off the bit pattern
//! here.

use vstd::prelude::*;
use vstd::arithmetic::div_mod::lemma_small_mod;
use vstd::arithmetic::power2::{lemma2_to64, lemma_pow2_strictly_increases, pow2};
use vstd::bits::{lemma_u32_pow2_no_overflow, lemma_u32_shl_is_mul};

verus! {

/// An IEEE 754 binary32 number, held as its bit pattern: one sign bit, eight
/// exponent bits and twenty-three fraction bits.
#[derive(Clone, Copy, Debug, PartialEq, Eq, Structural)]
pub struct Scalar {
    pub bits: u32,
}

impl Scalar {
    /// The sign bit: `true` for a pattern in the negative half.
    pub open spec fn sign(self) -> bool {
        self.bits / 0x8000_0000 == 1
    }

    /// The exponent field, `0..=255`.
    pub open spec fn exponent(self) -> nat {
        ((self.bits / 0x80_0000) % 0x100) as nat
    }

    /// The fraction field, `0..2^23`.
    pub open spec fn fraction(self) -> nat {
        (self.bits % 0x80_0000) as nat
    }

    /// Neither an infinity nor not-a-number: the exponent field is not all
    /// ones.
    pub open spec fn finite(self) -> bool {
        self.exponent() != 255
    }

    /// Not a number: the exponent field is all ones and the fraction is not
    /// zero.
    pub open spec fn nan(self) -> bool {
        self.exponent() == 255 && self.fraction() != 0
    }

    /// The whole number `m` of a finite value `±m × 2^scale`: the fraction
    /// field, with the implicit leading bit unless the number is subnormal.
    pub open spec fn significand(self) -> nat {
        if self.exponent() == 0 {
            self.fraction()
        } else {
            0x80_0000 + self.fraction()
        }
    }

    /// The power of two by which the significand of a finite value is
    /// scaled.
    pub open spec fn scale(self) -> int {
        if self.exponent() == 0 {
            -149
        } else {
            self.exponent() - 150
        }
    }

    /// Positive or negative zero.
    pub open spec fn zero_valued(self) -> bool {
        self.finite() && self.significand() == 0
    }

    /// Strictly less than zero. Not-a-number and negative zero are not.
    pub open spec fn negative(self) -> bool {
        self.sign() && !self.nan() && !self.zero_valued()
    }

    /// Less than or equal to zero. Not-a-number is not; both zeros are.
    pub open spec fn non_positive(self) -> bool {
        !self.nan() && (self.sign() || self.zero_valued())
    }

    /// A finite whole number: `m × 2^scale` is whole where the scale is not
    /// negative, or where `m` is a multiple of `2^-scale`.
    pub open spec fn integral(self) -> bool {
        self.finite() && (self.scale() >= 0 || self.significand() % pow2((-self.scale()) as nat)
            == 0)
    }

    /// Positive zero: all bits clear.
    pub open spec fn zero() -> Scalar {
        Scalar { bits: 0 }
    }

    /// One: a clear sign, an exponent field of `127` and a zero fraction.
    pub open spec fn one() -> Scalar {
        Scalar { bits: 0x3f80_0000 }
    }

    /// Wraps a bit pattern.
    pub fn from_bits(bits: u32) -> (r: Scalar)
        ensures
            r.bits == bits,
    {
        Scalar { bits }
    }

    /// The bit pattern.
    pub fn to_bits(self) -> (r: u32)
        ensures
            r == self.bits,
    {
        self.bits
    }

    /// Whether the value is positive or negative zero.
    pub fn is_zero(self) -> (r: bool)
        ensures
            r == self.zero_valued(),
    {
        let bits: u32 = self.bits;
        let magnitude: u32 = bits & 0x7fff_ffff;
        assert(magnitude == 0 <==> ((bits / 0x80_0000) % 0x100 == 0 && bits % 0x80_0000 == 0))
            by (bit_vector)
            requires
                magnitude == bits & 0x7fff_ffff,
        ;
        magnitude == 0
    }

    /// Whether the value is less than zero.
    pub fn is_negative(self) -> (r: bool)
        ensures
            r == self.negative(),
    {
        let bits: u32 = self.bits;
        assert((bits > 0x8000_0000) == (bits / 0x8000_0000 == 1 && !((bits / 0x80_0000) % 0x100 == 0
            && bits % 0x80_0000 == 0))) by (bit_vector);
        assert((bits & 0x7fff_ffff) > 0x7f80_0000 <==> ((bits / 0x80_0000) % 0x100 == 255 && bits
            % 0x80_0000 != 0)) by (bit_vector);
        bits > 0x8000_0000 && (bits & 0x7fff_ffff) <= 0x7f80_0000
    }

    /// Whether the value is less than or equal to zero.
    pub fn is_non_positive(self) -> (r: bool)
        ensures
            r == self.non_positive(),
    {
        let bits: u32 = self.bits;
        assert((bits >= 0x8000_0000 || bits == 0) == (bits / 0x8000_0000 == 1 || ((bits
            / 0x80_0000) % 0x100 == 0 && bits % 0x80_0000 == 0))) by (bit_vector);
        assert((bits & 0x7fff_ffff) > 0x7f80_0000 <==> ((bits / 0x80_0000) % 0x100 == 255 && bits
            % 0x80_0000 != 0)) by (bit_vector);
        (bits >= 0x8000_0000 || bits == 0) && (bits & 0x7fff_ffff) <= 0x7f80_0000
    }

    /// Whether the value has a fractional part that is not zero. This is so
    /// of every value that is not a finite whole number, not-a-number and
    /// the infinities included.
    pub fn has_fraction(self) -> (r: bool)
        ensures
            r == !self.integral(),
    {
        let bits: u32 = self.bits;
        let e: u32 = (bits >> 23) & 0xff;
        let f: u32 = bits & 0x7f_ffff;
        assert(e == (bits / 0x80_0000) % 0x100 && f == bits % 0x80_0000 && f < 0x80_0000)
            by (bit_vector)
            requires
                e == (bits >> 23) & 0xff,
                f == bits & 0x7f_ffff,
        ;
        proof {
            lemma2_to64();
        }
        if e == 255 {
            true
        } else if e >= 150 {
            false
        } else if e == 0 {
            proof {
                lemma_pow2_strictly_increases(23, 149);
                lemma_small_mod(f as nat, pow2(149));
            }
            f != 0
        } else if e < 127 {
            proof {
                let width = (150 - e) as nat;
                if width > 24 {
                    lemma_pow2_strictly_increases(24, width);
                }
                lemma_small_mod((0x80_0000 + f) as nat, pow2(width));
            }
            true
        } else {
            let width: u32 = 150 - e;
            proof {
                lemma_u32_pow2_no_overflow(width as nat);
                lemma_u32_shl_is_mul(1u32, width);
            }
            (0x80_0000 + f) % (1u32 << width) != 0
        }
    }
}

/// How the classes of a number go together: it is less than or equal to
/// zero exactly when it is less than zero or zero, never both; a zero is a
/// whole number; and not-a-number is in none of these classes.
pub proof fn lemma_classes(x: Scalar)
    ensures
        x.non_positive() <==> x.negative() || x.zero_valued(),
        !(x.negative() && x.zero_valued()),
        x.zero_valued() ==> x.integral(),
        x.nan() ==> !x.non_positive() && !x.integral() && !x.finite(),
{
    assert(0nat % pow2(149) == 0) by {
        lemma_pow2_strictly_increases(0, 149);
        lemma_small_mod(0, pow2(149));
    }
}

} // verus!
