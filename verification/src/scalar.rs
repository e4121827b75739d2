//! Single-precision numbers as 32-bit words: their value, their order and
//! their integer part.

use vstd::arithmetic::div_mod::{
    lemma_basic_div, lemma_div_multiples_vanish, lemma_div_multiples_vanish_quotient,
};
use vstd::arithmetic::power2::{
    lemma2_to64, lemma_pow2_adds, lemma_pow2_pos, lemma_pow2_strictly_increases,
    lemma_pow2_unfold, pow2,
};
use vstd::bits::{lemma_u32_shl_is_mul, lemma_u32_shr_is_div};
use vstd::prelude::*;

verus! {

/// The word of positive infinity.
pub const INFINITY_BITS: u32 = 0x7F80_0000;

/// A single-precision number, held as its IEEE 754 binary32 word: one sign
/// bit, eight exponent bits, twenty-three fraction bits.
///
/// `==` on two scalars compares the words. It is not the numeric equality:
/// the two zeros differ as words, and a NaN equals itself.
#[derive(Clone, Copy, Debug, PartialEq, Eq, Structural)]
pub struct Scalar {
    pub bits: u32,
}

/// The value, in units of 2^-149, that a word without its sign bit encodes.
///
/// Every finite single-precision number is a whole multiple of 2^-149, the
/// smallest positive one, so this is an exact integer. With no exponent bit
/// set the word is subnormal and the fraction is the count itself; otherwise
/// the fraction gets the hidden leading bit and is scaled by the exponent.
pub open spec fn magnitude_quanta(m: nat) -> nat {
    let exponent = m / 0x80_0000;
    let fraction = m % 0x80_0000;
    if exponent == 0 {
        fraction
    } else {
        (0x80_0000 + fraction) * pow2((exponent - 1) as nat)
    }
}

/// Clears the sign bit of a word.
fn without_sign(bits: u32) -> (m: u32)
    ensures
        m == bits % 0x8000_0000,
{
    assert(bits & 0x7FFF_FFFF == bits % 0x8000_0000) by (bit_vector);
    bits & 0x7FFF_FFFF
}

impl Scalar {
    /// Whether the sign bit is set.
    pub open spec fn is_negative(self) -> bool {
        self.bits >= 0x8000_0000
    }

    /// The word without its sign bit.
    pub open spec fn magnitude(self) -> nat {
        (self.bits % 0x8000_0000) as nat
    }

    /// Whether the word encodes no number at all: every exponent bit is set
    /// and some fraction bit with them.
    pub open spec fn spec_is_nan(self) -> bool {
        self.magnitude() > 0x7F80_0000
    }

    /// Whether the word encodes no number at all.
    #[verifier::when_used_as_spec(spec_is_nan)]
    pub fn is_nan(self) -> (r: bool)
        ensures
            r == self.spec_is_nan(),
    {
        without_sign(self.bits) > INFINITY_BITS
    }

    /// The value in units of 2^-149.
    ///
    /// An infinity counts as the power of two that follows the largest
    /// finite magnitude, which keeps it beyond every finite value. A NaN has
    /// no value: what this gives for one means nothing, and every statement
    /// made through it asks `is_nan` first.
    pub open spec fn quanta(self) -> int {
        if self.is_negative() {
            -(magnitude_quanta(self.magnitude()) as int)
        } else {
            magnitude_quanta(self.magnitude()) as int
        }
    }

    /// The number that a word encodes.
    pub fn from_bits(bits: u32) -> (s: Scalar)
        ensures
            s.bits == bits,
    {
        Scalar { bits }
    }

    /// The word that encodes the number.
    pub fn to_bits(self) -> (bits: u32)
        ensures
            bits == self.bits,
    {
        self.bits
    }

    /// The numeric `<`: false as soon as either side is a NaN, and on the
    /// two zeros, which are one value.
    pub open spec fn spec_lt(self, other: Scalar) -> bool {
        !self.is_nan() && !other.is_nan() && self.quanta() < other.quanta()
    }

    /// The numeric `>`.
    pub open spec fn spec_gt(self, other: Scalar) -> bool {
        other.spec_lt(self)
    }

    /// Compares two numbers by their words alone.
    #[verifier::when_used_as_spec(spec_lt)]
    pub fn lt(self, other: Scalar) -> (r: bool)
        ensures
            r == self.spec_lt(other),
    {
        let a: u32 = without_sign(self.bits);
        let b: u32 = without_sign(other.bits);
        if a > INFINITY_BITS || b > INFINITY_BITS {
            return false;
        }
        proof {
            lemma_lt_by_words(self, other);
        }
        let a_negative: bool = self.bits >= 0x8000_0000;
        let b_negative: bool = other.bits >= 0x8000_0000;
        if a_negative {
            if b_negative {
                b < a
            } else {
                a != 0 || b != 0
            }
        } else {
            !b_negative && a < b
        }
    }

    /// Compares the other way round.
    #[verifier::when_used_as_spec(spec_gt)]
    pub fn gt(self, other: Scalar) -> (r: bool)
        ensures
            r == self.spec_gt(other),
    {
        other.lt(self)
    }

    /// The magnitude without what lies behind the binary point.
    pub open spec fn whole_part(self) -> nat {
        magnitude_quanta(self.magnitude()) / pow2(149)
    }

    /// What the numeric cast to `u32` makes of the number: a NaN and every
    /// negative number give 0, a number of 2^32 or more gives the greatest
    /// `u32`, and any other loses what lies behind the binary point.
    pub open spec fn spec_to_u32(self) -> u32 {
        if self.is_nan() || self.is_negative() {
            0
        } else if self.whole_part() > u32::MAX {
            u32::MAX
        } else {
            self.whole_part() as u32
        }
    }

    /// What the numeric cast to `u8` makes of the number: as to `u32`, with
    /// 255 as the greatest.
    pub open spec fn spec_to_u8(self) -> u8 {
        if self.spec_to_u32() > u8::MAX {
            u8::MAX
        } else {
            self.spec_to_u32() as u8
        }
    }

    /// Truncates to a `u32`, saturating at both ends.
    #[verifier::when_used_as_spec(spec_to_u32)]
    pub fn to_u32(self) -> (n: u32)
        ensures
            n == self.spec_to_u32(),
    {
        let m: u32 = without_sign(self.bits);
        if self.bits >= 0x8000_0000 || m > INFINITY_BITS {
            return 0;
        }
        let exponent: u32 = m >> 23;
        let fraction: u32 = m & 0x7F_FFFF;
        assert(m >> 23 == m / 0x80_0000) by (bit_vector);
        assert(m & 0x7F_FFFF == m % 0x80_0000) by (bit_vector);
        proof {
            lemma_whole_part(m as nat);
            lemma2_to64();
        }
        if exponent < 127 {
            0
        } else if exponent >= 159 {
            proof {
                let p = pow2((exponent - 150) as nat);
                if exponent > 159 {
                    lemma_pow2_strictly_increases(9, (exponent - 150) as nat);
                }
                assert((0x80_0000 + fraction) * p >= 0x1_0000_0000) by (nonlinear_arith)
                    requires
                        p >= 0x200,
                        fraction >= 0,
                ;
            }
            u32::MAX
        } else {
            let significand: u32 = 0x80_0000 + fraction;
            if exponent >= 150 {
                let shift: u32 = exponent - 150;
                proof {
                    let p = pow2(shift as nat);
                    if shift < 8 {
                        lemma_pow2_strictly_increases(shift as nat, 8);
                    }
                    assert(significand * p < 0x1_0000_0000) by (nonlinear_arith)
                        requires
                            significand < 0x100_0000,
                            0 <= p <= 0x100,
                    ;
                    lemma_u32_shl_is_mul(significand, shift);
                }
                significand << shift
            } else {
                let shift: u32 = 150 - exponent;
                proof {
                    lemma_u32_shr_is_div(significand, shift);
                }
                significand >> shift
            }
        }
    }

    /// Truncates to a `u8`, saturating at both ends.
    #[verifier::when_used_as_spec(spec_to_u8)]
    pub fn to_u8(self) -> (n: u8)
        ensures
            n == self.spec_to_u8(),
    {
        let wide: u32 = self.to_u32();
        if wide > 255 {
            255
        } else {
            wide as u8
        }
    }
}

/// The numeric `<` read off the two words: of two numbers that are not
/// negative the one with the smaller word is the smaller, of two negative
/// ones the one with the greater word, a negative one is below any other
/// unless both are zero, and a NaN is below nothing and above nothing.
pub proof fn lemma_lt_by_words(a: Scalar, b: Scalar)
    ensures
        a.spec_lt(b) <==> {
            &&& !a.is_nan()
            &&& !b.is_nan()
            &&& if a.is_negative() {
                if b.is_negative() {
                    b.magnitude() < a.magnitude()
                } else {
                    a.magnitude() != 0 || b.magnitude() != 0
                }
            } else {
                !b.is_negative() && a.magnitude() < b.magnitude()
            }
        },
{
    lemma_magnitude_order(a.magnitude(), b.magnitude());
    lemma_magnitude_order(b.magnitude(), a.magnitude());
    lemma_magnitude_order(0, a.magnitude());
    lemma_magnitude_order(0, b.magnitude());
}

/// The words without sign are ordered as the values they encode: a greater
/// word is a greater magnitude, and the other way round.
pub proof fn lemma_magnitude_order(a: nat, b: nat)
    ensures
        a < b <==> magnitude_quanta(a) < magnitude_quanta(b),
        a == b <==> magnitude_quanta(a) == magnitude_quanta(b),
{
    if a < b {
        lemma_magnitude_increases(a, b);
    } else if b < a {
        lemma_magnitude_increases(b, a);
    }
}

proof fn lemma_magnitude_increases(a: nat, b: nat)
    requires
        a < b,
    ensures
        magnitude_quanta(a) < magnitude_quanta(b),
{
    let ea = a / 0x80_0000;
    let fa = a % 0x80_0000;
    let eb = b / 0x80_0000;
    let fb = b % 0x80_0000;
    assert(ea <= eb);
    if ea == eb {
        assert(fa < fb);
        if ea > 0 {
            let p = pow2((ea - 1) as nat);
            lemma_pow2_pos((ea - 1) as nat);
            assert((0x80_0000 + fa) * p < (0x80_0000 + fb) * p) by (nonlinear_arith)
                requires
                    fa < fb,
                    p > 0,
            ;
        }
    } else {
        // Below the next power of two, which the greater exponent reaches.
        let pb = pow2((eb - 1) as nat);
        let bound = 0x80_0000 * pow2(ea);
        assert(magnitude_quanta(a) < bound) by {
            if ea == 0 {
                lemma2_to64();
            } else {
                let pa = pow2((ea - 1) as nat);
                lemma_pow2_unfold(ea);
                lemma_pow2_pos((ea - 1) as nat);
                assert((0x80_0000 + fa) * pa < 0x80_0000 * (2 * pa)) by (nonlinear_arith)
                    requires
                        fa < 0x80_0000,
                        pa > 0,
                ;
            }
        }
        assert(pow2(ea) <= pb) by {
            if ea < eb - 1 {
                lemma_pow2_strictly_increases(ea, (eb - 1) as nat);
            }
        }
        assert(bound <= (0x80_0000 + fb) * pb) by (nonlinear_arith)
            requires
                bound == 0x80_0000 * pow2(ea),
                pow2(ea) <= pb,
                fb >= 0,
        ;
    }
}

/// The integer part of a magnitude, from the exponent and the significand:
/// nothing below exponent 127, the significand shifted right up to 150, and
/// shifted left from there on.
pub proof fn lemma_whole_part(m: nat)
    requires
        m <= 0x7F80_0000,
    ensures
        ({
            let e = m / 0x80_0000;
            let significand = 0x80_0000 + m % 0x80_0000;
            let whole = magnitude_quanta(m) / pow2(149);
            &&& e < 127 ==> whole == 0
            &&& 127 <= e < 150 ==> whole == significand / pow2((150 - e) as nat)
            &&& 150 <= e ==> whole == significand * pow2((e - 150) as nat)
        }),
{
    let e = m / 0x80_0000;
    let significand = 0x80_0000 + m % 0x80_0000;
    let q = magnitude_quanta(m);
    lemma2_to64();
    lemma_pow2_pos(149);
    if e == 0 {
        lemma_pow2_strictly_increases(23, 149);
        lemma_basic_div(q as int, pow2(149) as int);
    } else if e < 127 {
        let p = pow2((e - 1) as nat);
        lemma_pow2_pos((e - 1) as nat);
        if e - 1 < 125 {
            lemma_pow2_strictly_increases((e - 1) as nat, 125);
        }
        lemma_pow2_adds(24, 125);
        assert(significand * p < pow2(24) * pow2(125)) by (nonlinear_arith)
            requires
                significand < pow2(24),
                0 < p <= pow2(125),
        ;
        lemma_basic_div(q as int, pow2(149) as int);
    } else if e < 150 {
        let p = pow2((e - 1) as nat);
        let rest = pow2((150 - e) as nat);
        lemma_pow2_pos((e - 1) as nat);
        lemma_pow2_pos((150 - e) as nat);
        lemma_pow2_adds((e - 1) as nat, (150 - e) as nat);
        lemma_div_multiples_vanish_quotient(p as int, significand as int, rest as int);
        assert(significand * p == p * significand) by (nonlinear_arith);
    } else {
        let p = pow2((e - 150) as nat);
        lemma_pow2_adds((e - 150) as nat, 149);
        assert(q == pow2(149) * (significand * p)) by (nonlinear_arith)
            requires
                q == significand * (p * pow2(149)),
        ;
        lemma_div_multiples_vanish((significand * p) as int, pow2(149) as int);
    }
}

} // verus!
