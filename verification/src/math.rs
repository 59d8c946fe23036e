//! Scalars: IEEE-754 doubles held by their bit patterns, what number each
//! pattern stands for, and the comparisons and conversions that need no
//! arithmetic.

use vstd::prelude::*;
use vstd::arithmetic::power2::pow2;

verus! {

/// The sign bit of a double.
pub const SIGN_BIT: u64 = 0x8000_0000_0000_0000;

/// The bit pattern of positive infinity: every larger magnitude is a NaN.
pub const INFINITY_BITS: u64 = 0x7ff0_0000_0000_0000;

/// Two to the power of 52, the width of the fraction field: the lowest bit
/// of the exponent field, and the leading digit that a fraction leaves out.
pub const HIDDEN_BIT: u64 = 0x0010_0000_0000_0000;

/// The exponent field of the numbers from 1 up to 2.
pub const EXPONENT_BIAS: u64 = 1023;

/// The bit pattern of `0.0`.
pub const ZERO: u64 = 0;

/// The bit pattern of `1.0`.
pub const ONE: u64 = 0x3ff0_0000_0000_0000;

/// A double-precision number, held by its IEEE-754 bit pattern.
///
/// The library never does arithmetic on a `Real`: it compares, selects and
/// converts. Every double is a whole multiple of the smallest one, two to
/// the power of -1074, and `scaled` gives that multiple: the model in which
/// the contracts speak of a number.
#[derive(Clone, Copy, Debug)]
pub struct Real {
    pub bits: u64,
}

impl Real {
    /// The number with the given bit pattern.
    pub open spec fn of(bits: u64) -> Real {
        Real { bits }
    }

    /// The bit pattern without its sign bit.
    pub open spec fn magnitude(self) -> int {
        if self.bits >= SIGN_BIT {
            self.bits - SIGN_BIT
        } else {
            self.bits as int
        }
    }

    /// Whether the sign bit is set.
    pub open spec fn negative(self) -> bool {
        self.bits >= SIGN_BIT
    }

    /// Whether the value is a NaN: its magnitude lies beyond infinity's.
    pub open spec fn nan(self) -> bool {
        self.magnitude() > INFINITY_BITS
    }

    /// The exponent field.
    pub open spec fn exponent(self) -> int {
        self.magnitude() / (HIDDEN_BIT as int)
    }

    /// The fraction field.
    pub open spec fn fraction(self) -> int {
        self.magnitude() % (HIDDEN_BIT as int)
    }

    /// The size of the number, in units of two to the power of -1074. With
    /// the exponent field 0 it is the fraction; else the fraction, with its
    /// leading digit put back, times two to the power of the exponent less
    /// one. Infinity comes to lie beyond every finite number.
    pub open spec fn size(self) -> int {
        if self.exponent() == 0 {
            self.fraction()
        } else {
            (HIDDEN_BIT + self.fraction()) * pow2((self.exponent() - 1) as nat)
        }
    }

    /// The number, in units of two to the power of -1074. It says nothing
    /// of a NaN.
    pub open spec fn scaled(self) -> int {
        if self.negative() {
            -self.size()
        } else {
            self.size()
        }
    }

    /// The comparison `self < other` of IEEE-754: that of the two numbers,
    /// and false whenever a NaN takes part.
    pub open spec fn less(self, other: Real) -> bool {
        !self.nan() && !other.nan() && self.scaled() < other.scaled()
    }

    /// The whole part of the number, kept within the range of a byte, and 0
    /// for a NaN.
    pub open spec fn byte(self) -> int {
        let whole = self.scaled() / (pow2(1074) as int);
        if self.nan() || whole < 0 {
            0
        } else if whole > 255 {
            255
        } else {
            whole
        }
    }

    /// The number without its sign.
    pub open spec fn abs(self) -> Real {
        Real { bits: self.magnitude() as u64 }
    }

    /// The sizes of two numbers lie in the order of their magnitudes: a
    /// greater bit pattern stands for a greater number.
    pub proof fn lemma_size_order(self, other: Real)
        ensures
            0 <= self.size(),
            self.magnitude() < other.magnitude() ==> self.size() < other.size(),
            self.magnitude() == other.magnitude() ==> self.size() == other.size(),
            self.magnitude() == 0 <==> self.size() == 0,
    {
        let h = HIDDEN_BIT as int;
        let (ea, fa) = (self.exponent(), self.fraction());
        let (eb, fb) = (other.exponent(), other.fraction());
        vstd::arithmetic::div_mod::lemma_fundamental_div_mod(self.magnitude(), h);
        vstd::arithmetic::div_mod::lemma_fundamental_div_mod(other.magnitude(), h);
        vstd::arithmetic::div_mod::lemma_div_pos_is_pos(self.magnitude(), h);
        vstd::arithmetic::div_mod::lemma_div_pos_is_pos(other.magnitude(), h);
        assert(0 <= fa < h && 0 <= fb < h);
        Self::lemma_size_of_fields(ea, fa);
        Self::lemma_size_of_fields(eb, fb);
        if self.magnitude() < other.magnitude() {
            vstd::arithmetic::div_mod::lemma_div_is_ordered(
                self.magnitude(),
                other.magnitude(),
                h,
            );
            if ea == eb {
                assert(h * ea == h * eb);
                assert(fa < fb);
                if ea > 0 {
                    let p = pow2((ea - 1) as nat) as int;
                    vstd::arithmetic::power2::lemma_pow2_pos((ea - 1) as nat);
                    assert((h + fa) * p < (h + fb) * p) by (nonlinear_arith)
                        requires
                            fa < fb,
                            0 < p,
                    ;
                }
            } else {
                let q = pow2((eb - 1) as nat) as int;
                vstd::arithmetic::power2::lemma_pow2_pos((eb - 1) as nat);
                assert(h * q <= (h + fb) * q) by (nonlinear_arith)
                    requires
                        0 <= fb,
                        0 < q,
                ;
                if ea == 0 {
                    assert(h <= h * q) by (nonlinear_arith)
                        requires
                            0 < h,
                            1 <= q,
                    ;
                } else {
                    let p = pow2((ea - 1) as nat) as int;
                    vstd::arithmetic::power2::lemma_pow2_pos((ea - 1) as nat);
                    vstd::arithmetic::power2::lemma_pow2_unfold(ea as nat);
                    if ea < eb - 1 {
                        vstd::arithmetic::power2::lemma_pow2_strictly_increases(
                            ea as nat,
                            (eb - 1) as nat,
                        );
                    }
                    assert((h + fa) * p < h * q) by (nonlinear_arith)
                        requires
                            0 <= fa < h,
                            0 < p,
                            2 * p <= q,
                    ;
                }
            }
        }
        if self.magnitude() == 0 {
            assert(ea == 0 && fa == 0);
        } else {
            let zero = Real { bits: 0 };
            assert(zero.magnitude() == 0);
            assert(zero.exponent() == 0 && zero.fraction() == 0);
            if ea == 0 {
                assert(fa == self.magnitude());
            } else {
                let p = pow2((ea - 1) as nat) as int;
                vstd::arithmetic::power2::lemma_pow2_pos((ea - 1) as nat);
                assert(0 < (h + fa) * p) by (nonlinear_arith)
                    requires
                        0 <= fa,
                        0 < h,
                        0 < p,
                ;
            }
        }
    }

    /// The size that the two fields of a number give is not negative.
    proof fn lemma_size_of_fields(e: int, f: int)
        requires
            0 <= e,
            0 <= f,
        ensures
            0 <= (HIDDEN_BIT + f) * pow2((e - 1) as nat),
    {
        let p = pow2((e - 1) as nat) as int;
        assert(0 <= (HIDDEN_BIT + f) * p) by (nonlinear_arith)
            requires
                0 <= f,
                0 <= p,
        ;
    }

    /// The number with the given bit pattern.
    #[verifier::when_used_as_spec(of)]
    pub fn from_bits(bits: u64) -> (r: Real)
        ensures
            r == Real::of(bits),
    {
        Real { bits }
    }

    /// `self < other`.
    pub fn lt(self, other: Real) -> (r: bool)
        ensures
            r == self.less(other),
    {
        let a: u64 = self.bits;
        let b: u64 = other.bits;
        let ma: u64 = if a >= SIGN_BIT { a - SIGN_BIT } else { a };
        let mb: u64 = if b >= SIGN_BIT { b - SIGN_BIT } else { b };
        proof {
            self.lemma_size_order(other);
            other.lemma_size_order(self);
        }
        if ma > INFINITY_BITS || mb > INFINITY_BITS {
            false
        } else if a >= SIGN_BIT {
            if b >= SIGN_BIT {
                mb < ma
            } else {
                ma != 0 || mb != 0
            }
        } else {
            b < SIGN_BIT && ma < mb
        }
    }

    /// `self > other`.
    pub fn gt(self, other: Real) -> (r: bool)
        ensures
            r == other.less(self),
    {
        other.lt(self)
    }

    /// The number without its sign.
    pub fn to_abs(self) -> (r: Real)
        ensures
            r == self.abs(),
            r.nan() == self.nan(),
            r.scaled() == self.size(),
    {
        if self.bits >= SIGN_BIT {
            Real { bits: self.bits - SIGN_BIT }
        } else {
            self
        }
    }

    /// The number as a byte: its whole part, with what lies outside a
    /// byte's range taken to the nearest end of it, and a NaN to 0.
    pub fn to_byte(self) -> (b: u8)
        ensures
            b == self.byte(),
    {
        proof {
            self.lemma_size_order(self);
            vstd::arithmetic::power2::lemma_pow2_pos(1074);
        }
        if self.bits > INFINITY_BITS && self.bits < SIGN_BIT {
            return 0;
        }
        if self.bits >= SIGN_BIT {
            proof {
                let d = pow2(1074) as int;
                if !self.nan() {
                    assert(self.scaled() / d <= 0) by (nonlinear_arith)
                        requires
                            self.scaled() <= 0,
                            0 < d,
                    ;
                }
            }
            return 0;
        }
        let exponent: u64 = self.bits / HIDDEN_BIT;
        let significand: u64 = HIDDEN_BIT + self.bits % HIDDEN_BIT;
        proof {
            vstd::arithmetic::power2::lemma2_to64_rest();
            assert(pow2(52) == HIDDEN_BIT);
        }
        if exponent < EXPONENT_BIAS {
            proof {
                Self::lemma_below_one(exponent as int, significand as int - HIDDEN_BIT);
            }
            0
        } else if exponent > EXPONENT_BIAS + 7 {
            proof {
                Self::lemma_beyond_a_byte(exponent as int, significand as int - HIDDEN_BIT);
            }
            255
        } else {
            let shift: u64 = EXPONENT_BIAS + 52 - exponent;
            proof {
                let low = pow2((exponent - 1) as nat) as int;
                let high = pow2(shift as nat) as int;
                vstd::bits::lemma_u64_shr_is_div(significand, shift);
                vstd::arithmetic::power2::lemma_pow2_adds((exponent - 1) as nat, shift as nat);
                vstd::arithmetic::power2::lemma_pow2_pos((exponent - 1) as nat);
                vstd::arithmetic::power2::lemma_pow2_pos(shift as nat);
                vstd::arithmetic::div_mod::lemma_div_multiples_vanish_quotient(
                    low,
                    significand as int,
                    high,
                );
                assert(self.size() == significand * low);
                assert(significand * low == low * significand) by (nonlinear_arith);
                assert(pow2(45) <= pow2(shift as nat)) by {
                    if 45 < shift {
                        vstd::arithmetic::power2::lemma_pow2_strictly_increases(45, shift as nat);
                    }
                }
                assert(significand as int / high < 256) by (nonlinear_arith)
                    requires
                        0 <= significand < 256 * 0x2000_0000_0000,
                        0x2000_0000_0000 <= high,
                ;
                vstd::arithmetic::div_mod::lemma_div_pos_is_pos(significand as int, high);
            }
            (significand >> shift) as u8
        }
    }

    /// A number whose exponent field is below that of 1 has no whole part.
    proof fn lemma_below_one(e: int, f: int)
        requires
            0 <= e < EXPONENT_BIAS,
            0 <= f < HIDDEN_BIT,
            pow2(52) == HIDDEN_BIT,
        ensures
            e == 0 ==> f / (pow2(1074) as int) == 0,
            e > 0 ==> ((HIDDEN_BIT + f) * pow2((e - 1) as nat)) / (pow2(1074) as int) == 0,
    {
        let d = pow2(1074) as int;
        vstd::arithmetic::power2::lemma_pow2_strictly_increases(52, 1074);
        if e == 0 {
            vstd::arithmetic::div_mod::lemma_basic_div(f, d);
        } else {
            let p = pow2((e - 1) as nat) as int;
            vstd::arithmetic::power2::lemma_pow2_pos((e - 1) as nat);
            vstd::arithmetic::power2::lemma_pow2_unfold(e as nat);
            vstd::arithmetic::power2::lemma_pow2_adds(52, e as nat);
            if 52 + e < 1074 {
                vstd::arithmetic::power2::lemma_pow2_strictly_increases((52 + e) as nat, 1074);
            }
            let h = HIDDEN_BIT as int;
            assert(0 <= (h + f) * p && (h + f) * p < h * (2 * p)) by (nonlinear_arith)
                requires
                    0 <= f < h,
                    0 < p,
            ;
            vstd::arithmetic::div_mod::lemma_basic_div((h + f) * p, d);
        }
    }

    /// A number whose exponent field is beyond that of 255 has a whole part
    /// of 256 or more.
    proof fn lemma_beyond_a_byte(e: int, f: int)
        requires
            EXPONENT_BIAS + 7 < e,
            0 <= f < HIDDEN_BIT,
            pow2(52) == HIDDEN_BIT,
        ensures
            ((HIDDEN_BIT + f) * pow2((e - 1) as nat)) / (pow2(1074) as int) >= 256,
    {
        let d = pow2(1074) as int;
        let p = pow2((e - 1) as nat) as int;
        let h = HIDDEN_BIT as int;
        vstd::arithmetic::power2::lemma_pow2_pos(1074);
        vstd::arithmetic::power2::lemma2_to64();
        vstd::arithmetic::power2::lemma_pow2_adds(8, 1074);
        vstd::arithmetic::power2::lemma_pow2_adds(52, 1030);
        if 1030 < e - 1 {
            vstd::arithmetic::power2::lemma_pow2_strictly_increases(1030, (e - 1) as nat);
        }
        assert(256 * d <= (h + f) * p) by (nonlinear_arith)
            requires
                256 * d == h * pow2(1030),
                pow2(1030) <= p,
                0 <= f,
                0 < h,
        ;
        vstd::arithmetic::div_mod::lemma_div_by_multiple(256, d);
        vstd::arithmetic::div_mod::lemma_div_is_ordered(256 * d, (h + f) * p, d);
    }
}

/// What [`clamp`] returns.
pub open spec fn clamped(v: Real) -> Real {
    if v.less(Real::of(ZERO)) {
        Real::of(ZERO)
    } else if Real::of(ONE).less(v) {
        Real::of(ONE)
    } else {
        v
    }
}

/// Limits a number to the range from 0 to 1. A NaN is handed back as it is.
pub fn clamp(v: Real) -> (r: Real)
    ensures
        r == clamped(v),
        !v.nan() ==> Real::of(ZERO).scaled() <= r.scaled() <= Real::of(ONE).scaled(),
{
    proof {
        Real::of(ZERO).lemma_size_order(Real::of(ONE));
    }
    if v.lt(Real::from_bits(ZERO)) {
        Real::from_bits(ZERO)
    } else if v.gt(Real::from_bits(ONE)) {
        Real::from_bits(ONE)
    } else {
        v
    }
}

} // verus!
