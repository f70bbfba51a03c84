//! Values of the noise field.
//!
//! A value is kept as the bit pattern of its IEEE 754 binary64 encoding: one
//! sign bit, eleven bits of biased exponent, fifty-two bits of fraction. The
//! number that a pattern stands for is modelled exactly, as an integer multiple
//! of two to the power -1074, and the comparison of two values is proved to be
//! the comparison of those numbers.
use vstd::arithmetic::mul::*;
use vstd::arithmetic::power2::*;
use vstd::prelude::*;

verus! {

/// The sign bit of an encoding.
pub const SIGN_BIT: u64 = 0x8000_0000_0000_0000;

/// The encoding of positive infinity: every larger magnitude is not a number.
pub const INFINITY_BITS: u64 = 0x7FF0_0000_0000_0000;

/// The weight of the lowest exponent bit: two to the power 52.
pub const FRACTION_RANGE: u64 = 0x0010_0000_0000_0000;

/// One value of the noise field.
#[derive(Clone, Copy, Debug, PartialEq, Eq)]
pub struct NoiseValue {
    /// The binary64 encoding of the value.
    pub bits: u64,
}

impl NoiseValue {
    /// The encoding without its sign bit.
    pub open spec fn magnitude(self) -> int {
        if self.bits >= SIGN_BIT {
            self.bits - SIGN_BIT
        } else {
            self.bits as int
        }
    }

    /// The sign bit is set. This holds of negative zero too.
    pub open spec fn sign_negative(self) -> bool {
        self.bits >= SIGN_BIT
    }

    /// The encoding stands for no number.
    pub open spec fn spec_is_nan(self) -> bool {
        self.magnitude() > INFINITY_BITS
    }

    /// The biased exponent, from 0 to 2047.
    pub open spec fn biased_exponent(self) -> int {
        self.magnitude() / (FRACTION_RANGE as int)
    }

    /// The fraction bits.
    pub open spec fn fraction(self) -> int {
        self.magnitude() % (FRACTION_RANGE as int)
    }

    /// The absolute value of the number, in units of two to the power -1074.
    /// Infinity is given the place of two to the power 1024, above every finite
    /// value. Meaningful where the encoding is a number.
    pub open spec fn scaled_magnitude(self) -> int {
        if self.biased_exponent() == 0 {
            self.fraction()
        } else {
            (FRACTION_RANGE + self.fraction()) * pow2((self.biased_exponent() - 1) as nat)
        }
    }

    /// The number itself, in units of two to the power -1074. Both zeros are 0.
    pub open spec fn scaled_value(self) -> int {
        if self.sign_negative() {
            -self.scaled_magnitude()
        } else {
            self.scaled_magnitude()
        }
    }

    /// The value is a number and is strictly greater than `threshold`, which
    /// is a number too.
    pub open spec fn spec_exceeds(self, threshold: NoiseValue) -> bool {
        &&& !self.spec_is_nan()
        &&& !threshold.spec_is_nan()
        &&& self.scaled_value() > threshold.scaled_value()
    }

    /// The value whose encoding is `bits`.
    pub fn from_bits(bits: u64) -> (value: NoiseValue)
        ensures
            value.bits == bits,
    {
        NoiseValue { bits }
    }

    /// The encoding of the value.
    pub fn to_bits(&self) -> (bits: u64)
        ensures
            bits == self.bits,
    {
        self.bits
    }

    fn magnitude_bits(&self) -> (m: u64)
        ensures
            m == self.magnitude(),
    {
        if self.bits >= SIGN_BIT {
            self.bits - SIGN_BIT
        } else {
            self.bits
        }
    }

    /// Whether the encoding stands for no number.
    pub fn is_nan(&self) -> (nan: bool)
        ensures
            nan == self.spec_is_nan(),
    {
        self.magnitude_bits() > INFINITY_BITS
    }

    /// Whether the value is a number strictly greater than the number
    /// `threshold`. Nothing exceeds, and nothing is exceeded by, an encoding
    /// that is not a number; the two zeros do not exceed each other.
    pub fn exceeds(&self, threshold: &NoiseValue) -> (greater: bool)
        ensures
            greater == self.spec_exceeds(*threshold),
    {
        if self.is_nan() || threshold.is_nan() {
            return false;
        }
        let own: u64 = self.magnitude_bits();
        let other: u64 = threshold.magnitude_bits();
        proof {
            lemma_scaled_magnitude_order(*self, *threshold);
            lemma_scaled_magnitude_order(*threshold, *self);
            lemma_scaled_magnitude_zero(*self);
            lemma_scaled_magnitude_zero(*threshold);
        }
        if self.bits >= SIGN_BIT {
            if threshold.bits >= SIGN_BIT {
                own < other
            } else {
                false
            }
        } else {
            if threshold.bits >= SIGN_BIT {
                own > 0 || other > 0
            } else {
                own > other
            }
        }
    }
}

/// Among numbers, the scaled magnitude is zero for the two zeros only and
/// never negative.
pub proof fn lemma_scaled_magnitude_zero(a: NoiseValue)
    requires
        !a.spec_is_nan(),
    ensures
        a.scaled_magnitude() >= 0,
        a.scaled_magnitude() == 0 <==> a.magnitude() == 0,
{
    let e = a.biased_exponent();
    let f = a.fraction();
    if e != 0 {
        let p = pow2((e - 1) as nat);
        lemma_pow2_pos((e - 1) as nat);
        assert((FRACTION_RANGE + f) * p > 0) by (nonlinear_arith)
            requires
                FRACTION_RANGE + f > 0,
                p > 0,
        ;
    }
}

/// Among numbers, a smaller encoded magnitude is a smaller absolute value: the
/// encoding orders the numbers as they are ordered.
pub proof fn lemma_scaled_magnitude_order(a: NoiseValue, b: NoiseValue)
    requires
        !a.spec_is_nan(),
        !b.spec_is_nan(),
    ensures
        a.magnitude() < b.magnitude() ==> a.scaled_magnitude() < b.scaled_magnitude(),
        a.magnitude() == b.magnitude() ==> a.scaled_magnitude() == b.scaled_magnitude(),
{
    if a.magnitude() < b.magnitude() {
        let ea = a.biased_exponent();
        let eb = b.biased_exponent();
        let fa = a.fraction();
        let fb = b.fraction();
        let range = FRACTION_RANGE as int;
        assert(ea <= eb);
        if ea == eb {
            assert(fa < fb);
            if ea != 0 {
                let p = pow2((ea - 1) as nat);
                lemma_pow2_pos((ea - 1) as nat);
                lemma_mul_strict_inequality(range + fa, range + fb, p as int);
            }
        } else if ea == 0 {
            let p = pow2((eb - 1) as nat);
            lemma_pow2_pos((eb - 1) as nat);
            assert((range + fb) * p >= range) by (nonlinear_arith)
                requires
                    range > 0,
                    fb >= 0,
                    p >= 1,
            ;
        } else {
            let pa = pow2((ea - 1) as nat);
            let pb = pow2((eb - 1) as nat);
            lemma_pow2_pos((ea - 1) as nat);
            lemma_pow2_unfold(ea as nat);
            assert(pow2(ea as nat) == 2 * pa);
            if ea < eb - 1 {
                lemma_pow2_strictly_increases(ea as nat, (eb - 1) as nat);
            }
            assert(2 * pa <= pb);
            assert((range + fa) * pa < (range + fb) * pb) by (nonlinear_arith)
                requires
                    0 <= fa < range,
                    0 <= fb,
                    0 < pa,
                    2 * pa <= pb,
            ;
        }
    }
}

/// The comparison that `exceeds` makes is the comparison of the two numbers:
/// for encodings of numbers, one exceeds the other exactly if its scaled value
/// is the greater one, and that is decided by sign and encoded magnitude alone.
pub proof fn lemma_exceeds_by_encoding(v: NoiseValue, t: NoiseValue)
    requires
        !v.spec_is_nan(),
        !t.spec_is_nan(),
    ensures
        v.spec_exceeds(t) <==> if v.sign_negative() {
            t.sign_negative() && v.magnitude() < t.magnitude()
        } else if t.sign_negative() {
            v.magnitude() > 0 || t.magnitude() > 0
        } else {
            v.magnitude() > t.magnitude()
        },
{
    lemma_scaled_magnitude_order(v, t);
    lemma_scaled_magnitude_order(t, v);
    lemma_scaled_magnitude_zero(v);
    lemma_scaled_magnitude_zero(t);
}

} // verus!
