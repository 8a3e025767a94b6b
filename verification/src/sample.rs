//! Samples: the scalars that flow through a graph.
//!
//! A sample is an IEEE-754 binary64 number, held as its 64-bit pattern. What
//! can be decided from the pattern alone (ordering, sign, exact small
//! integers) is done here with integer arithmetic; everything that rounds is
//! left to an [`Arithmetic`](crate::arithmetic::Arithmetic) unit.

use vstd::prelude::*;
use vstd::arithmetic::div_mod::lemma_fundamental_div_mod_converse;
use vstd::arithmetic::power2::{
    lemma2_to64, lemma2_to64_rest, lemma_pow2_adds, lemma_pow2_pos, lemma_pow2_strictly_increases,
    lemma_pow2_unfold, pow2,
};

verus! {

/// The sign bit of a pattern.
pub const SIGN_BIT: u64 = 0x8000_0000_0000_0000;

/// The lowest exponent bit; as a significand, the implicit leading one.
pub const HIDDEN_BIT: u64 = 0x0010_0000_0000_0000;

/// The pattern of positive infinity; every larger magnitude is a NaN.
pub const INFINITY: u64 = 0x7FF0_0000_0000_0000;

/// The pattern of the largest finite sample.
pub const LARGEST: u64 = 0x7FEF_FFFF_FFFF_FFFF;

/// The pattern of the lowest finite sample.
pub const LOWEST: u64 = 0xFFEF_FFFF_FFFF_FFFF;

/// The pattern of the NaN that comes of zero times infinity here.
pub const NAN: u64 = 0x7FF8_0000_0000_0000;

/// The pattern of `1`.
pub const ONE: u64 = 0x3FF0_0000_0000_0000;

/// The pattern of `-1`.
pub const MINUS_ONE: u64 = 0xBFF0_0000_0000_0000;

/// The pattern of `2`.
pub const TWO: u64 = 0x4000_0000_0000_0000;

/// The pattern of the sample nearest to the circle constant.
pub const PI: u64 = 0x4009_21FB_5444_2D18;

/// The largest count up to which every count is a sample: `2^53`.
pub const COUNT_LIMIT: u64 = 0x0020_0000_0000_0000;

/// One scalar of the signal: a binary64 number by its bit pattern.
#[derive(Clone, Copy, PartialEq, Eq, Structural, Debug)]
pub struct Sample {
    pub bits: u64,
}

impl Sample {
    /// Whether the sign bit is set. Holds of `-0` and of some NaNs too.
    pub open spec fn is_negative(self) -> bool {
        self.bits >= SIGN_BIT
    }

    /// The pattern without its sign bit.
    pub open spec fn magnitude(self) -> nat {
        if self.bits >= SIGN_BIT {
            (self.bits - SIGN_BIT) as nat
        } else {
            self.bits as nat
        }
    }

    /// Whether the sample is not a number.
    pub open spec fn is_nan(self) -> bool {
        self.magnitude() > INFINITY
    }

    /// Whether the sample is a number other than the two infinities.
    pub open spec fn is_finite(self) -> bool {
        self.magnitude() < INFINITY
    }

    /// Whether the sample is `0` or `-0`.
    pub open spec fn is_zero(self) -> bool {
        self.magnitude() == 0
    }

    /// The place of a number among all numbers: `a` is below `b` exactly when
    /// `a.rank() < b.rank()`, with `-0` just below `0`. Distinct numbers have
    /// distinct ranks. It orders nothing where a NaN is involved.
    pub open spec fn rank(self) -> int {
        if self.is_negative() {
            -self.magnitude() - 1
        } else {
            self.magnitude() as int
        }
    }

    /// The integer `m` in the reading of a finite sample as `± m · 2^e`.
    pub open spec fn significand(self) -> nat {
        if self.magnitude() < HIDDEN_BIT {
            self.magnitude()
        } else {
            (HIDDEN_BIT + self.magnitude() % (HIDDEN_BIT as nat)) as nat
        }
    }

    /// The integer `e` in the reading of a finite sample as `± m · 2^e`.
    pub open spec fn exponent(self) -> int {
        if self.magnitude() < HIDDEN_BIT {
            -1074
        } else {
            self.magnitude() / (HIDDEN_BIT as nat) - 1075
        }
    }

    /// The numerator `n` in the reading of a finite sample as `± n / 2^1074`,
    /// in which the step between neighbouring samples is never less than one.
    pub open spec fn scaled(self) -> nat {
        self.significand() * pow2((self.exponent() + 1074) as nat)
    }

    /// The numerator of a finite sample with its sign.
    pub open spec fn signed(self) -> int {
        if self.is_negative() {
            -(self.scaled() as int)
        } else {
            self.scaled() as int
        }
    }

    /// Whether the sample is exactly the count `k`: finite, with a clear sign
    /// bit, and `n / 2^1074 = k`.
    pub open spec fn is_count(self, k: nat) -> bool {
        &&& !self.is_negative()
        &&& self.is_finite()
        &&& self.scaled() == k * pow2(1074)
    }

    /// The lesser of two samples, where a NaN gives way to the other one.
    pub open spec fn lesser(self, other: Sample) -> Sample {
        if self.is_nan() {
            other
        } else if other.is_nan() {
            self
        } else if other.rank() < self.rank() {
            other
        } else {
            self
        }
    }

    /// The greater of two samples, where a NaN gives way to the other one.
    pub open spec fn greater(self, other: Sample) -> Sample {
        if self.is_nan() {
            other
        } else if other.is_nan() {
            self
        } else if self.rank() < other.rank() {
            other
        } else {
            self
        }
    }

    /// The sign of a sample as a sample: `1` above zero, `-1` below it, and
    /// the sample itself where it is a zero or a NaN.
    pub open spec fn sign(self) -> Sample {
        if self.is_nan() || self.is_zero() {
            self
        } else if self.is_negative() {
            Sample { bits: MINUS_ONE }
        } else {
            Sample { bits: ONE }
        }
    }

    /// The sample with the opposite sign bit.
    pub open spec fn negated(self) -> Sample {
        Sample {
            bits: if self.bits >= SIGN_BIT {
                (self.bits - SIGN_BIT) as u64
            } else {
                (self.bits + SIGN_BIT) as u64
            },
        }
    }

    /// The product of a sample and the sign of `other`. No rounding is in
    /// it: times `1` a sample is itself, times `-1` its opposite, times a
    /// zero a zero (of infinity, a NaN), and a NaN on either side prevails.
    pub open spec fn times_sign(self, other: Sample) -> Sample {
        let sign = other.sign();
        if sign.is_nan() {
            sign
        } else if self.is_nan() {
            self
        } else if sign.is_zero() {
            if !self.is_finite() {
                Sample { bits: NAN }
            } else if self.is_negative() != sign.is_negative() {
                Sample { bits: SIGN_BIT }
            } else {
                Sample { bits: 0 }
            }
        } else if sign.is_negative() {
            self.negated()
        } else {
            self
        }
    }

    /// The sample with the given bit pattern.
    pub fn from_bits(bits: u64) -> (r: Sample)
        ensures
            r.bits == bits,
    {
        Sample { bits }
    }

    /// The bit pattern of the sample.
    pub fn to_bits(self) -> (r: u64)
        ensures
            r == self.bits,
    {
        self.bits
    }

    fn magnitude_bits(self) -> (r: u64)
        ensures
            r == self.magnitude(),
    {
        if self.bits >= SIGN_BIT {
            self.bits - SIGN_BIT
        } else {
            self.bits
        }
    }

    /// Whether `self` stands strictly below `other`; meant for two numbers.
    fn below(self, other: Sample) -> (r: bool)
        ensures
            r == (self.rank() < other.rank()),
    {
        if self.bits >= SIGN_BIT {
            other.bits < SIGN_BIT || self.magnitude_bits() > other.magnitude_bits()
        } else {
            other.bits < SIGN_BIT && self.bits < other.bits
        }
    }

    /// The lesser of `self` and `other`. If one of them is a NaN, the result
    /// is the other one.
    pub fn min(self, other: Sample) -> (r: Sample)
        ensures
            r == self.lesser(other),
    {
        if self.magnitude_bits() > INFINITY {
            other
        } else if other.magnitude_bits() > INFINITY {
            self
        } else if other.below(self) {
            other
        } else {
            self
        }
    }

    /// The greater of `self` and `other`. If one of them is a NaN, the result
    /// is the other one.
    pub fn max(self, other: Sample) -> (r: Sample)
        ensures
            r == self.greater(other),
    {
        if self.magnitude_bits() > INFINITY {
            other
        } else if other.magnitude_bits() > INFINITY {
            self
        } else if self.below(other) {
            other
        } else {
            self
        }
    }

    /// The sign of the sample: `1`, `-1`, or the sample itself where it is a
    /// zero or a NaN.
    pub fn signum(self) -> (r: Sample)
        ensures
            r == self.sign(),
    {
        let magnitude = self.magnitude_bits();
        if magnitude > INFINITY || magnitude == 0 {
            self
        } else if self.bits >= SIGN_BIT {
            Sample { bits: MINUS_ONE }
        } else {
            Sample { bits: ONE }
        }
    }

    /// The sample times the sign of `other`, where the sign of a zero is that
    /// zero.
    pub fn mul_signum(self, other: Sample) -> (r: Sample)
        ensures
            r == self.times_sign(other),
    {
        let sign = other.signum();
        let magnitude = self.magnitude_bits();
        if sign.magnitude_bits() > INFINITY {
            sign
        } else if magnitude > INFINITY || sign.bits == ONE {
            self
        } else if sign.bits == MINUS_ONE {
            if self.bits >= SIGN_BIT {
                Sample { bits: magnitude }
            } else {
                Sample { bits: self.bits + SIGN_BIT }
            }
        } else if magnitude == INFINITY {
            Sample { bits: NAN }
        } else if (self.bits >= SIGN_BIT) != (sign.bits >= SIGN_BIT) {
            Sample { bits: SIGN_BIT }
        } else {
            Sample { bits: 0 }
        }
    }

    /// The sample that is exactly the count `k`, for the counts up to `2^53`,
    /// through which every count is a sample.
    pub fn from_count(k: u64) -> (r: Option<Sample>)
        ensures
            k <= COUNT_LIMIT ==> r is Some && r->0.is_count(k as nat),
            k > COUNT_LIMIT ==> r is None,
    {
        if k <= COUNT_LIMIT {
            Some(Self::count(k))
        } else {
            None
        }
    }

    /// The sample that is exactly the count `k`.
    pub(crate) fn count(k: u64) -> (r: Sample)
        requires
            k <= COUNT_LIMIT,
        ensures
            r.is_count(k as nat),
    {
        if k == 0 {
            let r = Sample { bits: 0 };
            proof {
                assert(0 * pow2(0) == 0 * pow2(1074)) by (nonlinear_arith);
            }
            r
        } else if k == COUNT_LIMIT {
            let r = Sample { bits: 0x4340_0000_0000_0000 };
            proof {
                assert(r.magnitude() == 1076 * HIDDEN_BIT);
                assert(r.exponent() == 1);
                assert(r.significand() == HIDDEN_BIT);
                lemma_pow2_unfold(1075);
                assert(HIDDEN_BIT * (2 * pow2(1074)) == COUNT_LIMIT * pow2(1074))
                    by (nonlinear_arith);
            }
            r
        } else {
            let mut significand: u64 = k;
            let mut field: u64 = 1075;
            proof {
                lemma2_to64();
                assert(k * pow2(0) == k) by (nonlinear_arith)
                    requires
                        pow2(0) == 1,
                ;
            }
            while significand < HIDDEN_BIT
                invariant
                    1 <= k < COUNT_LIMIT,
                    1 <= significand < COUNT_LIMIT,
                    1023 <= field <= 1075,
                    significand == k * pow2((1075 - field) as nat),
                    significand >= pow2((1075 - field) as nat),
                decreases field,
            {
                proof {
                    let shift = (1075 - field) as nat;
                    lemma2_to64_rest();
                    lemma_pow2_unfold(shift + 1);
                    lemma_pow2_pos(shift);
                    assert(2 * (k * pow2(shift)) == k * (2 * pow2(shift))) by (nonlinear_arith);
                    assert(k * pow2(shift) >= pow2(shift)) by (nonlinear_arith)
                        requires
                            k >= 1,
                    ;
                }
                significand = significand * 2;
                field = field - 1;
            }
            let r = Sample { bits: field * HIDDEN_BIT + (significand - HIDDEN_BIT) };
            proof {
                let m = r.magnitude();
                let shift = (1075 - field) as nat;
                let rest = (field - 1) as nat;
                assert(m == field * HIDDEN_BIT + (significand - HIDDEN_BIT));
                lemma_fundamental_div_mod_converse(
                    m as int,
                    HIDDEN_BIT as int,
                    field as int,
                    significand - HIDDEN_BIT,
                );
                assert(r.significand() == significand);
                assert(r.exponent() + 1074 == rest);
                lemma_pow2_adds(shift, rest);
                assert(k * pow2(shift) * pow2(rest) == k * (pow2(shift) * pow2(rest)))
                    by (nonlinear_arith);
            }
            r
        }
    }

    /// The constants are the numbers that they are called after: `1` and `2`
    /// are these counts, `-1` is the opposite of `1`, and the largest and the
    /// lowest finite sample have every finite sample between them.
    pub proof fn lemma_constants()
        ensures
            (Sample { bits: ONE }).is_count(1),
            (Sample { bits: TWO }).is_count(2),
            (Sample { bits: MINUS_ONE }) == (Sample { bits: ONE }).negated(),
            (Sample { bits: LARGEST }).is_finite(),
            (Sample { bits: LOWEST }).is_finite(),
            forall|sample: Sample| #[trigger]
                sample.is_finite() ==> {
                    &&& (Sample { bits: LOWEST }).rank() <= sample.rank()
                    &&& sample.rank() <= (Sample { bits: LARGEST }).rank()
                },
    {
        let one = Sample { bits: ONE };
        let two = Sample { bits: TWO };
        lemma2_to64_rest();
        lemma_pow2_adds(52, 1022);
        lemma_pow2_adds(51, 1023);
        lemma_pow2_unfold(52);
        assert(one.magnitude() == 1023 * HIDDEN_BIT);
        assert(one.significand() == pow2(52) && one.exponent() + 1074 == 1022);
        assert(two.magnitude() == 1024 * HIDDEN_BIT);
        assert(two.significand() == pow2(52) && two.exponent() + 1074 == 1023);
        assert(1 * pow2(1074) == pow2(52) * pow2(1022)) by (nonlinear_arith)
            requires
                pow2(1074) == pow2(52) * pow2(1022),
        ;
        assert(2 * pow2(1074) == pow2(52) * pow2(1023)) by (nonlinear_arith)
            requires
                pow2(1074) == pow2(51) * pow2(1023),
                pow2(52) == 2 * pow2(51),
        ;
    }

    /// Among samples of one sign, the one with the larger pattern is the
    /// larger number.
    pub proof fn lemma_scaled_increases(self, other: Sample)
        requires
            self.magnitude() < other.magnitude(),
            other.is_finite(),
        ensures
            self.scaled() < other.scaled(),
    {
        let h = HIDDEN_BIT as nat;
        let (fa, ra) = (self.magnitude() / h, self.magnitude() % h);
        let (fb, rb) = (other.magnitude() / h, other.magnitude() % h);
        lemma2_to64();
        if fa == fb {
            let e = (self.exponent() + 1074) as nat;
            lemma_pow2_pos(e);
            let (ma, mb) = (self.significand(), other.significand());
            assert(ma < mb);
            assert(ma * pow2(e) < mb * pow2(e)) by (nonlinear_arith)
                requires
                    ma < mb,
                    pow2(e) > 0,
            ;
        } else {
            assert(fa < fb);
            let eb = (fb - 1) as nat;
            assert(other.exponent() + 1074 == eb);
            // what stands below the next power of two ...
            assert(self.scaled() < h * pow2(fa)) by {
                if fa == 0 {
                    assert(self.scaled() == ra * pow2(0));
                    assert(ra * 1 < h * pow2(0)) by (nonlinear_arith)
                        requires
                            ra < h,
                            pow2(0) == 1,
                    ;
                } else {
                    let ea = (fa - 1) as nat;
                    lemma_pow2_unfold(fa);
                    lemma_pow2_pos(ea);
                    assert((h + ra) * pow2(ea) < h * (2 * pow2(ea))) by (nonlinear_arith)
                        requires
                            ra < h,
                            pow2(ea) > 0,
                    ;
                }
            }
            // ... is below what starts at a later one.
            if fa < eb {
                lemma_pow2_strictly_increases(fa, eb);
            }
            assert(h * pow2(fa) <= (h + rb) * pow2(eb)) by (nonlinear_arith)
                requires
                    pow2(fa) <= pow2(eb),
                    rb >= 0,
                    h > 0,
            ;
        }
    }

    /// Of two numbers, the lesser is the one that is no higher in rank than
    /// either, and the greater the one that is no lower.
    pub proof fn lemma_lesser_and_greater(self, other: Sample)
        requires
            !self.is_nan(),
            !other.is_nan(),
        ensures
            self.lesser(other) == self || self.lesser(other) == other,
            self.lesser(other).rank() <= self.rank(),
            self.lesser(other).rank() <= other.rank(),
            self.greater(other) == self || self.greater(other) == other,
            self.greater(other).rank() >= self.rank(),
            self.greater(other).rank() >= other.rank(),
    {
    }

    /// Where the sign is taken of a zero, the product with a finite sample is
    /// a zero: exactly zero, not the sample and not its opposite.
    pub proof fn lemma_zero_sign_is_flat(self, other: Sample)
        requires
            self.is_finite(),
            other.is_zero(),
        ensures
            self.times_sign(other).is_zero(),
    {
    }

    /// A count is one sample only.
    pub proof fn lemma_count_is_one_sample(self, other: Sample, k: nat)
        requires
            self.is_count(k),
            other.is_count(k),
        ensures
            self == other,
    {
        if self.magnitude() < other.magnitude() {
            self.lemma_scaled_increases(other);
        } else if other.magnitude() < self.magnitude() {
            other.lemma_scaled_increases(self);
        }
    }

    /// The rank orders finite samples as their numbers are ordered: the lower
    /// in rank is not the larger number, and the smaller number is the lower
    /// in rank. The two zeros are one number with two ranks, and they alone.
    pub proof fn lemma_rank_orders_numbers(self, other: Sample)
        requires
            self.is_finite(),
            other.is_finite(),
        ensures
            self.rank() < other.rank() ==> self.signed() <= other.signed(),
            self.signed() < other.signed() ==> self.rank() < other.rank(),
            self.signed() == other.signed() ==> self == other || (self.is_zero()
                && other.is_zero()),
    {
        let zero = Sample { bits: 0 };
        assert(zero.scaled() == 0) by (nonlinear_arith)
            requires
                zero.scaled() == 0 * pow2(0),
        ;
        if self.magnitude() < other.magnitude() {
            self.lemma_scaled_increases(other);
        } else if other.magnitude() < self.magnitude() {
            other.lemma_scaled_increases(self);
        } else if self.magnitude() > 0 {
            zero.lemma_scaled_increases(self);
        }
    }
}

} // verus!
