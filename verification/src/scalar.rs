//! Binary64 numbers as their encodings.
//!
//! A [`Scalar`] is sixty-four bits: a sign, eleven bits of exponent and
//! fifty-two bits of fraction. The functions here read off the encoding what
//! the number is: whether it is a number at all, its sign, its value, and
//! where it stands among the others.

use vstd::prelude::*;
use vstd::arithmetic::power2::*;
use vstd::arithmetic::mul::lemma_mul_strict_inequality;
use vstd::arithmetic::mul::lemma_mul_inequality;

verus! {

/// The sign bit of an encoding.
pub const SIGN: u64 = 0x8000_0000_0000_0000;

/// The encoding of positive infinity; every larger magnitude is not a number.
pub const INFINITE: u64 = 0x7ff0_0000_0000_0000;

/// Two to the fifty-second: the number of fractions under one exponent.
pub const FRACTIONS: u64 = 0x0010_0000_0000_0000;

/// A binary64 number, held as its encoding.
#[derive(Clone, Copy, Debug)]
pub struct Scalar {
    pub bits: u64,
}

impl Scalar {
    /// The sign bit is set (true of `-0.0` and of some encodings that are not numbers).
    pub open spec fn negative(self) -> bool {
        self.bits >= SIGN
    }

    /// The encoding without its sign bit.
    pub open spec fn magnitude(self) -> int {
        if self.bits >= SIGN {
            self.bits - SIGN
        } else {
            self.bits as int
        }
    }

    /// The encoding stands for no number.
    pub open spec fn nan(self) -> bool {
        self.magnitude() > INFINITE
    }

    /// Positive or negative zero.
    pub open spec fn zero(self) -> bool {
        self.magnitude() == 0
    }

    /// The place of a number among all numbers: magnitudes grow with the
    /// encoding, and the sign mirrors them, so both zeros have rank 0.
    pub open spec fn rank(self) -> int {
        if self.negative() {
            -self.magnitude()
        } else {
            self.magnitude()
        }
    }

    /// `self < other` as numbers; false when either is not a number.
    pub open spec fn below(self, other: Scalar) -> bool {
        !self.nan() && !other.nan() && self.rank() < other.rank()
    }

    /// `self == other` as numbers; false when either is not a number.
    pub open spec fn same(self, other: Scalar) -> bool {
        !self.nan() && !other.nan() && self.rank() == other.rank()
    }

    /// `self <= other` as numbers; false when either is not a number.
    pub open spec fn at_most(self, other: Scalar) -> bool {
        !self.nan() && !other.nan() && self.rank() <= other.rank()
    }

    /// The encoding with its sign bit flipped.
    pub open spec fn negated(self) -> Scalar {
        if self.bits >= SIGN {
            Scalar { bits: (self.bits - SIGN) as u64 }
        } else {
            Scalar { bits: (self.bits + SIGN) as u64 }
        }
    }

    /// The exponent field, from 0 to 2047.
    pub open spec fn exponent(self) -> int {
        self.magnitude() / (FRACTIONS as int)
    }

    /// The fraction field, below two to the fifty-second.
    pub open spec fn fraction(self) -> int {
        self.magnitude() % (FRACTIONS as int)
    }

    /// The size of a number, counted in the smallest positive number, two
    /// to the minus 1074th: the fraction where the exponent field is 0,
    /// else the fraction under its hidden leading bit, doubled once for
    /// every step of the exponent above 1. Infinity counts as two to the
    /// 2098th, above every number.
    pub open spec fn units(self) -> int {
        if self.exponent() == 0 {
            self.fraction()
        } else {
            (FRACTIONS + self.fraction()) * pow2((self.exponent() - 1) as nat)
        }
    }

    /// The number itself, counted in the smallest positive number: its
    /// size under its sign.
    pub open spec fn value(self) -> int {
        if self.negative() {
            -self.units()
        } else {
            self.units()
        }
    }

    /// The step from a number's size to the next greater size, counted in
    /// the smallest positive number.
    pub open spec fn gap(self) -> int {
        if self.exponent() == 0 {
            1
        } else {
            pow2((self.exponent() - 1) as nat) as int
        }
    }

    /// The number is the fraction `n / d`, as nearly as a number can be:
    /// it is off by half a gap at most.
    pub open spec fn stands_for(self, n: int, d: int) -> bool {
        &&& !self.nan()
        &&& d > 0
        &&& -(d * self.gap()) <= 2 * (d * self.value() - n * pow2(1074)) <= d * self.gap()
    }

    /// The whole part of a number: the greatest integer that is not more.
    /// One holds two to the 1074th of the smallest positive number.
    pub open spec fn whole(self) -> int {
        self.value() / (pow2(1074) as int)
    }

    /// A number as a place in a row or a column: its whole part, but 0 for
    /// what is below zero or not a number, and the greatest place there is
    /// for what is beyond it.
    pub open spec fn place(self) -> int {
        if self.nan() || self.whole() < 0 {
            0
        } else if self.whole() > usize::MAX {
            usize::MAX as int
        } else {
            self.whole()
        }
    }

    /// The number with the given encoding.
    pub fn from_bits(bits: u64) -> (r: Scalar)
        ensures
            r.bits == bits,
    {
        Scalar { bits }
    }

    /// The encoding.
    pub fn to_bits(self) -> (r: u64)
        ensures
            r == self.bits,
    {
        self.bits
    }

    fn magnitude_bits(self) -> (r: u64)
        ensures
            r == self.magnitude(),
    {
        if self.bits >= SIGN {
            self.bits - SIGN
        } else {
            self.bits
        }
    }

    pub fn is_nan(self) -> (r: bool)
        ensures
            r == self.nan(),
    {
        self.magnitude_bits() > INFINITE
    }

    pub fn is_sign_negative(self) -> (r: bool)
        ensures
            r == self.negative(),
    {
        self.bits >= SIGN
    }

    pub fn is_zero(self) -> (r: bool)
        ensures
            r == self.zero(),
    {
        self.magnitude_bits() == 0
    }

    /// The number as a place in a row or a column: what is left of it when
    /// all behind the point is cut off, kept within what a place can be.
    pub fn to_index(self) -> (r: usize)
        ensures
            r == self.place(),
    {
        if self.is_nan() {
            return 0;
        }
        if self.is_sign_negative() {
            proof {
                law_order_is_by_value(self, Scalar { bits: 0 });
                lemma_pow2_pos(1074);
                vstd::arithmetic::div_mod::lemma_div_is_ordered(self.value(), 0, pow2(1074) as int);
            }
            return 0;
        }
        let m: u64 = self.bits;
        let e: u64 = m / FRACTIONS;
        let f: u64 = m % FRACTIONS;
        proof {
            lemma2_to64();
            lemma2_to64_rest();
        }
        if e < 1023 {
            proof {
                if e == 0 {
                    lemma_pow2_strictly_increases(52, 1074);
                    vstd::arithmetic::div_mod::lemma_basic_div(f as int, pow2(1074) as int);
                } else {
                    lemma_whole_below_the_point((FRACTIONS + f) as int, e as int);
                    if e < 1022 {
                        lemma_pow2_strictly_increases(53, (1075 - e) as nat);
                    }
                    vstd::arithmetic::div_mod::lemma_basic_div(
                        (FRACTIONS + f) as int,
                        pow2((1075 - e) as nat) as int,
                    );
                }
            }
            0
        } else if e >= 1087 {
            proof {
                lemma_whole_above_the_point((FRACTIONS + f) as int, e as int);
                if e > 1087 {
                    lemma_pow2_strictly_increases(12, (e - 1075) as nat);
                }
                lemma_mul_inequality(pow2(12) as int, pow2((e - 1075) as nat) as int, (FRACTIONS + f) as int);
                lemma_mul_inequality(FRACTIONS as int, (FRACTIONS + f) as int, pow2(12) as int);
                assert(FRACTIONS * pow2(12) > usize::MAX);
                assert((FRACTIONS + f) * pow2((e - 1075) as nat) >= FRACTIONS * pow2(12)) by (nonlinear_arith)
                    requires
                        pow2(12) * (FRACTIONS + f) <= pow2((e - 1075) as nat) * (FRACTIONS + f),
                        FRACTIONS * pow2(12) <= (FRACTIONS + f) * pow2(12),
                ;
            }
            usize::MAX
        } else {
            let sig: u64 = FRACTIONS + f;
            let whole: u64 = if e >= 1075 {
                proof {
                    lemma_whole_above_the_point(sig as int, e as int);
                    if e < 1086 {
                        lemma_pow2_strictly_increases((e - 1075) as nat, 11);
                    }
                    lemma_mul_inequality(pow2((e - 1075) as nat) as int, pow2(11) as int, sig as int);
                    lemma_mul_inequality(sig as int, 0x20_0000_0000_0000 - 1, pow2(11) as int);
                    assert(sig * pow2((e - 1075) as nat) <= u64::MAX) by (nonlinear_arith)
                        requires
                            pow2((e - 1075) as nat) * sig <= pow2(11) * sig,
                            sig * pow2(11) <= (0x20_0000_0000_0000 - 1) * pow2(11),
                            pow2(11) == 0x800,
                    ;
                    vstd::bits::lemma_u64_shl_is_mul(sig, (e - 1075) as u64);
                }
                sig << (e - 1075)
            } else {
                proof {
                    lemma_whole_below_the_point(sig as int, e as int);
                    vstd::bits::lemma_u64_shr_is_div(sig, (1075 - e) as u64);
                }
                sig >> (1075 - e)
            };
            if whole > usize::MAX as u64 {
                usize::MAX
            } else {
                whole as usize
            }
        }
    }

    /// `-self`: the same magnitude under the other sign.
    pub fn neg(self) -> (r: Scalar)
        ensures
            r == self.negated(),
            r.magnitude() == self.magnitude(),
            r.negative() != self.negative(),
            r.nan() == self.nan(),
            r.rank() == -self.rank(),
    {
        if self.bits >= SIGN {
            Scalar { bits: self.bits - SIGN }
        } else {
            Scalar { bits: self.bits + SIGN }
        }
    }

    /// `self < other`.
    pub fn lt(self, other: Scalar) -> (r: bool)
        ensures
            r == self.below(other),
    {
        if self.is_nan() || other.is_nan() {
            return false;
        }
        let a: u64 = self.magnitude_bits();
        let b: u64 = other.magnitude_bits();
        if self.bits >= SIGN {
            if other.bits >= SIGN {
                b < a
            } else {
                a > 0 || b > 0
            }
        } else {
            if other.bits >= SIGN {
                false
            } else {
                a < b
            }
        }
    }

    /// `self == other`, as numbers.
    pub fn eq(self, other: Scalar) -> (r: bool)
        ensures
            r == self.same(other),
    {
        if self.is_nan() || other.is_nan() {
            return false;
        }
        let a: u64 = self.magnitude_bits();
        let b: u64 = other.magnitude_bits();
        if (self.bits >= SIGN) == (other.bits >= SIGN) {
            a == b
        } else {
            a == 0 && b == 0
        }
    }

    /// `self <= other`.
    pub fn le(self, other: Scalar) -> (r: bool)
        ensures
            r == self.at_most(other),
    {
        self.lt(other) || self.eq(other)
    }

    /// `self > other`.
    pub fn gt(self, other: Scalar) -> (r: bool)
        ensures
            r == other.below(self),
    {
        other.lt(self)
    }

    /// `self >= other`.
    pub fn ge(self, other: Scalar) -> (r: bool)
        ensures
            r == other.at_most(self),
    {
        other.le(self)
    }
}

/// Of two numbers, one is below the other or they are the same, and only
/// one of the three holds.
pub proof fn law_numbers_are_ordered(a: Scalar, b: Scalar)
    requires
        !a.nan(),
        !b.nan(),
    ensures
        a.below(b) || a.same(b) || b.below(a),
        !(a.below(b) && a.same(b)),
        !(a.below(b) && b.below(a)),
        !(b.below(a) && a.same(b)),
        a.at_most(b) <==> !b.below(a),
{
}

/// For a number of at least two to the 52nd, whose exponent field is `e`
/// and whose fraction under its leading bit is `sig`, the whole part is
/// `sig` with `e - 1075` binary zeros behind it.
proof fn lemma_whole_above_the_point(sig: int, e: int)
    requires
        0 <= sig,
        1075 <= e,
    ensures
        (sig * pow2((e - 1) as nat)) / (pow2(1074) as int) == sig * pow2((e - 1075) as nat),
{
    let unit = pow2(1074) as int;
    let more = pow2((e - 1075) as nat) as int;
    lemma_pow2_pos(1074);
    lemma_pow2_adds((e - 1075) as nat, 1074);
    assert(sig * (more * unit) == (sig * more) * unit) by (nonlinear_arith);
    assert(0 <= sig * more) by (nonlinear_arith)
        requires
            0 <= sig,
            0 <= more,
    ;
    vstd::arithmetic::div_mod::lemma_div_by_multiple(sig * more, unit);
}

/// For a number below two to the 52nd, whose exponent field is `e`, not 0,
/// and whose fraction under its leading bit is `sig`, the whole part is
/// `sig` without its last `1075 - e` binary digits.
proof fn lemma_whole_below_the_point(sig: int, e: int)
    requires
        0 <= sig,
        1 <= e < 1075,
    ensures
        (sig * pow2((e - 1) as nat)) / (pow2(1074) as int) == sig / (pow2((1075 - e) as nat) as int),
{
    let low = pow2((e - 1) as nat) as int;
    let high = pow2((1075 - e) as nat) as int;
    lemma_pow2_pos((e - 1) as nat);
    lemma_pow2_pos((1075 - e) as nat);
    lemma_pow2_adds((e - 1) as nat, (1075 - e) as nat);
    assert(sig * low == low * sig) by (nonlinear_arith);
    vstd::arithmetic::div_mod::lemma_div_multiples_vanish_quotient(low, sig, high);
}

/// A number below two to the 52nd stands for `n / d` where its fraction
/// under its leading bit, `sig`, is within a half of `n / d` times what
/// one counts in its gaps, `per_one`.
pub proof fn lemma_stands_for(s: Scalar, n: int, d: int, sig: int, per_one: int)
    requires
        !s.nan(),
        d > 0,
        1 <= s.exponent() <= 1075,
        sig == if s.negative() {
            -(FRACTIONS + s.fraction())
        } else {
            FRACTIONS + s.fraction()
        },
        per_one == pow2((1075 - s.exponent()) as nat),
        -d <= 2 * (d * sig - n * per_one) <= d,
    ensures
        s.stands_for(n, d),
{
    let gap = s.gap();
    lemma_pow2_pos((s.exponent() - 1) as nat);
    lemma_pow2_adds((1075 - s.exponent()) as nat, (s.exponent() - 1) as nat);
    assert(pow2(1074) == per_one * gap);
    assert(s.value() == sig * gap) by (nonlinear_arith)
        requires
            s.value() == if s.negative() {
                -((FRACTIONS + s.fraction()) * gap)
            } else {
                (FRACTIONS + s.fraction()) * gap
            },
            sig == if s.negative() {
                -(FRACTIONS + s.fraction())
            } else {
                FRACTIONS + s.fraction()
            },
    ;
    assert(2 * (d * (sig * gap) - n * (per_one * gap)) == (2 * (d * sig - n * per_one)) * gap)
        by (nonlinear_arith);
    assert(-(d * gap) <= (2 * (d * sig - n * per_one)) * gap <= d * gap) by (nonlinear_arith)
        requires
            -d <= 2 * (d * sig - n * per_one) <= d,
            gap > 0,
    ;
}

proof fn lemma_units_grow_with_magnitude(a: Scalar, b: Scalar)
    requires
        a.magnitude() < b.magnitude(),
    ensures
        0 <= a.units() < b.units(),
{
    let top = FRACTIONS as int;
    let ea = a.exponent();
    let eb = b.exponent();
    let fa = a.fraction();
    let fb = b.fraction();
    assert(a.magnitude() == ea * top + fa && b.magnitude() == eb * top + fb);
    if ea == 0 {
        if eb > 0 {
            lemma_pow2_pos((eb - 1) as nat);
            lemma_mul_inequality(1, pow2((eb - 1) as nat) as int, top + fb);
        }
    } else {
        let pa = pow2((ea - 1) as nat) as int;
        let pb = pow2((eb - 1) as nat) as int;
        lemma_pow2_pos((ea - 1) as nat);
        if ea == eb {
            lemma_mul_strict_inequality(top + fa, top + fb, pa);
        } else {
            assert(ea < eb) by (nonlinear_arith)
                requires
                    ea * top + fa < eb * top + fb,
                    0 <= fa < top,
                    0 <= fb < top,
                    ea != eb,
            ;
            lemma_pow2_unfold(ea as nat);
            if ea < eb - 1 {
                lemma_pow2_strictly_increases(ea as nat, (eb - 1) as nat);
            }
            lemma_mul_strict_inequality(top + fa, 2 * top, pa);
            lemma_mul_inequality(2 * pa, pb, top);
            lemma_mul_inequality(top, top + fb, pb);
            assert((2 * top) * pa == (2 * pa) * top) by (nonlinear_arith);
            assert((top + fa) * pa < (2 * top) * pa);
            assert((2 * pa) * top <= pb * top);
            assert(pb * top == top * pb) by (nonlinear_arith);
            assert(top * pb <= (top + fb) * pb);
        }
        assert(0 <= (top + fa) * pa) by (nonlinear_arith)
            requires
                0 <= top + fa,
                0 <= pa,
        ;
    }
}

/// The order of the encodings is the order of the values: a number is
/// below another where its value is less, and the same where the values
/// are equal.
pub proof fn law_order_is_by_value(a: Scalar, b: Scalar)
    requires
        !a.nan(),
        !b.nan(),
    ensures
        a.below(b) <==> a.value() < b.value(),
        a.same(b) <==> a.value() == b.value(),
        a.at_most(b) <==> a.value() <= b.value(),
        a.zero() <==> a.value() == 0,
{
    let zero = Scalar { bits: 0 };
    assert(zero.units() == 0);
    if a.magnitude() > 0 {
        lemma_units_grow_with_magnitude(zero, a);
    } else {
        assert(a.units() == 0);
    }
    if b.magnitude() > 0 {
        lemma_units_grow_with_magnitude(zero, b);
    } else {
        assert(b.units() == 0);
    }
    if a.magnitude() < b.magnitude() {
        lemma_units_grow_with_magnitude(a, b);
    } else if b.magnitude() < a.magnitude() {
        lemma_units_grow_with_magnitude(b, a);
    } else {
        assert(a.units() == b.units());
    }
}

/// Negation keeps the size of a number and turns its value around.
pub proof fn law_negation_reverses_value(a: Scalar)
    ensures
        a.negated().units() == a.units(),
        a.units() != 0 ==> a.negated().value() == -a.value(),
{
    assert(a.negated().magnitude() == a.magnitude());
}

/// What is below something that is below a third is below the third.
pub proof fn law_below_is_transitive(a: Scalar, b: Scalar, c: Scalar)
    requires
        a.below(b),
        b.below(c),
    ensures
        a.below(c),
{
}

/// What is not a number is neither below, nor the same as, nor at most
/// anything, itself included.
pub proof fn law_nan_is_unordered(a: Scalar, b: Scalar)
    requires
        a.nan(),
    ensures
        !a.below(b),
        !b.below(a),
        !a.same(b),
        !b.same(a),
        !a.at_most(b),
        !b.at_most(a),
{
}

/// Negation turns the order around, and undoes itself.
pub proof fn law_negation_mirrors(a: Scalar, b: Scalar)
    ensures
        a.negated().negated() == a,
        a.below(b) <==> b.negated().below(a.negated()),
        a.same(b) <==> a.negated().same(b.negated()),
{
}

} // verus!
