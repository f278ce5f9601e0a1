//! Points and vectors in homogeneous coordinates.
//!
//! Both are four numbers `(x, y, z, w)`. The last one tells them apart: a
//! point has `w` one, a vector has `w` zero.

use vstd::prelude::*;
use vstd::arithmetic::power2::*;
use crate::error::GeometryError;
use crate::scalar::Scalar;
use core::ops::Neg;

verus! {

/// The encoding of `1.0`.
pub const ONE: u64 = 0x3ff0_0000_0000_0000;

/// [`ONE`] is the encoding of the number one, and no bits that of zero.
pub proof fn law_one_is_one()
    ensures
        (Scalar { bits: ONE }).stands_for(1, 1),
        (Scalar { bits: ONE }).value() == pow2(1074),
        (Scalar { bits: 0 }).value() == 0,
{
    lemma2_to64();
    lemma2_to64_rest();
    lemma_pow2_adds(52, 1022);
    crate::scalar::lemma_stands_for(Scalar { bits: ONE }, 1, 1, 0x10_0000_0000_0000, 0x10_0000_0000_0000);
}

/// A place in space: `(x, y, z, w)` with `w` one.
#[derive(Clone, Copy, Debug)]
pub struct Point(pub Scalar, pub Scalar, pub Scalar, pub Scalar);

/// A displacement in space: `(x, y, z, w)` with `w` zero.
#[derive(Clone, Copy, Debug)]
pub struct Vec4(pub Scalar, pub Scalar, pub Scalar, pub Scalar);

impl Point {
    /// The last coordinate is exactly one.
    pub open spec fn is_point(self) -> bool {
        self.3.bits == ONE
    }

    pub fn new(x: Scalar, y: Scalar, z: Scalar) -> (p: Point)
        ensures
            p == Point(x, y, z, Scalar { bits: ONE }),
            p.is_point(),
    {
        Point(x, y, z, Scalar { bits: ONE })
    }

    /// The point where the three axes meet.
    pub open spec fn origin_spec() -> Point {
        Point(Scalar { bits: 0 }, Scalar { bits: 0 }, Scalar { bits: 0 }, Scalar { bits: ONE })
    }

    pub fn origin() -> (p: Point)
        ensures
            p == Point::origin_spec(),
            p.is_point(),
    {
        Point(Scalar { bits: 0 }, Scalar { bits: 0 }, Scalar { bits: 0 }, Scalar { bits: ONE })
    }
}

impl From<[Scalar; 4]> for Point {
    fn from(value: [Scalar; 4]) -> (p: Point)
    {
        Point(value[0], value[1], value[2], value[3])
    }
}

impl vstd::std_specs::convert::FromSpecImpl<[Scalar; 4]> for Point {
    open spec fn obeys_from_spec() -> bool {
        true
    }

    open spec fn from_spec(value: [Scalar; 4]) -> Point {
        Point(value[0], value[1], value[2], value[3])
    }
}

impl Vec4 {
    /// The last coordinate is positive zero.
    pub open spec fn is_vector(self) -> bool {
        self.3.bits == 0
    }

    /// The vector that points the other way: the first three coordinates
    /// change sign, the last stays.
    pub open spec fn reversed(self) -> Vec4 {
        Vec4(self.0.negated(), self.1.negated(), self.2.negated(), self.3)
    }

    /// Whether a vector of the given length has a direction: a vector of
    /// length zero has none, and cannot be normalized.
    pub fn normalizable(magnitude: Scalar) -> (r: Result<(), GeometryError>)
        ensures
            r == if magnitude.zero() {
                Err::<(), GeometryError>(GeometryError::UndefinedNormalization)
            } else {
                Ok(())
            },
    {
        if magnitude.is_zero() {
            Err(GeometryError::UndefinedNormalization)
        } else {
            Ok(())
        }
    }

    pub fn new(x: Scalar, y: Scalar, z: Scalar) -> (v: Vec4)
        ensures
            v == Vec4(x, y, z, Scalar { bits: 0 }),
            v.is_vector(),
    {
        Vec4(x, y, z, Scalar { bits: 0 })
    }
}

impl From<[Scalar; 4]> for Vec4 {
    fn from(value: [Scalar; 4]) -> (v: Vec4)
    {
        Vec4(value[0], value[1], value[2], value[3])
    }
}

impl vstd::std_specs::convert::FromSpecImpl<[Scalar; 4]> for Vec4 {
    open spec fn obeys_from_spec() -> bool {
        true
    }

    open spec fn from_spec(value: [Scalar; 4]) -> Vec4 {
        Vec4(value[0], value[1], value[2], value[3])
    }
}

impl core::ops::Neg for Vec4 {
    type Output = Vec4;

    fn neg(self) -> (v: Vec4)
    {
        Vec4(self.0.neg(), self.1.neg(), self.2.neg(), self.3)
    }
}

impl vstd::std_specs::ops::NegSpecImpl for Vec4 {
    open spec fn obeys_neg_spec() -> bool {
        true
    }

    open spec fn neg_req(self) -> bool {
        true
    }

    open spec fn neg_spec(self) -> Vec4 {
        self.reversed()
    }
}

} // verus!
