//! A pair of coordinates, and the arithmetic of such pairs. Sums,
//! differences and products of coordinates wrap around.

use vstd::prelude::*;
use vstd::std_specs::ops::{AddSpecImpl, MulSpecImpl, ShrSpecImpl, SubSpecImpl};

verus! {

/// Two values of one type, named `x` and `y`.
#[derive(Copy, Clone, PartialEq, Eq, Structural, Debug, Default)]
pub struct Vector2<A> {
    pub x: A,
    pub y: A,
}

/// The smaller of two integers.
pub open spec fn lesser(a: i32, b: i32) -> i32 {
    if a <= b { a } else { b }
}

/// The larger of two integers.
pub open spec fn greater(a: i32, b: i32) -> i32 {
    if a >= b { a } else { b }
}

/// The componentwise minimum of two vectors.
pub fn vec_min(a: Vector2<i32>, b: Vector2<i32>) -> (r: Vector2<i32>)
    ensures
        r.x == lesser(a.x, b.x),
        r.y == lesser(a.y, b.y),
{
    Vector2 {
        x: if a.x <= b.x { a.x } else { b.x },
        y: if a.y <= b.y { a.y } else { b.y },
    }
}

/// The componentwise maximum of two vectors.
pub fn vec_max(a: Vector2<i32>, b: Vector2<i32>) -> (r: Vector2<i32>)
    ensures
        r.x == greater(a.x, b.x),
        r.y == greater(a.y, b.y),
{
    Vector2 {
        x: if a.x >= b.x { a.x } else { b.x },
        y: if a.y >= b.y { a.y } else { b.y },
    }
}

impl Vector2<i32> {
    /// The componentwise sum.
    pub open spec fn plus(self, other: Vector2<i32>) -> Vector2<i32> {
        Vector2 { x: self.x.wrapping_add(other.x), y: self.y.wrapping_add(other.y) }
    }

    /// The componentwise difference.
    pub open spec fn minus(self, other: Vector2<i32>) -> Vector2<i32> {
        Vector2 { x: self.x.wrapping_sub(other.x), y: self.y.wrapping_sub(other.y) }
    }

    /// Both components multiplied by the factor.
    pub open spec fn times(self, factor: i32) -> Vector2<i32> {
        Vector2 { x: self.x.wrapping_mul(factor), y: self.y.wrapping_mul(factor) }
    }
}

impl core::ops::Add<Vector2<i32>> for Vector2<i32> {
    type Output = Vector2<i32>;

    fn add(self, other: Vector2<i32>) -> (r: Vector2<i32>) {
        Vector2 { x: self.x.wrapping_add(other.x), y: self.y.wrapping_add(other.y) }
    }
}

impl AddSpecImpl<Vector2<i32>> for Vector2<i32> {
    open spec fn obeys_add_spec() -> bool {
        true
    }

    open spec fn add_req(self, other: Vector2<i32>) -> bool {
        true
    }

    open spec fn add_spec(self, other: Vector2<i32>) -> Vector2<i32> {
        self.plus(other)
    }
}

impl core::ops::Sub<Vector2<i32>> for Vector2<i32> {
    type Output = Vector2<i32>;

    fn sub(self, other: Vector2<i32>) -> (r: Vector2<i32>) {
        Vector2 { x: self.x.wrapping_sub(other.x), y: self.y.wrapping_sub(other.y) }
    }
}

impl SubSpecImpl<Vector2<i32>> for Vector2<i32> {
    open spec fn obeys_sub_spec() -> bool {
        true
    }

    open spec fn sub_req(self, other: Vector2<i32>) -> bool {
        true
    }

    open spec fn sub_spec(self, other: Vector2<i32>) -> Vector2<i32> {
        self.minus(other)
    }
}

impl core::ops::Mul<i32> for Vector2<i32> {
    type Output = Vector2<i32>;

    fn mul(self, other: i32) -> (r: Vector2<i32>) {
        Vector2 { x: self.x.wrapping_mul(other), y: self.y.wrapping_mul(other) }
    }
}

impl MulSpecImpl<i32> for Vector2<i32> {
    open spec fn obeys_mul_spec() -> bool {
        true
    }

    open spec fn mul_req(self, other: i32) -> bool {
        true
    }

    open spec fn mul_spec(self, other: i32) -> Vector2<i32> {
        self.times(other)
    }
}

impl core::ops::Shr<Vector2<i32>> for Vector2<i32> {
    type Output = Vector2<i32>;

    /// The difference the other way round: what leads from this vector to
    /// the other.
    fn shr(self, other: Vector2<i32>) -> (r: Vector2<i32>) {
        Vector2 { x: other.x.wrapping_sub(self.x), y: other.y.wrapping_sub(self.y) }
    }
}

impl ShrSpecImpl<Vector2<i32>> for Vector2<i32> {
    open spec fn obeys_shr_spec() -> bool {
        true
    }

    open spec fn shr_req(self, other: Vector2<i32>) -> bool {
        true
    }

    open spec fn shr_spec(self, other: Vector2<i32>) -> Vector2<i32> {
        other.minus(self)
    }
}

} // verus!
