//! Points and directions in space.

use vstd::prelude::*;
use crate::unit::Unit;

verus! {

/// A point or a direction, by its three coordinates.
#[derive(Clone, Copy, Debug)]
pub struct Vector(pub Unit, pub Unit, pub Unit);

impl Vector {
    pub open spec fn spec_negate(&self) -> Vector {
        Vector(self.0.neg(), self.1.neg(), self.2.neg())
    }

    pub open spec fn spec_add(self, other: Vector) -> Vector {
        Vector(self.0.add(other.0), self.1.add(other.1), self.2.add(other.2))
    }

    pub open spec fn spec_sub(self, other: Vector) -> Vector {
        Vector(self.0.sub(other.0), self.1.sub(other.1), self.2.sub(other.2))
    }

    pub open spec fn spec_mul(self, rhs: Unit) -> Vector {
        Vector(self.0.mul(rhs), self.1.mul(rhs), self.2.mul(rhs))
    }

    /// Division multiplies by the reciprocal of the divisor.
    pub open spec fn spec_div(self, rhs: Unit) -> Vector {
        self.spec_mul(Unit::one().div(rhs))
    }

    pub open spec fn spec_dot(&self, other: Vector) -> Unit {
        self.0.mul(other.0).add(self.1.mul(other.1)).add(self.2.mul(other.2))
    }

    pub open spec fn spec_cross(&self, other: Vector) -> Vector {
        Vector(
            self.1.mul(other.2).sub(self.2.mul(other.1)),
            self.2.mul(other.0).sub(self.0.mul(other.2)),
            self.0.mul(other.1).sub(self.1.mul(other.0)),
        )
    }

    pub open spec fn spec_length(&self) -> Unit {
        self.spec_dot(*self).sqrt()
    }

    pub open spec fn spec_normalize(&self) -> Vector {
        self.spec_div(self.spec_length())
    }

    /// `self + (other - self) * t`.
    pub open spec fn spec_lerp(&self, other: Vector, t: Unit) -> Vector {
        self.spec_add(other.spec_sub(*self).spec_mul(t))
    }

    /// The part of `self` that is perpendicular to `axis`.
    pub open spec fn perpendicular(self, axis: Vector) -> Vector {
        self.spec_sub(axis.spec_mul(self.spec_dot(axis)))
    }

    /// An angle in degrees, converted to radians.
    pub open spec fn radians(angle_deg: Unit) -> Unit {
        Unit::pi().mul(angle_deg).div(Unit::half_turn())
    }

    /// The parallel part of `self` stays; the perpendicular part turns by the
    /// angle in the plane spanned by its own direction `u0` and `axis x u0`.
    /// A vector with no perpendicular part is returned as it is.
    pub open spec fn spec_rotate(&self, axis: Vector, angle_deg: Unit) -> Vector {
        let va = self.spec_dot(axis);
        let perp = self.perpendicular(axis);
        let len = perp.spec_length();
        if len.same(Unit::zero()) {
            *self
        } else {
            let angle = Vector::radians(angle_deg);
            let u0 = perp.spec_normalize();
            let u1 = axis.spec_cross(u0);
            axis.spec_mul(va).spec_add(u0.spec_mul(len.mul(angle.cos()))).spec_add(
                u1.spec_mul(len.mul(angle.sin())),
            )
        }
    }

    /// The vector with every coordinate's sign inverted.
    #[verifier::when_used_as_spec(spec_negate)]
    pub fn negate(&self) -> (r: Vector)
        ensures
            r == self.spec_negate(),
    {
        Vector(self.0.neg(), self.1.neg(), self.2.neg())
    }

    /// Same as [`Vector::negate`].
    pub fn neg(self) -> (r: Vector)
        ensures
            r == self.spec_negate(),
    {
        self.negate()
    }

    /// The sum, coordinate by coordinate.
    #[verifier::when_used_as_spec(spec_add)]
    pub fn add(self, other: Vector) -> (r: Vector)
        ensures
            r == self.spec_add(other),
    {
        Vector(self.0.add(other.0), self.1.add(other.1), self.2.add(other.2))
    }

    /// The difference, coordinate by coordinate.
    #[verifier::when_used_as_spec(spec_sub)]
    pub fn sub(self, other: Vector) -> (r: Vector)
        ensures
            r == self.spec_sub(other),
    {
        Vector(self.0.sub(other.0), self.1.sub(other.1), self.2.sub(other.2))
    }

    /// Every coordinate multiplied by `rhs`.
    #[verifier::when_used_as_spec(spec_mul)]
    pub fn mul(self, rhs: Unit) -> (r: Vector)
        ensures
            r == self.spec_mul(rhs),
    {
        Vector(self.0.mul(rhs), self.1.mul(rhs), self.2.mul(rhs))
    }

    /// Every coordinate multiplied by the reciprocal of `rhs`. A zero divisor
    /// gives infinities or NaNs, never a failure.
    #[verifier::when_used_as_spec(spec_div)]
    pub fn div(self, rhs: Unit) -> (r: Vector)
        ensures
            r == self.spec_div(rhs),
    {
        let inv = Unit::one().div(rhs);
        self.mul(inv)
    }

    /// The dot product, summed from the first coordinate to the last.
    #[verifier::when_used_as_spec(spec_dot)]
    pub fn dot(&self, other: Vector) -> (r: Unit)
        ensures
            r == self.spec_dot(other),
    {
        self.0.mul(other.0).add(self.1.mul(other.1)).add(self.2.mul(other.2))
    }

    /// The cross product `self x other`.
    #[verifier::when_used_as_spec(spec_cross)]
    pub fn cross(&self, other: Vector) -> (r: Vector)
        ensures
            r == self.spec_cross(other),
    {
        Vector(
            self.1.mul(other.2).sub(self.2.mul(other.1)),
            self.2.mul(other.0).sub(self.0.mul(other.2)),
            self.0.mul(other.1).sub(self.1.mul(other.0)),
        )
    }

    /// The Euclidean length.
    #[verifier::when_used_as_spec(spec_length)]
    pub fn length(&self) -> (r: Unit)
        ensures
            r == self.spec_length(),
    {
        self.dot(*self).sqrt()
    }

    /// The vector divided by its length.
    #[verifier::when_used_as_spec(spec_normalize)]
    pub fn normalize(&self) -> (r: Vector)
        ensures
            r == self.spec_normalize(),
    {
        self.div(self.length())
    }

    /// The point at parameter `t` on the way from `self` to `other`.
    #[verifier::when_used_as_spec(spec_lerp)]
    pub fn lerp(&self, other: Vector, t: Unit) -> (r: Vector)
        ensures
            r == self.spec_lerp(other, t),
    {
        self.add(other.sub(*self).mul(t))
    }

    /// Turns the vector about `axis` by an angle in degrees.
    #[verifier::when_used_as_spec(spec_rotate)]
    pub fn rotate(&self, axis: Vector, angle_deg: Unit) -> (r: Vector)
        ensures
            r == self.spec_rotate(axis, angle_deg),
    {
        let va = self.dot(axis);
        let perp = self.sub(axis.mul(va));
        let len = perp.length();
        if len.same(Unit::zero()) {
            *self
        } else {
            let angle = Unit::pi().mul(angle_deg).div(Unit::half_turn());
            let u0 = perp.normalize();
            let u1 = axis.cross(u0);
            let vcos = len.mul(angle.cos());
            let vsin = len.mul(angle.sin());
            axis.mul(va).add(u0.mul(vcos)).add(u1.mul(vsin))
        }
    }
}

impl core::ops::Add for Vector {
    type Output = Vector;

    fn add(self, other: Vector) -> (r: Vector) {
        Vector(self.0.add(other.0), self.1.add(other.1), self.2.add(other.2))
    }
}

impl vstd::std_specs::ops::AddSpecImpl for Vector {
    open spec fn obeys_add_spec() -> bool {
        true
    }

    open spec fn add_req(self, other: Vector) -> bool {
        true
    }

    open spec fn add_spec(self, other: Vector) -> Vector {
        self.spec_add(other)
    }
}

impl core::ops::Sub for Vector {
    type Output = Vector;

    fn sub(self, other: Vector) -> (r: Vector) {
        Vector(self.0.sub(other.0), self.1.sub(other.1), self.2.sub(other.2))
    }
}

impl vstd::std_specs::ops::SubSpecImpl for Vector {
    open spec fn obeys_sub_spec() -> bool {
        true
    }

    open spec fn sub_req(self, other: Vector) -> bool {
        true
    }

    open spec fn sub_spec(self, other: Vector) -> Vector {
        self.spec_sub(other)
    }
}

impl core::ops::Neg for Vector {
    type Output = Vector;

    fn neg(self) -> (r: Vector) {
        self.negate()
    }
}

impl vstd::std_specs::ops::NegSpecImpl for Vector {
    open spec fn obeys_neg_spec() -> bool {
        true
    }

    open spec fn neg_req(self) -> bool {
        true
    }

    open spec fn neg_spec(self) -> Vector {
        self.spec_negate()
    }
}

impl core::ops::Mul<Unit> for Vector {
    type Output = Vector;

    fn mul(self, rhs: Unit) -> (r: Vector) {
        Vector(self.0.mul(rhs), self.1.mul(rhs), self.2.mul(rhs))
    }
}

impl vstd::std_specs::ops::MulSpecImpl<Unit> for Vector {
    open spec fn obeys_mul_spec() -> bool {
        true
    }

    open spec fn mul_req(self, rhs: Unit) -> bool {
        true
    }

    open spec fn mul_spec(self, rhs: Unit) -> Vector {
        self.spec_mul(rhs)
    }
}

impl core::ops::Div<Unit> for Vector {
    type Output = Vector;

    fn div(self, rhs: Unit) -> (r: Vector) {
        let inv = Unit::one().div(rhs);
        Vector(self.0.mul(inv), self.1.mul(inv), self.2.mul(inv))
    }
}

impl vstd::std_specs::ops::DivSpecImpl<Unit> for Vector {
    open spec fn obeys_div_spec() -> bool {
        true
    }

    open spec fn div_req(self, rhs: Unit) -> bool {
        true
    }

    open spec fn div_spec(self, rhs: Unit) -> Vector {
        self.spec_div(rhs)
    }
}

} // verus!
