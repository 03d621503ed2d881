//! Corners of polygons.

use vstd::prelude::*;
use crate::unit::Unit;
use crate::vector::Vector;

verus! {

/// A corner of a polygon: where it is, and the direction used to shade it.
/// The normal plays no part in classifying or cutting.
#[derive(Clone, Copy, Debug)]
pub struct Vertex {
    pub position: Vector,
    pub normal: Vector,
}

impl Vertex {
    pub open spec fn spec_new(position: Vector, normal: Vector) -> Vertex {
        Vertex { position, normal }
    }

    pub open spec fn spec_flip(&self) -> Vertex {
        Vertex { position: self.position, normal: self.normal.negate() }
    }

    pub open spec fn spec_interpolate(&self, other: Vertex, t: Unit) -> Vertex {
        Vertex {
            position: self.position.lerp(other.position, t),
            normal: self.normal.lerp(other.normal, t),
        }
    }

    #[verifier::when_used_as_spec(spec_new)]
    pub fn new(position: Vector, normal: Vector) -> (r: Vertex)
        ensures
            r == Vertex::spec_new(position, normal),
    {
        Vertex { position, normal }
    }

    /// The same corner seen from the other side: the normal is negated, the
    /// position stays.
    #[verifier::when_used_as_spec(spec_flip)]
    pub fn flip(&self) -> (r: Vertex)
        ensures
            r == self.spec_flip(),
    {
        Vertex { position: self.position, normal: self.normal.negate() }
    }

    /// The corner at parameter `t` on the way to `other`; position and normal
    /// are interpolated independently.
    #[verifier::when_used_as_spec(spec_interpolate)]
    pub fn interpolate(&self, other: Vertex, t: Unit) -> (r: Vertex)
        ensures
            r == self.spec_interpolate(other, t),
    {
        Vertex {
            position: self.position.lerp(other.position, t),
            normal: self.normal.lerp(other.normal, t),
        }
    }
}

} // verus!
