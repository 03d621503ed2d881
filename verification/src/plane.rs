//! Planes, and on which side of one a point lies.

use vstd::prelude::*;
use crate::unit::Unit;
use crate::vector::Vector;

verus! {

/// Where a point, or a whole polygon, lies with respect to a plane.
#[derive(Clone, Copy, Debug, PartialEq, Eq, Structural)]
pub enum Location {
    /// On the plane, within the tolerance.
    Coplanar,
    /// On the side the normal points to.
    Front,
    /// On the side the normal points away from.
    Back,
    /// On both sides.
    Spanning,
}

impl Location {
    /// The location as a pair of flags: bit 0 for front, bit 1 for back.
    pub open spec fn spec_bits(self) -> u32 {
        match self {
            Location::Coplanar => 0,
            Location::Front => 1,
            Location::Back => 2,
            Location::Spanning => 3,
        }
    }

    /// The location of two things taken together.
    pub open spec fn spec_join(self, other: Location) -> Location {
        match (self, other) {
            (Location::Coplanar, _) => other,
            (_, Location::Coplanar) => self,
            (Location::Front, Location::Front) => Location::Front,
            (Location::Back, Location::Back) => Location::Back,
            _ => Location::Spanning,
        }
    }

    #[verifier::when_used_as_spec(spec_bits)]
    pub fn bits(self) -> (r: u32)
        ensures
            r == self.spec_bits(),
    {
        match self {
            Location::Coplanar => 0,
            Location::Front => 1,
            Location::Back => 2,
            Location::Spanning => 3,
        }
    }

    /// The location of two things taken together: the union of their flags.
    #[verifier::when_used_as_spec(spec_join)]
    pub fn join(self, other: Location) -> (r: Location)
        ensures
            r == self.spec_join(other),
            r.bits() == self.bits() | other.bits(),
    {
        proof {
            lemma_join_is_union(self, other);
        }
        match (self, other) {
            (Location::Coplanar, _) => other,
            (_, Location::Coplanar) => self,
            (Location::Front, Location::Front) => Location::Front,
            (Location::Back, Location::Back) => Location::Back,
            _ => Location::Spanning,
        }
    }
}

/// Joining two locations is the bitwise or of their flags.
pub proof fn lemma_join_is_union(a: Location, b: Location)
    ensures
        a.join(b).bits() == a.bits() | b.bits(),
{
    assert(0u32 | 0u32 == 0u32 && 0u32 | 1u32 == 1u32 && 0u32 | 2u32 == 2u32 && 0u32 | 3u32 == 3u32
        && 1u32 | 0u32 == 1u32 && 1u32 | 1u32 == 1u32 && 1u32 | 2u32 == 3u32 && 1u32 | 3u32 == 3u32
        && 2u32 | 0u32 == 2u32 && 2u32 | 1u32 == 3u32 && 2u32 | 2u32 == 2u32 && 2u32 | 3u32 == 3u32
        && 3u32 | 0u32 == 3u32 && 3u32 | 1u32 == 3u32 && 3u32 | 2u32 == 3u32 && 3u32 | 3u32 == 3u32)
        by (bit_vector);
}

/// The set of points `p` with `normal . p == offset`: a unit normal and a
/// signed offset from the origin.
#[derive(Clone, Copy, Debug)]
pub struct Plane(pub Vector, pub Unit);

impl Plane {
    pub open spec fn spec_from_points(v0: Vector, v1: Vector, v2: Vector) -> Plane {
        let n = v1.sub(v0).cross(v2.sub(v0)).normalize();
        Plane(n, n.dot(v0))
    }

    /// The perpendicular to the two edges that leave `v0`, not yet of unit
    /// length.
    pub open spec fn perpendicular(v0: Vector, v1: Vector, v2: Vector) -> Vector {
        v1.sub(v0).cross(v2.sub(v0))
    }

    pub open spec fn spec_spans(v0: Vector, v1: Vector, v2: Vector) -> bool {
        let len = Plane::perpendicular(v0, v1, v2).length();
        !len.is_nan() && len.gt(Unit::zero())
    }

    pub open spec fn spec_flip(&self) -> Plane {
        Plane(self.0.negate(), self.1.neg())
    }

    /// The signed distance of a point from the plane.
    pub open spec fn spec_distance(&self, point: Vector) -> Unit {
        self.0.dot(point).sub(self.1)
    }

    pub open spec fn spec_classify(&self, point: Vector) -> Location {
        let t = self.spec_distance(point);
        if t.lt(Unit::epsilon().neg()) {
            Location::Back
        } else if t.gt(Unit::epsilon()) {
            Location::Front
        } else {
            Location::Coplanar
        }
    }

    /// Whether three points span a plane: the perpendicular to the two
    /// edges that leave the first point has a length, and the length is a
    /// number above zero. Three points on one line span none.
    #[verifier::when_used_as_spec(spec_spans)]
    pub fn spans(v0: Vector, v1: Vector, v2: Vector) -> (r: bool)
        ensures
            r == Plane::spec_spans(v0, v1, v2),
    {
        let len = v1.sub(v0).cross(v2.sub(v0)).length();
        !len.is_nan() && len.gt(Unit::zero())
    }

    /// The plane through three points that span one, facing the side from
    /// which they are seen in counter-clockwise order.
    #[verifier::when_used_as_spec(spec_from_points)]
    pub fn from_points(v0: Vector, v1: Vector, v2: Vector) -> (r: Plane)
        requires
            Plane::spec_spans(v0, v1, v2),
        ensures
            r == Plane::spec_from_points(v0, v1, v2),
    {
        Plane::through(v0, v1, v2)
    }

    /// The plane through three points, if they span one.
    pub fn try_from_points(v0: Vector, v1: Vector, v2: Vector) -> (r: Option<Plane>)
        ensures
            r == if Plane::spec_spans(v0, v1, v2) {
                Some(Plane::spec_from_points(v0, v1, v2))
            } else {
                None::<Plane>
            },
    {
        if Plane::spans(v0, v1, v2) {
            Some(Plane::from_points(v0, v1, v2))
        } else {
            None
        }
    }

    /// The plane that the formula gives for three points, whether they span
    /// one or not. Pieces cut from a polygon and corners that were moved get
    /// their plane here: where they have come to lie on one line, the normal
    /// holds no numbers.
    pub(crate) fn through(v0: Vector, v1: Vector, v2: Vector) -> (r: Plane)
        ensures
            r == Plane::spec_from_points(v0, v1, v2),
    {
        let n = v1.sub(v0).cross(v2.sub(v0)).normalize();
        Plane(n, n.dot(v0))
    }

    /// The same plane facing the other way.
    #[verifier::when_used_as_spec(spec_flip)]
    pub fn flip(&self) -> (r: Plane)
        ensures
            r == self.spec_flip(),
    {
        Plane(self.0.negate(), self.1.neg())
    }

    /// The signed distance of a point from the plane.
    #[verifier::when_used_as_spec(spec_distance)]
    pub fn distance(&self, point: Vector) -> (r: Unit)
        ensures
            r == self.spec_distance(point),
    {
        self.0.dot(point).sub(self.1)
    }

    /// On which side of the plane a point lies: behind it when the distance
    /// is below minus the tolerance, in front when it is above the tolerance,
    /// and on the plane otherwise.
    #[verifier::when_used_as_spec(spec_classify)]
    pub fn classify(&self, point: Vector) -> (r: Location)
        ensures
            r == self.spec_classify(point),
            r != Location::Spanning,
    {
        let t = self.distance(point);
        if t.lt(Unit::epsilon().neg()) {
            Location::Back
        } else if t.gt(Unit::epsilon()) {
            Location::Front
        } else {
            Location::Coplanar
        }
    }
}

/// Flipping a plane twice gives it back.
pub proof fn lemma_plane_flip_involution(p: Plane)
    ensures
        p.spec_flip().spec_flip() == p,
{
}

} // verus!
