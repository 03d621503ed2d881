//! Convex polygons.

use vstd::prelude::*;
use crate::plane::Plane;
use crate::vertex::Vertex;

verus! {

/// A convex, flat loop of at least three corners, with the plane it lies in.
/// The order of the corners decides which side is outward.
#[derive(Debug)]
pub struct Polygon {
    pub vertices: Vec<Vertex>,
    pub plane: Plane,
}

/// What a polygon is, mathematically: its corners in order, and its plane.
pub struct PolygonModel {
    pub vertices: Seq<Vertex>,
    pub plane: Plane,
}

impl PolygonModel {
    /// The polygon on the given corners, lying in the plane through the first
    /// three of them.
    pub open spec fn of(vertices: Seq<Vertex>) -> PolygonModel {
        PolygonModel {
            vertices,
            plane: Plane::from_points(
                vertices[0].position,
                vertices[1].position,
                vertices[2].position,
            ),
        }
    }

    /// A polygon has at least three corners.
    pub open spec fn well_formed(self) -> bool {
        self.vertices.len() >= 3
    }

    /// The corners in reverse order, each one flipped.
    pub open spec fn flipped_vertices(self) -> Seq<Vertex> {
        Seq::new(
            self.vertices.len(),
            |i: int| self.vertices[self.vertices.len() - 1 - i].flip(),
        )
    }

    /// The same polygon facing the other way.
    pub open spec fn flipped(self) -> PolygonModel {
        PolygonModel { vertices: self.flipped_vertices(), plane: self.plane.flip() }
    }
}

impl View for Polygon {
    type V = PolygonModel;

    open spec fn view(&self) -> PolygonModel {
        PolygonModel { vertices: self.vertices@, plane: self.plane }
    }
}

impl DeepView for Polygon {
    type V = PolygonModel;

    open spec fn deep_view(&self) -> PolygonModel {
        self@
    }
}

impl Clone for Polygon {
    fn clone(&self) -> (r: Polygon)
        ensures
            r@ == self@,
    {
        let mut vertices: Vec<Vertex> = Vec::new();
        let mut i: usize = 0;
        while i < self.vertices.len()
            invariant
                i <= self.vertices.len(),
                vertices@ == self.vertices@.subrange(0, i as int),
            decreases self.vertices.len() - i,
        {
            vertices.push(self.vertices[i]);
            i += 1;
        }
        assert(vertices@ =~= self.vertices@);
        Polygon { vertices, plane: self.plane }
    }
}

impl Polygon {
    /// At least three corners.
    pub open spec fn well_formed(&self) -> bool {
        self@.well_formed()
    }

    /// Whether the corners make a polygon: there are at least three, and the
    /// first three span a plane.
    pub open spec fn spec_admits(vertices: Seq<Vertex>) -> bool {
        vertices.len() >= 3 && Plane::spec_spans(
            vertices[0].position,
            vertices[1].position,
            vertices[2].position,
        )
    }

    /// Whether the corners make a polygon.
    pub fn admits(vertices: &Vec<Vertex>) -> (r: bool)
        ensures
            r == Polygon::spec_admits(vertices@),
    {
        vertices.len() >= 3 && Plane::spans(
            vertices[0].position,
            vertices[1].position,
            vertices[2].position,
        )
    }

    /// The polygon on the given corners. Its plane is the one through the
    /// first three of them, which have to span one.
    pub fn new(vertices: Vec<Vertex>) -> (r: Polygon)
        requires
            Polygon::spec_admits(vertices@),
        ensures
            r@ == PolygonModel::of(vertices@),
            r.well_formed(),
    {
        Polygon::on(vertices)
    }

    /// The polygon on the given corners, if they make one.
    pub fn try_new(vertices: Vec<Vertex>) -> (r: Option<Polygon>)
        ensures
            (r is Some) == Polygon::spec_admits(vertices@),
            r matches Some(p) ==> p@ == PolygonModel::of(vertices@) && p.well_formed(),
    {
        if Polygon::admits(&vertices) {
            Some(Polygon::new(vertices))
        } else {
            None
        }
    }

    /// The polygon on at least three corners, with the plane that the
    /// formula gives for the first three, whether they span one or not.
    pub(crate) fn on(vertices: Vec<Vertex>) -> (r: Polygon)
        requires
            vertices@.len() >= 3,
        ensures
            r@ == PolygonModel::of(vertices@),
            r.well_formed(),
    {
        let plane = Plane::through(
            vertices[0].position,
            vertices[1].position,
            vertices[2].position,
        );
        Polygon { vertices, plane }
    }

    /// Turns the polygon to face the other way: the corners come in reverse
    /// order, each with its normal negated, and the plane is flipped.
    pub fn flip(&mut self)
        ensures
            final(self)@ == old(self)@.flipped(),
    {
        let n = self.vertices.len();
        let mut reversed: Vec<Vertex> = Vec::new();
        let mut i: usize = n;
        while i > 0
            invariant
                n == self.vertices.len(),
                i <= n,
                reversed@.len() == n - i,
                forall|k: int|
                    0 <= k < reversed@.len() ==> reversed@[k] == self.vertices@[n - 1
                        - k].flip(),
            decreases i,
        {
            i -= 1;
            reversed.push(self.vertices[i].flip());
        }
        self.vertices = reversed;
        self.plane = self.plane.flip();
        assert(self@.vertices =~= old(self)@.flipped_vertices());
    }
}

/// Flipping a polygon twice gives it back.
pub proof fn lemma_polygon_flip_involution(p: PolygonModel)
    ensures
        p.flipped().flipped() == p,
{
    assert(p.flipped().flipped().vertices =~= p.vertices);
}

} // verus!
