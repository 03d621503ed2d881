//! Cutting a polygon by a plane.
//!
//! A polygon that lies on one side of the plane is handed on whole. One that
//! lies in the plane is sorted by the way it faces. One that reaches both
//! sides is cut along the plane into a front piece and a back piece.

use vstd::prelude::*;
use crate::plane::{Location, Plane};
use crate::polygon::{Polygon, PolygonModel};
use crate::unit::Unit;
use crate::vertex::Vertex;

verus! {

impl Plane {
    /// Whether some corner of the loop lies at `loc`.
    pub open spec fn touches(&self, vertices: Seq<Vertex>, loc: Location) -> bool {
        exists|i: int|
            0 <= i < vertices.len() && self.classify((#[trigger] vertices[i]).position) == loc
    }

    /// Where a loop of corners lies: on both sides when it has a corner in
    /// front and one behind, on one side when it has corners on that side
    /// only, and in the plane when every corner is on the plane.
    pub open spec fn locate(&self, vertices: Seq<Vertex>) -> Location {
        let front = self.touches(vertices, Location::Front);
        let back = self.touches(vertices, Location::Back);
        if front && back {
            Location::Spanning
        } else if front {
            Location::Front
        } else if back {
            Location::Back
        } else {
            Location::Coplanar
        }
    }

    /// The locations of the first `k` corners, joined.
    pub open spec fn joined(&self, vertices: Seq<Vertex>, k: int) -> Location
        decreases k,
    {
        if k <= 0 {
            Location::Coplanar
        } else {
            self.joined(vertices, k - 1).join(self.classify(vertices[k - 1].position))
        }
    }

    /// Whether a polygon in this plane faces the way the plane does.
    pub open spec fn faces_along(&self, other: Plane) -> bool {
        self.0.dot(other.0).gt(Unit::zero())
    }

    /// The corner at which the edge from `a` to `b` meets the plane.
    pub open spec fn crossing(&self, a: Vertex, b: Vertex) -> Vertex {
        let t = self.1.sub(self.0.dot(a.position)).div(
            self.0.dot(b.position.sub(a.position)),
        );
        a.interpolate(b, t)
    }

    /// Whether the edge that starts at corner `i` has one end strictly in
    /// front of the plane and the other strictly behind it.
    pub open spec fn edge_crosses(&self, vertices: Seq<Vertex>, i: int) -> bool {
        let j = (i + 1) % (vertices.len() as int);
        self.classify(vertices[i].position).join(self.classify(vertices[j].position))
            == Location::Spanning
    }

    /// What the edge that starts at corner `i` adds to a piece: the crossing
    /// point, if the edge crosses the plane.
    pub open spec fn edge_part(&self, vertices: Seq<Vertex>, i: int) -> Seq<Vertex> {
        let j = (i + 1) % (vertices.len() as int);
        if self.edge_crosses(vertices, i) {
            seq![self.crossing(vertices[i], vertices[j])]
        } else {
            seq![]
        }
    }

    /// What corner `i` and the edge that starts there add to the front
    /// piece: the corner unless it lies behind, then the crossing point.
    pub open spec fn front_part(&self, vertices: Seq<Vertex>, i: int) -> Seq<Vertex> {
        let own = if self.classify(vertices[i].position) != Location::Back {
            seq![vertices[i]]
        } else {
            seq![]
        };
        own + self.edge_part(vertices, i)
    }

    /// What corner `i` and the edge that starts there add to the back piece:
    /// the corner unless it lies in front, then the crossing point.
    pub open spec fn back_part(&self, vertices: Seq<Vertex>, i: int) -> Seq<Vertex> {
        let own = if self.classify(vertices[i].position) != Location::Front {
            seq![vertices[i]]
        } else {
            seq![]
        };
        own + self.edge_part(vertices, i)
    }

    /// The front piece as far as the first `k` corners give it.
    pub open spec fn front_loop(&self, vertices: Seq<Vertex>, k: int) -> Seq<Vertex>
        decreases k,
    {
        if k <= 0 {
            seq![]
        } else {
            self.front_loop(vertices, k - 1) + self.front_part(vertices, k - 1)
        }
    }

    /// The back piece as far as the first `k` corners give it.
    pub open spec fn back_loop(&self, vertices: Seq<Vertex>, k: int) -> Seq<Vertex>
        decreases k,
    {
        if k <= 0 {
            seq![]
        } else {
            self.back_loop(vertices, k - 1) + self.back_part(vertices, k - 1)
        }
    }

    /// The polygon on `vertices`, if they are enough to make one.
    pub open spec fn piece(vertices: Seq<Vertex>) -> Seq<PolygonModel> {
        if vertices.len() >= 3 {
            seq![PolygonModel::of(vertices)]
        } else {
            seq![]
        }
    }

    /// What a polygon gives to the list of polygons that lie in the plane
    /// and face the way it does.
    pub open spec fn split_coplanar_front(&self, poly: PolygonModel) -> Seq<PolygonModel> {
        if self.locate(poly.vertices) == Location::Coplanar && self.faces_along(poly.plane) {
            seq![poly]
        } else {
            seq![]
        }
    }

    /// What a polygon gives to the list of polygons that lie in the plane
    /// and face the other way.
    pub open spec fn split_coplanar_back(&self, poly: PolygonModel) -> Seq<PolygonModel> {
        if self.locate(poly.vertices) == Location::Coplanar && !self.faces_along(poly.plane) {
            seq![poly]
        } else {
            seq![]
        }
    }

    /// What a polygon gives to the list of polygons in front of the plane:
    /// itself when it lies in front, its front piece when it is cut.
    pub open spec fn split_front(&self, poly: PolygonModel) -> Seq<PolygonModel> {
        match self.locate(poly.vertices) {
            Location::Front => seq![poly],
            Location::Spanning => Plane::piece(
                self.front_loop(poly.vertices, poly.vertices.len() as int),
            ),
            _ => seq![],
        }
    }

    /// What a polygon gives to the list of polygons behind the plane: itself
    /// when it lies behind, its back piece when it is cut.
    pub open spec fn split_back(&self, poly: PolygonModel) -> Seq<PolygonModel> {
        match self.locate(poly.vertices) {
            Location::Back => seq![poly],
            Location::Spanning => Plane::piece(
                self.back_loop(poly.vertices, poly.vertices.len() as int),
            ),
            _ => seq![],
        }
    }

    /// Joining the locations of the corners one by one finds where the loop
    /// lies.
    pub proof fn lemma_joined_locates(&self, vertices: Seq<Vertex>)
        ensures
            self.joined(vertices, vertices.len() as int) == self.locate(vertices),
    {
        self.lemma_joined_prefix(vertices, vertices.len() as int);
    }

    /// The join of the first `k` locations has the front flag exactly when
    /// one of those corners lies in front, and likewise for the back flag.
    proof fn lemma_joined_prefix(&self, vertices: Seq<Vertex>, k: int)
        requires
            0 <= k <= vertices.len(),
        ensures
            ({
                let j = self.joined(vertices, k);
                let front = exists|i: int|
                    0 <= i < k && self.classify((#[trigger] vertices[i]).position)
                        == Location::Front;
                let back = exists|i: int|
                    0 <= i < k && self.classify((#[trigger] vertices[i]).position)
                        == Location::Back;
                j == if front && back {
                    Location::Spanning
                } else if front {
                    Location::Front
                } else if back {
                    Location::Back
                } else {
                    Location::Coplanar
                }
            }),
        decreases k,
    {
        if k > 0 {
            self.lemma_joined_prefix(vertices, k - 1);
            let last = self.classify(vertices[k - 1].position);
            assert(last != Location::Spanning);
            if last == Location::Front {
                assert(self.classify(vertices[k - 1].position) == Location::Front);
            }
            if last == Location::Back {
                assert(self.classify(vertices[k - 1].position) == Location::Back);
            }
        }
    }

    /// Splits `poly` by this plane and appends what comes of it to the four
    /// lists. A polygon in the plane goes to `coplane_front` when it faces
    /// the way the plane does, else to `coplane_back`. A polygon on one side
    /// goes to `front` or `back` as it is. A polygon on both sides is cut:
    /// its front piece goes to `front` and its back piece to `back`, each
    /// only if it has at least three corners.
    pub fn split_polygon(
        &self,
        poly: &Polygon,
        coplane_front: &mut Vec<Polygon>,
        coplane_back: &mut Vec<Polygon>,
        front: &mut Vec<Polygon>,
        back: &mut Vec<Polygon>,
    )
        ensures
            final(coplane_front).deep_view() == old(coplane_front).deep_view()
                + self.split_coplanar_front(poly@),
            final(coplane_back).deep_view() == old(coplane_back).deep_view()
                + self.split_coplanar_back(poly@),
            final(front).deep_view() == old(front).deep_view() + self.split_front(poly@),
            final(back).deep_view() == old(back).deep_view() + self.split_back(poly@),
    {
        let n = poly.vertices.len();
        let mut polygon_type = Location::Coplanar;
        let mut locs: Vec<Location> = Vec::new();
        let mut k: usize = 0;
        while k < n
            invariant
                n == poly.vertices@.len(),
                k <= n,
                locs@.len() == k,
                forall|i: int|
                    0 <= i < k ==> locs@[i] == self.classify(poly.vertices@[i].position),
                polygon_type == self.joined(poly.vertices@, k as int),
            decreases n - k,
        {
            let loc = self.classify(poly.vertices[k].position);
            polygon_type = polygon_type.join(loc);
            locs.push(loc);
            k += 1;
        }
        proof {
            self.lemma_joined_locates(poly.vertices@);
        }
        match polygon_type {
            Location::Coplanar => {
                if self.0.dot(poly.plane.0).gt(Unit::zero()) {
                    push_polygon(coplane_front, poly.clone());
                } else {
                    push_polygon(coplane_back, poly.clone());
                }
            },
            Location::Front => {
                push_polygon(front, poly.clone());
            },
            Location::Back => {
                push_polygon(back, poly.clone());
            },
            Location::Spanning => {
                let mut f: Vec<Vertex> = Vec::new();
                let mut b: Vec<Vertex> = Vec::new();
                let mut i: usize = 0;
                while i < n
                    invariant
                        n == poly.vertices@.len(),
                        i <= n,
                        locs@.len() == n,
                        forall|m: int|
                            0 <= m < n ==> locs@[m] == self.classify(
                                poly.vertices@[m].position,
                            ),
                        f@ == self.front_loop(poly.vertices@, i as int),
                        b@ == self.back_loop(poly.vertices@, i as int),
                    decreases n - i,
                {
                    let j = (i + 1) % n;
                    let ti = locs[i];
                    let tj = locs[j];
                    let vi = poly.vertices[i];
                    let vj = poly.vertices[j];
                    if ti != Location::Back {
                        f.push(vi);
                    }
                    if ti != Location::Front {
                        b.push(vi);
                    }
                    if ti.join(tj) == Location::Spanning {
                        let t = self.1.sub(self.0.dot(vi.position)).div(
                            self.0.dot(vj.position.sub(vi.position)),
                        );
                        let v = vi.interpolate(vj, t);
                        f.push(v);
                        b.push(v);
                    }
                    assert(f@ =~= self.front_loop(poly.vertices@, i as int) + self.front_part(
                        poly.vertices@,
                        i as int,
                    ));
                    assert(b@ =~= self.back_loop(poly.vertices@, i as int) + self.back_part(
                        poly.vertices@,
                        i as int,
                    ));
                    i += 1;
                }
                if f.len() >= 3 {
                    push_polygon(front, Polygon::on(f));
                }
                if b.len() >= 3 {
                    push_polygon(back, Polygon::on(b));
                }
            },
        }
        assert(final(coplane_front).deep_view() =~= old(coplane_front).deep_view()
            + self.split_coplanar_front(poly@));
        assert(final(coplane_back).deep_view() =~= old(coplane_back).deep_view()
            + self.split_coplanar_back(poly@));
        assert(final(front).deep_view() =~= old(front).deep_view() + self.split_front(poly@));
        assert(final(back).deep_view() =~= old(back).deep_view() + self.split_back(poly@));
    }
}

/// The parts into which a plane sorts a list of polygons.
#[derive(Clone, Copy, Debug, PartialEq, Eq, Structural)]
pub enum Part {
    /// What lies in the plane, whichever way it faces.
    InPlane,
    /// What lies in front of the plane.
    Front,
    /// What lies behind the plane.
    Back,
    /// What lies in front of the plane, or in it and facing the way it does.
    Outside,
    /// What lies behind the plane, or in it and facing the other way.
    Inside,
}

impl Plane {
    /// What one polygon gives to a part.
    pub open spec fn share(&self, part: Part, poly: PolygonModel) -> Seq<PolygonModel> {
        match part {
            Part::InPlane => self.split_coplanar_front(poly) + self.split_coplanar_back(poly),
            Part::Front => self.split_front(poly),
            Part::Back => self.split_back(poly),
            Part::Outside => self.split_coplanar_front(poly) + self.split_front(poly),
            Part::Inside => self.split_coplanar_back(poly) + self.split_back(poly),
        }
    }

    /// What a list of polygons gives to a part: the shares of its polygons,
    /// in the order of the list.
    pub open spec fn sort(&self, part: Part, polys: Seq<PolygonModel>) -> Seq<PolygonModel>
        decreases polys.len(),
    {
        if polys.len() == 0 {
            seq![]
        } else {
            self.sort(part, polys.drop_last()) + self.share(part, polys.last())
        }
    }

    /// A part holds at most as many polygons as the list that was sorted.
    pub proof fn lemma_sort_len(&self, part: Part, polys: Seq<PolygonModel>)
        ensures
            self.sort(part, polys).len() <= polys.len(),
        decreases polys.len(),
    {
        if polys.len() > 0 {
            self.lemma_sort_len(part, polys.drop_last());
            lemma_split_shares(*self, polys.last());
        }
    }

    /// Sorting well-formed polygons gives well-formed polygons.
    pub proof fn lemma_sort_well_formed(&self, part: Part, polys: Seq<PolygonModel>)
        requires
            all_well_formed(polys),
        ensures
            all_well_formed(self.sort(part, polys)),
        decreases polys.len(),
    {
        if polys.len() > 0 {
            self.lemma_sort_well_formed(part, polys.drop_last());
            lemma_split_well_formed(*self, polys.last());
        }
    }
}

/// Every polygon of the list has at least three corners.
pub open spec fn all_well_formed(polys: Seq<PolygonModel>) -> bool {
    forall|i: int| 0 <= i < polys.len() ==> (#[trigger] polys[i]).well_formed()
}

/// Appends a polygon to a list.
pub fn push_polygon(list: &mut Vec<Polygon>, poly: Polygon)
    ensures
        final(list).deep_view() == old(list).deep_view().push(poly@),
        final(list)@ == old(list)@.push(poly),
{
    list.push(poly);
    assert(list.deep_view() =~= old(list).deep_view().push(poly@));
}

/// A polygon gives each list at most one polygon, and goes to exactly one
/// list unless it is cut.
pub proof fn lemma_split_shares(plane: Plane, poly: PolygonModel)
    ensures
        plane.split_coplanar_front(poly).len() <= 1,
        plane.split_coplanar_back(poly).len() <= 1,
        plane.split_front(poly).len() <= 1,
        plane.split_back(poly).len() <= 1,
        plane.locate(poly.vertices) != Location::Spanning ==> plane.split_coplanar_front(
            poly,
        ).len() + plane.split_coplanar_back(poly).len() + plane.split_front(poly).len()
            + plane.split_back(poly).len() == 1,
        plane.locate(poly.vertices) == Location::Spanning ==> plane.split_coplanar_front(
            poly,
        ).len() + plane.split_coplanar_back(poly).len() == 0,
{
}

/// Whatever a well-formed polygon gives to a list is well formed.
pub proof fn lemma_split_well_formed(plane: Plane, poly: PolygonModel)
    requires
        poly.well_formed(),
    ensures
        forall|i: int|
            0 <= i < plane.split_coplanar_front(poly).len()
                ==> (#[trigger] plane.split_coplanar_front(poly)[i]).well_formed(),
        forall|i: int|
            0 <= i < plane.split_coplanar_back(poly).len()
                ==> (#[trigger] plane.split_coplanar_back(poly)[i]).well_formed(),
        forall|i: int|
            0 <= i < plane.split_front(poly).len() ==> (#[trigger] plane.split_front(
                poly,
            )[i]).well_formed(),
        forall|i: int|
            0 <= i < plane.split_back(poly).len() ==> (#[trigger] plane.split_back(
                poly,
            )[i]).well_formed(),
{
}

} // verus!
