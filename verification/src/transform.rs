//! Moving, turning and stretching solids.
//!
//! A transformation acts on the corners of the boundary, one by one. The
//! plane of each polygon is then found again from its first three corners.

use vstd::prelude::*;
use crate::csg::Csg;
use crate::polygon::{Polygon, PolygonModel};
use crate::split::push_polygon;
use crate::unit::Unit;
use crate::vector::Vector;
use crate::vertex::Vertex;

verus! {

/// A transformation of corners.
#[derive(Clone, Copy, Debug)]
pub enum Motion {
    /// Moves every position by a vector.
    Translate(Vector),
    /// Turns every position, and every normal that has a length, about an
    /// axis by an angle in degrees.
    Rotate(Vector, Unit),
    /// Multiplies every position by a factor for each coordinate. Normals
    /// stay as they are, so a stretch that is not the same along all three
    /// axes leaves them no longer perpendicular to the surface.
    Scale(Vector),
}

impl Motion {
    pub open spec fn spec_apply(&self, vert: Vertex) -> Vertex {
        match *self {
            Motion::Translate(by) => Vertex {
                position: vert.position.add(by),
                normal: vert.normal,
            },
            Motion::Rotate(axis, angle_deg) => Vertex {
                position: vert.position.rotate(axis, angle_deg),
                normal: if vert.normal.length().gt(Unit::zero()) {
                    vert.normal.rotate(axis, angle_deg)
                } else {
                    vert.normal
                },
            },
            Motion::Scale(by) => Vertex {
                position: Vector(
                    vert.position.0.mul(by.0),
                    vert.position.1.mul(by.1),
                    vert.position.2.mul(by.2),
                ),
                normal: vert.normal,
            },
        }
    }

    /// The corner after the transformation.
    #[verifier::when_used_as_spec(spec_apply)]
    pub fn apply(&self, vert: Vertex) -> (r: Vertex)
        ensures
            r == self.spec_apply(vert),
    {
        match *self {
            Motion::Translate(by) => Vertex {
                position: vert.position.add(by),
                normal: vert.normal,
            },
            Motion::Rotate(axis, angle_deg) => Vertex {
                position: vert.position.rotate(axis, angle_deg),
                normal: if vert.normal.length().gt(Unit::zero()) {
                    vert.normal.rotate(axis, angle_deg)
                } else {
                    vert.normal
                },
            },
            Motion::Scale(by) => Vertex {
                position: Vector(
                    vert.position.0.mul(by.0),
                    vert.position.1.mul(by.1),
                    vert.position.2.mul(by.2),
                ),
                normal: vert.normal,
            },
        }
    }

    /// The polygon on the transformed corners.
    pub open spec fn remake(&self, poly: PolygonModel) -> PolygonModel {
        PolygonModel::of(
            Seq::new(poly.vertices.len(), |j: int| self.spec_apply(poly.vertices[j])),
        )
    }

    /// Every polygon of the list, remade.
    pub open spec fn remake_all(&self, polys: Seq<PolygonModel>) -> Seq<PolygonModel> {
        Seq::new(polys.len(), |i: int| self.remake(polys[i]))
    }
}

impl Csg {
    /// Applies `func` to every corner of the boundary and finds the plane of
    /// each polygon again from its first three corners.
    pub fn transform_vertices<F>(self, func: F) -> (r: Csg) where F: Fn(Vertex) -> Vertex
        requires
            self.well_formed(),
            forall|i: int, j: int|
                0 <= i < self@.len() && 0 <= j < self@[i].vertices.len() ==> call_requires(
                    func,
                    (#[trigger] self@[i].vertices[j],),
                ),
        ensures
            r@.len() == self@.len(),
            r.well_formed(),
            forall|i: int|
                0 <= i < self@.len() ==> (#[trigger] r@[i]).vertices.len()
                    == self@[i].vertices.len(),
            forall|i: int, j: int|
                0 <= i < self@.len() && 0 <= j < self@[i].vertices.len() ==> call_ensures(
                    func,
                    (self@[i].vertices[j],),
                    #[trigger] r@[i].vertices[j],
                ),
            forall|i: int| 0 <= i < self@.len() ==> #[trigger] r@[i] == PolygonModel::of(
                r@[i].vertices,
            ),
    {
        let mut polygons: Vec<Polygon> = Vec::new();
        let n = self.polygons.len();
        let mut i: usize = 0;
        while i < n
            invariant
                n == self.polygons.len(),
                n == self@.len(),
                i <= n,
                self.well_formed(),
                forall|p: int, q: int|
                    0 <= p < self@.len() && 0 <= q < self@[p].vertices.len() ==> call_requires(
                        func,
                        (#[trigger] self@[p].vertices[q],),
                    ),
                polygons@.len() == i,
                polygons.deep_view().len() == i,
                forall|p: int|
                    0 <= p < i ==> (#[trigger] polygons.deep_view()[p]).vertices.len()
                        == self@[p].vertices.len(),
                forall|p: int, q: int|
                    0 <= p < i && 0 <= q < self@[p].vertices.len() ==> call_ensures(
                        func,
                        (self@[p].vertices[q],),
                        #[trigger] polygons.deep_view()[p].vertices[q],
                    ),
                forall|p: int|
                    0 <= p < i ==> #[trigger] polygons.deep_view()[p] == PolygonModel::of(
                        polygons.deep_view()[p].vertices,
                    ),
            decreases n - i,
        {
            let poly = &self.polygons[i];
            let m = poly.vertices.len();
            assert(self@[i as int] == poly@);
            assert(self@[i as int].well_formed());
            let mut vertices: Vec<Vertex> = Vec::new();
            let mut j: usize = 0;
            while j < m
                invariant
                    m == poly.vertices.len(),
                    j <= m,
                    i < n,
                    n == self@.len(),
                    self@[i as int] == poly@,
                    forall|p: int, q: int|
                        0 <= p < self@.len() && 0 <= q < self@[p].vertices.len()
                            ==> call_requires(func, (#[trigger] self@[p].vertices[q],)),
                    vertices@.len() == j,
                    forall|q: int|
                        0 <= q < j ==> call_ensures(
                            func,
                            (poly.vertices@[q],),
                            #[trigger] vertices@[q],
                        ),
                decreases m - j,
            {
                assert(self@[i as int].vertices[j as int] == poly.vertices@[j as int]);
                vertices.push(func(poly.vertices[j]));
                j += 1;
            }
            let ghost done = polygons.deep_view();
            let ghost corners = vertices@;
            push_polygon(&mut polygons, Polygon::on(vertices));
            assert(polygons.deep_view() == done.push(PolygonModel::of(corners)));
            i += 1;
        }
        Csg { polygons }
    }

    /// Transforms every corner of the boundary by `motion`.
    pub fn transformed(self, motion: Motion) -> (r: Csg)
        requires
            self.well_formed(),
        ensures
            r@ == motion.remake_all(self@),
            r.well_formed(),
    {
        let ghost before = self@;
        let func = |vert: Vertex| -> (out: Vertex)
            ensures
                out == motion.spec_apply(vert),
            { motion.apply(vert) };
        let r = self.transform_vertices(func);
        proof {
            assert forall|i: int| 0 <= i < before.len() implies r@[i] == motion.remake(
                before[i],
            ) by {
                assert(r@[i] == PolygonModel::of(r@[i].vertices));
                assert(r@[i].vertices.len() == before[i].vertices.len());
                assert forall|j: int| 0 <= j < before[i].vertices.len() implies r@[i].vertices[j]
                    == motion.spec_apply(before[i].vertices[j]) by {
                    assert(call_ensures(func, (before[i].vertices[j],), r@[i].vertices[j]));
                }
                assert(r@[i].vertices =~= motion.remake(before[i]).vertices);
            }
            assert(r@ =~= motion.remake_all(before));
        }
        r
    }

    /// The solid moved by `v`.
    pub fn translate(self, v: Vector) -> (r: Csg)
        requires
            self.well_formed(),
        ensures
            r@ == Motion::Translate(v).remake_all(self@),
            r.well_formed(),
    {
        self.transformed(Motion::Translate(v))
    }

    /// The solid turned about `axis` by an angle in degrees.
    pub fn rotate(self, axis: Vector, angle_deg: Unit) -> (r: Csg)
        requires
            self.well_formed(),
        ensures
            r@ == Motion::Rotate(axis, angle_deg).remake_all(self@),
            r.well_formed(),
    {
        self.transformed(Motion::Rotate(axis, angle_deg))
    }

    /// The solid stretched by a factor for each coordinate.
    pub fn scale(self, v: Vector) -> (r: Csg)
        requires
            self.well_formed(),
        ensures
            r@ == Motion::Scale(v).remake_all(self@),
            r.well_formed(),
    {
        self.transformed(Motion::Scale(v))
    }
}

} // verus!
