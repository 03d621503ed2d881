//! Refining the boundary of a solid.
//!
//! Every polygon is replaced by one quadrilateral for each of its corners.
//! The quadrilateral of a corner starts at the corner, goes on to the middle
//! of the edge that leaves it, then to the centre of the polygon, and ends
//! at the middle of the edge that arrives at the corner. The first corner
//! makes the exception: its quadrilateral ends at the last corner of the
//! polygon itself.

use vstd::prelude::*;
use crate::bsp_node::append_polygons;
use crate::csg::Csg;
use crate::polygon::{Polygon, PolygonModel};
use crate::split::push_polygon;
use crate::unit::Unit;
use crate::vector::Vector;
use crate::vertex::Vertex;

verus! {

/// The sum of the positions of the first `k` corners, added up from the
/// origin in the order of the corners.
pub open spec fn position_sum(vertices: Seq<Vertex>, k: int) -> Vector
    decreases k,
{
    if k <= 0 {
        Vector(Unit::zero(), Unit::zero(), Unit::zero())
    } else {
        position_sum(vertices, k - 1).add(vertices[k - 1].position)
    }
}

/// The corner at the centre of a polygon: the mean of the positions, with
/// the normal of the first corner.
pub open spec fn centre(poly: PolygonModel) -> Vertex {
    let n = poly.vertices.len();
    Vertex {
        position: position_sum(poly.vertices, n as int).div(Unit::from_count(n as u32)),
        normal: poly.vertices[0].normal,
    }
}

/// The corner at the middle of the edge that leaves corner `i`.
pub open spec fn edge_middle(poly: PolygonModel, i: int) -> Vertex {
    poly.vertices[i].interpolate(
        poly.vertices[(i + 1) % (poly.vertices.len() as int)],
        Unit::half(),
    )
}

/// The quadrilateral of corner `i`.
pub open spec fn corner_quad(poly: PolygonModel, i: int) -> PolygonModel {
    PolygonModel::of(
        seq![
            poly.vertices[i],
            edge_middle(poly, i),
            centre(poly),
            if i == 0 {
                poly.vertices[poly.vertices.len() - 1]
            } else {
                edge_middle(poly, i - 1)
            },
        ],
    )
}

/// The quadrilaterals of a polygon, one for each corner, in the order of the
/// corners.
pub open spec fn corner_quads(poly: PolygonModel) -> Seq<PolygonModel> {
    Seq::new(poly.vertices.len(), |i: int| corner_quad(poly, i))
}

/// The quadrilaterals of a list of polygons, in the order of the list.
pub open spec fn refined(polys: Seq<PolygonModel>) -> Seq<PolygonModel>
    decreases polys.len(),
{
    if polys.len() == 0 {
        seq![]
    } else {
        refined(polys.drop_last()) + corner_quads(polys.last())
    }
}

/// The number of corners of a list of polygons.
pub open spec fn corner_count(polys: Seq<PolygonModel>) -> nat
    decreases polys.len(),
{
    if polys.len() == 0 {
        0
    } else {
        corner_count(polys.drop_last()) + polys.last().vertices.len()
    }
}

/// Refining gives one quadrilateral for each corner of the boundary.
pub proof fn lemma_refined(polys: Seq<PolygonModel>)
    ensures
        refined(polys).len() == corner_count(polys),
        forall|k: int|
            0 <= k < refined(polys).len() ==> (#[trigger] refined(polys)[k]).vertices.len() == 4,
    decreases polys.len(),
{
    if polys.len() > 0 {
        lemma_refined(polys.drop_last());
        let before = refined(polys.drop_last());
        let added = corner_quads(polys.last());
        assert forall|k: int| 0 <= k < (before + added).len() implies (#[trigger] (before
            + added)[k]).vertices.len() == 4 by {
            if k < before.len() {
                assert(before[k].vertices.len() == 4);
            } else {
                assert(added[k - before.len()].vertices.len() == 4);
            }
        }
    }
}

fn quads_of(poly: &Polygon) -> (r: Vec<Polygon>)
    requires
        poly.vertices@.len() <= u32::MAX,
    ensures
        r.deep_view() == corner_quads(poly@),
{
    let mut out: Vec<Polygon> = Vec::new();
    let n = poly.vertices.len();
    if n == 0 {
        assert(out.deep_view() =~= corner_quads(poly@));
        return out;
    }
    let mut sum = Vector(Unit::zero(), Unit::zero(), Unit::zero());
    let mut k: usize = 0;
    while k < n
        invariant
            n == poly.vertices@.len(),
            k <= n,
            sum == position_sum(poly.vertices@, k as int),
        decreases n - k,
    {
        sum = sum.add(poly.vertices[k].position);
        k += 1;
    }
    let mid = Vertex::new(sum.div(Unit::from_count(n as u32)), poly.vertices[0].normal);
    assert(mid == centre(poly@));
    let mut i: usize = 0;
    while i < n
        invariant
            n == poly.vertices@.len(),
            0 < n,
            i <= n,
            mid == centre(poly@),
            out.deep_view().len() == i,
            forall|q: int| 0 <= q < i ==> #[trigger] out.deep_view()[q] == corner_quad(poly@, q),
        decreases n - i,
    {
        let start = poly.vertices[i];
        let leaving = start.interpolate(poly.vertices[(i + 1) % n], Unit::half());
        let arriving = if i == 0 {
            poly.vertices[n - 1]
        } else {
            poly.vertices[i - 1].interpolate(poly.vertices[i], Unit::half())
        };
        proof {
            if i > 0 {
                vstd::arithmetic::div_mod::lemma_small_mod(i as nat, n as nat);
                assert(((i as int - 1) + 1) % (n as int) == i as int);
            }
        }
        let mut verts: Vec<Vertex> = Vec::new();
        verts.push(start);
        verts.push(leaving);
        verts.push(mid);
        verts.push(arriving);
        assert(verts@ =~= corner_quad(poly@, i as int).vertices);
        let ghost done = out.deep_view();
        push_polygon(&mut out, Polygon::on(verts));
        assert(out.deep_view() == done.push(corner_quad(poly@, i as int)));
        i += 1;
    }
    assert(out.deep_view() =~= corner_quads(poly@));
    out
}

impl Csg {
    /// The solid with every polygon of its boundary replaced by one
    /// quadrilateral for each of its corners. A polygon without corners
    /// gives none.
    pub fn refine(&self) -> (r: Csg)
        requires
            forall|p: int| 0 <= p < self@.len() ==> (#[trigger] self@[p]).vertices.len() <= u32::MAX,
        ensures
            r@ == refined(self@),
            r@.len() == corner_count(self@),
            r.well_formed(),
    {
        let mut polygons: Vec<Polygon> = Vec::new();
        assert(polygons.deep_view() =~= Seq::<PolygonModel>::empty());
        let n = self.polygons.len();
        let mut p: usize = 0;
        while p < n
            invariant
                n == self.polygons.len(),
                p <= n,
                forall|q: int|
                    0 <= q < self@.len() ==> (#[trigger] self@[q]).vertices.len() <= u32::MAX,
                polygons.deep_view() == refined(self@.subrange(0, p as int)),
            decreases n - p,
        {
            assert(self@[p as int] == self.polygons@[p as int]@);
            let quads = quads_of(&self.polygons[p]);
            append_polygons(&mut polygons, quads);
            proof {
                let upto = self@.subrange(0, p + 1);
                assert(upto.drop_last() =~= self@.subrange(0, p as int));
                assert(upto.last() == self.polygons@[p as int]@);
            }
            p += 1;
        }
        proof {
            assert(self@.subrange(0, n as int) =~= self@);
            lemma_refined(self@);
        }
        Csg::from_polygons(polygons)
    }
}

} // verus!
