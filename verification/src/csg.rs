//! Solids, and their boolean combinations.
//!
//! A solid is given by the polygons of its boundary. Two solids are combined
//! by building a tree from each, clipping each tree by the other, and
//! collecting what is left. The order of the steps matters: each operator
//! below fixes it once, as a function of the two lists of polygons.

use vstd::prelude::*;
use crate::bsp_node::{
    clone_polygons, flip_all, lemma_build_well_formed, lemma_clip_to_well_formed,
    lemma_flatten_well_formed, lemma_flip_all_involution, lemma_flip_all_well_formed,
    lemma_invert_well_formed, BspNode, NodeModel,
};
use crate::polygon::{Polygon, PolygonModel};
use crate::split::{all_well_formed, push_polygon};
use crate::vector::Vector;

verus! {

/// A solid, by the polygons of its boundary. The polygons keep the order in
/// which they were given. The boundary need not be closed.
#[derive(Debug)]
pub struct Csg {
    pub polygons: Vec<Polygon>,
}

/// Three corners and the direction they face.
#[derive(Clone, Copy, Debug)]
pub struct Triangle {
    pub positions: [Vector; 3],
    pub normal: Vector,
}

impl View for Csg {
    type V = Seq<PolygonModel>;

    open spec fn view(&self) -> Seq<PolygonModel> {
        self.polygons.deep_view()
    }
}

impl Clone for Csg {
    fn clone(&self) -> (r: Csg)
        ensures
            r@ == self@,
    {
        Csg { polygons: clone_polygons(&self.polygons) }
    }
}

/// The tree of a solid.
pub open spec fn tree_of(polys: Seq<PolygonModel>) -> NodeModel {
    NodeModel::empty().build(polys)
}

/// The polygons that the union of two solids is made of. The first tree is
/// clipped by the second, and the second by what is left of the first. The
/// second is then inverted, clipped once more and inverted back, and what it
/// still holds is added to the first.
pub open spec fn union_of(a: Seq<PolygonModel>, b: Seq<PolygonModel>) -> Seq<PolygonModel> {
    let a0 = tree_of(a);
    let b0 = tree_of(b);
    let a1 = a0.clip_to(b0);
    let b1 = b0.clip_to(a1);
    let b2 = b1.invert().clip_to(a1).invert();
    a1.build(b2.flatten()).flatten()
}

/// The polygons that the first solid without the second is made of. The
/// steps are those of the union, between an inversion of the first tree at
/// the start and another at the end.
pub open spec fn difference_of(a: Seq<PolygonModel>, b: Seq<PolygonModel>) -> Seq<
    PolygonModel,
> {
    let a0 = tree_of(a).invert();
    let b0 = tree_of(b);
    let a1 = a0.clip_to(b0);
    let b1 = b0.clip_to(a1);
    let b2 = b1.invert().clip_to(a1).invert();
    a1.build(b2.flatten()).invert().flatten()
}

/// The polygons that the common part of two solids is made of. The first
/// tree is inverted. The second is clipped by it and inverted, the first is
/// clipped by the second, and the second by what is left of the first. What
/// the second still holds is added to the first, which is inverted back.
pub open spec fn intersection_of(a: Seq<PolygonModel>, b: Seq<PolygonModel>) -> Seq<
    PolygonModel,
> {
    let a0 = tree_of(a).invert();
    let b0 = tree_of(b);
    let b1 = b0.clip_to(a0).invert();
    let a1 = a0.clip_to(b1);
    let b2 = b1.clip_to(a1);
    a1.build(b2.flatten()).invert().flatten()
}

/// The triangles of one polygon: a fan about its first corner, each facing
/// the way the polygon's plane does.
pub open spec fn fan(poly: PolygonModel) -> Seq<Triangle> {
    if poly.vertices.len() < 3 {
        seq![]
    } else {
        Seq::new(
            (poly.vertices.len() - 2) as nat,
            |k: int|
                Triangle {
                    positions: [
                        poly.vertices[0].position,
                        poly.vertices[k + 1].position,
                        poly.vertices[k + 2].position,
                    ],
                    normal: poly.plane.0,
                },
        )
    }
}

/// The triangles of a list of polygons, in the order of the list.
pub open spec fn triangles_of(polys: Seq<PolygonModel>) -> Seq<Triangle>
    decreases polys.len(),
{
    if polys.len() == 0 {
        seq![]
    } else {
        triangles_of(polys.drop_last()) + fan(polys.last())
    }
}

/// The number of triangles of a list of polygons: for each polygon, two less
/// than it has corners.
pub open spec fn triangle_count(polys: Seq<PolygonModel>) -> nat
    decreases polys.len(),
{
    if polys.len() == 0 {
        0
    } else {
        triangle_count(polys.drop_last()) + (if polys.last().vertices.len() < 3 {
            0nat
        } else {
            (polys.last().vertices.len() - 2) as nat
        })
    }
}

/// There are as many triangles as the count says.
pub proof fn lemma_triangle_count(polys: Seq<PolygonModel>)
    ensures
        triangles_of(polys).len() == triangle_count(polys),
    decreases polys.len(),
{
    if polys.len() > 0 {
        lemma_triangle_count(polys.drop_last());
    }
}

/// The count of a longer list is no less than that of its beginning.
pub proof fn lemma_triangle_count_monotone(polys: Seq<PolygonModel>, k: int)
    requires
        0 <= k <= polys.len(),
    ensures
        triangle_count(polys.subrange(0, k)) <= triangle_count(polys),
    decreases polys.len() - k,
{
    if k < polys.len() {
        lemma_triangle_count_monotone(polys, k + 1);
        assert(polys.subrange(0, k + 1).drop_last() =~= polys.subrange(0, k));
    } else {
        assert(polys.subrange(0, k) =~= polys);
    }
}

/// The triangles of the first `k` polygons come first among the triangles of
/// the whole list.
pub proof fn lemma_triangles_prefix(polys: Seq<PolygonModel>, k: int)
    requires
        0 <= k <= polys.len(),
    ensures
        triangles_of(polys.subrange(0, k)).len() <= triangles_of(polys).len(),
        triangles_of(polys.subrange(0, k)) == triangles_of(polys).subrange(
            0,
            triangles_of(polys.subrange(0, k)).len() as int,
        ),
    decreases polys.len() - k,
{
    if k < polys.len() {
        lemma_triangles_prefix(polys, k + 1);
        assert(polys.subrange(0, k + 1).drop_last() =~= polys.subrange(0, k));
        assert(triangles_of(polys.subrange(0, k)) =~= triangles_of(polys).subrange(
            0,
            triangles_of(polys.subrange(0, k)).len() as int,
        ));
    } else {
        assert(polys.subrange(0, k) =~= polys);
        assert(triangles_of(polys) =~= triangles_of(polys).subrange(
            0,
            triangles_of(polys).len() as int,
        ));
    }
}

impl Csg {
    /// Every polygon of the solid has at least three corners.
    pub open spec fn well_formed(&self) -> bool {
        all_well_formed(self@)
    }

    /// The solid without a boundary.
    pub fn new() -> (r: Csg)
        ensures
            r@ == Seq::<PolygonModel>::empty(),
            r.well_formed(),
    {
        let r = Csg { polygons: Vec::new() };
        assert(r@ =~= Seq::<PolygonModel>::empty());
        r
    }

    /// The solid with the given boundary.
    pub fn from_polygons(polygons: Vec<Polygon>) -> (r: Csg)
        ensures
            r@ == polygons.deep_view(),
            r.polygons == polygons,
    {
        Csg { polygons }
    }

    /// A copy of the boundary.
    pub fn to_polygons(&self) -> (r: Vec<Polygon>)
        ensures
            r.deep_view() == self@,
    {
        clone_polygons(&self.polygons)
    }

    /// The triangles of the boundary: each polygon is fanned about its first
    /// corner, and its triangles face the way its plane does.
    pub fn get_triangles(&self) -> (r: Vec<Triangle>)
        requires
            self.well_formed(),
        ensures
            r@ == triangles_of(self@),
            r@.len() == triangle_count(self@),
    {
        let mut result: Vec<Triangle> = Vec::new();
        let n = self.polygons.len();
        let mut p: usize = 0;
        while p < n
            invariant
                n == self.polygons.len(),
                p <= n,
                self.well_formed(),
                result@ == triangles_of(self@.subrange(0, p as int)),
            decreases n - p,
        {
            let poly = &self.polygons[p];
            let m = poly.vertices.len();
            assert(self@[p as int].well_formed());
            assert(self@[p as int] == poly@);
            let ghost before = result@;
            let mut i: usize = 1;
            while i < m - 1
                invariant
                    m == poly.vertices.len(),
                    m >= 3,
                    1 <= i <= m - 1,
                    result@ == before + fan(poly@).subrange(0, i - 1),
                decreases m - i,
            {
                let v0 = poly.vertices[0].position;
                let v1 = poly.vertices[i].position;
                let v2 = poly.vertices[i + 1].position;
                result.push(Triangle { positions: [v0, v1, v2], normal: poly.plane.0 });
                assert(result@ =~= before + fan(poly@).subrange(0, i as int));
                i += 1;
            }
            proof {
                assert(fan(poly@).subrange(0, m - 2) =~= fan(poly@));
                let upto = self@.subrange(0, p + 1);
                assert(upto.drop_last() =~= self@.subrange(0, p as int));
                assert(upto.last() == poly@);
            }
            p += 1;
        }
        proof {
            assert(self@.subrange(0, n as int) =~= self@);
            lemma_triangle_count(self@);
        }
        result
    }

    /// The number of triangles that [`Csg::get_triangles`] gives.
    pub fn get_triangles_count(&self) -> (r: usize)
        requires
            self.well_formed(),
            triangle_count(self@) <= usize::MAX,
        ensures
            r == triangle_count(self@),
    {
        let mut sum: usize = 0;
        let n = self.polygons.len();
        let mut p: usize = 0;
        while p < n
            invariant
                n == self.polygons.len(),
                p <= n,
                self.well_formed(),
                triangle_count(self@) <= usize::MAX,
                sum == triangle_count(self@.subrange(0, p as int)),
            decreases n - p,
        {
            proof {
                assert(self@[p as int].well_formed());
                assert(self@[p as int] == self.polygons@[p as int]@);
                let upto = self@.subrange(0, p + 1);
                assert(upto.drop_last() =~= self@.subrange(0, p as int));
                assert(upto.last() == self.polygons@[p as int]@);
                lemma_triangle_count_monotone(self@, p + 1);
            }
            sum += self.polygons[p].vertices.len() - 2;
            p += 1;
        }
        assert(self@.subrange(0, n as int) =~= self@);
        sum
    }

    /// Hands every triangle of the boundary to `func`, in the order in which
    /// [`Csg::get_triangles`] lists them, without making the list. `func`
    /// need accept no other triangle than these, and has been called on each
    /// of them when the function returns.
    pub fn iter_triangles<F: FnMut(Triangle)>(&self, func: F)
        requires
            self.well_formed(),
            forall|k: int|
                0 <= k < triangles_of(self@).len() ==> call_requires(
                    func,
                    (#[trigger] triangles_of(self@)[k],),
                ),
        ensures
            forall|k: int|
                0 <= k < triangles_of(self@).len() ==> call_ensures(
                    func,
                    (#[trigger] triangles_of(self@)[k],),
                    (),
                ),
    {
        let ghost given = func;
        let mut func = func;
        let n = self.polygons.len();
        let mut p: usize = 0;
        while p < n
            invariant
                n == self.polygons.len(),
                p <= n,
                self.well_formed(),
                func == given,
                forall|k: int|
                    0 <= k < triangles_of(self@).len() ==> call_requires(
                        func,
                        (#[trigger] triangles_of(self@)[k],),
                    ),
                triangles_of(self@.subrange(0, p as int)).len() <= triangles_of(self@).len(),
                forall|k: int|
                    0 <= k < triangles_of(self@.subrange(0, p as int)).len() ==> call_ensures(
                        given,
                        (#[trigger] triangles_of(self@)[k],),
                        (),
                    ),
            decreases n - p,
        {
            let poly = &self.polygons[p];
            let m = poly.vertices.len();
            assert(self@[p as int].well_formed());
            assert(self@[p as int] == poly@);
            let ghost before = triangles_of(self@.subrange(0, p as int));
            proof {
                let upto = self@.subrange(0, p + 1);
                assert(upto.drop_last() =~= self@.subrange(0, p as int));
                assert(upto.last() == poly@);
                lemma_triangles_prefix(self@, p + 1);
            }
            let mut i: usize = 1;
            while i < m - 1
                invariant
                    m == poly.vertices.len(),
                    m >= 3,
                    1 <= i <= m - 1,
                    func == given,
                    fan(poly@).len() == m - 2,
                    before + fan(poly@) == triangles_of(self@).subrange(
                        0,
                        (before.len() + fan(poly@).len()) as int,
                    ),
                    before.len() + fan(poly@).len() <= triangles_of(self@).len(),
                    forall|k: int|
                        0 <= k < triangles_of(self@).len() ==> call_requires(
                            func,
                            (#[trigger] triangles_of(self@)[k],),
                        ),
                    forall|k: int|
                        0 <= k < before.len() + i - 1 ==> call_ensures(
                            given,
                            (#[trigger] triangles_of(self@)[k],),
                            (),
                        ),
                decreases m - i,
            {
                let v0 = poly.vertices[0].position;
                let v1 = poly.vertices[i].position;
                let v2 = poly.vertices[i + 1].position;
                let t = Triangle { positions: [v0, v1, v2], normal: poly.plane.0 };
                proof {
                    let at = before.len() + i - 1;
                    assert(t == fan(poly@)[i - 1]);
                    assert((before + fan(poly@))[at] == t);
                    assert(triangles_of(self@).subrange(
                        0,
                        (before.len() + fan(poly@).len()) as int,
                    )[at] == triangles_of(self@)[at]);
                    assert(triangles_of(self@)[at] == t);
                }
                func(t);
                i += 1;
            }
            proof {
                assert(triangles_of(self@.subrange(0, p + 1)) =~= before + fan(poly@));
            }
            p += 1;
        }
        proof {
            assert(self@.subrange(0, n as int) =~= self@);
        }
    }

    /// The union of two solids.
    pub fn union(a: &Csg, b: &Csg) -> (r: Csg)
        ensures
            r@ == union_of(a@, b@),
            a.well_formed() && b.well_formed() ==> r.well_formed(),
    {
        let mut ta = BspNode::new(Some(clone_polygons(&a.polygons)));
        let mut tb = BspNode::new(Some(clone_polygons(&b.polygons)));
        ta.clip_to(&tb);
        tb.clip_to(&ta);
        tb.invert();
        tb.clip_to(&ta);
        tb.invert();
        ta.build(tb.all_polygons());
        proof {
            if a.well_formed() && b.well_formed() {
                lemma_union_well_formed(a@, b@);
            }
        }
        Csg::from_polygons(ta.all_polygons())
    }

    /// The first solid without the second.
    pub fn subtract(a: &Csg, b: &Csg) -> (r: Csg)
        ensures
            r@ == difference_of(a@, b@),
            a.well_formed() && b.well_formed() ==> r.well_formed(),
    {
        let mut ta = BspNode::new(Some(clone_polygons(&a.polygons)));
        let mut tb = BspNode::new(Some(clone_polygons(&b.polygons)));
        ta.invert();
        ta.clip_to(&tb);
        tb.clip_to(&ta);
        tb.invert();
        tb.clip_to(&ta);
        tb.invert();
        ta.build(tb.all_polygons());
        ta.invert();
        proof {
            if a.well_formed() && b.well_formed() {
                lemma_difference_well_formed(a@, b@);
            }
        }
        Csg::from_polygons(ta.all_polygons())
    }

    /// What two solids have in common.
    pub fn intersect(a: &Csg, b: &Csg) -> (r: Csg)
        ensures
            r@ == intersection_of(a@, b@),
            a.well_formed() && b.well_formed() ==> r.well_formed(),
    {
        let mut ta = BspNode::new(Some(clone_polygons(&a.polygons)));
        let mut tb = BspNode::new(Some(clone_polygons(&b.polygons)));
        ta.invert();
        tb.clip_to(&ta);
        tb.invert();
        ta.clip_to(&tb);
        tb.clip_to(&ta);
        ta.build(tb.all_polygons());
        ta.invert();
        proof {
            if a.well_formed() && b.well_formed() {
                lemma_intersection_well_formed(a@, b@);
            }
        }
        Csg::from_polygons(ta.all_polygons())
    }

    /// The solid turned inside out: every polygon of the boundary is flipped
    /// where it stands.
    pub fn inverse(&self) -> (r: Csg)
        ensures
            r@ == flip_all(self@),
            self.well_formed() ==> r.well_formed(),
    {
        let mut polygons: Vec<Polygon> = Vec::new();
        let n = self.polygons.len();
        let mut i: usize = 0;
        while i < n
            invariant
                n == self.polygons.len(),
                i <= n,
                polygons.deep_view() == flip_all(self@).subrange(0, i as int),
            decreases n - i,
        {
            let mut poly = self.polygons[i].clone();
            poly.flip();
            push_polygon(&mut polygons, poly);
            assert(polygons.deep_view() =~= flip_all(self@).subrange(0, i + 1));
            i += 1;
        }
        proof {
            assert(polygons.deep_view() =~= flip_all(self@));
            if self.well_formed() {
                lemma_flip_all_well_formed(self@);
            }
        }
        Csg { polygons }
    }
}

/// Turning a solid inside out twice gives the solid back: the same polygons,
/// with the same corners in the same order.
pub proof fn lemma_inverse_involution(polys: Seq<PolygonModel>)
    ensures
        flip_all(flip_all(polys)) == polys,
        flip_all(polys).len() == polys.len(),
{
    lemma_flip_all_involution(polys);
}

/// The tree of well-formed polygons is well formed.
pub proof fn lemma_tree_well_formed(polys: Seq<PolygonModel>)
    requires
        all_well_formed(polys),
    ensures
        tree_of(polys).well_formed(),
{
    lemma_build_well_formed(NodeModel::empty(), polys);
}

/// The union of well-formed solids is well formed.
pub proof fn lemma_union_well_formed(a: Seq<PolygonModel>, b: Seq<PolygonModel>)
    requires
        all_well_formed(a),
        all_well_formed(b),
    ensures
        all_well_formed(union_of(a, b)),
{
    let a0 = tree_of(a);
    let b0 = tree_of(b);
    lemma_tree_well_formed(a);
    lemma_tree_well_formed(b);
    let a1 = a0.clip_to(b0);
    lemma_clip_to_well_formed(a0, b0);
    let b1 = b0.clip_to(a1);
    lemma_clip_to_well_formed(b0, a1);
    lemma_invert_well_formed(b1);
    lemma_clip_to_well_formed(b1.invert(), a1);
    let b2 = b1.invert().clip_to(a1).invert();
    lemma_invert_well_formed(b1.invert().clip_to(a1));
    lemma_flatten_well_formed(b2);
    lemma_build_well_formed(a1, b2.flatten());
    lemma_flatten_well_formed(a1.build(b2.flatten()));
}

/// The difference of well-formed solids is well formed.
pub proof fn lemma_difference_well_formed(a: Seq<PolygonModel>, b: Seq<PolygonModel>)
    requires
        all_well_formed(a),
        all_well_formed(b),
    ensures
        all_well_formed(difference_of(a, b)),
{
    lemma_tree_well_formed(a);
    lemma_tree_well_formed(b);
    lemma_invert_well_formed(tree_of(a));
    let a0 = tree_of(a).invert();
    let b0 = tree_of(b);
    let a1 = a0.clip_to(b0);
    lemma_clip_to_well_formed(a0, b0);
    let b1 = b0.clip_to(a1);
    lemma_clip_to_well_formed(b0, a1);
    lemma_invert_well_formed(b1);
    lemma_clip_to_well_formed(b1.invert(), a1);
    let b2 = b1.invert().clip_to(a1).invert();
    lemma_invert_well_formed(b1.invert().clip_to(a1));
    lemma_flatten_well_formed(b2);
    lemma_build_well_formed(a1, b2.flatten());
    lemma_invert_well_formed(a1.build(b2.flatten()));
    lemma_flatten_well_formed(a1.build(b2.flatten()).invert());
}

/// The intersection of well-formed solids is well formed.
pub proof fn lemma_intersection_well_formed(a: Seq<PolygonModel>, b: Seq<PolygonModel>)
    requires
        all_well_formed(a),
        all_well_formed(b),
    ensures
        all_well_formed(intersection_of(a, b)),
{
    lemma_tree_well_formed(a);
    lemma_tree_well_formed(b);
    lemma_invert_well_formed(tree_of(a));
    let a0 = tree_of(a).invert();
    let b0 = tree_of(b);
    lemma_clip_to_well_formed(b0, a0);
    lemma_invert_well_formed(b0.clip_to(a0));
    let b1 = b0.clip_to(a0).invert();
    let a1 = a0.clip_to(b1);
    lemma_clip_to_well_formed(a0, b1);
    let b2 = b1.clip_to(a1);
    lemma_clip_to_well_formed(b1, a1);
    lemma_flatten_well_formed(b2);
    lemma_build_well_formed(a1, b2.flatten());
    lemma_invert_well_formed(a1.build(b2.flatten()));
    lemma_flatten_well_formed(a1.build(b2.flatten()).invert());
}

} // verus!
