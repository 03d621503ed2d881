//! Spheres.
//!
//! The surface is a grid of meridians and parallels about the origin. Grid
//! point `(i, j)` lies on meridian `i` of `slices` and on parallel `j` of
//! `stacks`; parallel 0 is the pole on the positive y axis and parallel
//! `stacks` the opposite pole. The cell between meridians `i` and `i + 1`
//! and parallels `j` and `j + 1` is a triangle where it touches a pole and a
//! quadrilateral cut into two triangles elsewhere, listed counter-clockwise
//! as seen from outside.

use vstd::prelude::*;
use crate::csg::Csg;
use crate::polygon::{Polygon, PolygonModel};
use crate::split::{all_well_formed, push_polygon};
use crate::unit::Unit;
use crate::vector::Vector;
use crate::vertex::Vertex;

verus! {

/// The direction from the centre at longitude `theta` and colatitude `phi`,
/// both in radians.
pub open spec fn direction(theta: Unit, phi: Unit) -> Vector {
    Vector(theta.cos().mul(phi.sin()), phi.cos(), theta.sin().mul(phi.sin()))
}

/// The corner of the surface in a direction: the normal is the direction,
/// and the position is the direction times the radius.
pub open spec fn sphere_vertex(radius: Unit, theta: Unit, phi: Unit) -> Vertex {
    let d = direction(theta, phi);
    Vertex { position: d.mul(radius), normal: d }
}

/// The angle between two meridians next to each other.
pub open spec fn slice_angle(slices: int) -> Unit {
    Unit::pi().mul(Unit::two()).div(Unit::from_count(slices as u32))
}

/// The angle between two parallels next to each other.
pub open spec fn stack_angle(stacks: int) -> Unit {
    Unit::pi().div(Unit::from_count(stacks as u32))
}

/// The corner at grid point `(i, j)`.
pub open spec fn grid_vertex(radius: Unit, slices: int, stacks: int, i: int, j: int) -> Vertex {
    sphere_vertex(
        radius,
        Unit::from_count(i as u32).mul(slice_angle(slices)),
        Unit::from_count(j as u32).mul(stack_angle(stacks)),
    )
}

/// The triangle on three corners.
pub open spec fn triangle(a: Vertex, b: Vertex, c: Vertex) -> PolygonModel {
    PolygonModel::of(seq![a, b, c])
}

/// The polygons of the cell at `(i, j)`.
pub open spec fn cell(radius: Unit, slices: int, stacks: int, i: int, j: int) -> Seq<
    PolygonModel,
> {
    let a = grid_vertex(radius, slices, stacks, i, j);
    let b = grid_vertex(radius, slices, stacks, i + 1, j);
    let c = grid_vertex(radius, slices, stacks, i + 1, j + 1);
    let d = grid_vertex(radius, slices, stacks, i, j + 1);
    if j == 0 {
        seq![triangle(a, c, d)]
    } else if j == stacks - 1 {
        seq![triangle(a, b, d)]
    } else {
        seq![triangle(a, b, c), triangle(a, c, d)]
    }
}

/// The polygons of the first `k` cells between parallels `j` and `j + 1`.
pub open spec fn row(radius: Unit, slices: int, stacks: int, j: int, k: int) -> Seq<
    PolygonModel,
>
    decreases k,
{
    if k <= 0 {
        seq![]
    } else {
        row(radius, slices, stacks, j, k - 1) + cell(radius, slices, stacks, k - 1, j)
    }
}

/// The polygons of the first `u` rows.
pub open spec fn rows(radius: Unit, slices: int, stacks: int, u: int) -> Seq<PolygonModel>
    decreases u,
{
    if u <= 0 {
        seq![]
    } else {
        rows(radius, slices, stacks, u - 1) + row(radius, slices, stacks, u - 1, slices)
    }
}

/// The polygons of the sphere, row by row from the pole on the positive y
/// axis.
pub open spec fn sphere_model(radius: Unit, slices: int, stacks: int) -> Seq<PolygonModel> {
    rows(radius, slices, stacks, stacks)
}

/// The number of polygons that each slice has in the first `u` rows: one in
/// a row at a pole, two in any other.
pub open spec fn slice_weight(stacks: int, u: int) -> int {
    if u <= 0 {
        0
    } else if u < stacks {
        2 * u - 1
    } else if stacks == 1 {
        1
    } else {
        2 * stacks - 2
    }
}

/// The number of polygons of a sphere.
pub open spec fn sphere_count(slices: int, stacks: int) -> int {
    slices * slice_weight(stacks, stacks)
}

/// A row has one polygon for each cell at a pole, two for each cell
/// elsewhere, and all of them are triangles.
pub proof fn lemma_row(radius: Unit, slices: int, stacks: int, j: int, k: int)
    requires
        0 <= k,
    ensures
        row(radius, slices, stacks, j, k).len() == k * (if j == 0 || j == stacks - 1 {
            1int
        } else {
            2int
        }),
        all_well_formed(row(radius, slices, stacks, j, k)),
    decreases k,
{
    if k > 0 {
        lemma_row(radius, slices, stacks, j, k - 1);
        let per = if j == 0 || j == stacks - 1 {
            1int
        } else {
            2int
        };
        assert(k * per == (k - 1) * per + per) by (nonlinear_arith);
        let before = row(radius, slices, stacks, j, k - 1);
        let added = cell(radius, slices, stacks, k - 1, j);
        assert forall|q: int| 0 <= q < (before + added).len() implies (#[trigger] (before
            + added)[q]).well_formed() by {
            if q < before.len() {
                assert(before[q].well_formed());
            } else {
                assert(added[q - before.len()].well_formed());
            }
        }
    }
}

/// The first `u` rows hold as many polygons as the weight says, all of them
/// triangles.
pub proof fn lemma_rows(radius: Unit, slices: int, stacks: int, u: int)
    requires
        0 <= slices,
        1 <= stacks,
        0 <= u <= stacks,
    ensures
        rows(radius, slices, stacks, u).len() == slices * slice_weight(stacks, u),
        all_well_formed(rows(radius, slices, stacks, u)),
    decreases u,
{
    if u > 0 {
        lemma_rows(radius, slices, stacks, u - 1);
        lemma_row(radius, slices, stacks, u - 1, slices);
        let per = if u - 1 == 0 || u - 1 == stacks - 1 {
            1int
        } else {
            2int
        };
        assert(slice_weight(stacks, u) == slice_weight(stacks, u - 1) + per);
        assert(slices * slice_weight(stacks, u) == slices * slice_weight(stacks, u - 1) + slices
            * per) by (nonlinear_arith)
            requires
                slice_weight(stacks, u) == slice_weight(stacks, u - 1) + per,
        ;
        let before = rows(radius, slices, stacks, u - 1);
        let added = row(radius, slices, stacks, u - 1, slices);
        assert forall|q: int| 0 <= q < (before + added).len() implies (#[trigger] (before
            + added)[q]).well_formed() by {
            if q < before.len() {
                assert(before[q].well_formed());
            } else {
                assert(added[q - before.len()].well_formed());
            }
        }
    } else {
        assert(slices * 0 == 0) by (nonlinear_arith);
    }
}

fn make_vertex(radius: Unit, theta: Unit, phi: Unit) -> (r: Vertex)
    ensures
        r == sphere_vertex(radius, theta, phi),
{
    let d = Vector(theta.cos().mul(phi.sin()), phi.cos(), theta.sin().mul(phi.sin()));
    Vertex::new(d.mul(radius), d)
}

fn make_triangle(a: Vertex, b: Vertex, c: Vertex) -> (r: Polygon)
    ensures
        r@ == triangle(a, b, c),
{
    let mut verts: Vec<Vertex> = Vec::new();
    verts.push(a);
    verts.push(b);
    verts.push(c);
    assert(verts@ =~= seq![a, b, c]);
    Polygon::on(verts)
}

impl Csg {
    /// The sphere of the given radius about the origin, with `slices`
    /// meridians and `stacks` rows between the poles. Every polygon is a
    /// triangle, and the normal of every corner is its direction from the
    /// centre.
    pub fn sphere(radius: Unit, slices: usize, stacks: usize) -> (r: Csg)
        requires
            1 <= slices <= u32::MAX,
            1 <= stacks <= u32::MAX,
        ensures
            r@ == sphere_model(radius, slices as int, stacks as int),
            r@.len() == sphere_count(slices as int, stacks as int),
            r.well_formed(),
    {
        let mut polys: Vec<Polygon> = Vec::new();
        assert(polys.deep_view() =~= Seq::<PolygonModel>::empty());
        let delta_theta = Unit::pi().mul(Unit::two()).div(Unit::from_count(slices as u32));
        let delta_phi = Unit::pi().div(Unit::from_count(stacks as u32));
        let ghost sl = slices as int;
        let ghost st = stacks as int;
        let mut j: usize = 0;
        while j < stacks
            invariant
                j <= stacks,
                1 <= slices <= u32::MAX,
                1 <= stacks <= u32::MAX,
                sl == slices,
                st == stacks,
                delta_theta == slice_angle(sl),
                delta_phi == stack_angle(st),
                polys.deep_view() == rows(radius, sl, st, j as int),
            decreases stacks - j,
        {
            let phi0 = Unit::from_count(j as u32).mul(delta_phi);
            let phi1 = Unit::from_count((j + 1) as u32).mul(delta_phi);
            let ghost before = polys.deep_view();
            let mut i: usize = 0;
            while i < slices
                invariant
                    i <= slices,
                    j < stacks,
                    1 <= slices <= u32::MAX,
                    1 <= stacks <= u32::MAX,
                    sl == slices,
                    st == stacks,
                    delta_theta == slice_angle(sl),
                    delta_phi == stack_angle(st),
                    phi0 == Unit::from_count(j as u32).mul(delta_phi),
                    phi1 == Unit::from_count((j + 1) as u32).mul(delta_phi),
                    polys.deep_view() == before + row(radius, sl, st, j as int, i as int),
                decreases slices - i,
            {
                let theta0 = Unit::from_count(i as u32).mul(delta_theta);
                let theta1 = Unit::from_count((i + 1) as u32).mul(delta_theta);
                let a = make_vertex(radius, theta0, phi0);
                let b = make_vertex(radius, theta1, phi0);
                let c = make_vertex(radius, theta1, phi1);
                let d = make_vertex(radius, theta0, phi1);
                let ghost sofar = polys.deep_view();
                if j == 0 {
                    push_polygon(&mut polys, make_triangle(a, c, d));
                } else if j == stacks - 1 {
                    push_polygon(&mut polys, make_triangle(a, b, d));
                } else {
                    push_polygon(&mut polys, make_triangle(a, b, c));
                    push_polygon(&mut polys, make_triangle(a, c, d));
                }
                proof {
                    assert(a == grid_vertex(radius, sl, st, i as int, j as int));
                    assert(b == grid_vertex(radius, sl, st, i + 1, j as int));
                    assert(c == grid_vertex(radius, sl, st, i + 1, j + 1));
                    assert(d == grid_vertex(radius, sl, st, i as int, j + 1));
                    assert(polys.deep_view() =~= sofar + cell(radius, sl, st, i as int, j as int));
                    assert(polys.deep_view() =~= before + row(radius, sl, st, j as int, i + 1));
                }
                i += 1;
            }
            j += 1;
        }
        proof {
            lemma_rows(radius, sl, st, st);
        }
        Csg::from_polygons(polys)
    }
}

} // verus!
