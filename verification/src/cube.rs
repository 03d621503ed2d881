//! Boxes.
//!
//! A corner of a box has a code of three bits: bit 0 is set where the corner
//! is on the high side along x, bit 1 along y, bit 2 along z. Each of the six
//! faces lists its four corners so that the face is seen in counter-clockwise
//! order from outside the box.

use vstd::prelude::*;
use crate::csg::Csg;
use crate::polygon::{Polygon, PolygonModel};
use crate::split::push_polygon;
use crate::unit::Unit;
use crate::vector::Vector;
use crate::vertex::Vertex;

verus! {

/// The coordinate of a corner along one axis: the low side is at 0 and the
/// high side at `dim`, both lowered by half of `dim` for a centred box.
pub open spec fn corner_coord(dim: Unit, high: bool, center: bool) -> Unit {
    let offset = if high {
        dim
    } else {
        Unit::zero()
    };
    let shift = if center {
        dim.neg().mul(Unit::half())
    } else {
        Unit::zero()
    };
    offset.add(shift)
}

/// The position of the corner with the given code.
pub open spec fn corner(dim: Vector, code: u8, center: bool) -> Vector {
    Vector(
        corner_coord(dim.0, code % 2 == 1, center),
        corner_coord(dim.1, (code / 2) % 2 == 1, center),
        corner_coord(dim.2, (code / 4) % 2 == 1, center),
    )
}

/// The codes of the four corners of a face, in order. The faces are numbered
/// low x, high x, low y, high y, low z, high z.
pub open spec fn face_codes(face: int) -> Seq<u8> {
    if face == 0 {
        seq![0u8, 4u8, 6u8, 2u8]
    } else if face == 1 {
        seq![1u8, 3u8, 7u8, 5u8]
    } else if face == 2 {
        seq![0u8, 1u8, 5u8, 4u8]
    } else if face == 3 {
        seq![2u8, 6u8, 7u8, 3u8]
    } else if face == 4 {
        seq![0u8, 2u8, 3u8, 1u8]
    } else {
        seq![4u8, 5u8, 7u8, 6u8]
    }
}

/// The direction in which a face looks: along its axis, away from the box.
pub open spec fn face_normal(face: int) -> Vector {
    let o = Unit::zero();
    let p = Unit::one();
    let m = Unit::one().neg();
    if face == 0 {
        Vector(m, o, o)
    } else if face == 1 {
        Vector(p, o, o)
    } else if face == 2 {
        Vector(o, m, o)
    } else if face == 3 {
        Vector(o, p, o)
    } else if face == 4 {
        Vector(o, o, m)
    } else {
        Vector(o, o, p)
    }
}

/// A face of the box: four corners, each with the normal of the face.
pub open spec fn cube_face(dim: Vector, center: bool, face: int) -> PolygonModel {
    PolygonModel::of(
        Seq::new(
            4,
            |k: int|
                Vertex {
                    position: corner(dim, face_codes(face)[k], center),
                    normal: face_normal(face),
                },
        ),
    )
}

/// The six faces of the box.
pub open spec fn cube_model(dim: Vector, center: bool) -> Seq<PolygonModel> {
    Seq::new(6, |face: int| cube_face(dim, center, face))
}

fn coord(dim: Unit, high: bool, center: bool) -> (r: Unit)
    ensures
        r == corner_coord(dim, high, center),
{
    let offset = if high {
        dim
    } else {
        Unit::zero()
    };
    let shift = if center {
        dim.neg().mul(Unit::half())
    } else {
        Unit::zero()
    };
    offset.add(shift)
}

fn codes_of(face: usize) -> (r: [u8; 4])
    requires
        face < 6,
    ensures
        r@ == face_codes(face as int),
{
    let r: [u8; 4] = if face == 0 {
        [0, 4, 6, 2]
    } else if face == 1 {
        [1, 3, 7, 5]
    } else if face == 2 {
        [0, 1, 5, 4]
    } else if face == 3 {
        [2, 6, 7, 3]
    } else if face == 4 {
        [0, 2, 3, 1]
    } else {
        [4, 5, 7, 6]
    };
    assert(r@ =~= face_codes(face as int));
    r
}

fn normal_of(face: usize) -> (r: Vector)
    requires
        face < 6,
    ensures
        r == face_normal(face as int),
{
    let o = Unit::zero();
    let p = Unit::one();
    let m = Unit::one().neg();
    if face == 0 {
        Vector(m, o, o)
    } else if face == 1 {
        Vector(p, o, o)
    } else if face == 2 {
        Vector(o, m, o)
    } else if face == 3 {
        Vector(o, p, o)
    } else if face == 4 {
        Vector(o, o, m)
    } else {
        Vector(o, o, p)
    }
}

impl Csg {
    /// The box with the given extent along each axis. It reaches from the
    /// origin to `dim`, or, when `center` is set, from minus half of `dim`
    /// to half of `dim`. The result has six faces of four corners each.
    pub fn cube(dim: Vector, center: bool) -> (r: Csg)
        ensures
            r@ == cube_model(dim, center),
            r@.len() == 6,
            forall|f: int| 0 <= f < 6 ==> (#[trigger] r@[f]).vertices.len() == 4,
            r.well_formed(),
    {
        let mut polygons: Vec<Polygon> = Vec::new();
        let mut face: usize = 0;
        while face < 6
            invariant
                face <= 6,
                polygons.deep_view().len() == face,
                forall|f: int|
                    0 <= f < face ==> #[trigger] polygons.deep_view()[f] == cube_face(
                        dim,
                        center,
                        f,
                    ),
            decreases 6 - face,
        {
            let codes = codes_of(face);
            let normal = normal_of(face);
            let mut verts: Vec<Vertex> = Vec::new();
            let mut k: usize = 0;
            while k < 4
                invariant
                    k <= 4,
                    face < 6,
                    codes@ == face_codes(face as int),
                    normal == face_normal(face as int),
                    verts@.len() == k,
                    forall|q: int|
                        0 <= q < k ==> #[trigger] verts@[q] == (Vertex {
                            position: corner(dim, face_codes(face as int)[q], center),
                            normal: face_normal(face as int),
                        }),
                decreases 4 - k,
            {
                let code = codes[k];
                let position = Vector(
                    coord(dim.0, code % 2 == 1, center),
                    coord(dim.1, (code / 2) % 2 == 1, center),
                    coord(dim.2, (code / 4) % 2 == 1, center),
                );
                verts.push(Vertex::new(position, normal));
                k += 1;
            }
            let ghost done = polygons.deep_view();
            assert(verts@ =~= cube_face(dim, center, face as int).vertices);
            push_polygon(&mut polygons, Polygon::on(verts));
            assert(polygons.deep_view() == done.push(cube_face(dim, center, face as int)));
            face += 1;
        }
        let r = Csg::from_polygons(polygons);
        assert(r@ =~= cube_model(dim, center));
        r
    }
}

} // verus!
