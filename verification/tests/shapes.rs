use rscsg::{Csg, Motion, Polygon, Unit, Vector, Vertex};

fn u(x: f32) -> Unit {
    Unit::from_bits(x.to_bits())
}

fn f(x: Unit) -> f32 {
    f32::from_bits(x.to_bits())
}

fn vec3(x: f32, y: f32, z: f32) -> Vector {
    Vector(u(x), u(y), u(z))
}

fn coords(v: Vector) -> [f32; 3] {
    [f(v.0), f(v.1), f(v.2)]
}

fn close(v: Vector, w: [f32; 3]) -> bool {
    let c = coords(v);
    (0..3).all(|k| (c[k] - w[k]).abs() < 1e-5)
}

fn volume(csg: &Csg) -> f64 {
    let mut sum = 0.0f64;
    for t in csg.get_triangles() {
        let a = coords(t.positions[0]).map(|x| x as f64);
        let b = coords(t.positions[1]).map(|x| x as f64);
        let c = coords(t.positions[2]).map(|x| x as f64);
        sum += a[0] * (b[1] * c[2] - b[2] * c[1]) - a[1] * (b[0] * c[2] - b[2] * c[0])
            + a[2] * (b[0] * c[1] - b[1] * c[0]);
    }
    sum / 6.0
}

#[test]
fn sphere_has_two_triangles_for_each_cell_and_one_at_the_poles() {
    assert_eq!(Csg::sphere(u(1.), 8, 6).polygons.len(), 8 * 10);
    assert_eq!(Csg::sphere(u(1.), 3, 2).polygons.len(), 6);
    assert_eq!(Csg::sphere(u(1.), 5, 1).polygons.len(), 5);
    assert_eq!(Csg::sphere(u(1.), 1, 1).polygons.len(), 1);
    assert_eq!(Csg::sphere(u(1.), 20, 20).polygons.len(), 20 * 38);
    for poly in &Csg::sphere(u(2.), 7, 5).polygons {
        assert_eq!(poly.vertices.len(), 3);
    }
}

#[test]
fn sphere_corners_lie_on_the_sphere_and_look_outward() {
    let radius = 2.5f32;
    let sphere = Csg::sphere(u(radius), 12, 8);
    for poly in &sphere.polygons {
        for v in &poly.vertices {
            let p = coords(v.position);
            let n = coords(v.normal);
            let len = (p[0] * p[0] + p[1] * p[1] + p[2] * p[2]).sqrt();
            assert!((len - radius).abs() < 1e-5);
            for k in 0..3 {
                assert!((n[k] * radius - p[k]).abs() < 1e-5);
            }
        }
    }
}

#[test]
fn sphere_triangles_face_outward() {
    let sphere = Csg::sphere(u(1.), 12, 8);
    for poly in &sphere.polygons {
        let mut centre = [0.0f32; 3];
        for v in &poly.vertices {
            let p = coords(v.position);
            for k in 0..3 {
                centre[k] += p[k] / 3.0;
            }
        }
        let n = coords(poly.plane.0);
        let out = n[0] * centre[0] + n[1] * centre[1] + n[2] * centre[2];
        assert!(out > 0.5, "{:?} {:?}", n, centre);
    }
    let v = volume(&sphere);
    assert!(v > 3.6 && v < 4.19, "{}", v);
    let fine = volume(&Csg::sphere(u(1.), 40, 40));
    assert!((fine - 4.18879).abs() < 0.03, "{}", fine);
}

#[test]
fn sphere_starts_at_the_pole_on_the_y_axis() {
    let sphere = Csg::sphere(u(1.), 4, 2);
    let first = &sphere.polygons[0];
    assert!(close(first.vertices[0].position, [0., 1., 0.]));
    // the second corner is on the second meridian, a quarter turn on
    assert!(close(first.vertices[1].position, [0., 0., 1.]));
    assert!(close(first.vertices[2].position, [1., 0., 0.]));
    let last = &sphere.polygons[7];
    assert!(close(last.vertices[2].position, [0., -1., 0.]));
}

#[test]
fn sphere_minus_box_and_box_minus_sphere() {
    let sphere = Csg::sphere(u(1.), 10, 8);
    let cube = Csg::cube(vec3(4., 4., 4.), true);
    assert_eq!(Csg::subtract(&sphere, &cube).polygons.len(), 0);
    let shell = volume(&Csg::subtract(&cube, &sphere));
    let ball = volume(&sphere);
    assert!((shell - (64.0 - ball)).abs() < 1e-3, "{} {}", shell, ball);
    let common = volume(&Csg::intersect(&cube, &sphere));
    assert!((common - ball).abs() < 1e-3);
}

#[test]
fn union_of_sphere_and_box_either_way() {
    let sphere = Csg::sphere(u(1.), 10, 8);
    let cube = Csg::cube(vec3(1., 1., 1.), false);
    let ab = volume(&Csg::union(&sphere, &cube));
    let ba = volume(&Csg::union(&cube, &sphere));
    assert!((ab - ba).abs() < 1e-3, "{} {}", ab, ba);
    assert!(ab > volume(&sphere));
    assert!(ab < volume(&sphere) + 1.0);
}

#[test]
fn translate_moves_positions_only() {
    let cube = Csg::cube(vec3(1., 1., 1.), false).translate(vec3(10., 20., 30.));
    assert_eq!(cube.polygons.len(), 6);
    assert_eq!(coords(cube.polygons[0].vertices[0].position), [10., 20., 30.]);
    assert_eq!(coords(cube.polygons[5].vertices[2].position), [11., 21., 31.]);
    assert_eq!(coords(cube.polygons[0].vertices[0].normal), [-1., 0., 0.]);
    assert_eq!(coords(cube.polygons[0].plane.0), [-1., 0., 0.]);
    assert_eq!(f(cube.polygons[0].plane.1), -10.);
    assert_eq!(f(cube.polygons[1].plane.1), 11.);
    assert_eq!(volume(&cube), 1.0);
}

#[test]
fn scale_stretches_positions_and_leaves_normals() {
    let cube = Csg::cube(vec3(1., 1., 1.), false).scale(vec3(2., 3., 4.));
    assert_eq!(coords(cube.polygons[5].vertices[2].position), [2., 3., 4.]);
    assert_eq!(coords(cube.polygons[1].vertices[0].normal), [1., 0., 0.]);
    assert_eq!(f(cube.polygons[1].plane.1), 2.);
    assert_eq!(volume(&cube), 24.0);
}

#[test]
fn rotate_turns_positions_and_normals() {
    let cube = Csg::cube(vec3(1., 2., 3.), false).rotate(vec3(0., 0., 1.), u(90.));
    // the corner (1, 2, 3) goes to (-2, 1, 3)
    assert!(close(cube.polygons[5].vertices[2].position, [-2., 1., 3.]));
    // the face that looked along x now looks along y
    assert!(close(cube.polygons[1].vertices[0].normal, [0., 1., 0.]));
    assert!(close(cube.polygons[1].plane.0, [0., 1., 0.]));
    // the face that looked along z still does
    assert!(close(cube.polygons[5].vertices[0].normal, [0., 0., 1.]));
    assert!((volume(&cube) - 6.0).abs() < 1e-5);
}

#[test]
fn rotate_leaves_a_normal_without_length() {
    let flat = Csg::from_polygons(vec![Polygon::new(vec![
        Vertex::new(vec3(1., 0., 0.), vec3(0., 0., 0.)),
        Vertex::new(vec3(0., 1., 0.), vec3(0., 0., 0.)),
        Vertex::new(vec3(0., 0., 1.), vec3(0., 0., 0.)),
    ])]);
    let turned = flat.rotate(vec3(0., 1., 0.), u(90.));
    for v in &turned.polygons[0].vertices {
        assert_eq!(coords(v.normal), [0., 0., 0.]);
    }
    assert!(close(turned.polygons[0].vertices[0].position, [0., 0., -1.]));
}

#[test]
fn transform_vertices_applies_the_function_to_every_corner() {
    let cube = Csg::cube(vec3(1., 1., 1.), false);
    let lifted = cube.transform_vertices(|v| Vertex::new(v.position.add(vec3(0., 0., 5.)), v.normal.negate()));
    assert_eq!(lifted.polygons.len(), 6);
    for poly in &lifted.polygons {
        assert_eq!(poly.vertices.len(), 4);
        for v in &poly.vertices {
            assert!(f(v.position.2) >= 5.);
        }
    }
    assert_eq!(coords(lifted.polygons[4].vertices[0].normal), [0., 0., 1.]);
    assert_eq!(coords(lifted.polygons[4].plane.0), [0., 0., -1.]);
    assert_eq!(f(lifted.polygons[4].plane.1), -5.);
}

#[test]
fn a_motion_acts_on_one_corner() {
    let v = Vertex::new(vec3(1., 2., 3.), vec3(0., 0., 1.));
    let t = Motion::Translate(vec3(1., 1., 1.)).apply(v);
    assert_eq!(coords(t.position), [2., 3., 4.]);
    assert_eq!(coords(t.normal), [0., 0., 1.]);
    let s = Motion::Scale(vec3(2., 0.5, -1.)).apply(v);
    assert_eq!(coords(s.position), [2., 1., -3.]);
    assert_eq!(coords(s.normal), [0., 0., 1.]);
    let r = Motion::Rotate(vec3(1., 0., 0.), u(90.)).apply(v);
    assert!(close(r.position, [1., -3., 2.]));
    assert!(close(r.normal, [0., -1., 0.]));
    let moved = Csg::cube(vec3(1., 1., 1.), false).transformed(Motion::Translate(vec3(0., 0., 1.)));
    assert_eq!(coords(moved.polygons[4].vertices[0].position), [0., 0., 1.]);
}

#[test]
fn refine_makes_a_quad_for_each_corner() {
    let cube = Csg::cube(vec3(2., 2., 2.), false);
    let fine = cube.refine();
    assert_eq!(fine.polygons.len(), 24);
    for poly in &fine.polygons {
        assert_eq!(poly.vertices.len(), 4);
    }
    // low x face: corners (0,0,0), (0,0,2), (0,2,2), (0,2,0)
    let q: Vec<[f32; 3]> = fine.polygons[1].vertices.iter().map(|v| coords(v.position)).collect();
    assert_eq!(q, vec![[0., 0., 2.], [0., 1., 2.], [0., 1., 1.], [0., 0., 1.]]);
    // the quad of the first corner ends at the last corner of the face
    let q: Vec<[f32; 3]> = fine.polygons[0].vertices.iter().map(|v| coords(v.position)).collect();
    assert_eq!(q, vec![[0., 0., 0.], [0., 0., 1.], [0., 1., 1.], [0., 2., 0.]]);
    assert_eq!(coords(fine.polygons[0].vertices[2].normal), [-1., 0., 0.]);
    assert_eq!(Csg::new().refine().polygons.len(), 0);
}

#[test]
fn triangle_count_of_a_sphere() {
    let sphere = Csg::sphere(u(1.), 9, 7);
    assert_eq!(sphere.get_triangles_count(), 9 * 12);
    assert_eq!(sphere.get_triangles().len(), 9 * 12);
    let fine = Csg::cube(vec3(1., 1., 1.), true).refine();
    assert_eq!(fine.get_triangles_count(), 48);
}
