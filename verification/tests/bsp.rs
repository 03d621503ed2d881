use rscsg::{BspNode, Csg, Plane, Polygon, Unit, Vector, Vertex};

fn u(x: f32) -> Unit {
    Unit::from_bits(x.to_bits())
}

fn f(x: Unit) -> f32 {
    f32::from_bits(x.to_bits())
}

fn vec3(x: f32, y: f32, z: f32) -> Vector {
    Vector(u(x), u(y), u(z))
}

fn coords(v: Vector) -> [f32; 3] {
    [f(v.0), f(v.1), f(v.2)]
}

fn facet(points: [[f32; 3]; 3]) -> Polygon {
    let plane = Plane::from_points(
        vec3(points[0][0], points[0][1], points[0][2]),
        vec3(points[1][0], points[1][1], points[1][2]),
        vec3(points[2][0], points[2][1], points[2][2]),
    );
    Polygon::new(
        points
            .iter()
            .map(|p| Vertex::new(vec3(p[0], p[1], p[2]), plane.0))
            .collect(),
    )
}

/// A triangle in the plane z = `z`, facing up.
fn level(z: f32) -> Polygon {
    facet([[0., 0., z], [1., 0., z], [0., 1., z]])
}

fn positions(p: &Polygon) -> Vec<[f32; 3]> {
    p.vertices.iter().map(|v| coords(v.position)).collect()
}

fn same_tree(a: &BspNode, b: &BspNode) -> bool {
    fn same_plane(a: &Option<Plane>, b: &Option<Plane>) -> bool {
        match (a, b) {
            (None, None) => true,
            (Some(p), Some(q)) => {
                coords(p.0).map(f32::to_bits) == coords(q.0).map(f32::to_bits)
                    && p.1.to_bits() == q.1.to_bits()
            }
            _ => false,
        }
    }
    fn same_child(a: &Option<Box<BspNode>>, b: &Option<Box<BspNode>>) -> bool {
        match (a, b) {
            (None, None) => true,
            (Some(p), Some(q)) => same_tree(p, q),
            _ => false,
        }
    }
    same_plane(&a.plane, &b.plane)
        && a.polygons.len() == b.polygons.len()
        && a.polygons.iter().zip(b.polygons.iter()).all(|(p, q)| {
            positions(p)
                .iter()
                .flatten()
                .map(|x| x.to_bits())
                .collect::<Vec<u32>>()
                == positions(q)
                    .iter()
                    .flatten()
                    .map(|x| x.to_bits())
                    .collect::<Vec<u32>>()
                && same_plane(&Some(p.plane), &Some(q.plane))
                && p.vertices.iter().zip(q.vertices.iter()).all(|(v, w)| {
                    coords(v.normal).map(f32::to_bits) == coords(w.normal).map(f32::to_bits)
                })
        })
        && same_child(&a.front, &b.front)
        && same_child(&a.back, &b.back)
}

#[test]
fn a_new_tree_is_empty() {
    let none = BspNode::new(None);
    assert!(none.plane.is_none());
    assert!(none.front.is_none());
    assert!(none.back.is_none());
    assert_eq!(none.polygons.len(), 0);
    let of_nothing = BspNode::new(Some(vec![]));
    assert!(of_nothing.plane.is_none());
    assert_eq!(of_nothing.all_polygons().len(), 0);
}

#[test]
fn build_parts_polygons_by_the_first() {
    let tree = BspNode::new(Some(vec![level(0.), level(1.), level(-1.), level(0.), level(2.)]));
    let plane = tree.plane.unwrap();
    assert_eq!(coords(plane.0), [0., 0., 1.]);
    assert_eq!(f(plane.1), 0.);
    // the first polygon and the one in its plane stay in the root
    assert_eq!(tree.polygons.len(), 2);
    let front = tree.front.as_ref().unwrap();
    assert_eq!(f(front.plane.unwrap().1), 1.);
    assert_eq!(front.polygons.len(), 1);
    assert!(front.back.is_none());
    let above = front.front.as_ref().unwrap();
    assert_eq!(f(above.plane.unwrap().1), 2.);
    assert_eq!(above.polygons.len(), 1);
    let back = tree.back.as_ref().unwrap();
    assert_eq!(f(back.plane.unwrap().1), -1.);
    assert_eq!(back.polygons.len(), 1);
    assert!(back.front.is_none());
    assert!(back.back.is_none());
}

#[test]
fn build_keeps_the_first_polygon_in_the_root_of_a_tree_that_has_a_plane() {
    let mut tree = BspNode::new(Some(vec![level(0.)]));
    tree.build(vec![level(5.), level(6.)]);
    assert_eq!(f(tree.plane.unwrap().1), 0.);
    assert_eq!(tree.polygons.len(), 2);
    assert_eq!(positions(&tree.polygons[1])[0], [0., 0., 5.]);
    let front = tree.front.as_ref().unwrap();
    assert_eq!(front.polygons.len(), 1);
    assert_eq!(f(front.plane.unwrap().1), 6.);
}

#[test]
fn build_with_nothing_changes_nothing() {
    let mut tree = BspNode::new(Some(vec![level(0.), level(1.)]));
    let before = tree.clone();
    tree.build(vec![]);
    assert!(same_tree(&tree, &before));
}

#[test]
fn build_cuts_a_polygon_that_reaches_both_sides() {
    let wall = facet([[0.25, 0., -1.], [0.25, 1., -1.], [0.25, 0., 1.]]);
    let tree = BspNode::new(Some(vec![level(0.), wall]));
    assert_eq!(tree.polygons.len(), 1);
    let front = tree.front.as_ref().unwrap();
    let back = tree.back.as_ref().unwrap();
    assert_eq!(front.polygons.len(), 1);
    assert_eq!(back.polygons.len(), 1);
    for p in positions(&front.polygons[0]) {
        assert!(p[2] >= 0.);
    }
    for p in positions(&back.polygons[0]) {
        assert!(p[2] <= 0.);
    }
    assert_eq!(front.polygons[0].vertices.len(), 3);
    assert_eq!(back.polygons[0].vertices.len(), 4);
}

#[test]
fn all_polygons_lists_root_then_front_then_back() {
    let tree = BspNode::new(Some(vec![level(0.), level(-1.), level(1.), level(0.), level(2.)]));
    let all = tree.all_polygons();
    let heights: Vec<f32> = all.iter().map(|p| positions(p)[0][2]).collect();
    assert_eq!(heights, vec![0., 0., 1., 2., -1.]);
}

#[test]
fn invert_flips_and_exchanges() {
    let mut tree = BspNode::new(Some(vec![level(0.), level(1.), level(-1.)]));
    let before = tree.clone();
    tree.invert();
    assert_eq!(coords(tree.plane.unwrap().0), [0., 0., -1.]);
    assert_eq!(f(tree.polygons[0].plane.0 .2), -1.);
    assert_eq!(positions(&tree.polygons[0]), vec![[0., 1., 0.], [1., 0., 0.], [0., 0., 0.]]);
    assert_eq!(f(tree.polygons[0].vertices[0].normal.2), -1.);
    // what was in front is now behind
    assert_eq!(f(tree.back.as_ref().unwrap().plane.unwrap().1), -1.);
    assert_eq!(positions(&tree.back.as_ref().unwrap().polygons[0])[2], [0., 0., 1.]);
    assert_eq!(positions(&tree.front.as_ref().unwrap().polygons[0])[2], [0., 0., -1.]);
    assert!(!same_tree(&tree, &before));
    tree.invert();
    assert!(same_tree(&tree, &before));
}

#[test]
fn invert_twice_gives_the_tree_of_a_solid_back() {
    let polys = Csg::sphere(u(1.), 6, 4).to_polygons();
    let mut tree = BspNode::new(Some(polys));
    let before = tree.clone();
    tree.invert();
    tree.invert();
    assert!(same_tree(&tree, &before));
    assert_eq!(BspNode::new(None).all_polygons().len(), 0);
}

#[test]
fn clip_polygons_by_a_box() {
    let tree = BspNode::new(Some(Csg::cube(vec3(2., 2., 2.), true).to_polygons()));
    // wholly inside: removed
    let inside = facet([[0., 0., 0.], [0.5, 0., 0.], [0., 0.5, 0.]]);
    assert_eq!(tree.clip_polygons(&vec![inside]).len(), 0);
    // wholly outside: kept
    let outside = facet([[5., 0., 0.], [6., 0., 0.], [5., 1., 0.]]);
    let kept = tree.clip_polygons(&vec![outside]);
    assert_eq!(kept.len(), 1);
    assert_eq!(positions(&kept[0]), vec![[5., 0., 0.], [6., 0., 0.], [5., 1., 0.]]);
    // across the face x = 1: the part outside stays
    let across = facet([[0., 0., 0.], [2., 0., 0.], [0., 0.5, 0.]]);
    let cut = tree.clip_polygons(&vec![across]);
    assert_eq!(cut.len(), 1);
    assert_eq!(
        positions(&cut[0]),
        vec![[1., 0., 0.], [2., 0., 0.], [1., 0.25, 0.]]
    );
    // nothing in, nothing out
    assert_eq!(tree.clip_polygons(&vec![]).len(), 0);
}

#[test]
fn clip_polygons_by_an_empty_tree_gives_what_the_tree_holds() {
    let empty = BspNode::new(None);
    assert_eq!(empty.clip_polygons(&vec![level(0.), level(1.)]).len(), 0);
    let odd = BspNode {
        plane: None,
        front: None,
        back: None,
        polygons: vec![level(7.)],
    };
    let out = odd.clip_polygons(&vec![level(0.), level(1.)]);
    assert_eq!(out.len(), 1);
    assert_eq!(positions(&out[0])[0], [0., 0., 7.]);
}

#[test]
fn clip_to_keeps_the_shape_of_the_tree() {
    let cube = BspNode::new(Some(Csg::cube(vec3(2., 2., 2.), true).to_polygons()));
    let mut tree = BspNode::new(Some(vec![
        facet([[5., 0., 0.], [6., 0., 0.], [5., 1., 0.]]),
        facet([[0., 0., 0.5], [0.5, 0., 0.5], [0., 0.5, 0.5]]),
        facet([[0., 0., -3.], [0.5, 0., -3.], [0., 0.5, -3.]]),
    ]));
    tree.clip_to(&cube);
    assert_eq!(tree.polygons.len(), 1);
    assert_eq!(f(tree.plane.unwrap().1), 0.);
    let front = tree.front.as_ref().unwrap();
    assert_eq!(f(front.plane.unwrap().1), 0.5);
    assert_eq!(front.polygons.len(), 0);
    let back = tree.back.as_ref().unwrap();
    assert_eq!(back.polygons.len(), 1);
    assert_eq!(tree.all_polygons().len(), 2);
}

#[test]
fn an_operand_without_a_boundary_takes_everything_away() {
    let cube = Csg::cube(vec3(1., 1., 1.), true);
    let none = Csg::new();
    assert_eq!(Csg::union(&cube, &none).polygons.len(), 0);
    assert_eq!(Csg::union(&none, &cube).polygons.len(), 0);
    assert_eq!(Csg::subtract(&cube, &none).polygons.len(), 0);
    assert_eq!(Csg::subtract(&none, &cube).polygons.len(), 0);
    assert_eq!(Csg::intersect(&cube, &none).polygons.len(), 0);
    assert_eq!(Csg::intersect(&none, &cube).polygons.len(), 0);
}

#[test]
fn a_flat_facet_minus_itself_leaves_nothing() {
    let one = Csg::from_polygons(vec![level(0.)]);
    assert_eq!(Csg::subtract(&one, &one).polygons.len(), 0);
    assert_eq!(Csg::union(&one, &one).polygons.len(), 1);
    assert_eq!(Csg::intersect(&one, &one).polygons.len(), 1);
}

#[test]
fn an_open_boundary_minus_itself_can_leave_a_facet() {
    // a facet in z = 0 facing up, and one below it that faces it edge on
    let top = level(0.);
    let side = facet([[-10., 0., -1.], [-10., 0., -2.], [-10., 1., -1.]]);
    assert_eq!(coords(side.plane.0), [1., 0., 0.]);
    let open = Csg::from_polygons(vec![top, side]);
    let left = Csg::subtract(&open, &open);
    assert_eq!(left.polygons.len(), 1);
    assert_eq!(
        positions(&left.polygons[0]),
        vec![[0., 0., 0.], [1., 0., 0.], [0., 1., 0.]]
    );
}

#[test]
fn clip_keeps_what_lies_in_front_of_every_plane() {
    let tree = BspNode::new(Some(vec![level(0.), level(-1.), level(-2.)]));
    let kept = tree.clip_polygons(&vec![level(1.), level(3.), level(2.)]);
    let heights: Vec<f32> = kept.iter().map(|p| positions(p)[0][2]).collect();
    assert_eq!(heights, vec![1., 3., 2.]);
    for p in &kept {
        assert_eq!(p.vertices.len(), 3);
        assert_eq!(positions(p)[1][0], 1.);
    }
}

#[test]
fn clip_drops_what_lies_behind_every_plane() {
    let tree = BspNode::new(Some(vec![level(0.), level(1.), level(2.)]));
    let kept = tree.clip_polygons(&vec![level(-1.), level(-3.), level(-2.)]);
    assert_eq!(kept.len(), 0);
    // a tree whose polygons lie behind every plane of another is clipped away
    let mut low = BspNode::new(Some(vec![level(-1.), level(-3.), level(-2.)]));
    low.clip_to(&tree);
    assert_eq!(low.all_polygons().len(), 0);
    assert_eq!(f(low.plane.unwrap().1), -1.);
    assert!(low.front.is_none());
    assert_eq!(f(low.back.as_ref().unwrap().plane.unwrap().1), -3.);
}
