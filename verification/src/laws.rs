//! What holds of the boolean operators whatever the numbers are.
//!
//! A tree without a plane cannot tell inside from outside. Clipping by it
//! leaves what the tree itself holds, which is nothing for a tree that was
//! built. So a solid without a boundary takes everything away from the
//! other, and each of the three operators then gives the solid without a
//! boundary.
//!
//! A difference is empty as soon as each of the two trees is clipped away by
//! the other. Whether that happens for a given pair of solids is a matter of
//! where the planes put the corners, that is of arithmetic. For a solid
//! that lies in one plane it comes down to three facts about each of its
//! polygons, and the difference of such a solid and itself is then empty.
//!
//! Clipping follows the planes of a tree. Polygons that every plane of the
//! tree puts behind it are inside the solid and are clipped away. Polygons
//! that every plane puts in front of it are outside and stay as they are.
//! So a tree whose polygons all lie behind every plane of another tree is
//! clipped away by it, which is the first of the two steps above for a
//! solid that lies within another.

use vstd::prelude::*;
use crate::bsp_node::{flip_all, NodeModel};
use crate::csg::{difference_of, intersection_of, tree_of, union_of};
use crate::polygon::PolygonModel;
use crate::plane::Location;
use crate::split::{lemma_split_shares, Part};
use crate::plane::Plane;

verus! {

impl NodeModel {
    /// No node of the tree holds a polygon.
    pub open spec fn hollow(self) -> bool
        decreases self,
    {
        &&& self.polygons.len() == 0
        &&& match self.front {
            Some(f) => f.hollow(),
            None => true,
        }
        &&& match self.back {
            Some(b) => b.hollow(),
            None => true,
        }
    }

    /// Every node that holds a polygon has a plane.
    pub open spec fn settled(self) -> bool
        decreases self,
    {
        &&& self.plane is None ==> self.polygons.len() == 0
        &&& match self.front {
            Some(f) => f.settled(),
            None => true,
        }
        &&& match self.back {
            Some(b) => b.settled(),
            None => true,
        }
    }
}

/// Sorting no polygons gives none.
pub proof fn lemma_sort_nothing(plane: Plane, part: Part)
    ensures
        plane.sort(part, Seq::<PolygonModel>::empty()) == Seq::<PolygonModel>::empty(),
{
}

/// A hollow tree has no polygons, and is settled.
pub proof fn lemma_hollow(node: NodeModel)
    requires
        node.hollow(),
    ensures
        node.flatten() == Seq::<PolygonModel>::empty(),
        node.settled(),
    decreases node,
{
    match node.front {
        Some(f) => lemma_hollow(*f),
        None => {},
    }
    match node.back {
        Some(b) => lemma_hollow(*b),
        None => {},
    }
    assert(node.flatten() =~= Seq::<PolygonModel>::empty());
}

/// Inverting a hollow tree leaves it hollow.
pub proof fn lemma_invert_hollow(node: NodeModel)
    requires
        node.hollow(),
    ensures
        node.invert().hollow(),
    decreases node,
{
    match node.front {
        Some(f) => lemma_invert_hollow(*f),
        None => {},
    }
    match node.back {
        Some(b) => lemma_invert_hollow(*b),
        None => {},
    }
}

/// Inverting a settled tree leaves it settled.
pub proof fn lemma_invert_settled(node: NodeModel)
    requires
        node.settled(),
    ensures
        node.invert().settled(),
    decreases node,
{
    match node.front {
        Some(f) => lemma_invert_settled(*f),
        None => {},
    }
    match node.back {
        Some(b) => lemma_invert_settled(*b),
        None => {},
    }
}

/// Adding polygons to a settled tree leaves it settled.
pub proof fn lemma_build_settled(node: NodeModel, polys: Seq<PolygonModel>)
    requires
        node.settled(),
    ensures
        node.build(polys).settled(),
    decreases polys.len(),
{
    if polys.len() > 0 {
        let plane = match node.plane {
            Some(p) => p,
            None => polys[0].plane,
        };
        let rest = polys.subrange(1, polys.len() as int);
        let before = plane.sort(Part::Front, rest);
        let behind = plane.sort(Part::Back, rest);
        plane.lemma_sort_len(Part::Front, rest);
        plane.lemma_sort_len(Part::Back, rest);
        if before.len() > 0 {
            lemma_build_settled(NodeModel::or_empty(node.front), before);
        }
        if behind.len() > 0 {
            lemma_build_settled(NodeModel::or_empty(node.back), behind);
        }
    }
}

/// A settled tree leaves nothing of nothing.
pub proof fn lemma_clip_nothing(node: NodeModel)
    requires
        node.settled(),
    ensures
        node.clip(Seq::<PolygonModel>::empty()) == Seq::<PolygonModel>::empty(),
    decreases node,
{
    let none = Seq::<PolygonModel>::empty();
    match node.plane {
        None => {
            assert(node.polygons =~= none);
        },
        Some(plane) => {
            lemma_sort_nothing(plane, Part::Outside);
            lemma_sort_nothing(plane, Part::Inside);
            match node.front {
                Some(f) => lemma_clip_nothing(*f),
                None => {},
            }
            match node.back {
                Some(b) => lemma_clip_nothing(*b),
                None => {},
            }
            assert(node.clip(none) =~= none);
        },
    }
}

/// Clipping a hollow tree by a settled tree leaves it hollow.
pub proof fn lemma_clip_hollow(node: NodeModel, other: NodeModel)
    requires
        node.hollow(),
        other.settled(),
    ensures
        node.clip_to(other).hollow(),
    decreases node,
{
    assert(node.polygons =~= Seq::<PolygonModel>::empty());
    lemma_clip_nothing(other);
    match node.front {
        Some(f) => lemma_clip_hollow(*f, other),
        None => {},
    }
    match node.back {
        Some(b) => lemma_clip_hollow(*b, other),
        None => {},
    }
}

/// Clipping by the tree that holds nothing leaves a hollow tree.
pub proof fn lemma_clip_to_empty(node: NodeModel)
    ensures
        node.clip_to(NodeModel::empty()).hollow(),
    decreases node,
{
    match node.front {
        Some(f) => lemma_clip_to_empty(*f),
        None => {},
    }
    match node.back {
        Some(b) => lemma_clip_to_empty(*b),
        None => {},
    }
}

/// Clipping the tree that holds nothing by a settled tree leaves it as it
/// is, and so does inverting it.
pub proof fn lemma_empty_tree(other: NodeModel)
    requires
        other.settled(),
    ensures
        NodeModel::empty().clip_to(other) == NodeModel::empty(),
        NodeModel::empty().invert() == NodeModel::empty(),
        tree_of(Seq::<PolygonModel>::empty()) == NodeModel::empty(),
{
    lemma_clip_nothing(other);
    assert(flip_all(Seq::<PolygonModel>::empty()) =~= Seq::<PolygonModel>::empty());
}

/// The tree of a solid is settled.
pub proof fn lemma_tree_settled(polys: Seq<PolygonModel>)
    ensures
        tree_of(polys).settled(),
{
    lemma_build_settled(NodeModel::empty(), polys);
}

/// Where the first solid has no boundary, the union, the difference and the
/// intersection have none.
pub proof fn lemma_first_operand_empty(b: Seq<PolygonModel>)
    ensures
        union_of(Seq::<PolygonModel>::empty(), b) == Seq::<PolygonModel>::empty(),
        difference_of(Seq::<PolygonModel>::empty(), b) == Seq::<PolygonModel>::empty(),
        intersection_of(Seq::<PolygonModel>::empty(), b) == Seq::<PolygonModel>::empty(),
{
    let none = Seq::<PolygonModel>::empty();
    let e = NodeModel::empty();
    let b0 = tree_of(b);
    lemma_tree_settled(b);
    lemma_empty_tree(b0);
    // union and difference: the first tree stays empty, the second is clipped by it
    let b1 = b0.clip_to(e);
    lemma_clip_to_empty(b0);
    lemma_invert_hollow(b1);
    lemma_clip_to_empty(b1.invert());
    lemma_invert_hollow(b1.invert().clip_to(e));
    let b2 = b1.invert().clip_to(e).invert();
    lemma_hollow(b2);
    assert(e.build(none) == e);
    assert(e.flatten() =~= none);
    assert(union_of(none, b) == none);
    assert(difference_of(none, b) == none);
    // intersection: the second tree is clipped first
    let c1 = b0.clip_to(e).invert();
    lemma_hollow(c1);
    lemma_empty_tree(c1);
    lemma_clip_to_empty(c1);
    lemma_hollow(c1.clip_to(e));
    assert(intersection_of(none, b) == none);
}

/// Where the second solid has no boundary, the union, the difference and the
/// intersection have none.
pub proof fn lemma_second_operand_empty(a: Seq<PolygonModel>)
    ensures
        union_of(a, Seq::<PolygonModel>::empty()) == Seq::<PolygonModel>::empty(),
        difference_of(a, Seq::<PolygonModel>::empty()) == Seq::<PolygonModel>::empty(),
        intersection_of(a, Seq::<PolygonModel>::empty()) == Seq::<PolygonModel>::empty(),
{
    let none = Seq::<PolygonModel>::empty();
    let e = NodeModel::empty();
    lemma_tree_settled(a);
    lemma_empty_tree(tree_of(a));
    // union: the first tree is clipped by the empty one
    {
        let a1 = tree_of(a).clip_to(e);
        lemma_clip_to_empty(tree_of(a));
        lemma_hollow(a1);
        lemma_empty_tree(a1);
        assert(e.clip_to(a1).invert().clip_to(a1).invert() == e);
        assert(e.flatten() =~= none);
        assert(a1.build(none) == a1);
        assert(union_of(a, none) == none);
    }
    // difference: the same with the first tree inverted
    {
        let a0 = tree_of(a).invert();
        let a1 = a0.clip_to(e);
        lemma_clip_to_empty(a0);
        lemma_hollow(a1);
        lemma_empty_tree(a1);
        assert(e.clip_to(a1).invert().clip_to(a1).invert() == e);
        assert(e.flatten() =~= none);
        assert(a1.build(none) == a1);
        lemma_invert_hollow(a1);
        lemma_hollow(a1.invert());
        assert(difference_of(a, none) == none);
    }
    // intersection: the empty tree is clipped first and stays empty
    {
        let a0 = tree_of(a).invert();
        lemma_invert_settled(tree_of(a));
        lemma_empty_tree(a0);
        let a1 = a0.clip_to(e);
        lemma_clip_to_empty(a0);
        lemma_hollow(a1);
        lemma_empty_tree(a1);
        assert(e.flatten() =~= none);
        assert(a1.build(none) == a1);
        lemma_invert_hollow(a1);
        lemma_hollow(a1.invert());
        assert(intersection_of(a, none) == none);
    }
}

/// Subtracting the solid without a boundary from itself leaves it.
pub proof fn lemma_nothing_minus_nothing()
    ensures
        difference_of(Seq::<PolygonModel>::empty(), Seq::<PolygonModel>::empty()) == Seq::<
            PolygonModel,
        >::empty(),
{
    lemma_first_operand_empty(Seq::<PolygonModel>::empty());
}

/// The difference of two solids has no boundary if nothing of the first
/// tree, inverted, is left outside the second, and nothing of the second is
/// then left outside the first.
pub proof fn lemma_difference_of_clipped_away(a: Seq<PolygonModel>, b: Seq<PolygonModel>)
    requires
        tree_of(a).invert().clip_to(tree_of(b)).hollow(),
        tree_of(b).clip_to(tree_of(a).invert().clip_to(tree_of(b))).hollow(),
    ensures
        difference_of(a, b) == Seq::<PolygonModel>::empty(),
{
    let none = Seq::<PolygonModel>::empty();
    let a1 = tree_of(a).invert().clip_to(tree_of(b));
    let b1 = tree_of(b).clip_to(a1);
    lemma_hollow(a1);
    lemma_invert_hollow(b1);
    lemma_clip_hollow(b1.invert(), a1);
    lemma_invert_hollow(b1.invert().clip_to(a1));
    let b2 = b1.invert().clip_to(a1).invert();
    lemma_hollow(b2);
    assert(a1.build(none) == a1);
    lemma_invert_hollow(a1);
    lemma_hollow(a1.invert());
}

/// A part to which no polygon of a list gives anything is empty.
pub proof fn lemma_sort_none(plane: Plane, part: Part, polys: Seq<PolygonModel>)
    requires
        forall|i: int| 0 <= i < polys.len() ==> plane.share(part, #[trigger] polys[i]).len() == 0,
    ensures
        plane.sort(part, polys) == Seq::<PolygonModel>::empty(),
    decreases polys.len(),
{
    if polys.len() > 0 {
        lemma_sort_none(plane, part, polys.drop_last());
        assert(plane.share(part, polys.last()) =~= Seq::<PolygonModel>::empty());
    }
}

/// A list of polygons that all lie in the plane goes to the part in the
/// plane as it is, and gives nothing to the front and to the back.
pub proof fn lemma_sort_in_plane(plane: Plane, polys: Seq<PolygonModel>)
    requires
        forall|i: int|
            0 <= i < polys.len() ==> plane.locate((#[trigger] polys[i]).vertices)
                == Location::Coplanar,
    ensures
        plane.sort(Part::InPlane, polys) == polys,
        plane.sort(Part::Front, polys) == Seq::<PolygonModel>::empty(),
        plane.sort(Part::Back, polys) == Seq::<PolygonModel>::empty(),
    decreases polys.len(),
{
    if polys.len() > 0 {
        lemma_sort_in_plane(plane, polys.drop_last());
        lemma_split_shares(plane, polys.last());
        assert(plane.share(Part::InPlane, polys.last()) =~= seq![polys.last()]);
        assert(plane.sort(Part::InPlane, polys) =~= polys);
        assert(plane.sort(Part::Front, polys) =~= Seq::<PolygonModel>::empty());
        assert(plane.sort(Part::Back, polys) =~= Seq::<PolygonModel>::empty());
    } else {
        assert(plane.sort(Part::InPlane, polys) =~= polys);
    }
}

/// A solid that lies in the plane of its first polygon, such that the same
/// plane puts each of its polygons inside once the polygon is turned over,
/// and the plane turned over puts each polygon inside as it is.
pub open spec fn flat(a: Seq<PolygonModel>) -> bool {
    &&& a.len() > 0
    &&& forall|i: int|
        1 <= i < a.len() ==> a[0].plane.locate((#[trigger] a[i]).vertices) == Location::Coplanar
    &&& forall|i: int|
        0 <= i < a.len() ==> a[0].plane.share(Part::Outside, (#[trigger] a[i]).flipped()).len()
            == 0
    &&& forall|i: int|
        0 <= i < a.len() ==> a[0].plane.flip().share(Part::Outside, #[trigger] a[i]).len() == 0
}

/// The tree of a flat solid is one node that holds all its polygons.
pub proof fn lemma_flat_tree(a: Seq<PolygonModel>)
    requires
        flat(a),
    ensures
        tree_of(a) == (NodeModel { plane: Some(a[0].plane), front: None, back: None, polygons: a }),
{
    let rest = a.subrange(1, a.len() as int);
    assert forall|i: int| 0 <= i < rest.len() implies a[0].plane.locate(
        (#[trigger] rest[i]).vertices,
    ) == Location::Coplanar by {
        assert(rest[i] == a[i + 1]);
    }
    lemma_sort_in_plane(a[0].plane, rest);
    assert(Seq::<PolygonModel>::empty().push(a[0]) + rest =~= a);
}

/// A flat solid without itself has no boundary.
pub proof fn lemma_flat_minus_itself(a: Seq<PolygonModel>)
    requires
        flat(a),
    ensures
        difference_of(a, a) == Seq::<PolygonModel>::empty(),
{
    let none = Seq::<PolygonModel>::empty();
    let plane = a[0].plane;
    let t = tree_of(a);
    lemma_flat_tree(a);
    let turned = flip_all(a);
    assert forall|i: int| 0 <= i < turned.len() implies plane.share(
        Part::Outside,
        #[trigger] turned[i],
    ).len() == 0 by {
        assert(turned[i] == a[i].flipped());
    }
    lemma_sort_none(plane, Part::Outside, turned);
    let a1 = t.invert().clip_to(t);
    assert(t.clip(turned) =~= none);
    assert(a1 == (NodeModel { plane: Some(plane.flip()), front: None, back: None, polygons: none }));
    lemma_sort_none(plane.flip(), Part::Outside, a);
    assert(a1.clip(a) =~= none);
    assert(t.clip_to(a1).hollow());
    lemma_difference_of_clipped_away(a, a);
}

impl NodeModel {
    /// Every node of the tree has a plane.
    pub open spec fn grounded(self) -> bool
        decreases self,
    {
        &&& self.plane is Some
        &&& match self.front {
            Some(f) => f.grounded(),
            None => true,
        }
        &&& match self.back {
            Some(b) => b.grounded(),
            None => true,
        }
    }

    /// Every plane of the tree puts every polygon of the list at `loc`.
    pub open spec fn puts(self, polys: Seq<PolygonModel>, loc: Location) -> bool
        decreases self,
    {
        &&& match self.plane {
            Some(plane) => forall|i: int|
                0 <= i < polys.len() ==> plane.locate((#[trigger] polys[i]).vertices) == loc,
            None => true,
        }
        &&& match self.front {
            Some(f) => f.puts(polys, loc),
            None => true,
        }
        &&& match self.back {
            Some(b) => b.puts(polys, loc),
            None => true,
        }
    }

    /// Every plane of `other` puts every polygon that this tree holds behind
    /// it.
    pub open spec fn sunk_in(self, other: NodeModel) -> bool
        decreases self,
    {
        &&& other.puts(self.polygons, Location::Back)
        &&& match self.front {
            Some(f) => f.sunk_in(other),
            None => true,
        }
        &&& match self.back {
            Some(b) => b.sunk_in(other),
            None => true,
        }
    }
}

/// A list of polygons that all lie behind the plane goes to the inside as it
/// is, and gives nothing to the outside.
pub proof fn lemma_sort_behind(plane: Plane, polys: Seq<PolygonModel>)
    requires
        forall|i: int|
            0 <= i < polys.len() ==> plane.locate((#[trigger] polys[i]).vertices)
                == Location::Back,
    ensures
        plane.sort(Part::Inside, polys) == polys,
        plane.sort(Part::Outside, polys) == Seq::<PolygonModel>::empty(),
    decreases polys.len(),
{
    if polys.len() > 0 {
        lemma_sort_behind(plane, polys.drop_last());
        assert(plane.share(Part::Inside, polys.last()) =~= seq![polys.last()]);
        assert(plane.share(Part::Outside, polys.last()) =~= Seq::<PolygonModel>::empty());
        assert(plane.sort(Part::Inside, polys) =~= polys);
        assert(plane.sort(Part::Outside, polys) =~= Seq::<PolygonModel>::empty());
    } else {
        assert(plane.sort(Part::Inside, polys) =~= polys);
    }
}

/// A list of polygons that all lie in front of the plane goes to the outside
/// as it is, and gives nothing to the inside.
pub proof fn lemma_sort_in_front(plane: Plane, polys: Seq<PolygonModel>)
    requires
        forall|i: int|
            0 <= i < polys.len() ==> plane.locate((#[trigger] polys[i]).vertices)
                == Location::Front,
    ensures
        plane.sort(Part::Outside, polys) == polys,
        plane.sort(Part::Inside, polys) == Seq::<PolygonModel>::empty(),
    decreases polys.len(),
{
    if polys.len() > 0 {
        lemma_sort_in_front(plane, polys.drop_last());
        assert(plane.share(Part::Outside, polys.last()) =~= seq![polys.last()]);
        assert(plane.share(Part::Inside, polys.last()) =~= Seq::<PolygonModel>::empty());
        assert(plane.sort(Part::Outside, polys) =~= polys);
        assert(plane.sort(Part::Inside, polys) =~= Seq::<PolygonModel>::empty());
    } else {
        assert(plane.sort(Part::Outside, polys) =~= polys);
    }
}

/// A tree in which every node has a plane is settled.
pub proof fn lemma_grounded_settled(node: NodeModel)
    requires
        node.grounded(),
    ensures
        node.settled(),
    decreases node,
{
    match node.front {
        Some(f) => lemma_grounded_settled(*f),
        None => {},
    }
    match node.back {
        Some(b) => lemma_grounded_settled(*b),
        None => {},
    }
}

/// Adding polygons to a tree in which every node has a plane, or to the
/// tree that holds nothing, gives a tree in which every node has a plane.
pub proof fn lemma_build_grounded(node: NodeModel, polys: Seq<PolygonModel>)
    requires
        node.grounded() || (node == NodeModel::empty() && polys.len() > 0),
    ensures
        node.build(polys).grounded(),
    decreases polys.len(),
{
    if polys.len() > 0 {
        let plane = match node.plane {
            Some(p) => p,
            None => polys[0].plane,
        };
        let rest = polys.subrange(1, polys.len() as int);
        let before = plane.sort(Part::Front, rest);
        let behind = plane.sort(Part::Back, rest);
        plane.lemma_sort_len(Part::Front, rest);
        plane.lemma_sort_len(Part::Back, rest);
        if before.len() > 0 {
            lemma_build_grounded(NodeModel::or_empty(node.front), before);
        }
        if behind.len() > 0 {
            lemma_build_grounded(NodeModel::or_empty(node.back), behind);
        }
    }
}

/// Polygons that every plane of a settled tree puts behind it are clipped
/// away.
pub proof fn lemma_clip_behind(node: NodeModel, polys: Seq<PolygonModel>)
    requires
        node.settled(),
        node.puts(polys, Location::Back),
    ensures
        node.clip(polys) == Seq::<PolygonModel>::empty(),
    decreases node,
{
    let none = Seq::<PolygonModel>::empty();
    match node.plane {
        None => {
            assert(node.polygons =~= none);
        },
        Some(plane) => {
            lemma_sort_behind(plane, polys);
            match node.front {
                Some(f) => lemma_clip_nothing(*f),
                None => {},
            }
            match node.back {
                Some(b) => lemma_clip_behind(*b, polys),
                None => {},
            }
            assert(node.clip(polys) =~= none);
        },
    }
}

/// Polygons that every plane of a tree puts in front of it stay as they
/// are, if every node of the tree has a plane.
pub proof fn lemma_clip_in_front(node: NodeModel, polys: Seq<PolygonModel>)
    requires
        node.grounded(),
        node.puts(polys, Location::Front),
    ensures
        node.clip(polys) == polys,
    decreases node,
{
    let plane = node.plane->0;
    lemma_sort_in_front(plane, polys);
    match node.front {
        Some(f) => lemma_clip_in_front(*f, polys),
        None => {},
    }
    match node.back {
        Some(b) => {
            lemma_grounded_settled(*b);
            lemma_clip_nothing(*b);
        },
        None => {},
    }
    assert(node.clip(polys) =~= polys);
}

/// The tree of a solid that has a boundary leaves polygons as they are that
/// each of its planes puts in front of it.
pub proof fn lemma_solid_keeps_what_lies_in_front(b: Seq<PolygonModel>, polys: Seq<PolygonModel>)
    requires
        b.len() > 0,
        tree_of(b).puts(polys, Location::Front),
    ensures
        tree_of(b).clip(polys) == polys,
{
    lemma_build_grounded(NodeModel::empty(), b);
    lemma_clip_in_front(tree_of(b), polys);
}

/// The tree of a solid clips away polygons that each of its planes puts
/// behind it.
pub proof fn lemma_solid_drops_what_lies_behind(b: Seq<PolygonModel>, polys: Seq<PolygonModel>)
    requires
        tree_of(b).puts(polys, Location::Back),
    ensures
        tree_of(b).clip(polys) == Seq::<PolygonModel>::empty(),
{
    lemma_tree_settled(b);
    lemma_clip_behind(tree_of(b), polys);
}

/// A tree whose polygons all lie behind every plane of a settled tree is
/// clipped away by it.
pub proof fn lemma_clip_sunk(node: NodeModel, other: NodeModel)
    requires
        other.settled(),
        node.sunk_in(other),
    ensures
        node.clip_to(other).hollow(),
    decreases node,
{
    lemma_clip_behind(other, node.polygons);
    match node.front {
        Some(f) => lemma_clip_sunk(*f, other),
        None => {},
    }
    match node.back {
        Some(b) => lemma_clip_sunk(*b, other),
        None => {},
    }
}

/// The difference of two solids has no boundary if every polygon of the
/// first tree, inverted, lies behind every plane of the second tree, and
/// nothing of the second tree is left outside what the first has become.
pub proof fn lemma_difference_of_sunk(a: Seq<PolygonModel>, b: Seq<PolygonModel>)
    requires
        tree_of(a).invert().sunk_in(tree_of(b)),
        tree_of(b).clip_to(tree_of(a).invert().clip_to(tree_of(b))).hollow(),
    ensures
        difference_of(a, b) == Seq::<PolygonModel>::empty(),
{
    lemma_tree_settled(b);
    lemma_clip_sunk(tree_of(a).invert(), tree_of(b));
    lemma_difference_of_clipped_away(a, b);
}

} // verus!
