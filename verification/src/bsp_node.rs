//! Binary space partitioning trees.
//!
//! A tree is built from a list of polygons. The first polygon gives the
//! plane of the root; it and every polygon in that plane stay in the root,
//! and the others go to the subtree in front of the plane or to the one
//! behind it, cut where they reach both sides. There is no separate kind of
//! leaf: every node holds polygons.

use vstd::prelude::*;
use crate::plane::Plane;
use crate::plane::lemma_plane_flip_involution;
use crate::polygon::{lemma_polygon_flip_involution, Polygon, PolygonModel};
use crate::split::{all_well_formed, push_polygon, Part};

verus! {

/// A node of a tree, with the subtrees it owns. A node without a plane is
/// empty.
#[derive(Debug)]
pub struct BspNode {
    pub plane: Option<Plane>,
    pub front: Option<Box<BspNode>>,
    pub back: Option<Box<BspNode>>,
    pub polygons: Vec<Polygon>,
}

/// What a tree is, mathematically.
pub struct NodeModel {
    pub plane: Option<Plane>,
    pub front: Option<Box<NodeModel>>,
    pub back: Option<Box<NodeModel>>,
    pub polygons: Seq<PolygonModel>,
}

/// Every polygon of the list, flipped.
pub open spec fn flip_all(polys: Seq<PolygonModel>) -> Seq<PolygonModel> {
    Seq::new(polys.len(), |i: int| polys[i].flipped())
}

impl NodeModel {
    /// The tree that holds nothing.
    pub open spec fn empty() -> NodeModel {
        NodeModel { plane: None, front: None, back: None, polygons: seq![] }
    }

    /// The subtree in a slot, or the empty tree where the slot is free.
    pub open spec fn or_empty(child: Option<Box<NodeModel>>) -> NodeModel {
        match child {
            Some(c) => *c,
            None => NodeModel::empty(),
        }
    }

    /// Every polygon in the tree has at least three corners.
    pub open spec fn well_formed(self) -> bool
        decreases self,
    {
        &&& all_well_formed(self.polygons)
        &&& match self.front {
            Some(f) => f.well_formed(),
            None => true,
        }
        &&& match self.back {
            Some(b) => b.well_formed(),
            None => true,
        }
    }

    /// The polygons of the tree: those of the root, then those of the front
    /// subtree, then those of the back subtree.
    pub open spec fn flatten(self) -> Seq<PolygonModel>
        decreases self,
    {
        self.polygons + (match self.front {
            Some(f) => f.flatten(),
            None => seq![],
        }) + (match self.back {
            Some(b) => b.flatten(),
            None => seq![],
        })
    }

    /// The tree of the complement: every polygon and every plane is flipped,
    /// and at every node the two subtrees change places.
    pub open spec fn invert(self) -> NodeModel
        decreases self,
    {
        NodeModel {
            plane: match self.plane {
                Some(p) => Some(p.flip()),
                None => None,
            },
            front: match self.back {
                Some(b) => Some(Box::new(b.invert())),
                None => None,
            },
            back: match self.front {
                Some(f) => Some(Box::new(f.invert())),
                None => None,
            },
            polygons: flip_all(self.polygons),
        }
    }

    /// What is left of `polys` outside the solid that the tree stands for.
    /// An empty tree gives its own polygons. Otherwise the list is sorted by
    /// the plane of the root. What lies outside goes on through the front
    /// subtree, or stays as it is where there is none. What lies inside goes
    /// on through the back subtree, or is dropped where there is none.
    pub open spec fn clip(self, polys: Seq<PolygonModel>) -> Seq<PolygonModel>
        decreases self,
    {
        match self.plane {
            None => self.polygons,
            Some(plane) => {
                let outside = plane.sort(Part::Outside, polys);
                let inside = plane.sort(Part::Inside, polys);
                (match self.front {
                    Some(f) => f.clip(outside),
                    None => outside,
                }) + (match self.back {
                    Some(b) => b.clip(inside),
                    None => seq![],
                })
            },
        }
    }

    /// The tree with the polygons of every node clipped by `other`.
    pub open spec fn clip_to(self, other: NodeModel) -> NodeModel
        decreases self,
    {
        NodeModel {
            plane: self.plane,
            front: match self.front {
                Some(f) => Some(Box::new(f.clip_to(other))),
                None => None,
            },
            back: match self.back {
                Some(b) => Some(Box::new(b.clip_to(other))),
                None => None,
            },
            polygons: other.clip(self.polygons),
        }
    }

    /// The tree after `polys` have been added. Nothing changes for an empty
    /// list. Otherwise the plane of the root is the one it had, or that of
    /// the first polygon. The first polygon stays in the root, and so does
    /// what the others have in the plane. What they have in front is added to
    /// the front subtree and what they have behind to the back subtree; a
    /// subtree is begun only when there is something to add to it.
    pub open spec fn build(self, polys: Seq<PolygonModel>) -> NodeModel
        decreases polys.len(),
    {
        if polys.len() == 0 {
            self
        } else {
            let plane = match self.plane {
                Some(p) => p,
                None => polys[0].plane,
            };
            let rest = polys.subrange(1, polys.len() as int);
            let before = plane.sort(Part::Front, rest);
            let behind = plane.sort(Part::Back, rest);
            NodeModel {
                plane: Some(plane),
                front: if before.len() == 0 {
                    self.front
                } else {
                    proof {
                        plane.lemma_sort_len(Part::Front, rest);
                    }
                    Some(Box::new(NodeModel::or_empty(self.front).build(before)))
                },
                back: if behind.len() == 0 {
                    self.back
                } else {
                    proof {
                        plane.lemma_sort_len(Part::Back, rest);
                    }
                    Some(Box::new(NodeModel::or_empty(self.back).build(behind)))
                },
                polygons: self.polygons.push(polys[0]) + plane.sort(Part::InPlane, rest),
            }
        }
    }
}

impl BspNode {
    /// The model of the subtree in a slot.
    pub open spec fn slot(child: Option<Box<BspNode>>) -> Option<Box<NodeModel>>
        decreases child,
    {
        match child {
            Some(c) => Some(Box::new(c.model())),
            None => None,
        }
    }

    /// The model of the tree.
    pub open spec fn model(&self) -> NodeModel
        decreases self,
    {
        NodeModel {
            plane: self.plane,
            front: BspNode::slot(self.front),
            back: BspNode::slot(self.back),
            polygons: self.polygons.deep_view(),
        }
    }
}

/// A copy of a list of polygons.
pub fn clone_polygons(list: &Vec<Polygon>) -> (r: Vec<Polygon>)
    ensures
        r.deep_view() == list.deep_view(),
{
    let mut out: Vec<Polygon> = Vec::new();
    let mut i: usize = 0;
    while i < list.len()
        invariant
            i <= list.len(),
            out.deep_view() == list.deep_view().subrange(0, i as int),
        decreases list.len() - i,
    {
        push_polygon(&mut out, list[i].clone());
        assert(out.deep_view() =~= list.deep_view().subrange(0, i + 1));
        i += 1;
    }
    assert(out.deep_view() =~= list.deep_view());
    out
}

/// Moves the polygons of `more` to the end of `list`.
pub fn append_polygons(list: &mut Vec<Polygon>, more: Vec<Polygon>)
    ensures
        final(list).deep_view() == old(list).deep_view() + more.deep_view(),
{
    let mut more = more;
    let ghost added = more.deep_view();
    list.append(&mut more);
    assert(list.deep_view() =~= old(list).deep_view() + added);
}

impl BspNode {
    /// The tree built from the given polygons, or the empty tree.
    pub fn new(polygons: Option<Vec<Polygon>>) -> (r: BspNode)
        ensures
            r@ == match polygons {
                Some(list) => NodeModel::empty().build(list.deep_view()),
                None => NodeModel::empty(),
            },
    {
        let mut bsp = BspNode { plane: None, front: None, back: None, polygons: Vec::new() };
        assert(bsp.polygons.deep_view() =~= Seq::<PolygonModel>::empty());
        match polygons {
            Some(list) => bsp.build(list),
            None => (),
        }
        bsp
    }

    /// The polygons of the tree: those of the root, then those of the front
    /// subtree, then those of the back subtree.
    pub fn all_polygons(&self) -> (r: Vec<Polygon>)
        ensures
            r.deep_view() == self@.flatten(),
    {
        let mut polys: Vec<Polygon> = Vec::new();
        assert(polys.deep_view() =~= Seq::<PolygonModel>::empty());
        self.fill_polygons(&mut polys);
        assert(polys.deep_view() =~= self@.flatten());
        polys
    }

    fn fill_polygons(&self, polys: &mut Vec<Polygon>)
        ensures
            final(polys).deep_view() == old(polys).deep_view() + self@.flatten(),
        decreases self,
    {
        append_polygons(polys, clone_polygons(&self.polygons));
        match &self.front {
            Some(f) => f.fill_polygons(polys),
            None => {},
        }
        match &self.back {
            Some(b) => b.fill_polygons(polys),
            None => {},
        }
        assert(polys.deep_view() =~= old(polys).deep_view() + self@.flatten());
    }

    /// Turns the tree into that of the complement: solid becomes empty and
    /// empty becomes solid.
    pub fn invert(&mut self)
        ensures
            final(self)@ == old(self)@.invert(),
        decreases *old(self),
    {
        let n = self.polygons.len();
        let mut i: usize = 0;
        while i < n
            invariant
                n == self.polygons.len(),
                n == old(self).polygons.len(),
                i <= n,
                self.plane == old(self).plane,
                self.front == old(self).front,
                self.back == old(self).back,
                forall|k: int|
                    0 <= k < i ==> (#[trigger] self.polygons@[k])@ == old(
                        self,
                    ).polygons@[k]@.flipped(),
                forall|k: int|
                    i <= k < n ==> (#[trigger] self.polygons@[k])@ == old(self).polygons@[k]@,
            decreases n - i,
        {
            let mut poly = self.polygons[i].clone();
            poly.flip();
            self.polygons.set(i, poly);
            i += 1;
        }
        assert(self.polygons.deep_view() =~= flip_all(old(self).polygons.deep_view()));
        self.plane = match self.plane {
            Some(p) => Some(p.flip()),
            None => None,
        };
        let front = self.front.take();
        let back = self.back.take();
        self.front = match back {
            Some(mut b) => {
                (&mut *b).invert();
                Some(b)
            },
            None => None,
        };
        self.back = match front {
            Some(mut f) => {
                (&mut *f).invert();
                Some(f)
            },
            None => None,
        };
    }
}

impl BspNode {
    /// Removes from `polygons` what lies inside the solid that this tree
    /// stands for, and returns what is left.
    pub fn clip_polygons(&self, polygons: &Vec<Polygon>) -> (r: Vec<Polygon>)
        ensures
            r.deep_view() == self@.clip(polygons.deep_view()),
        decreases self,
    {
        let plane = match self.plane {
            None => {
                return clone_polygons(&self.polygons);
            },
            Some(p) => p,
        };
        let mut front: Vec<Polygon> = Vec::new();
        let mut back: Vec<Polygon> = Vec::new();
        assert(front.deep_view() =~= Seq::<PolygonModel>::empty());
        assert(back.deep_view() =~= Seq::<PolygonModel>::empty());
        let n = polygons.len();
        let mut i: usize = 0;
        while i < n
            invariant
                n == polygons.len(),
                i <= n,
                front.deep_view() == plane.sort(
                    Part::Outside,
                    polygons.deep_view().subrange(0, i as int),
                ),
                back.deep_view() == plane.sort(
                    Part::Inside,
                    polygons.deep_view().subrange(0, i as int),
                ),
            decreases n - i,
        {
            let mut second_front: Vec<Polygon> = Vec::new();
            let mut second_back: Vec<Polygon> = Vec::new();
            assert(second_front.deep_view() =~= Seq::<PolygonModel>::empty());
            assert(second_back.deep_view() =~= Seq::<PolygonModel>::empty());
            plane.split_polygon(
                &polygons[i],
                &mut front,
                &mut back,
                &mut second_front,
                &mut second_back,
            );
            append_polygons(&mut front, second_front);
            append_polygons(&mut back, second_back);
            proof {
                let upto = polygons.deep_view().subrange(0, i + 1);
                assert(upto.drop_last() =~= polygons.deep_view().subrange(0, i as int));
                assert(upto.last() == polygons@[i as int]@);
                assert(front.deep_view() =~= plane.sort(Part::Outside, upto));
                assert(back.deep_view() =~= plane.sort(Part::Inside, upto));
            }
            i += 1;
        }
        assert(polygons.deep_view().subrange(0, n as int) =~= polygons.deep_view());
        let mut kept = match &self.front {
            Some(f) => f.clip_polygons(&front),
            None => front,
        };
        let dropped = match &self.back {
            Some(b) => b.clip_polygons(&back),
            None => {
                let none: Vec<Polygon> = Vec::new();
                assert(none.deep_view() =~= Seq::<PolygonModel>::empty());
                none
            },
        };
        append_polygons(&mut kept, dropped);
        kept
    }

    /// Removes from the polygons of this tree what lies inside the solid
    /// that `bsp` stands for.
    pub fn clip_to(&mut self, bsp: &BspNode)
        ensures
            final(self)@ == old(self)@.clip_to(bsp@),
        decreases *old(self),
    {
        self.polygons = bsp.clip_polygons(&self.polygons);
        match self.front.take() {
            Some(mut f) => {
                (&mut *f).clip_to(bsp);
                self.front = Some(f);
            },
            None => {},
        }
        match self.back.take() {
            Some(mut b) => {
                (&mut *b).clip_to(bsp);
                self.back = Some(b);
            },
            None => {},
        }
    }

    /// Adds polygons to the tree. They are passed down to the bottom of the
    /// tree and begin new nodes there. Each list is parted by its first
    /// polygon; no better plane is looked for.
    pub fn build(&mut self, polygons: Vec<Polygon>)
        ensures
            final(self)@ == old(self)@.build(polygons.deep_view()),
        decreases polygons.len(),
    {
        let n = polygons.len();
        if n == 0 {
            return ;
        }
        let plane = match self.plane {
            Some(p) => p,
            None => polygons[0].plane,
        };
        self.plane = Some(plane);
        push_polygon(&mut self.polygons, polygons[0].clone());
        let mut front: Vec<Polygon> = Vec::new();
        let mut back: Vec<Polygon> = Vec::new();
        assert(front.deep_view() =~= Seq::<PolygonModel>::empty());
        assert(back.deep_view() =~= Seq::<PolygonModel>::empty());
        let ghost rest = polygons.deep_view().subrange(1, n as int);
        let ghost own = old(self).polygons.deep_view().push(polygons@[0]@);
        let mut i: usize = 1;
        while i < n
            invariant
                n == polygons.len(),
                1 <= i <= n,
                rest == polygons.deep_view().subrange(1, n as int),
                self.plane == Some(plane),
                self.front == old(self).front,
                self.back == old(self).back,
                self.polygons.deep_view() == own + plane.sort(
                    Part::InPlane,
                    rest.subrange(0, i - 1),
                ),
                front.deep_view() == plane.sort(Part::Front, rest.subrange(0, i - 1)),
                back.deep_view() == plane.sort(Part::Back, rest.subrange(0, i - 1)),
            decreases n - i,
        {
            let mut second: Vec<Polygon> = Vec::new();
            assert(second.deep_view() =~= Seq::<PolygonModel>::empty());
            plane.split_polygon(
                &polygons[i],
                &mut self.polygons,
                &mut second,
                &mut front,
                &mut back,
            );
            append_polygons(&mut self.polygons, second);
            proof {
                let upto = rest.subrange(0, i as int);
                assert(upto.drop_last() =~= rest.subrange(0, i - 1));
                assert(upto.last() == polygons@[i as int]@);
                assert(self.polygons.deep_view() =~= own + plane.sort(Part::InPlane, upto));
                assert(front.deep_view() =~= plane.sort(Part::Front, upto));
                assert(back.deep_view() =~= plane.sort(Part::Back, upto));
            }
            i += 1;
        }
        proof {
            assert(rest.subrange(0, n - 1) =~= rest);
            plane.lemma_sort_len(Part::Front, rest);
            plane.lemma_sort_len(Part::Back, rest);
        }
        if front.len() > 0 {
            let mut child = match self.front.take() {
                Some(c) => c,
                None => Box::new(BspNode::vacant()),
            };
            (&mut *child).build(front);
            self.front = Some(child);
        }
        if back.len() > 0 {
            let mut child = match self.back.take() {
                Some(c) => c,
                None => Box::new(BspNode::vacant()),
            };
            (&mut *child).build(back);
            self.back = Some(child);
        }
    }

    /// The tree that holds nothing.
    fn vacant() -> (r: BspNode)
        ensures
            r@ == NodeModel::empty(),
    {
        let r = BspNode { plane: None, front: None, back: None, polygons: Vec::new() };
        assert(r.polygons.deep_view() =~= Seq::<PolygonModel>::empty());
        r
    }
}

/// Flipping every polygon of a list twice gives the list back.
pub proof fn lemma_flip_all_involution(polys: Seq<PolygonModel>)
    ensures
        flip_all(flip_all(polys)) == polys,
{
    assert forall|i: int| 0 <= i < polys.len() implies flip_all(flip_all(polys))[i]
        == polys[i] by {
        lemma_polygon_flip_involution(polys[i]);
    }
    assert(flip_all(flip_all(polys)) =~= polys);
}

/// Flipping keeps a list of polygons well formed.
pub proof fn lemma_flip_all_well_formed(polys: Seq<PolygonModel>)
    requires
        all_well_formed(polys),
    ensures
        all_well_formed(flip_all(polys)),
{
    assert forall|i: int| 0 <= i < flip_all(polys).len() implies (#[trigger] flip_all(
        polys,
    )[i]).well_formed() by {
        assert(polys[i].well_formed());
    }
}

/// A list made of two well-formed lists is well formed.
pub proof fn lemma_concat_well_formed(a: Seq<PolygonModel>, b: Seq<PolygonModel>)
    requires
        all_well_formed(a),
        all_well_formed(b),
    ensures
        all_well_formed(a + b),
{
    assert forall|i: int| 0 <= i < (a + b).len() implies (#[trigger] (a + b)[i]).well_formed() by {
        if i < a.len() {
            assert(a[i].well_formed());
        } else {
            assert(b[i - a.len()].well_formed());
        }
    }
}

/// Inverting a tree twice gives the tree back.
pub proof fn lemma_invert_involution(node: NodeModel)
    ensures
        node.invert().invert() == node,
    decreases node,
{
    lemma_flip_all_involution(node.polygons);
    match node.plane {
        Some(p) => lemma_plane_flip_involution(p),
        None => {},
    }
    match node.front {
        Some(f) => lemma_invert_involution(*f),
        None => {},
    }
    match node.back {
        Some(b) => lemma_invert_involution(*b),
        None => {},
    }
}

/// Inverting a well-formed tree gives a well-formed tree.
pub proof fn lemma_invert_well_formed(node: NodeModel)
    requires
        node.well_formed(),
    ensures
        node.invert().well_formed(),
    decreases node,
{
    lemma_flip_all_well_formed(node.polygons);
    match node.front {
        Some(f) => lemma_invert_well_formed(*f),
        None => {},
    }
    match node.back {
        Some(b) => lemma_invert_well_formed(*b),
        None => {},
    }
}

/// The polygons of a well-formed tree are well formed.
pub proof fn lemma_flatten_well_formed(node: NodeModel)
    requires
        node.well_formed(),
    ensures
        all_well_formed(node.flatten()),
    decreases node,
{
    let front = match node.front {
        Some(f) => {
            lemma_flatten_well_formed(*f);
            f.flatten()
        },
        None => seq![],
    };
    let back = match node.back {
        Some(b) => {
            lemma_flatten_well_formed(*b);
            b.flatten()
        },
        None => seq![],
    };
    lemma_concat_well_formed(node.polygons, front);
    lemma_concat_well_formed(node.polygons + front, back);
}

/// Clipping well-formed polygons by a well-formed tree leaves well-formed
/// polygons.
pub proof fn lemma_clip_well_formed(node: NodeModel, polys: Seq<PolygonModel>)
    requires
        node.well_formed(),
        all_well_formed(polys),
    ensures
        all_well_formed(node.clip(polys)),
    decreases node,
{
    match node.plane {
        None => {},
        Some(plane) => {
            let outside = plane.sort(Part::Outside, polys);
            let inside = plane.sort(Part::Inside, polys);
            plane.lemma_sort_well_formed(Part::Outside, polys);
            plane.lemma_sort_well_formed(Part::Inside, polys);
            let kept = match node.front {
                Some(f) => {
                    lemma_clip_well_formed(*f, outside);
                    f.clip(outside)
                },
                None => outside,
            };
            let rest = match node.back {
                Some(b) => {
                    lemma_clip_well_formed(*b, inside);
                    b.clip(inside)
                },
                None => seq![],
            };
            lemma_concat_well_formed(kept, rest);
        },
    }
}

/// Clipping a well-formed tree by a well-formed tree leaves a well-formed
/// tree with the same planes and the same shape.
pub proof fn lemma_clip_to_well_formed(node: NodeModel, other: NodeModel)
    requires
        node.well_formed(),
        other.well_formed(),
    ensures
        node.clip_to(other).well_formed(),
    decreases node,
{
    lemma_clip_well_formed(other, node.polygons);
    match node.front {
        Some(f) => lemma_clip_to_well_formed(*f, other),
        None => {},
    }
    match node.back {
        Some(b) => lemma_clip_to_well_formed(*b, other),
        None => {},
    }
}

/// Adding well-formed polygons to a well-formed tree gives a well-formed
/// tree.
pub proof fn lemma_build_well_formed(node: NodeModel, polys: Seq<PolygonModel>)
    requires
        node.well_formed(),
        all_well_formed(polys),
    ensures
        node.build(polys).well_formed(),
    decreases polys.len(),
{
    if polys.len() > 0 {
        let plane = match node.plane {
            Some(p) => p,
            None => polys[0].plane,
        };
        let rest = polys.subrange(1, polys.len() as int);
        assert(all_well_formed(rest)) by {
            assert forall|i: int| 0 <= i < rest.len() implies (#[trigger] rest[i]).well_formed() by {
                assert(polys[i + 1].well_formed());
            }
        }
        let before = plane.sort(Part::Front, rest);
        let behind = plane.sort(Part::Back, rest);
        plane.lemma_sort_well_formed(Part::Front, rest);
        plane.lemma_sort_well_formed(Part::Back, rest);
        plane.lemma_sort_well_formed(Part::InPlane, rest);
        plane.lemma_sort_len(Part::Front, rest);
        plane.lemma_sort_len(Part::Back, rest);
        assert(all_well_formed(node.polygons.push(polys[0]))) by {
            assert(polys[0].well_formed());
            lemma_concat_well_formed(node.polygons, seq![polys[0]]);
            assert(node.polygons.push(polys[0]) =~= node.polygons + seq![polys[0]]);
        }
        lemma_concat_well_formed(node.polygons.push(polys[0]), plane.sort(Part::InPlane, rest));
        if before.len() > 0 {
            lemma_build_well_formed(NodeModel::or_empty(node.front), before);
        }
        if behind.len() > 0 {
            lemma_build_well_formed(NodeModel::or_empty(node.back), behind);
        }
    }
}

impl Clone for BspNode {
    fn clone(&self) -> (r: BspNode)
        ensures
            r@ == self@,
        decreases self,
    {
        BspNode {
            plane: self.plane,
            front: (match &self.front {
                Some(f) => Some(Box::new((&**f).clone())),
                None => None,
            }),
            back: (match &self.back {
                Some(b) => Some(Box::new((&**b).clone())),
                None => None,
            }),
            polygons: clone_polygons(&self.polygons),
        }
    }
}

impl View for BspNode {
    type V = NodeModel;

    open spec fn view(&self) -> NodeModel {
        self.model()
    }
}

} // verus!
