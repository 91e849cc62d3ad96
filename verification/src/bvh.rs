//! The bounding volume hierarchy: a binary tree over the handles of a scene's
//! primitives, each branch with the box around everything beneath it.

use crate::geometry::{
    box_of, deterministic_bounds, deterministic_hits, merged, pierced, reach, struck, BoundingBox,
    Hittable,
};
use crate::sort::{ordered_along, sort_along};
use crate::split::{
    enclosing, is_true_middle, largest_axis, lemma_box_of, lemma_merged, true_middle, widest_axis,
};
use vstd::prelude::*;
use vstd::seq_lib::lemma_multiset_commutative;

verus! {

/// A child of a branch: a subtree, or one primitive.
#[derive(Debug)]
pub enum BvhNode<B> {
    Branch(Box<Bvh<B>>),
    Leaf(usize),
}

/// A branch of the hierarchy, with the box around its children.
#[derive(Debug)]
pub struct Bvh<B> {
    pub aabb_box: B,
    pub left: Option<Box<BvhNode<B>>>,
    pub right: Option<Box<BvhNode<B>>>,
}

/// `sorted` holds the objects of `input`, in order along the widest axis of the
/// box around `input`.
pub open spec fn arranged<G: Hittable>(scene: &G, input: Seq<usize>, sorted: Seq<usize>) -> bool {
    &&& sorted.to_multiset() == input.to_multiset()
    &&& ordered_along(scene, sorted, widest_axis(enclosing(scene, input)))
}

/// `found` is what one of `objects` reported of `ray` over an interval that
/// starts at `t_min`.
pub open spec fn reported_by<G: Hittable>(
    scene: &G,
    objects: Seq<usize>,
    ray: G::Ray,
    t_min: G::Scalar,
    found: Option<G::Hit>,
) -> bool {
    exists|i: int, t_max: G::Scalar|
        0 <= i < objects.len() && #[trigger] call_ensures(
            G::hit,
            (scene, objects[i], &ray, &t_min, &t_max),
            found,
        )
}

/// What one of a group reported, one of a larger group reported.
pub proof fn lemma_reported_among<G: Hittable>(
    scene: &G,
    front: Seq<usize>,
    back: Seq<usize>,
    ray: G::Ray,
    t_min: G::Scalar,
    found: Option<G::Hit>,
)
    requires
        reported_by(scene, front, ray, t_min, found) || reported_by(scene, back, ray, t_min, found),
    ensures
        reported_by(scene, front + back, ray, t_min, found),
{
    let all = front + back;
    if reported_by(scene, front, ray, t_min, found) {
        let (i, t_max) = choose|i: int, t_max: G::Scalar|
            0 <= i < front.len() && #[trigger] call_ensures(
                G::hit,
                (scene, front[i], &ray, &t_min, &t_max),
                found,
            );
        assert(all[i] == front[i]);
        assert(call_ensures(G::hit, (scene, all[i], &ray, &t_min, &t_max), found));
    } else {
        let (i, t_max) = choose|i: int, t_max: G::Scalar|
            0 <= i < back.len() && #[trigger] call_ensures(
                G::hit,
                (scene, back[i], &ray, &t_min, &t_max),
                found,
            );
        let j = front.len() + i;
        assert(all[j] == back[i]);
        assert(call_ensures(G::hit, (scene, all[j], &ray, &t_min, &t_max), found));
    }
}

/// A hierarchy of the shape that building gives holds a primitive, and is no
/// deeper than the number of primitives it holds.
pub proof fn lemma_depth_bounded<B: BoundingBox>(bvh: Bvh<B>)
    requires
        bvh.shaped(),
    ensures
        bvh.leaves().len() >= 1,
        bvh.depth() <= bvh.leaves().len(),
    decreases bvh,
{
    match (bvh.left, bvh.right) {
        (Some(left), Some(right)) => {
            match (*left, *right) {
                (BvhNode::Branch(front), BvhNode::Leaf(_)) => {
                    lemma_depth_bounded(*front);
                },
                (BvhNode::Branch(front), BvhNode::Branch(back)) => {
                    lemma_depth_bounded(*front);
                    lemma_depth_bounded(*back);
                },
                _ => {},
            }
        },
        _ => {},
    }
}

impl<B: BoundingBox> BvhNode<B> {
    /// The primitives beneath the node, from left to right.
    pub open spec fn leaves(self) -> Seq<usize>
        decreases self,
    {
        match self {
            BvhNode::Branch(branch) => branch.leaves(),
            BvhNode::Leaf(object) => seq![object],
        }
    }

    /// The number of branches on the longest way down from the node.
    pub open spec fn depth(self) -> nat
        decreases self,
    {
        match self {
            BvhNode::Branch(branch) => branch.depth(),
            BvhNode::Leaf(_) => 0,
        }
    }

    /// The box around the node: the one a branch holds, or the box of the primitive.
    pub open spec fn bounds<G: Hittable<Bounds = B>>(self, scene: &G) -> B {
        match self {
            BvhNode::Branch(branch) => branch.aabb_box,
            BvhNode::Leaf(object) => box_of(scene, object),
        }
    }

    /// What a query of the node finds: what the branch finds, or what the
    /// primitive reports.
    pub open spec fn first_hit<G: Hittable<Bounds = B>>(
        self,
        scene: &G,
        ray: G::Ray,
        t_min: G::Scalar,
        t_max: G::Scalar,
    ) -> Option<G::Hit>
        decreases self,
    {
        match self {
            BvhNode::Branch(branch) => branch.first_hit(scene, ray, t_min, t_max),
            BvhNode::Leaf(object) => struck(scene, object, ray, t_min, t_max),
        }
    }

    /// The nearest intersection of `ray` beneath the node inside `(t_min, t_max)`.
    pub fn hit<G: Hittable<Bounds = B>>(
        &self,
        scene: &G,
        ray: &G::Ray,
        t_min: &G::Scalar,
        t_max: &G::Scalar,
    ) -> (found: Option<G::Hit>)
        ensures
            found is Some ==> reported_by(scene, self.leaves(), *ray, *t_min, found),
            deterministic_hits(scene) ==> found == self.first_hit(scene, *ray, *t_min, *t_max),
        decreases self,
    {
        match self {
            BvhNode::Branch(branch) => branch.hit(scene, ray, t_min, t_max),
            BvhNode::Leaf(object) => {
                let found = scene.hit(*object, ray, t_min, t_max);
                proof {
                    assert(self.leaves()[0] == *object);
                    assert(call_ensures(
                        G::hit,
                        (scene, self.leaves()[0], &*ray, &*t_min, &*t_max),
                        found,
                    ));
                }
                found
            },
        }
    }

    /// The box around the node.
    pub fn bounding_box<G: Hittable<Bounds = B>>(&self, scene: &G) -> (bounds: B)
        ensures
            deterministic_bounds(scene) ==> bounds == self.bounds(scene),
    {
        match self {
            BvhNode::Branch(branch) => branch.bounding_box(),
            BvhNode::Leaf(object) => {
                let bounds = scene.bounding_box(*object);
                proof {
                    if deterministic_bounds(scene) {
                        lemma_box_of(scene, *object, bounds);
                    }
                }
                bounds
            },
        }
    }
}

impl<B: BoundingBox> Bvh<B> {
    /// The primitives beneath the branch, from left to right.
    pub open spec fn leaves(self) -> Seq<usize>
        decreases self,
    {
        (match self.left {
            Some(node) => node.leaves(),
            None => Seq::empty(),
        }) + (match self.right {
            Some(node) => node.leaves(),
            None => Seq::empty(),
        })
    }

    /// The number of branches on the longest way down, this one counted.
    pub open spec fn depth(self) -> nat
        decreases self,
    {
        let left = match self.left {
            Some(node) => node.depth(),
            None => 0,
        };
        let right = match self.right {
            Some(node) => node.depth(),
            None => 0,
        };
        if left >= right {
            1 + left
        } else {
            1 + right
        }
    }

    /// The primitives beneath the left child.
    pub open spec fn front(self) -> Seq<usize> {
        match self.left {
            Some(node) => node.leaves(),
            None => Seq::empty(),
        }
    }

    /// The primitives beneath the right child.
    pub open spec fn back(self) -> Seq<usize> {
        match self.right {
            Some(node) => node.leaves(),
            None => Seq::empty(),
        }
    }

    /// The shape that building gives a hierarchy over its leaves: one leaf alone
    /// on the left; two leaves; a branch of two leaves and a leaf; or, over four
    /// leaves or more, two branches that each hold a leaf at least.
    pub open spec fn shaped(self) -> bool
        decreases self,
    {
        match (self.left, self.right) {
            (Some(left), None) => *left is Leaf,
            (Some(left), Some(right)) => match (*left, *right) {
                (BvhNode::Leaf(_), BvhNode::Leaf(_)) => true,
                (BvhNode::Branch(front), BvhNode::Leaf(_)) => {
                    &&& front.leaves().len() == 2
                    &&& front.shaped()
                },
                (BvhNode::Branch(front), BvhNode::Branch(back)) => {
                    &&& front.leaves().len() >= 1
                    &&& back.leaves().len() >= 1
                    &&& front.leaves().len() + back.leaves().len() >= 4
                    &&& front.shaped()
                    &&& back.shaped()
                },
                _ => false,
            },
            _ => false,
        }
    }

    /// The hierarchy is the one built over `input`: the objects are put in order
    /// along the widest axis of the box around them; one object is a single
    /// leaf, two are two leaves, three are a branch of the first two and a
    /// leaf, four or more split at their true middle into two branches; and
    /// the box of each branch is the box around its children.
    pub open spec fn built_from<G: Hittable<Bounds = B>>(self, scene: &G, input: Seq<usize>) -> bool
        decreases self,
    {
        exists|sorted: Seq<usize>|
            {
                &&& #[trigger] arranged(scene, input, sorted)
                &&& match (self.left, self.right) {
                    (Some(left), None) => {
                        &&& sorted.len() == 1
                        &&& *left == BvhNode::<B>::Leaf(sorted[0])
                        &&& self.aabb_box == box_of(scene, sorted[0])
                    },
                    (Some(left), Some(right)) => {
                        &&& self.aabb_box == merged(left.bounds(scene), right.bounds(scene))
                        &&& match (*left, *right) {
                            (BvhNode::Leaf(first), BvhNode::Leaf(second)) => sorted == seq![
                                first,
                                second,
                            ],
                            (BvhNode::Branch(front), BvhNode::Leaf(third)) => {
                                &&& sorted.len() == 3
                                &&& third == sorted[2]
                                &&& front.built_from(scene, sorted.subrange(0, 2))
                            },
                            (BvhNode::Branch(front), BvhNode::Branch(back)) => {
                                let mid = front.leaves().len() as int;
                                &&& sorted.len() >= 4
                                &&& is_true_middle(
                                    scene,
                                    sorted,
                                    widest_axis(enclosing(scene, input)),
                                    mid,
                                )
                                &&& front.built_from(scene, sorted.subrange(0, mid))
                                &&& back.built_from(scene, sorted.subrange(mid, sorted.len() as int))
                            },
                            _ => false,
                        }
                    },
                    _ => false,
                }
            }
    }

    /// What a query of the branch finds. Nothing, if the ray misses the box.
    /// Otherwise the left child is asked over the whole interval and the right
    /// child over the interval that ends at what the left child found; what the
    /// right child finds is nearer and is the answer, else what the left found.
    pub open spec fn first_hit<G: Hittable<Bounds = B>>(
        self,
        scene: &G,
        ray: G::Ray,
        t_min: G::Scalar,
        t_max: G::Scalar,
    ) -> Option<G::Hit>
        decreases self,
    {
        if !pierced(scene, self.aabb_box, ray, t_min, t_max) {
            None
        } else {
            let near = match self.left {
                Some(node) => node.first_hit(scene, ray, t_min, t_max),
                None => None,
            };
            let bound = match near {
                Some(hit) => reach(scene, hit),
                None => t_max,
            };
            let far = match self.right {
                Some(node) => node.first_hit(scene, ray, t_min, bound),
                None => None,
            };
            if far is Some {
                far
            } else {
                near
            }
        }
    }

    /// The nearest intersection of `ray` with the primitives beneath the branch
    /// at a distance inside `(t_min, t_max)`.
    pub fn hit<G: Hittable<Bounds = B>>(
        &self,
        scene: &G,
        ray: &G::Ray,
        t_min: &G::Scalar,
        t_max: &G::Scalar,
    ) -> (found: Option<G::Hit>)
        ensures
            found is Some ==> reported_by(scene, self.leaves(), *ray, *t_min, found),
            deterministic_hits(scene) ==> found == self.first_hit(scene, *ray, *t_min, *t_max),
        decreases self,
    {
        if !scene.hit_bounds(&self.aabb_box, ray, t_min, t_max) {
            return None;
        }
        let ghost front = self.front();
        let ghost back = self.back();
        let near = match &self.left {
            Some(node) => node.hit(scene, ray, t_min, t_max),
            None => None,
        };
        let far = match &self.right {
            Some(node) => match &near {
                Some(hit) => {
                    let bound = scene.distance(hit);
                    node.hit(scene, ray, t_min, &bound)
                },
                None => node.hit(scene, ray, t_min, t_max),
            },
            None => None,
        };
        match far {
            Some(hit) => {
                proof {
                    lemma_reported_among(scene, front, back, *ray, *t_min, far);
                }
                Some(hit)
            },
            None => {
                proof {
                    if near is Some {
                        lemma_reported_among(scene, front, back, *ray, *t_min, near);
                    }
                }
                near
            },
        }
    }

    /// The box around everything beneath the branch.
    pub fn bounding_box(&self) -> (bounds: B)
        ensures
            bounds == self.aabb_box,
    {
        self.aabb_box
    }

    /// Builds the hierarchy over `objects`, which must not be empty. The handles
    /// are reordered in place and end in the order of the leaves.
    pub fn new<G: Hittable<Bounds = B>>(scene: &G, objects: &mut [usize]) -> (bvh: Self)
        requires
            old(objects)@.len() > 0,
        ensures
            final(objects)@.len() == old(objects)@.len(),
            final(objects)@.to_multiset() == old(objects)@.to_multiset(),
            bvh.leaves() == final(objects)@,
            bvh.shaped(),
            deterministic_bounds(scene) ==> bvh.built_from(scene, old(objects)@),
        decreases old(objects)@.len(),
    {
        let ghost input = objects@;
        let axis = largest_axis(scene, objects);
        sort_along(scene, objects, axis);
        let ghost sorted = objects@;
        proof {
            if deterministic_bounds(scene) {
                assert(arranged(scene, input, sorted));
            }
        }
        let n = objects.len();
        if n == 1 {
            let object = objects[0];
            let bounds = scene.bounding_box(object);
            let bvh = Bvh { aabb_box: bounds, left: Some(Box::new(BvhNode::Leaf(object))), right: None };
            proof {
                if deterministic_bounds(scene) {
                    lemma_box_of(scene, object, bounds);
                }
                assert(bvh.leaves() =~= objects@);
            }
            bvh
        } else if n == 2 {
            let left = BvhNode::Leaf(objects[0]);
            let right = BvhNode::Leaf(objects[1]);
            let left_box = left.bounding_box(scene);
            let right_box = right.bounding_box(scene);
            let bounds = B::surrounding_box(left_box, right_box);
            proof {
                if deterministic_bounds(scene) {
                    lemma_merged(left_box, right_box, bounds);
                    assert(sorted =~= seq![sorted[0], sorted[1]]);
                }
            }
            let bvh = Bvh { aabb_box: bounds, left: Some(Box::new(left)), right: Some(Box::new(right)) };
            proof {
                assert(bvh.leaves() =~= objects@);
            }
            bvh
        } else {
            let mid = if n == 3 {
                2
            } else {
                true_middle(scene, objects, axis)
            };
            let (front, back) = objects.split_at_mut(mid);
            let left = BvhNode::Branch(Box::new(Bvh::new(scene, front)));
            let right = if n == 3 {
                BvhNode::Leaf(back[0])
            } else {
                BvhNode::Branch(Box::new(Bvh::new(scene, back)))
            };
            let left_box = left.bounding_box(scene);
            let right_box = right.bounding_box(scene);
            let bounds = B::surrounding_box(left_box, right_box);
            proof {
                if deterministic_bounds(scene) {
                    lemma_merged(left_box, right_box, bounds);
                }
                let head = sorted.subrange(0, mid as int);
                let tail = sorted.subrange(mid as int, n as int);
                assert(sorted =~= head + tail);
                lemma_multiset_commutative(head, tail);
                lemma_multiset_commutative(front@, back@);
                assert(left.leaves() == front@);
                assert(right.leaves() =~= back@);
            }
            let bvh = Bvh { aabb_box: bounds, left: Some(Box::new(left)), right: Some(Box::new(right)) };
            proof {
                assert(bvh.leaves() =~= front@ + back@);
            }
            bvh
        }
    }
}

} // verus!
