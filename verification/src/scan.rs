//! The hierarchy against the plain scan: a query of the tree finds what a scan
//! of its primitives, one after the other, finds.

use crate::bvh::{Bvh, BvhNode};
use crate::geometry::{pierced, reach, struck, BoundingBox, Hittable};
use vstd::prelude::*;

verus! {

/// Where a query goes on after `found`: up to the distance of the hit, or up to
/// `t_max` if there was none.
pub open spec fn narrowed<G: Hittable>(scene: &G, found: Option<G::Hit>, t_max: G::Scalar) -> G::Scalar {
    match found {
        Some(hit) => reach(scene, hit),
        None => t_max,
    }
}

/// What a scan of `objects` finds: each is asked in turn over the interval that
/// ends at the last hit found, and the last hit found is the answer.
pub open spec fn scan<G: Hittable>(
    scene: &G,
    objects: Seq<usize>,
    ray: G::Ray,
    t_min: G::Scalar,
    t_max: G::Scalar,
) -> Option<G::Hit>
    decreases objects.len(),
{
    if objects.len() == 0 {
        None
    } else {
        let near = struck(scene, objects[0], ray, t_min, t_max);
        let far = scan(scene, objects.drop_first(), ray, t_min, narrowed(scene, near, t_max));
        if far is Some {
            far
        } else {
            near
        }
    }
}

/// None of `objects` is hit inside `(t_min, t_max)`.
pub open spec fn all_missed<G: Hittable>(
    scene: &G,
    objects: Seq<usize>,
    ray: G::Ray,
    t_min: G::Scalar,
    t_max: G::Scalar,
) -> bool {
    forall|i: int| 0 <= i < objects.len() ==> struck(scene, objects[i], ray, t_min, t_max) is None
}

impl<B: BoundingBox> BvhNode<B> {
    /// See [`Bvh::conservative`].
    pub open spec fn conservative<G: Hittable<Bounds = B>>(
        self,
        scene: &G,
        ray: G::Ray,
        t_min: G::Scalar,
    ) -> bool
        decreases self,
    {
        match self {
            BvhNode::Branch(branch) => branch.conservative(scene, ray, t_min),
            BvhNode::Leaf(_) => true,
        }
    }
}

impl<B: BoundingBox> Bvh<B> {
    /// No box of the hierarchy turns `ray` away wrongly: where the ray misses the
    /// box of a branch over an interval, it hits no primitive beneath that
    /// branch inside the interval.
    pub open spec fn conservative<G: Hittable<Bounds = B>>(
        self,
        scene: &G,
        ray: G::Ray,
        t_min: G::Scalar,
    ) -> bool
        decreases self,
    {
        &&& forall|t_max: G::Scalar| #[trigger]
            pierced(scene, self.aabb_box, ray, t_min, t_max) || all_missed(
                scene,
                self.leaves(),
                ray,
                t_min,
                t_max,
            )
        &&& match self.left {
            Some(node) => node.conservative(scene, ray, t_min),
            None => true,
        }
        &&& match self.right {
            Some(node) => node.conservative(scene, ray, t_min),
            None => true,
        }
    }
}

/// A scan of objects that are all missed finds nothing.
pub proof fn lemma_scan_of_missed<G: Hittable>(
    scene: &G,
    objects: Seq<usize>,
    ray: G::Ray,
    t_min: G::Scalar,
    t_max: G::Scalar,
)
    requires
        all_missed(scene, objects, ray, t_min, t_max),
    ensures
        scan(scene, objects, ray, t_min, t_max) is None,
    decreases objects.len(),
{
    if objects.len() > 0 {
        let rest = objects.drop_first();
        assert forall|i: int| 0 <= i < rest.len() implies struck(
            scene,
            rest[i],
            ray,
            t_min,
            t_max,
        ) is None by {
            assert(rest[i] == objects[i + 1]);
        }
        lemma_scan_of_missed(scene, rest, ray, t_min, t_max);
    }
}

/// A scan of one group and then another is the scan of the first, followed by
/// the scan of the second over the interval that the first has left.
pub proof fn lemma_scan_concat<G: Hittable>(
    scene: &G,
    first: Seq<usize>,
    second: Seq<usize>,
    ray: G::Ray,
    t_min: G::Scalar,
    t_max: G::Scalar,
)
    ensures
        scan(scene, first + second, ray, t_min, t_max) == ({
            let near = scan(scene, first, ray, t_min, t_max);
            let far = scan(scene, second, ray, t_min, narrowed(scene, near, t_max));
            if far is Some {
                far
            } else {
                near
            }
        }),
    decreases first.len(),
{
    if first.len() == 0 {
        assert(first + second =~= second);
    } else {
        let head = struck(scene, first[0], ray, t_min, t_max);
        let bound = narrowed(scene, head, t_max);
        assert((first + second).drop_first() =~= first.drop_first() + second);
        assert((first + second)[0] == first[0]);
        lemma_scan_concat(scene, first.drop_first(), second, ray, t_min, bound);
    }
}

/// A query of a node finds what a scan of its leaves finds, wherever no box
/// beneath it turns the ray away wrongly.
pub proof fn lemma_node_hit_is_scan<B: BoundingBox, G: Hittable<Bounds = B>>(
    node: BvhNode<B>,
    scene: &G,
    ray: G::Ray,
    t_min: G::Scalar,
    t_max: G::Scalar,
)
    requires
        node.conservative(scene, ray, t_min),
    ensures
        node.first_hit(scene, ray, t_min, t_max) == scan(scene, node.leaves(), ray, t_min, t_max),
    decreases node,
{
    match node {
        BvhNode::Branch(branch) => {
            lemma_hit_is_scan(*branch, scene, ray, t_min, t_max);
        },
        BvhNode::Leaf(object) => {
            let near = struck(scene, object, ray, t_min, t_max);
            assert(seq![object].drop_first() =~= Seq::<usize>::empty());
            assert(scan(scene, seq![object].drop_first(), ray, t_min, narrowed(scene, near, t_max))
                is None);
        },
    }
}

/// A query of the hierarchy finds what a scan of its leaves, from left to right,
/// finds, wherever no box of the hierarchy turns the ray away wrongly.
pub proof fn lemma_hit_is_scan<B: BoundingBox, G: Hittable<Bounds = B>>(
    bvh: Bvh<B>,
    scene: &G,
    ray: G::Ray,
    t_min: G::Scalar,
    t_max: G::Scalar,
)
    requires
        bvh.conservative(scene, ray, t_min),
    ensures
        bvh.first_hit(scene, ray, t_min, t_max) == scan(scene, bvh.leaves(), ray, t_min, t_max),
    decreases bvh,
{
    let front = bvh.front();
    let back = bvh.back();
    assert(bvh.leaves() == front + back);
    if !pierced(scene, bvh.aabb_box, ray, t_min, t_max) {
        lemma_scan_of_missed(scene, bvh.leaves(), ray, t_min, t_max);
    } else {
        let near = match bvh.left {
            Some(node) => node.first_hit(scene, ray, t_min, t_max),
            None => None,
        };
        let bound = narrowed(scene, near, t_max);
        match bvh.left {
            Some(node) => {
                lemma_node_hit_is_scan(*node, scene, ray, t_min, t_max);
            },
            None => {},
        }
        match bvh.right {
            Some(node) => {
                lemma_node_hit_is_scan(*node, scene, ray, t_min, bound);
            },
            None => {},
        }
        lemma_scan_concat(scene, front, back, ray, t_min, t_max);
    }
}

/// A ray that misses the box of the hierarchy finds nothing.
pub proof fn lemma_miss_finds_nothing<B: BoundingBox, G: Hittable<Bounds = B>>(
    bvh: Bvh<B>,
    scene: &G,
    ray: G::Ray,
    t_min: G::Scalar,
    t_max: G::Scalar,
)
    requires
        !pierced(scene, bvh.aabb_box, ray, t_min, t_max),
    ensures
        bvh.first_hit(scene, ray, t_min, t_max) is None,
{
}

} // verus!
