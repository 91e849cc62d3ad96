//! The three decisions that the hierarchy makes of a group of primitives before
//! it splits them: along which axis, in which order, and where.

use crate::geometry::{
    box_of, deterministic_bounds, deterministic_boxes, longer, merged, precedes, surrounds, within,
    BoundingBox, Hittable,
};
use crate::random::random_index;
use vstd::prelude::*;

verus! {

/// How one primitive stands to another along an axis.
#[derive(Clone, Copy, Debug, PartialEq, Eq, Structural)]
pub enum BoxOrder {
    Less,
    Equal,
    Greater,
}

/// The box around the first `count` of `objects`, merged one by one into the
/// box of the first.
pub open spec fn enclosing_first<G: Hittable>(scene: &G, objects: Seq<usize>, count: int) -> G::Bounds
    recommends
        0 <= count <= objects.len(),
        objects.len() > 0,
    decreases count,
{
    if count <= 0 {
        box_of(scene, objects[0])
    } else {
        merged(enclosing_first(scene, objects, count - 1), box_of(scene, objects[count - 1]))
    }
}

/// The box around all of `objects`.
pub open spec fn enclosing<G: Hittable>(scene: &G, objects: Seq<usize>) -> G::Bounds
    recommends
        objects.len() > 0,
{
    enclosing_first(scene, objects, objects.len() as int)
}

/// The axis along which `bounds` is longest: the first axis if it is longer than
/// both others, else the longer of the other two, the third on a tie.
pub open spec fn widest_axis<B: BoundingBox>(bounds: B) -> usize {
    if longer(bounds, 0, 1) && longer(bounds, 0, 2) {
        0
    } else if longer(bounds, 1, 2) {
        1
    } else {
        2
    }
}

/// The order of `a` and `b` along `axis`: a box that strictly contains the other
/// along the axis comes first; otherwise the one whose center comes first.
pub open spec fn box_order<G: Hittable>(scene: &G, a: usize, b: usize, axis: usize) -> BoxOrder {
    let box_a = box_of(scene, a);
    let box_b = box_of(scene, b);
    if surrounds(box_a, box_b, axis) {
        BoxOrder::Less
    } else if surrounds(box_b, box_a, axis) {
        BoxOrder::Greater
    } else if precedes(box_a, box_b, axis) {
        BoxOrder::Less
    } else if precedes(box_b, box_a, axis) {
        BoxOrder::Greater
    } else {
        BoxOrder::Equal
    }
}

/// Whether the center of the object at `index` lies at or before the point
/// halfway between the low face of the first object and the high face of the last.
pub open spec fn before_middle<G: Hittable>(
    scene: &G,
    objects: Seq<usize>,
    axis: usize,
    index: int,
) -> bool
    recommends
        0 <= index < objects.len(),
{
    within(
        box_of(scene, objects[index]),
        box_of(scene, objects[0]),
        box_of(scene, objects.last()),
        axis,
    )
}

/// `mid` is where `objects` split: the first index from 1 on whose object lies
/// beyond the middle, and the last index if there is none before it.
pub open spec fn is_true_middle<G: Hittable>(
    scene: &G,
    objects: Seq<usize>,
    axis: usize,
    mid: int,
) -> bool {
    &&& 1 <= mid
    &&& objects.len() >= 2 ==> mid <= objects.len() - 1
    &&& forall|j: int| 1 <= j < mid ==> before_middle(scene, objects, axis, j)
    &&& mid < objects.len() - 1 ==> !before_middle(scene, objects, axis, mid)
}

/// Where the boxes of a scene are deterministic, the box that was returned for
/// an object is the box of the object.
pub proof fn lemma_box_of<G: Hittable>(scene: &G, object: usize, bounds: G::Bounds)
    requires
        deterministic_bounds(scene),
        call_ensures(G::bounding_box, (scene, object), bounds),
    ensures
        bounds == box_of(scene, object),
{
}

/// Where boxes are deterministic, the box that was returned for two boxes is
/// their merged box.
pub proof fn lemma_merged<B: BoundingBox>(a: B, b: B, r: B)
    requires
        deterministic_boxes::<B>(),
        call_ensures(B::surrounding_box, (a, b), r),
    ensures
        r == merged(a, b),
{
}

/// The axis along which the box around `objects` is longest; any axis if there
/// are no objects.
pub fn largest_axis<G: Hittable>(scene: &G, objects: &[usize]) -> (axis: usize)
    ensures
        axis < 3,
        objects@.len() > 0 && deterministic_bounds(scene) ==> axis == widest_axis(
            enclosing(scene, objects@),
        ),
{
    let n = objects.len();
    if n == 0 {
        return random_index(3);
    }
    let mut bounds = scene.bounding_box(objects[0]);
    proof {
        if deterministic_bounds(scene) {
            lemma_box_of(scene, objects@[0], bounds);
        }
    }
    let mut i: usize = 0;
    while i < n
        invariant
            n == objects@.len(),
            n > 0,
            i <= n,
            deterministic_bounds(scene) ==> bounds == enclosing_first(scene, objects@, i as int),
        decreases n - i,
    {
        let next = scene.bounding_box(objects[i]);
        let grown = G::Bounds::surrounding_box(bounds, next);
        proof {
            if deterministic_bounds(scene) {
                lemma_box_of(scene, objects@[i as int], next);
                lemma_merged(bounds, next, grown);
            }
        }
        bounds = grown;
        i += 1;
    }
    if bounds.extent_exceeds(0, 1) {
        if bounds.extent_exceeds(0, 2) {
            return 0;
        }
    }
    if bounds.extent_exceeds(1, 2) {
        1
    } else {
        2
    }
}

/// Compares two primitives along `axis`.
pub fn box_compare<G: Hittable>(scene: &G, a: usize, b: usize, axis: usize) -> (order: BoxOrder)
    requires
        axis < 3,
    ensures
        deterministic_bounds(scene) ==> order == box_order(scene, a, b, axis),
{
    let box_a = scene.bounding_box(a);
    let box_b = scene.bounding_box(b);
    proof {
        if deterministic_bounds(scene) {
            lemma_box_of(scene, a, box_a);
            lemma_box_of(scene, b, box_b);
        }
    }
    if box_a.surrounds_axis(box_b, axis) {
        BoxOrder::Less
    } else if box_b.surrounds_axis(box_a, axis) {
        BoxOrder::Greater
    } else if box_a.center_precedes(box_b, axis) {
        BoxOrder::Less
    } else if box_b.center_precedes(box_a, axis) {
        BoxOrder::Greater
    } else {
        BoxOrder::Equal
    }
}

/// The index at which a sorted group splits in two: the first index, from 1 on,
/// of an object whose center lies beyond the middle of the group along `axis`,
/// and the last index if none does. With two objects or more, both sides get one.
pub fn true_middle<G: Hittable>(scene: &G, objects: &[usize], axis: usize) -> (mid: usize)
    requires
        objects@.len() >= 1,
        axis < 3,
    ensures
        1 <= mid,
        objects@.len() >= 2 ==> mid <= objects@.len() - 1,
        objects@.len() == 1 ==> mid == 1,
        deterministic_bounds(scene) ==> is_true_middle(scene, objects@, axis, mid as int),
{
    let n = objects.len();
    let first = scene.bounding_box(objects[0]);
    let last = scene.bounding_box(objects[n - 1]);
    proof {
        if deterministic_bounds(scene) {
            lemma_box_of(scene, objects@[0], first);
            lemma_box_of(scene, objects@[n - 1], last);
        }
    }
    let mut mid: usize = 1;
    while mid < n - 1
        invariant
            n == objects@.len(),
            n >= 1,
            axis < 3,
            1 <= mid,
            n >= 2 ==> mid <= n - 1,
            n == 1 ==> mid == 1,
            deterministic_bounds(scene) ==> first == box_of(scene, objects@[0]) && last == box_of(
                scene,
                objects@.last(),
            ),
            deterministic_bounds(scene) ==> forall|j: int|
                1 <= j < mid ==> before_middle(scene, objects@, axis, j),
        ensures
            deterministic_bounds(scene) && mid < n - 1 ==> !before_middle(
                scene,
                objects@,
                axis,
                mid as int,
            ),
        decreases n - mid,
    {
        let bounds = scene.bounding_box(objects[mid]);
        let inside = bounds.center_within(first, last, axis);
        proof {
            if deterministic_bounds(scene) {
                lemma_box_of(scene, objects@[mid as int], bounds);
                assert(inside == before_middle(scene, objects@, axis, mid as int));
            }
        }
        if !inside {
            break ;
        }
        mid += 1;
    }
    mid
}

} // verus!
