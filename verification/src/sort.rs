//! Ordering a group of primitives along an axis.

use crate::geometry::{deterministic_bounds, Hittable};
use crate::split::{box_compare, box_order, BoxOrder};
use vstd::prelude::*;
use vstd::seq_lib::{lemma_multiset_commutative, to_multiset_build};

verus! {

/// `a` may stand directly before `b`: the comparison does not put `a` after `b`,
/// or it puts `b` after `a`.
pub open spec fn in_order<G: Hittable>(scene: &G, a: usize, b: usize, axis: usize) -> bool {
    box_order(scene, a, b, axis) != BoxOrder::Greater || box_order(scene, b, a, axis)
        == BoxOrder::Greater
}

/// Every object of the sequence may stand directly before the next.
pub open spec fn ordered_along<G: Hittable>(scene: &G, objects: Seq<usize>, axis: usize) -> bool {
    forall|i: int|
        0 <= i < objects.len() - 1 ==> in_order(scene, #[trigger] objects[i], objects[i + 1], axis)
}

/// Sorts `objects` along `axis` by [`box_compare`].
pub fn sort_along<G: Hittable>(scene: &G, objects: &mut [usize], axis: usize)
    requires
        axis < 3,
    ensures
        final(objects)@.len() == old(objects)@.len(),
        final(objects)@.to_multiset() == old(objects)@.to_multiset(),
        deterministic_bounds(scene) ==> ordered_along(scene, final(objects)@, axis),
    decreases old(objects)@.len(),
{
    let n = objects.len();
    if n < 2 {
        return ;
    }
    let half = n / 2;
    let ghost before = objects@;
    let mut buffer: Vec<usize> = Vec::with_capacity(n);
    {
        let (left, right) = objects.split_at_mut(half);
        sort_along(scene, left, axis);
        sort_along(scene, right, axis);
        proof {
            assert(before =~= before.subrange(0, half as int) + before.subrange(
                half as int,
                n as int,
            ));
            lemma_multiset_commutative(
                before.subrange(0, half as int),
                before.subrange(half as int, n as int),
            );
            let none = Seq::<usize>::empty();
            assert(left@.subrange(0, 0) =~= none);
            assert(right@.subrange(0, 0) =~= none);
            assert(buffer@ =~= none + none);
            lemma_multiset_commutative(none, none);
        }
        let mut i: usize = 0;
        let mut j: usize = 0;
        while i < left.len() || j < right.len()
            invariant
                axis < 3,
                i <= left@.len(),
                j <= right@.len(),
                left@.len() + right@.len() == n,
                buffer@.len() == i + j,
                buffer@.to_multiset() =~= left@.subrange(0, i as int).to_multiset().add(
                    right@.subrange(0, j as int).to_multiset(),
                ),
                deterministic_bounds(scene) ==> ordered_along(scene, left@, axis),
                deterministic_bounds(scene) ==> ordered_along(scene, right@, axis),
                deterministic_bounds(scene) ==> ordered_along(scene, buffer@, axis),
                deterministic_bounds(scene) && buffer@.len() > 0 && i < left@.len() ==> in_order(
                    scene,
                    buffer@.last(),
                    left@[i as int],
                    axis,
                ),
                deterministic_bounds(scene) && buffer@.len() > 0 && j < right@.len() ==> in_order(
                    scene,
                    buffer@.last(),
                    right@[j as int],
                    axis,
                ),
            decreases n - i - j,
        {
            let from_left = if i >= left.len() {
                false
            } else if j >= right.len() {
                true
            } else {
                match box_compare(scene, left[i], right[j], axis) {
                    BoxOrder::Greater => false,
                    _ => true,
                }
            };
            let ghost merged = buffer@;
            if from_left {
                let next = left[i];
                buffer.push(next);
                proof {
                    to_multiset_build(merged, next);
                    to_multiset_build(left@.subrange(0, i as int), next);
                    assert(left@.subrange(0, i + 1) =~= left@.subrange(0, i as int).push(next));
                }
                i += 1;
            } else {
                let next = right[j];
                buffer.push(next);
                proof {
                    to_multiset_build(merged, next);
                    to_multiset_build(right@.subrange(0, j as int), next);
                    assert(right@.subrange(0, j + 1) =~= right@.subrange(0, j as int).push(next));
                }
                j += 1;
            }
        }
        proof {
            assert(left@.subrange(0, i as int) =~= left@);
            assert(right@.subrange(0, j as int) =~= right@);
        }
    }
    proof {
        assert(buffer@.to_multiset() =~= before.to_multiset());
    }
    let mut k: usize = 0;
    while k < n
        invariant
            k <= n,
            objects@.len() == n,
            buffer@.len() == n,
            forall|m: int| 0 <= m < k ==> objects@[m] == buffer@[m],
        decreases n - k,
    {
        objects[k] = buffer[k];
        k += 1;
    }
    proof {
        assert(objects@ =~= buffer@);
    }
}

} // verus!
