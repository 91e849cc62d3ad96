//! What the index asks of the geometry it is built over.
//!
//! The library never looks inside a bounding box, a ray or a hit: it asks the
//! questions below and acts on the answers. The methods carry no promise about
//! their results, so everything proved here holds of every implementation. A
//! spec function names the answer to each question; it is the answer that was
//! given wherever the implementation answers the same question the same way
//! ([`deterministic_bounds`], [`deterministic_hits`]).

use vstd::prelude::*;

verus! {

/// An axis-aligned bounding volume.
pub trait BoundingBox: Sized + Copy {
    /// Asks for the box around both boxes.
    fn surrounding_box(box1: Self, box2: Self) -> Self;

    /// Asks whether `self` strictly contains `other` along `axis`.
    fn surrounds_axis(&self, other: Self, axis: usize) -> bool
        requires
            axis < 3,
    ;

    /// Asks whether the box is longer along `axis` than along `other`.
    fn extent_exceeds(&self, axis: usize, other: usize) -> bool
        requires
            axis < 3,
            other < 3,
    ;

    /// Asks whether the center of `self` lies before the center of `other` along
    /// `axis`.
    fn center_precedes(&self, other: Self, axis: usize) -> bool
        requires
            axis < 3,
    ;

    /// Asks whether the center of `self` lies at or before the point halfway
    /// between the low face of `first` and the high face of `last` along `axis`.
    fn center_within(&self, first: Self, last: Self, axis: usize) -> bool
        requires
            axis < 3,
    ;
}

/// A set of primitives, each known by its handle.
pub trait Hittable {
    type Ray;

    type Scalar;

    type Hit;

    type Bounds: BoundingBox;

    /// Asks for the nearest intersection of `ray` with `object` at a distance
    /// inside `(t_min, t_max)`.
    fn hit(
        &self,
        object: usize,
        ray: &Self::Ray,
        t_min: &Self::Scalar,
        t_max: &Self::Scalar,
    ) -> Option<Self::Hit>;

    /// Asks for the box around `object`.
    fn bounding_box(&self, object: usize) -> Self::Bounds;

    /// Asks whether `ray` passes through `bounds` at a distance inside
    /// `[t_min, t_max]`.
    fn hit_bounds(
        &self,
        bounds: &Self::Bounds,
        ray: &Self::Ray,
        t_min: &Self::Scalar,
        t_max: &Self::Scalar,
    ) -> bool;

    /// Asks for the distance along the ray at which `hit` lies.
    fn distance(&self, hit: &Self::Hit) -> Self::Scalar;
}

/// The box that `surrounding_box` gives for `a` and `b`.
pub open spec fn merged<B: BoundingBox>(a: B, b: B) -> B {
    choose|r: B| call_ensures(B::surrounding_box, (a, b), r)
}

/// The answer of `surrounds_axis`.
pub open spec fn surrounds<B: BoundingBox>(a: B, b: B, axis: usize) -> bool {
    choose|r: bool| call_ensures(B::surrounds_axis, (&a, b, axis), r)
}

/// The answer of `extent_exceeds`.
pub open spec fn longer<B: BoundingBox>(a: B, axis: usize, other: usize) -> bool {
    choose|r: bool| call_ensures(B::extent_exceeds, (&a, axis, other), r)
}

/// The answer of `center_precedes`.
pub open spec fn precedes<B: BoundingBox>(a: B, b: B, axis: usize) -> bool {
    choose|r: bool| call_ensures(B::center_precedes, (&a, b, axis), r)
}

/// The answer of `center_within`.
pub open spec fn within<B: BoundingBox>(a: B, first: B, last: B, axis: usize) -> bool {
    choose|r: bool| call_ensures(B::center_within, (&a, first, last, axis), r)
}

/// The box that `bounding_box` gives for `object`.
pub open spec fn box_of<G: Hittable>(scene: &G, object: usize) -> G::Bounds {
    choose|r: G::Bounds| call_ensures(G::bounding_box, (scene, object), r)
}

/// The answer of `hit_bounds`.
pub open spec fn pierced<G: Hittable>(
    scene: &G,
    bounds: G::Bounds,
    ray: G::Ray,
    t_min: G::Scalar,
    t_max: G::Scalar,
) -> bool {
    choose|r: bool| call_ensures(G::hit_bounds, (scene, &bounds, &ray, &t_min, &t_max), r)
}

/// The answer of `hit`.
pub open spec fn struck<G: Hittable>(
    scene: &G,
    object: usize,
    ray: G::Ray,
    t_min: G::Scalar,
    t_max: G::Scalar,
) -> Option<G::Hit> {
    choose|r: Option<G::Hit>| call_ensures(G::hit, (scene, object, &ray, &t_min, &t_max), r)
}

/// The answer of `distance`.
pub open spec fn reach<G: Hittable>(scene: &G, hit: G::Hit) -> G::Scalar {
    choose|r: G::Scalar| call_ensures(G::distance, (scene, &hit), r)
}

/// Every question about boxes of this type has one answer.
pub open spec fn deterministic_boxes<B: BoundingBox>() -> bool {
    &&& forall|a: B, b: B, r1: B, r2: B|
        call_ensures(B::surrounding_box, (a, b), r1) && call_ensures(
            B::surrounding_box,
            (a, b),
            r2,
        ) ==> r1 == r2
    &&& forall|a: B, b: B, axis: usize, r1: bool, r2: bool|
        call_ensures(B::surrounds_axis, (&a, b, axis), r1) && call_ensures(
            B::surrounds_axis,
            (&a, b, axis),
            r2,
        ) ==> r1 == r2
    &&& forall|a: B, axis: usize, other: usize, r1: bool, r2: bool|
        call_ensures(B::extent_exceeds, (&a, axis, other), r1) && call_ensures(
            B::extent_exceeds,
            (&a, axis, other),
            r2,
        ) ==> r1 == r2
    &&& forall|a: B, b: B, axis: usize, r1: bool, r2: bool|
        call_ensures(B::center_precedes, (&a, b, axis), r1) && call_ensures(
            B::center_precedes,
            (&a, b, axis),
            r2,
        ) ==> r1 == r2
    &&& forall|a: B, first: B, last: B, axis: usize, r1: bool, r2: bool|
        call_ensures(B::center_within, (&a, first, last, axis), r1) && call_ensures(
            B::center_within,
            (&a, first, last, axis),
            r2,
        ) ==> r1 == r2
}

/// Every question about the boxes of `scene` has one answer: what the box of an
/// object is, and every question about boxes of that type.
pub open spec fn deterministic_bounds<G: Hittable>(scene: &G) -> bool {
    &&& deterministic_boxes::<G::Bounds>()
    &&& forall|object: usize, r1: G::Bounds, r2: G::Bounds|
        call_ensures(G::bounding_box, (scene, object), r1) && call_ensures(
            G::bounding_box,
            (scene, object),
            r2,
        ) ==> r1 == r2
}

/// Every question about a ray through `scene` has one answer: whether it passes
/// through a box, where it hits an object, and how far away a hit lies.
pub open spec fn deterministic_hits<G: Hittable>(scene: &G) -> bool {
    &&& forall|
        bounds: G::Bounds,
        ray: G::Ray,
        t_min: G::Scalar,
        t_max: G::Scalar,
        r1: bool,
        r2: bool,
    |
        call_ensures(G::hit_bounds, (scene, &bounds, &ray, &t_min, &t_max), r1) && call_ensures(
            G::hit_bounds,
            (scene, &bounds, &ray, &t_min, &t_max),
            r2,
        ) ==> r1 == r2
    &&& forall|
        object: usize,
        ray: G::Ray,
        t_min: G::Scalar,
        t_max: G::Scalar,
        r1: Option<G::Hit>,
        r2: Option<G::Hit>,
    |
        call_ensures(G::hit, (scene, object, &ray, &t_min, &t_max), r1) && call_ensures(
            G::hit,
            (scene, object, &ray, &t_min, &t_max),
            r2,
        ) ==> r1 == r2
    &&& forall|hit: G::Hit, r1: G::Scalar, r2: G::Scalar|
        call_ensures(G::distance, (scene, &hit), r1) && call_ensures(
            G::distance,
            (scene, &hit),
            r2,
        ) ==> r1 == r2
}

} // verus!
