use pathtracer::bvh::{Bvh, BvhNode};
use pathtracer::geometry::{BoundingBox, Hittable};
use pathtracer::sort::sort_along;
use pathtracer::split::{box_compare, largest_axis, true_middle, BoxOrder};

#[derive(Clone, Copy, Debug, PartialEq)]
struct Aabb {
    min: [f32; 3],
    max: [f32; 3],
}

impl Aabb {
    fn center(&self, axis: usize) -> f32 {
        (self.max[axis] + self.min[axis]) * 0.5
    }

    fn contains(&self, other: &Aabb) -> bool {
        (0..3).all(|a| self.min[a] <= other.min[a] && self.max[a] >= other.max[a])
    }
}

impl BoundingBox for Aabb {
    fn surrounding_box(box1: Aabb, box2: Aabb) -> Aabb {
        let mut min = [0.0; 3];
        let mut max = [0.0; 3];
        for a in 0..3 {
            min[a] = f32::min(box1.min[a], box2.min[a]) - f32::EPSILON;
            max[a] = f32::max(box1.max[a], box2.max[a]) + f32::EPSILON;
        }
        Aabb { min, max }
    }

    fn surrounds_axis(&self, other: Aabb, axis: usize) -> bool {
        self.min[axis] < other.min[axis] && self.max[axis] > other.max[axis]
    }

    fn extent_exceeds(&self, axis: usize, other: usize) -> bool {
        self.max[axis] - self.min[axis] > self.max[other] - self.min[other]
    }

    fn center_precedes(&self, other: Aabb, axis: usize) -> bool {
        self.center(axis) < other.center(axis)
    }

    fn center_within(&self, first: Aabb, last: Aabb, axis: usize) -> bool {
        self.center(axis) <= (first.min[axis] + last.max[axis]) * 0.5
    }
}

#[derive(Clone, Copy, Debug)]
struct Ray {
    pos: [f32; 3],
    dir: [f32; 3],
}

impl Ray {
    fn new(pos: [f32; 3], dir: [f32; 3]) -> Ray {
        let length = (dir[0] * dir[0] + dir[1] * dir[1] + dir[2] * dir[2]).sqrt();
        Ray { pos, dir: [dir[0] / length, dir[1] / length, dir[2] / length] }
    }
}

#[derive(Clone, Copy, Debug, PartialEq)]
struct Hit {
    t: f32,
    object: usize,
}

#[derive(Clone, Copy, Debug)]
struct Sphere {
    center: [f32; 3],
    radius: f32,
}

struct Spheres {
    spheres: Vec<Sphere>,
}

impl Spheres {
    fn new(spheres: &[([f32; 3], f32)]) -> Spheres {
        Spheres {
            spheres: spheres.iter().map(|(center, radius)| Sphere { center: *center, radius: *radius }).collect(),
        }
    }

    fn handles(&self) -> Vec<usize> {
        (0..self.spheres.len()).collect()
    }

    fn scan(&self, objects: &[usize], ray: &Ray, t_min: f32, t_max: f32) -> Option<Hit> {
        let mut found = None;
        let mut bound = t_max;
        for object in objects {
            if let Some(hit) = self.hit(*object, ray, &t_min, &bound) {
                bound = hit.t;
                found = Some(hit);
            }
        }
        found
    }
}

impl Hittable for Spheres {
    type Ray = Ray;
    type Scalar = f32;
    type Hit = Hit;
    type Bounds = Aabb;

    fn hit(&self, object: usize, ray: &Ray, t_min: &f32, t_max: &f32) -> Option<Hit> {
        let sphere = self.spheres[object];
        let oc = [
            ray.pos[0] - sphere.center[0],
            ray.pos[1] - sphere.center[1],
            ray.pos[2] - sphere.center[2],
        ];
        let half_b = oc[0] * ray.dir[0] + oc[1] * ray.dir[1] + oc[2] * ray.dir[2];
        let c = oc[0] * oc[0] + oc[1] * oc[1] + oc[2] * oc[2] - sphere.radius * sphere.radius;
        let disc = half_b * half_b - c;
        if disc > 0.0 {
            let h = disc.sqrt();
            for t in [-half_b - h, -half_b + h] {
                if t < *t_max && t > *t_min {
                    return Some(Hit { t, object });
                }
            }
        }
        None
    }

    fn bounding_box(&self, object: usize) -> Aabb {
        let sphere = self.spheres[object];
        let r = sphere.radius.abs();
        Aabb {
            min: [sphere.center[0] - r, sphere.center[1] - r, sphere.center[2] - r],
            max: [sphere.center[0] + r, sphere.center[1] + r, sphere.center[2] + r],
        }
    }

    fn hit_bounds(&self, bounds: &Aabb, ray: &Ray, t_min: &f32, t_max: &f32) -> bool {
        let mut near = *t_min;
        let mut far = *t_max;
        for a in 0..3 {
            let inv = ray.dir[a].recip();
            let t0 = (bounds.min[a] - ray.pos[a]) * inv;
            let t1 = (bounds.max[a] - ray.pos[a]) * inv;
            near = near.max(t0.min(t1));
            far = far.min(t0.max(t1));
        }
        near <= far
    }

    fn distance(&self, hit: &Hit) -> f32 {
        hit.t
    }
}

fn leaves(bvh: &Bvh<Aabb>) -> Vec<usize> {
    let mut out = Vec::new();
    for node in [&bvh.left, &bvh.right].into_iter().flatten() {
        match node.as_ref() {
            BvhNode::Branch(branch) => out.extend(leaves(branch)),
            BvhNode::Leaf(object) => out.push(*object),
        }
    }
    out
}

fn boxes_enclose(scene: &Spheres, bvh: &Bvh<Aabb>) -> bool {
    [&bvh.left, &bvh.right].into_iter().flatten().all(|node| match node.as_ref() {
        BvhNode::Branch(branch) => bvh.aabb_box.contains(&branch.aabb_box) && boxes_enclose(scene, branch),
        BvhNode::Leaf(object) => bvh.aabb_box.contains(&scene.bounding_box(*object)),
    })
}

fn row_of_spheres(count: usize) -> Spheres {
    let spheres: Vec<([f32; 3], f32)> = (0..count).map(|i| ([3.0 * i as f32, 0.0, 0.0], 1.0)).collect();
    Spheres::new(&spheres)
}

struct Lcg(u64);

impl Lcg {
    fn next(&mut self) -> f32 {
        self.0 = self.0.wrapping_mul(6364136223846793005).wrapping_add(1442695040888963407);
        ((self.0 >> 40) as f32) / ((1u64 << 24) as f32)
    }
}

#[test]
fn largest_axis_picks_the_longest_side() {
    let along_x = Spheres::new(&[([0.0, 0.0, 0.0], 1.0), ([10.0, 0.0, 0.0], 1.0)]);
    assert_eq!(largest_axis(&along_x, &[0, 1]), 0);
    let along_y = Spheres::new(&[([0.0, 0.0, 0.0], 1.0), ([0.0, 10.0, 0.0], 1.0)]);
    assert_eq!(largest_axis(&along_y, &[0, 1]), 1);
    let along_z = Spheres::new(&[([0.0, 0.0, 0.0], 1.0), ([0.0, 0.0, 10.0], 1.0)]);
    assert_eq!(largest_axis(&along_z, &[0, 1]), 2);
}

#[test]
fn largest_axis_of_a_cube_is_the_last() {
    let one = Spheres::new(&[([0.0, 0.0, 0.0], 1.0)]);
    assert_eq!(largest_axis(&one, &[0]), 2);
}

#[test]
fn largest_axis_looks_only_at_the_objects_given() {
    let scene = Spheres::new(&[([0.0, 0.0, 0.0], 1.0), ([0.0, 10.0, 0.0], 1.0), ([50.0, 0.0, 0.0], 1.0)]);
    assert_eq!(largest_axis(&scene, &[0, 1]), 1);
    assert_eq!(largest_axis(&scene, &[0, 1, 2]), 0);
}

#[test]
fn largest_axis_of_nothing_is_some_axis() {
    let scene = Spheres::new(&[]);
    for _ in 0..200 {
        assert!(largest_axis(&scene, &[]) < 3);
    }
}

#[test]
fn box_compare_puts_the_container_first() {
    let scene = Spheres::new(&[([5.0, 0.0, 0.0], 1.0), ([0.0, 0.0, 0.0], 10.0)]);
    assert_eq!(box_compare(&scene, 1, 0, 0), BoxOrder::Less);
    assert_eq!(box_compare(&scene, 0, 1, 0), BoxOrder::Greater);
}

#[test]
fn box_compare_goes_by_centers_otherwise() {
    let scene = Spheres::new(&[([0.0, 4.0, 0.0], 1.0), ([3.0, 0.0, 0.0], 1.0), ([0.0, 4.0, 9.0], 1.0)]);
    assert_eq!(box_compare(&scene, 0, 1, 0), BoxOrder::Less);
    assert_eq!(box_compare(&scene, 1, 0, 0), BoxOrder::Greater);
    assert_eq!(box_compare(&scene, 0, 1, 1), BoxOrder::Greater);
    assert_eq!(box_compare(&scene, 0, 2, 0), BoxOrder::Equal);
    assert_eq!(box_compare(&scene, 0, 0, 2), BoxOrder::Equal);
}

#[test]
fn true_middle_is_the_first_object_beyond_the_middle() {
    let scene = Spheres::new(&[
        ([0.0, 0.0, 0.0], 1.0),
        ([1.0, 0.0, 0.0], 1.0),
        ([2.0, 0.0, 0.0], 1.0),
        ([20.0, 0.0, 0.0], 1.0),
        ([21.0, 0.0, 0.0], 1.0),
    ]);
    // The middle lies at (-1 + 22) / 2 = 10.5.
    assert_eq!(true_middle(&scene, &[0, 1, 2, 3, 4], 0), 3);
}

#[test]
fn true_middle_leaves_an_object_on_each_side() {
    let scene = Spheres::new(&[
        ([0.0, 0.0, 0.0], 1.0),
        ([100.0, 0.0, 0.0], 1.0),
        ([101.0, 0.0, 0.0], 1.0),
        ([102.0, 0.0, 0.0], 1.0),
    ]);
    // The first object is never the split point, though it is the only one before the middle.
    assert_eq!(true_middle(&scene, &[0, 1, 2, 3], 0), 1);
    // All centers lie before the middle: the split stops at the last index.
    let same = Spheres::new(&[([0.0, 0.0, 0.0], 1.0); 6]);
    assert_eq!(true_middle(&same, &[0, 1, 2, 3, 4, 5], 0), 5);
    assert_eq!(true_middle(&same, &[0, 1], 0), 1);
    assert_eq!(true_middle(&same, &[0], 0), 1);
}

#[test]
fn sort_along_orders_by_center() {
    let scene = Spheres::new(&[
        ([5.0, 2.0, 0.0], 1.0),
        ([1.0, 9.0, 0.0], 1.0),
        ([9.0, 4.0, 0.0], 1.0),
        ([3.0, 0.0, 0.0], 1.0),
        ([7.0, 6.0, 0.0], 1.0),
    ]);
    let mut objects = scene.handles();
    sort_along(&scene, &mut objects, 0);
    assert_eq!(objects, vec![1, 3, 0, 4, 2]);
    sort_along(&scene, &mut objects, 1);
    assert_eq!(objects, vec![3, 0, 2, 4, 1]);
}

#[test]
fn sort_along_keeps_every_object() {
    let mut rng = Lcg(7);
    let spheres: Vec<([f32; 3], f32)> =
        (0..97).map(|_| ([rng.next() * 50.0, rng.next() * 50.0, rng.next() * 50.0], 0.25 + rng.next())).collect();
    let scene = Spheres::new(&spheres);
    for axis in 0..3 {
        let mut objects = scene.handles();
        sort_along(&scene, &mut objects, axis);
        let mut seen = objects.clone();
        seen.sort();
        assert_eq!(seen, scene.handles());
        for pair in objects.windows(2) {
            assert_ne!(box_compare(&scene, pair[0], pair[1], axis), BoxOrder::Greater);
        }
    }
}

#[test]
fn sort_along_takes_short_lists() {
    let scene = row_of_spheres(2);
    let mut none: Vec<usize> = vec![];
    sort_along(&scene, &mut none, 0);
    assert!(none.is_empty());
    let mut one = vec![1];
    sort_along(&scene, &mut one, 0);
    assert_eq!(one, vec![1]);
    let mut two = vec![1, 0];
    sort_along(&scene, &mut two, 0);
    assert_eq!(two, vec![0, 1]);
}

#[test]
fn one_object_is_a_single_leaf() {
    let scene = row_of_spheres(1);
    let mut objects = scene.handles();
    let bvh = Bvh::new(&scene, &mut objects);
    assert!(matches!(bvh.left.as_deref(), Some(BvhNode::Leaf(0))));
    assert!(bvh.right.is_none());
    assert_eq!(bvh.aabb_box, scene.bounding_box(0));
    assert_eq!(bvh.bounding_box(), bvh.aabb_box);
}

#[test]
fn two_objects_are_two_leaves() {
    let scene = row_of_spheres(2);
    let mut objects = vec![1, 0];
    let bvh = Bvh::new(&scene, &mut objects);
    assert_eq!(objects, vec![0, 1]);
    assert!(matches!(bvh.left.as_deref(), Some(BvhNode::Leaf(0))));
    assert!(matches!(bvh.right.as_deref(), Some(BvhNode::Leaf(1))));
    assert_eq!(bvh.aabb_box, Aabb::surrounding_box(scene.bounding_box(0), scene.bounding_box(1)));
}

#[test]
fn three_objects_are_a_branch_and_a_leaf() {
    let scene = row_of_spheres(3);
    let mut objects = vec![2, 0, 1];
    let bvh = Bvh::new(&scene, &mut objects);
    assert_eq!(objects, vec![0, 1, 2]);
    match bvh.left.as_deref() {
        Some(BvhNode::Branch(front)) => {
            assert!(matches!(front.left.as_deref(), Some(BvhNode::Leaf(0))));
            assert!(matches!(front.right.as_deref(), Some(BvhNode::Leaf(1))));
        }
        _ => panic!("the first two objects form a branch"),
    }
    assert!(matches!(bvh.right.as_deref(), Some(BvhNode::Leaf(2))));
}

#[test]
fn four_objects_split_at_the_true_middle() {
    let scene = Spheres::new(&[
        ([0.0, 0.0, 0.0], 1.0),
        ([30.0, 0.0, 0.0], 1.0),
        ([31.0, 0.0, 0.0], 1.0),
        ([32.0, 0.0, 0.0], 1.0),
    ]);
    let mut objects = vec![3, 1, 0, 2];
    let bvh = Bvh::new(&scene, &mut objects);
    match (bvh.left.as_deref(), bvh.right.as_deref()) {
        (Some(BvhNode::Branch(front)), Some(BvhNode::Branch(back))) => {
            assert_eq!(leaves(front), vec![0]);
            assert!(front.right.is_none());
            let mut rest = leaves(back);
            rest.sort();
            assert_eq!(rest, vec![1, 2, 3]);
        }
        _ => panic!("four objects form two branches"),
    }
}

#[test]
fn every_object_is_in_one_leaf() {
    let mut rng = Lcg(11);
    for count in 1..40 {
        let spheres: Vec<([f32; 3], f32)> = (0..count)
            .map(|_| ([rng.next() * 20.0, rng.next() * 20.0, rng.next() * 20.0], 0.1 + rng.next()))
            .collect();
        let scene = Spheres::new(&spheres);
        let mut objects = scene.handles();
        objects.reverse();
        let bvh = Bvh::new(&scene, &mut objects);
        assert_eq!(leaves(&bvh), objects);
        let mut seen = objects.clone();
        seen.sort();
        assert_eq!(seen, scene.handles());
        assert!(boxes_enclose(&scene, &bvh));
    }
}

#[test]
fn objects_at_one_place_still_build() {
    let scene = Spheres::new(&[([1.0, 1.0, 1.0], 1.0); 9]);
    let mut objects = scene.handles();
    let bvh = Bvh::new(&scene, &mut objects);
    let mut seen = leaves(&bvh);
    seen.sort();
    assert_eq!(seen, scene.handles());
}

#[test]
fn ray_through_a_sphere_hits_at_the_known_distance() {
    let count = 12;
    let scene = row_of_spheres(count);
    let mut objects = scene.handles();
    let bvh = Bvh::new(&scene, &mut objects);
    for target in 0..count {
        let ray = Ray::new([3.0 * target as f32, -10.0, 0.0], [0.0, 4.0, 0.0]);
        let hit = bvh.hit(&scene, &ray, &0.00015, &100000.0).expect("the ray meets a sphere");
        assert_eq!(hit.object, target);
        assert!((hit.t - 9.0).abs() < 1e-3);
    }
}

#[test]
fn ray_past_all_boxes_finds_nothing() {
    let scene = row_of_spheres(12);
    let mut objects = scene.handles();
    let bvh = Bvh::new(&scene, &mut objects);
    let above = Ray::new([0.0, 5.0, 0.0], [1.0, 0.0, 0.0]);
    assert_eq!(bvh.hit(&scene, &above, &0.00015, &100000.0), None);
    let away = Ray::new([-5.0, 0.0, 0.0], [-1.0, 0.0, 0.0]);
    assert_eq!(bvh.hit(&scene, &away, &0.00015, &100000.0), None);
}

#[test]
fn ray_along_the_row_hits_the_nearest_sphere() {
    let scene = row_of_spheres(12);
    let mut objects = scene.handles();
    let bvh = Bvh::new(&scene, &mut objects);
    let forward = Ray::new([-5.0, 0.0, 0.0], [1.0, 0.0, 0.0]);
    let hit = bvh.hit(&scene, &forward, &0.00015, &100000.0).unwrap();
    assert_eq!(hit.object, 0);
    assert!((hit.t - 4.0).abs() < 1e-3);
    let backward = Ray::new([40.0, 0.0, 0.0], [-1.0, 0.0, 0.0]);
    let hit = bvh.hit(&scene, &backward, &0.00015, &100000.0).unwrap();
    assert_eq!(hit.object, 11);
    assert!((hit.t - 6.0).abs() < 1e-3);
}

#[test]
fn hit_stays_inside_the_interval() {
    let scene = row_of_spheres(4);
    let mut objects = scene.handles();
    let bvh = Bvh::new(&scene, &mut objects);
    let forward = Ray::new([-5.0, 0.0, 0.0], [1.0, 0.0, 0.0]);
    assert_eq!(bvh.hit(&scene, &forward, &0.00015, &3.5), None);
    let hit = bvh.hit(&scene, &forward, &6.5, &100000.0).unwrap();
    assert_eq!(hit.object, 1);
    assert!((hit.t - 7.0).abs() < 1e-3);
}

#[test]
fn hierarchy_agrees_with_the_scan() {
    let mut rng = Lcg(2024);
    let spheres: Vec<([f32; 3], f32)> = (0..60)
        .map(|_| ([rng.next() * 40.0 - 20.0, rng.next() * 40.0 - 20.0, rng.next() * 40.0 - 20.0], 0.5 + 2.0 * rng.next()))
        .collect();
    let scene = Spheres::new(&spheres);
    let mut objects = scene.handles();
    let bvh = Bvh::new(&scene, &mut objects);
    let mut hits = 0;
    for _ in 0..500 {
        let ray = Ray::new(
            [rng.next() * 60.0 - 30.0, rng.next() * 60.0 - 30.0, rng.next() * 60.0 - 30.0],
            [rng.next() - 0.5, rng.next() - 0.5, rng.next() - 0.5],
        );
        let found = bvh.hit(&scene, &ray, &0.00015, &100000.0);
        let expected = scene.scan(&objects, &ray, 0.00015, 100000.0);
        match (found, expected) {
            (Some(found), Some(expected)) => {
                assert!((found.t - expected.t).abs() < 1e-4);
                hits += 1;
            }
            (None, None) => {}
            (found, expected) => panic!("the hierarchy found {:?}, the scan {:?}", found, expected),
        }
    }
    assert!(hits > 0);
}

#[test]
fn node_answers_for_what_is_beneath_it() {
    let scene = row_of_spheres(2);
    let ray = Ray::new([3.0, -10.0, 0.0], [0.0, 1.0, 0.0]);
    let leaf: BvhNode<Aabb> = BvhNode::Leaf(1);
    assert_eq!(leaf.bounding_box(&scene), scene.bounding_box(1));
    assert_eq!(leaf.hit(&scene, &ray, &0.00015, &100000.0).map(|hit| hit.object), Some(1));
    let mut objects = scene.handles();
    let branch = BvhNode::Branch(Box::new(Bvh::new(&scene, &mut objects)));
    assert_eq!(
        branch.bounding_box(&scene),
        Aabb::surrounding_box(scene.bounding_box(0), scene.bounding_box(1))
    );
    assert_eq!(branch.hit(&scene, &ray, &0.00015, &100000.0).map(|hit| hit.object), Some(1));
}

#[test]
fn empty_branch_finds_nothing() {
    let scene = row_of_spheres(1);
    let bvh = Bvh { aabb_box: scene.bounding_box(0), left: None, right: None };
    let ray = Ray::new([0.0, -10.0, 0.0], [0.0, 1.0, 0.0]);
    assert_eq!(bvh.hit(&scene, &ray, &0.00015, &100000.0), None);
}

fn depth(bvh: &Bvh<Aabb>) -> usize {
    1 + [&bvh.left, &bvh.right]
        .into_iter()
        .flatten()
        .map(|node| match node.as_ref() {
            BvhNode::Branch(branch) => depth(branch),
            BvhNode::Leaf(_) => 0,
        })
        .max()
        .unwrap_or(0)
}

#[test]
fn hierarchy_is_no_deeper_than_its_objects_are_many() {
    let mut rng = Lcg(5);
    for count in 1..60 {
        let spheres: Vec<([f32; 3], f32)> = (0..count)
            .map(|_| ([rng.next() * 9.0, rng.next() * 9.0, rng.next() * 9.0], 0.5))
            .collect();
        let scene = Spheres::new(&spheres);
        let mut objects = scene.handles();
        let bvh = Bvh::new(&scene, &mut objects);
        assert!(depth(&bvh) >= 1);
        assert!(depth(&bvh) <= count);
    }
    let same = Spheres::new(&[([0.0, 0.0, 0.0], 1.0); 33]);
    let mut objects = same.handles();
    assert!(depth(&Bvh::new(&same, &mut objects)) <= 33);
}

#[test]
fn hit_is_reported_by_a_leaf() {
    let scene = row_of_spheres(7);
    let mut objects = scene.handles();
    let bvh = Bvh::new(&scene, &mut objects);
    let mut rng = Lcg(99);
    for _ in 0..200 {
        let ray = Ray::new([rng.next() * 20.0, -5.0, 0.0], [rng.next() - 0.5, 1.0, 0.0]);
        if let Some(hit) = bvh.hit(&scene, &ray, &0.00015, &100000.0) {
            assert!(objects.contains(&hit.object));
            let alone = scene.hit(hit.object, &ray, &0.00015, &100000.0).unwrap();
            assert_eq!(alone.t, hit.t);
        }
    }
}
