use feoh::hittable::aabb::{Slab, AABB};
use feoh::hittable::bvh::{BvhNode, BvhTree, NodeId};
use feoh::hittable::sphere::{Root, Sphere};
use feoh::hittable::HitRecord;
use feoh::ray::Ray;
use feoh::scalar::Scalar;
use feoh::vec::Vec3;
use rand::rngs::SmallRng;
use rand::{Rng, SeedableRng};

fn s(x: f32) -> Scalar {
    Scalar::from_bits(x.to_bits())
}

fn f(x: Scalar) -> f32 {
    f32::from_bits(x.to_bits())
}

fn v(x: f32, y: f32, z: f32) -> Vec3 {
    Vec3::new(s(x), s(y), s(z))
}

fn slab_test(aabb: &AABB, ray: &Ray, t_min: Scalar, t_max: Scalar) -> bool {
    let mut slabs = [Slab { inv_d: s(0.0), t0: s(0.0), t1: s(0.0) }; 3];
    for axis in 0..3 {
        let inv_d = 1.0 / f(ray.direction.get(axis));
        let t0 = (f(aabb.min.get(axis)) - f(ray.origin.get(axis))) * inv_d;
        let t1 = (f(aabb.max.get(axis)) - f(ray.origin.get(axis))) * inv_d;
        slabs[axis] = Slab { inv_d: s(inv_d), t0: s(t0), t1: s(t1) };
    }
    AABB::hit(&slabs, t_min, t_max)
}

fn sphere_root(sphere: &Sphere, ray: &Ray, t: f32) -> Root {
    let c = [f(sphere.center.x), f(sphere.center.y), f(sphere.center.z)];
    let o = [f(ray.origin.x), f(ray.origin.y), f(ray.origin.z)];
    let d = [f(ray.direction.x), f(ray.direction.y), f(ray.direction.z)];
    let r = f(sphere.radius);
    let p = [o[0] + t * d[0], o[1] + t * d[1], o[2] + t * d[2]];
    let n = [(p[0] - c[0]) / r, (p[1] - c[1]) / r, (p[2] - c[2]) / r];
    let theta = -n[1].acos();
    let phi = -n[2].atan2(n[0]) + std::f32::consts::PI;
    Root {
        t: s(t),
        point: v(p[0], p[1], p[2]),
        outward_normal: v(n[0], n[1], n[2]),
        u: s(phi / (2.0 * std::f32::consts::PI)),
        v: s(theta / std::f32::consts::PI),
        facing: s(d[0] * n[0] + d[1] * n[1] + d[2] * n[2]),
    }
}

fn sphere_hit(sphere: &Sphere, ray: &Ray, t_min: Scalar, t_max: Scalar) -> Option<HitRecord> {
    let c = [f(sphere.center.x), f(sphere.center.y), f(sphere.center.z)];
    let o = [f(ray.origin.x), f(ray.origin.y), f(ray.origin.z)];
    let d = [f(ray.direction.x), f(ray.direction.y), f(ray.direction.z)];
    let r = f(sphere.radius);
    let oc = [o[0] - c[0], o[1] - c[1], o[2] - c[2]];
    let a = d[0] * d[0] + d[1] * d[1] + d[2] * d[2];
    let b = oc[0] * d[0] + oc[1] * d[1] + oc[2] * d[2];
    let cc = oc[0] * oc[0] + oc[1] * oc[1] + oc[2] * oc[2] - r * r;
    let discriminant = b * b - a * cc;
    let root = discriminant.sqrt();
    let near = sphere_root(sphere, ray, (-b - root) / a);
    let far = sphere_root(sphere, ray, (-b + root) / a);
    sphere.hit(s(discriminant), &near, &far, t_min, t_max)
}

fn sphere_box(sphere: &Sphere) -> AABB {
    let c = [f(sphere.center.x), f(sphere.center.y), f(sphere.center.z)];
    let r = f(sphere.radius);
    AABB::new(v(c[0] - r, c[1] - r, c[2] - r), v(c[0] + r, c[1] + r, c[2] + r))
}

fn random_spheres(rng: &mut SmallRng, count: usize) -> Vec<Sphere> {
    (0..count)
        .map(|i| {
            Sphere::new(
                v(rng.gen_range(-10.0..10.0), rng.gen_range(-10.0..10.0), rng.gen_range(-10.0..10.0)),
                s(rng.gen_range(0.2..1.5)),
                i,
            )
        })
        .collect()
}

fn brute_force(spheres: &[Sphere], ray: &Ray, t_min: Scalar, t_max: Scalar) -> Option<HitRecord> {
    let mut best: Option<HitRecord> = None;
    for sphere in spheres {
        if let Some(hit) = sphere_hit(sphere, ray, t_min, t_max) {
            if best.map_or(true, |b| f(hit.t) < f(b.t)) {
                best = Some(hit);
            }
        }
    }
    best
}

#[test]
fn bvh_single_primitive_is_one_leaf() {
    let mut rng = SmallRng::seed_from_u64(1);
    let sphere = Sphere::new(v(0.0, 0.0, -5.0), s(1.0), 0);
    let boxes = vec![sphere_box(&sphere)];
    let tree = BvhTree::new(&boxes, &mut rng);
    assert_eq!(tree.bounding_box(), Some(boxes[0]));
    let ray = Ray::new(v(0.0, 0.0, 0.0), v(0.0, 0.0, -1.0), s(0.0));
    let hit = tree
        .hit(&ray, s(0.001), s(f32::INFINITY), &slab_test, &|_p: usize,
         r: &Ray,
         lo: Scalar,
         hi: Scalar| sphere_hit(&sphere, r, lo, hi))
        .unwrap();
    assert_eq!(f(hit.t), 4.0);
    assert!(hit.front_face);
    assert_eq!(hit.normal, v(0.0, 0.0, 1.0));
}

#[test]
fn bvh_traversal_matches_linear_scan_on_random_spheres() {
    let mut rng = SmallRng::seed_from_u64(7);
    for round in 0..20 {
        let spheres = random_spheres(&mut rng, 1 + round * 3);
        let boxes: Vec<AABB> = spheres.iter().map(sphere_box).collect();
        let tree = BvhTree::new(&boxes, &mut rng);
        for _ in 0..200 {
            let ray = Ray::new(
                v(rng.gen_range(-12.0..12.0), rng.gen_range(-12.0..12.0), rng.gen_range(-12.0..12.0)),
                v(rng.gen_range(-1.0..1.0), rng.gen_range(-1.0..1.0), rng.gen_range(-1.0..1.0)),
                s(0.0),
            );
            let t_min = s(0.001);
            let t_max = s(100.0);
            let leaf = |p: usize, r: &Ray, lo: Scalar, hi: Scalar| sphere_hit(&spheres[p], r, lo, hi);
            let through_tree = tree.hit(&ray, t_min, t_max, &slab_test, &leaf);
            let through_scan = brute_force(&spheres, &ray, t_min, t_max);
            assert_eq!(through_tree.map(|h| f(h.t)), through_scan.map(|h| f(h.t)));
        }
    }
}

fn leaves_below(tree: &BvhTree, id: NodeId, into: &mut Vec<usize>) {
    match tree.node(id).unwrap() {
        BvhNode::Leaf { hittable, .. } => into.push(hittable),
        BvhNode::Branch { left, right, .. } => {
            assert!(left.index < id.index);
            assert!(right.index < id.index);
            leaves_below(tree, left, into);
            leaves_below(tree, right, into);
        }
    }
}

#[test]
fn bvh_sorts_two_primitives_along_the_axis() {
    // Whatever axis is drawn, the second box lies before the first.
    for seed in 0..20 {
        let mut rng = SmallRng::seed_from_u64(seed);
        let boxes = vec![
            AABB::new(v(5.0, 6.0, 7.0), v(6.0, 7.0, 8.0)),
            AABB::new(v(-5.0, -6.0, -7.0), v(-4.0, -5.0, -6.0)),
        ];
        let tree = BvhTree::new(&boxes, &mut rng);
        assert_eq!(tree.number_nodes(), 3);
        assert_eq!(tree.number_hittables(), 2);
        let root = tree.root_id();
        assert_eq!(root.index, 2);
        match tree.node(root).unwrap() {
            BvhNode::Branch { aabb, left, right } => {
                assert_eq!(aabb, AABB::new(v(-5.0, -6.0, -7.0), v(6.0, 7.0, 8.0)));
                assert_eq!(tree.node(left), Some(BvhNode::Leaf { aabb: boxes[1], hittable: 1 }));
                assert_eq!(tree.node(right), Some(BvhNode::Leaf { aabb: boxes[0], hittable: 0 }));
            }
            BvhNode::Leaf { .. } => panic!("the root of two primitives is a branch"),
        }
        assert_eq!(tree.node(NodeId { index: 3 }), None);
    }
}

#[test]
fn bvh_holds_every_primitive_once_and_splits_in_the_middle() {
    let mut rng = SmallRng::seed_from_u64(11);
    for count in 1..40usize {
        let spheres = random_spheres(&mut rng, count);
        let boxes: Vec<AABB> = spheres.iter().map(sphere_box).collect();
        let tree = BvhTree::new(&boxes, &mut rng);
        assert_eq!(tree.number_nodes(), 2 * count - 1);
        assert_eq!(tree.number_hittables(), count);
        assert_eq!(tree.root_id().index, 2 * count - 2);
        let mut found = Vec::new();
        leaves_below(&tree, tree.root_id(), &mut found);
        found.sort();
        assert_eq!(found, (0..count).collect::<Vec<usize>>());
        for index in 0..tree.number_nodes() {
            let id = NodeId { index };
            match tree.node(id).unwrap() {
                BvhNode::Leaf { aabb, hittable } => assert_eq!(aabb, boxes[hittable]),
                BvhNode::Branch { aabb, left, right } => {
                    let mut on_left = Vec::new();
                    let mut on_right = Vec::new();
                    leaves_below(&tree, left, &mut on_left);
                    leaves_below(&tree, right, &mut on_right);
                    assert_eq!(on_left.len(), (on_left.len() + on_right.len()) / 2);
                    let split = (0..3).any(|axis| {
                        on_left.iter().all(|&p| {
                            on_right.iter().all(|&q| f(boxes[p].min.get(axis)) <= f(boxes[q].min.get(axis)))
                        })
                    });
                    assert!(split);
                    for &p in on_left.iter().chain(on_right.iter()) {
                        for axis in 0..3 {
                            assert!(f(aabb.min.get(axis)) <= f(boxes[p].min.get(axis)));
                            assert!(f(aabb.max.get(axis)) >= f(boxes[p].max.get(axis)));
                        }
                    }
                }
            }
        }
        let root_box = tree.bounding_box().unwrap();
        match tree.node(tree.root_id()).unwrap() {
            BvhNode::Leaf { aabb, .. } => assert_eq!(aabb, root_box),
            BvhNode::Branch { aabb, .. } => assert_eq!(aabb, root_box),
        }
    }
}

#[test]
fn bvh_box_test_that_fails_ends_the_search() {
    let mut rng = SmallRng::seed_from_u64(3);
    let spheres = random_spheres(&mut rng, 9);
    let boxes: Vec<AABB> = spheres.iter().map(sphere_box).collect();
    let tree = BvhTree::new(&boxes, &mut rng);
    let ray = Ray::new(v(0.0, 0.0, 0.0), v(0.0, 0.0, 1.0), s(0.0));
    let asked = std::cell::Cell::new(0usize);
    let never = |_b: &AABB, _r: &Ray, _lo: Scalar, _hi: Scalar| {
        asked.set(asked.get() + 1);
        false
    };
    let leaf = |_p: usize, _r: &Ray, _lo: Scalar, _hi: Scalar| -> Option<HitRecord> {
        panic!("no primitive is asked behind a box that the ray misses")
    };
    assert!(tree.hit(&ray, s(0.001), s(100.0), &never, &leaf).is_none());
    assert_eq!(asked.get(), 1);
}

#[test]
fn bvh_asks_every_leaf_over_the_whole_interval() {
    let mut rng = SmallRng::seed_from_u64(5);
    let spheres = random_spheres(&mut rng, 6);
    let boxes: Vec<AABB> = spheres.iter().map(sphere_box).collect();
    let tree = BvhTree::new(&boxes, &mut rng);
    let ray = Ray::new(v(0.0, 0.0, 0.0), v(0.0, 0.0, 1.0), s(0.0));
    let always = |_b: &AABB, _r: &Ray, _lo: Scalar, _hi: Scalar| true;
    let asked = std::cell::RefCell::new(Vec::new());
    let leaf = |p: usize, _r: &Ray, lo: Scalar, hi: Scalar| {
        asked.borrow_mut().push((p, f(lo), f(hi)));
        Some(HitRecord {
            point: v(0.0, 0.0, 0.0),
            normal: v(0.0, 0.0, 1.0),
            t: s(10.0 - p as f32),
            u: s(0.0),
            v: s(0.0),
            material: p,
            front_face: true,
        })
    };
    let hit = tree.hit(&ray, s(0.001), s(100.0), &always, &leaf).unwrap();
    assert_eq!(hit.material, 5);
    let mut seen = asked.borrow().clone();
    seen.sort_by_key(|entry| entry.0);
    assert_eq!(seen, (0..6).map(|p| (p, 0.001, 100.0)).collect::<Vec<_>>());
}
