use feoh::hittable::aabb::AABB;
use feoh::hittable::boxtype::BoxType;
use feoh::hittable::flip_face::FlipFace;
use feoh::hittable::hittable_list::HittableList;
use feoh::hittable::moving_sphere::MovingSphere;
use feoh::hittable::rect::{AARect, Plane, PlaneCrossing};
use feoh::hittable::rotate::{get_axis, Axis, Rotate};
use feoh::hittable::sphere::{pick_root, Root, Sphere};
use feoh::hittable::translate::Translate;
use feoh::hittable::xy_rect::XYRect;
use feoh::hittable::HitRecord;
use feoh::ray::Ray;
use feoh::scalar::Scalar;
use feoh::vec::Vec3;

fn s(x: f32) -> Scalar {
    Scalar::from_bits(x.to_bits())
}

fn f(x: Scalar) -> f32 {
    f32::from_bits(x.to_bits())
}

fn v(x: f32, y: f32, z: f32) -> Vec3 {
    Vec3::new(s(x), s(y), s(z))
}

fn a(p: Vec3) -> [f32; 3] {
    [f(p.x), f(p.y), f(p.z)]
}

fn dot(p: [f32; 3], q: [f32; 3]) -> f32 {
    p[0] * q[0] + p[1] * q[1] + p[2] * q[2]
}

fn sphere_root(center: [f32; 3], radius: f32, ray: &Ray, t: f32) -> Root {
    let o = a(ray.origin);
    let d = a(ray.direction);
    let p = [o[0] + t * d[0], o[1] + t * d[1], o[2] + t * d[2]];
    let n = [(p[0] - center[0]) / radius, (p[1] - center[1]) / radius, (p[2] - center[2]) / radius];
    let theta = -n[1].acos();
    let phi = -n[2].atan2(n[0]) + std::f32::consts::PI;
    Root {
        t: s(t),
        point: v(p[0], p[1], p[2]),
        outward_normal: v(n[0], n[1], n[2]),
        u: s(phi / (2.0 * std::f32::consts::PI)),
        v: s(theta / std::f32::consts::PI),
        facing: s(dot(d, n)),
    }
}

fn sphere_hit(sphere: &Sphere, ray: &Ray, t_min: Scalar, t_max: Scalar) -> Option<HitRecord> {
    let c = a(sphere.center);
    let r = f(sphere.radius);
    let o = a(ray.origin);
    let d = a(ray.direction);
    let oc = [o[0] - c[0], o[1] - c[1], o[2] - c[2]];
    let qa = dot(d, d);
    let qb = dot(oc, d);
    let qc = dot(oc, oc) - r * r;
    let discriminant = qb * qb - qa * qc;
    let root = discriminant.sqrt();
    let near = sphere_root(c, r, ray, (-qb - root) / qa);
    let far = sphere_root(c, r, ray, (-qb + root) / qa);
    sphere.hit(s(discriminant), &near, &far, t_min, t_max)
}

fn rect_hit(rect: &AARect, ray: &Ray, t_min: Scalar, t_max: Scalar) -> Option<HitRecord> {
    let (k_axis, a_axis, b_axis) = rect.plane.axes();
    let o = a(ray.origin);
    let d = a(ray.direction);
    let t = (f(rect.k) - o[k_axis]) / d[k_axis];
    let ca = o[a_axis] + t * d[a_axis];
    let cb = o[b_axis] + t * d[b_axis];
    let crossing = PlaneCrossing {
        t: s(t),
        a: s(ca),
        b: s(cb),
        u: s((ca - f(rect.a.0)) / (f(rect.a.1) - f(rect.a.0))),
        v: s((cb - f(rect.b.0)) / (f(rect.b.1) - f(rect.b.0))),
        point: v(o[0] + t * d[0], o[1] + t * d[1], o[2] + t * d[2]),
        facing: s(d[k_axis]),
    };
    rect.hit(&crossing, t_min, t_max)
}

#[test]
fn sphere_ray_aimed_at_the_center_hits_at_distance_less_radius() {
    for (origin, radius) in [([0.0f32, 0.0, -5.0], 1.0f32), ([8.0, 0.0, 0.0], 2.0), ([0.0, 16.0, 0.0], 4.0)]
    {
        let distance = dot(origin, origin).sqrt();
        let direction = [-origin[0] / distance, -origin[1] / distance, -origin[2] / distance];
        let sphere = Sphere::new(v(0.0, 0.0, 0.0), s(radius), 3);
        let ray = Ray::new(
            v(origin[0], origin[1], origin[2]),
            v(direction[0], direction[1], direction[2]),
            s(0.0),
        );
        let hit = sphere_hit(&sphere, &ray, s(0.001), s(f32::INFINITY)).unwrap();
        assert_eq!(f(hit.t), distance - radius);
        assert!(hit.front_face);
        assert_eq!(hit.material, 3);
        let outward = [origin[0] / distance, origin[1] / distance, origin[2] / distance];
        assert_eq!(a(hit.normal), outward);
        assert_eq!(a(hit.point), [outward[0] * radius, outward[1] * radius, outward[2] * radius]);
    }
}

#[test]
fn sphere_from_inside_takes_the_far_root_and_the_back_face() {
    let sphere = Sphere::new(v(0.0, 0.0, 0.0), s(2.0), 0);
    let ray = Ray::new(v(0.0, 0.0, 0.0), v(0.0, 0.0, 1.0), s(0.0));
    let hit = sphere_hit(&sphere, &ray, s(0.001), s(f32::INFINITY)).unwrap();
    assert_eq!(f(hit.t), 2.0);
    assert!(!hit.front_face);
    assert_eq!(a(hit.normal), [0.0, 0.0, -1.0]);
}

#[test]
fn sphere_missed_or_out_of_interval_gives_nothing() {
    let sphere = Sphere::new(v(0.0, 0.0, 0.0), s(1.0), 0);
    let beside = Ray::new(v(2.0, 0.0, -5.0), v(0.0, 0.0, 1.0), s(0.0));
    assert_eq!(sphere_hit(&sphere, &beside, s(0.001), s(f32::INFINITY)), None);
    let grazing = Ray::new(v(1.0, 0.0, -5.0), v(0.0, 0.0, 1.0), s(0.0));
    assert_eq!(sphere_hit(&sphere, &grazing, s(0.001), s(f32::INFINITY)), None);
    let through = Ray::new(v(0.0, 0.0, -5.0), v(0.0, 0.0, 1.0), s(0.0));
    assert_eq!(sphere_hit(&sphere, &through, s(0.001), s(4.0)), None);
    assert_eq!(sphere_hit(&sphere, &through, s(6.0), s(100.0)), None);
    assert_eq!(f(sphere_hit(&sphere, &through, s(4.0), s(100.0)).unwrap().t), 6.0);
    assert_eq!(f(sphere_hit(&sphere, &through, s(0.0), s(100.0)).unwrap().t), 4.0);
}

#[test]
fn pick_root_tests_the_near_root_first() {
    let root = |t: f32| Root {
        t: s(t),
        point: v(t, 0.0, 0.0),
        outward_normal: v(1.0, 0.0, 0.0),
        u: s(0.25),
        v: s(0.75),
        facing: s(-1.0),
    };
    let near = root(1.0);
    let far = root(3.0);
    assert_eq!(pick_root(s(4.0), &near, &far, s(0.0), s(10.0), 7), Some(near.to_record(7)));
    assert_eq!(pick_root(s(4.0), &near, &far, s(1.0), s(10.0), 7), Some(far.to_record(7)));
    assert_eq!(pick_root(s(4.0), &near, &far, s(1.0), s(3.0), 7), None);
    assert_eq!(pick_root(s(0.0), &near, &far, s(0.0), s(10.0), 7), None);
    assert_eq!(pick_root(s(-1.0), &near, &far, s(0.0), s(10.0), 7), None);
    assert_eq!(pick_root(s(f32::NAN), &near, &far, s(0.0), s(10.0), 7), None);
    let record = near.to_record(7);
    assert_eq!(record.u, s(0.25));
    assert_eq!(record.v, s(0.75));
    assert_eq!(record.material, 7);
}

#[test]
fn moving_sphere_box_spans_both_ends() {
    let sphere = MovingSphere::new((v(0.0, 0.0, 0.0), v(0.0, 1.0, 0.0)), (s(0.0), s(1.0)), s(0.5), 2);
    let at_start = AABB::new(v(-0.5, -0.5, -0.5), v(0.5, 0.5, 0.5));
    let at_end = AABB::new(v(-0.5, 0.5, -0.5), v(0.5, 1.5, 0.5));
    assert_eq!(
        sphere.bounding_box(&at_start, &at_end),
        Some(AABB::new(v(-0.5, -0.5, -0.5), v(0.5, 1.5, 0.5)))
    );
    let root = Root {
        t: s(2.0),
        point: v(0.0, 0.0, 0.5),
        outward_normal: v(0.0, 0.0, 1.0),
        u: s(0.0),
        v: s(0.0),
        facing: s(-1.0),
    };
    let hit = sphere.hit(s(1.0), &root, &root, s(0.001), s(10.0)).unwrap();
    assert_eq!(hit.material, 2);
    assert_eq!(f(hit.t), 2.0);
}

#[test]
fn rect_hit_inside_outside_and_faces() {
    let rect = AARect::new(Plane::XZ, (s(213.0), s(343.0)), (s(227.0), s(332.0)), s(554.0), 4);
    let down = Ray::new(v(278.0, 600.0, 280.0), v(0.0, -1.0, 0.0), s(0.0));
    let hit = rect_hit(&rect, &down, s(0.001), s(f32::INFINITY)).unwrap();
    assert_eq!(f(hit.t), 46.0);
    assert_eq!(a(hit.point), [278.0, 554.0, 280.0]);
    assert!(hit.front_face);
    assert_eq!(a(hit.normal), [0.0, 1.0, 0.0]);
    assert_eq!(f(hit.u), 0.5);
    assert_eq!(f(hit.v), (280.0 - 227.0) / (332.0 - 227.0));
    assert_eq!(hit.material, 4);

    let up = Ray::new(v(278.0, 0.0, 280.0), v(0.0, 1.0, 0.0), s(0.0));
    let hit = rect_hit(&rect, &up, s(0.001), s(f32::INFINITY)).unwrap();
    assert_eq!(f(hit.t), 554.0);
    assert!(!hit.front_face);
    assert_eq!(a(hit.normal), [0.0, -1.0, 0.0]);

    let beside = Ray::new(v(200.0, 0.0, 280.0), v(0.0, 1.0, 0.0), s(0.0));
    assert!(rect_hit(&rect, &beside, s(0.001), s(f32::INFINITY)).is_none());
    let edge = Ray::new(v(213.0, 0.0, 227.0), v(0.0, 1.0, 0.0), s(0.0));
    assert!(rect_hit(&rect, &edge, s(0.001), s(f32::INFINITY)).is_some());
    assert!(rect_hit(&rect, &up, s(0.001), s(554.0)).is_none());
    assert!(rect_hit(&rect, &up, s(554.0), s(1000.0)).is_none());
    assert!(rect_hit(&rect, &up, s(0.001), s(500.0)).is_none());
    let away = Ray::new(v(278.0, 0.0, 280.0), v(0.0, -1.0, 0.0), s(0.0));
    assert!(rect_hit(&rect, &away, s(0.001), s(f32::INFINITY)).is_none());
    let parallel = Ray::new(v(278.0, 554.0, 280.0), v(1.0, 0.0, 0.0), s(0.0));
    assert!(rect_hit(&rect, &parallel, s(0.001), s(f32::INFINITY)).is_none());
}

#[test]
fn rect_boxes_follow_the_plane() {
    let k = (s(0.9999), s(1.0001));
    let aa = (s(2.0), s(3.0));
    let bb = (s(4.0), s(5.0));
    assert_eq!(
        AARect::new(Plane::YZ, aa, bb, s(1.0), 0).bounding_box(k),
        Some(AABB::new(v(0.9999, 2.0, 4.0), v(1.0001, 3.0, 5.0)))
    );
    assert_eq!(
        AARect::new(Plane::XZ, aa, bb, s(1.0), 0).bounding_box(k),
        Some(AABB::new(v(2.0, 0.9999, 4.0), v(3.0, 1.0001, 5.0)))
    );
    assert_eq!(
        AARect::new(Plane::XY, aa, bb, s(1.0), 0).bounding_box(k),
        Some(AABB::new(v(2.0, 4.0, 0.9999), v(3.0, 5.0, 1.0001)))
    );
    assert_eq!(Plane::YZ.axes(), (0, 1, 2));
    assert_eq!(Plane::XZ.axes(), (1, 0, 2));
    assert_eq!(Plane::XY.axes(), (2, 0, 1));
}

#[test]
fn box_has_six_sides_and_is_hit_on_the_nearest() {
    let low = v(0.0, 0.0, 0.0);
    let high = v(165.0, 330.0, 165.0);
    let boxed = BoxType::new((low, high), 9);
    assert_eq!(boxed.bounding_box(), Some(AABB::new(low, high)));
    let sides = &boxed.sides.objects;
    assert_eq!(sides.len(), 6);
    let expected = [
        (Plane::XY, 165.0f32),
        (Plane::XY, 0.0),
        (Plane::XZ, 330.0),
        (Plane::XZ, 0.0),
        (Plane::YZ, 165.0),
        (Plane::YZ, 0.0),
    ];
    for (side, (plane, k)) in sides.iter().zip(expected) {
        assert_eq!(side.plane, plane);
        assert_eq!(f(side.k), k);
        assert_eq!(side.material, 9);
    }
    assert_eq!((f(sides[0].a.0), f(sides[0].a.1), f(sides[0].b.0), f(sides[0].b.1)), (0.0, 165.0, 0.0, 330.0));
    assert_eq!((f(sides[2].a.0), f(sides[2].a.1), f(sides[2].b.0), f(sides[2].b.1)), (0.0, 165.0, 0.0, 165.0));
    assert_eq!((f(sides[4].a.0), f(sides[4].a.1), f(sides[4].b.0), f(sides[4].b.1)), (0.0, 330.0, 0.0, 165.0));

    let ray = Ray::new(v(80.0, 100.0, -50.0), v(0.0, 0.0, 1.0), s(0.0));
    let hit = boxed.hit(&ray, s(0.001), s(f32::INFINITY), &rect_hit).unwrap();
    assert_eq!(f(hit.t), 50.0);
    assert_eq!(a(hit.point), [80.0, 100.0, 0.0]);
    // Every side has its normal along the positive axis, so the low side is met from behind.
    assert!(!hit.front_face);
    assert_eq!(a(hit.normal), [0.0, 0.0, -1.0]);
    let back = Ray::new(v(80.0, 100.0, 500.0), v(0.0, 0.0, -1.0), s(0.0));
    let hit = boxed.hit(&back, s(0.001), s(f32::INFINITY), &rect_hit).unwrap();
    assert_eq!(f(hit.t), 335.0);
    assert!(hit.front_face);
}

#[test]
fn list_returns_the_nearest_and_asks_only_for_nearer() {
    let mut list = HittableList::default();
    list.push(Sphere::new(v(0.0, 0.0, -10.0), s(1.0), 0));
    list.push(Sphere::new(v(0.0, 0.0, -4.0), s(1.0), 1));
    list.push(Sphere::new(v(0.0, 0.0, -7.0), s(1.0), 2));
    list.push(Sphere::new(v(5.0, 0.0, -7.0), s(1.0), 3));
    let ray = Ray::new(v(0.0, 0.0, 0.0), v(0.0, 0.0, -1.0), s(0.0));
    let asked = std::cell::RefCell::new(Vec::new());
    let hit_one = |sphere: &Sphere, ray: &Ray, t_min: Scalar, t_max: Scalar| {
        asked.borrow_mut().push(f(t_max));
        sphere_hit(sphere, ray, t_min, t_max)
    };
    let hit = list.hit(&ray, s(0.001), s(100.0), &hit_one).unwrap();
    assert_eq!(hit.material, 1);
    assert_eq!(f(hit.t), 3.0);
    assert_eq!(*asked.borrow(), vec![100.0, 9.0, 3.0, 3.0]);

    let empty: HittableList<Sphere> = HittableList::default();
    assert!(empty.hit(&ray, s(0.001), s(100.0), &sphere_hit).is_none());
    let away = Ray::new(v(0.0, 0.0, 0.0), v(0.0, 1.0, 0.0), s(0.0));
    assert!(list.hit(&away, s(0.001), s(100.0), &sphere_hit).is_none());
}

#[test]
fn list_box_needs_a_box_of_every_object() {
    let sphere_box = |sphere: &Sphere, _time: (Scalar, Scalar)| {
        let c = a(sphere.center);
        let r = f(sphere.radius);
        if r > 0.0 {
            Some(AABB::new(v(c[0] - r, c[1] - r, c[2] - r), v(c[0] + r, c[1] + r, c[2] + r)))
        } else {
            None
        }
    };
    let time = (s(0.0), s(1.0));
    let mut list = HittableList::default();
    assert_eq!(list.bounding_box(time, &sphere_box), None);
    list.push(Sphere::new(v(0.0, 0.0, 0.0), s(1.0), 0));
    assert_eq!(list.bounding_box(time, &sphere_box), Some(AABB::new(v(-1.0, -1.0, -1.0), v(1.0, 1.0, 1.0))));
    list.push(Sphere::new(v(4.0, 0.0, 0.0), s(2.0), 0));
    assert_eq!(list.bounding_box(time, &sphere_box), Some(AABB::new(v(-1.0, -2.0, -2.0), v(6.0, 2.0, 2.0))));
    list.push(Sphere::new(v(0.0, 9.0, 0.0), s(0.0), 0));
    assert_eq!(list.bounding_box(time, &sphere_box), None);
    list.push(Sphere::new(v(0.0, 0.0, 0.0), s(1.0), 0));
    assert_eq!(list.bounding_box(time, &sphere_box), None);
}

#[test]
fn flip_face_inverts_the_face_and_nothing_else() {
    let rect = AARect::new(Plane::XZ, (s(0.0), s(10.0)), (s(0.0), s(10.0)), s(5.0), 1);
    let flipped = FlipFace::new(rect);
    let down = Ray::new(v(5.0, 9.0, 5.0), v(0.0, -1.0, 0.0), s(0.0));
    let plain = rect_hit(&rect, &down, s(0.001), s(100.0)).unwrap();
    let hit = flipped.hit(&down, s(0.001), s(100.0), &rect_hit).unwrap();
    assert!(plain.front_face);
    assert!(!hit.front_face);
    assert_eq!(HitRecord { front_face: true, ..hit }, plain);
    let beside = Ray::new(v(50.0, 9.0, 5.0), v(0.0, -1.0, 0.0), s(0.0));
    assert!(flipped.hit(&beside, s(0.001), s(100.0), &rect_hit).is_none());
    let box_of = |rect: &AARect, _time: (Scalar, Scalar)| {
        rect.bounding_box((s(f(rect.k) - 0.0001), s(f(rect.k) + 0.0001)))
    };
    assert_eq!(
        flipped.bounding_box((s(0.0), s(1.0)), &box_of),
        Some(AABB::new(v(0.0, 5.0 - 0.0001, 0.0), v(10.0, 5.0 + 0.0001, 10.0)))
    );
}

#[test]
fn rotation_axes_and_box_of_turned_corners() {
    assert_eq!(get_axis(&Axis::X), (0, 1, 2));
    assert_eq!(get_axis(&Axis::Y), (1, 2, 0));
    assert_eq!(get_axis(&Axis::Z), (2, 0, 1));
    // A unit cube turned by a quarter about the y axis.
    let corners = [
        v(0.0, 0.0, 0.0),
        v(0.0, 0.0, -1.0),
        v(0.0, 1.0, 0.0),
        v(0.0, 1.0, -1.0),
        v(1.0, 0.0, 0.0),
        v(1.0, 0.0, -1.0),
        v(1.0, 1.0, 0.0),
        v(1.0, 1.0, -1.0),
    ];
    let turned = Rotate::new(Axis::Y, 0usize, s(1.0), s(0.0), Some(corners));
    assert_eq!(turned.bounding_box(), Some(AABB::new(v(0.0, 0.0, -1.0), v(1.0, 1.0, 0.0))));
    assert_eq!(turned.axis, Axis::Y);
    assert_eq!(f(turned.sin_theta), 1.0);
    assert_eq!(f(turned.cos_theta), 0.0);
    let unbounded = Rotate::new(Axis::Z, 0usize, s(0.0), s(1.0), None);
    assert_eq!(unbounded.bounding_box(), None);
    let one_point = Rotate::new(Axis::X, 0usize, s(0.0), s(1.0), Some([v(2.0, -3.0, 4.0); 8]));
    assert_eq!(one_point.bounding_box(), Some(AABB::new(v(2.0, -3.0, 4.0), v(2.0, -3.0, 4.0))));
}

fn add(p: &Vec3, q: &Vec3) -> Vec3 {
    v(f(p.x) + f(q.x), f(p.y) + f(q.y), f(p.z) + f(q.z))
}

fn dot_bits(p: &Vec3, q: &Vec3) -> Scalar {
    s(dot(a(*p), a(*q)))
}

fn moved_sphere_hit(moved: &Translate<Sphere>, ray: &Ray, t_min: Scalar, t_max: Scalar) -> Option<HitRecord> {
    moved.hit(ray, t_min, t_max, &sphere_hit, &add, &dot_bits)
}

#[test]
fn translate_moves_the_primitive_by_its_offset() {
    let sphere = Sphere::new(v(0.0, 0.0, 0.0), s(1.0), 0);
    let moved = Translate::new(sphere, v(4.0, 0.0, 0.0));
    let at_origin = Ray::new(v(0.0, 0.0, -5.0), v(0.0, 0.0, 1.0), s(0.0));
    assert!(moved_sphere_hit(&moved, &at_origin, s(0.001), s(100.0)).is_none());
    let at_offset = Ray::new(v(4.0, 0.0, -5.0), v(0.0, 0.0, 1.0), s(0.0));
    let hit = moved_sphere_hit(&moved, &at_offset, s(0.001), s(100.0)).unwrap();
    assert_eq!(f(hit.t), 4.0);
    assert_eq!(a(hit.point), [4.0, 0.0, -1.0]);
    assert_eq!(a(hit.normal), [0.0, 0.0, -1.0]);
    assert!(hit.front_face);
    let sphere_box = |sphere: &Sphere, _time: (Scalar, Scalar)| {
        Some(AABB::new(v(-1.0, -1.0, -1.0), v(1.0, 1.0, 1.0))).filter(|_| f(sphere.radius) == 1.0)
    };
    assert_eq!(
        moved.bounding_box((s(0.0), s(1.0)), &sphere_box, &add),
        Some(AABB::new(v(3.0, -1.0, -1.0), v(5.0, 1.0, 1.0)))
    );
    let unbounded = |_sphere: &Sphere, _time: (Scalar, Scalar)| None;
    assert_eq!(moved.bounding_box((s(0.0), s(1.0)), &unbounded, &add), None);
}

#[test]
fn translate_forth_and_back_restores_the_intersection() {
    let sphere = Sphere::new(v(0.0, 0.0, 0.0), s(2.0), 5);
    let offset = v(8.0, -16.0, 4.0);
    let there = Translate::new(sphere, offset);
    let back = Translate::new(there, offset.neg());
    for (origin, direction) in [
        ([0.0f32, 0.0, -8.0], [0.0f32, 0.0, 1.0]),
        ([8.0, 0.0, 0.0], [-1.0, 0.0, 0.0]),
        ([0.0, 0.0, 0.0], [0.0, 1.0, 0.0]),
        ([0.0, 4.0, -8.0], [0.0, 0.0, 1.0]),
        ([1.0, 0.0, -8.0], [0.0, 0.0, 2.0]),
    ] {
        let ray = Ray::new(v(origin[0], origin[1], origin[2]), v(direction[0], direction[1], direction[2]), s(0.0));
        let plain = sphere_hit(&sphere, &ray, s(0.001), s(100.0));
        let round_trip = back.hit(&ray, s(0.001), s(100.0), &moved_sphere_hit, &add, &dot_bits);
        assert_eq!(round_trip, plain);
    }
}

#[test]
fn rotate_turns_the_ray_back_and_the_record_forth() {
    let rect = AARect::new(Plane::YZ, (s(-1.0), s(1.0)), (s(-1.0), s(1.0)), s(2.0), 3);
    // A quarter turn about the z axis takes the plane x = 2 to the plane y = 2.
    let turned = Rotate::new(Axis::Z, rect, s(1.0), s(0.0), None);
    let turn = |p: &Vec3, sin: f32| v(0.0 * f(p.x) - sin * f(p.y), sin * f(p.x) + 0.0 * f(p.y), f(p.z));
    let back = |p: &Vec3| turn(p, -1.0);
    let forth = |p: &Vec3| turn(p, 1.0);
    let ray = Ray::new(v(0.5, 5.0, 0.25), v(0.0, -1.0, 0.0), s(0.0));
    let hit = turned.hit(&ray, s(0.001), s(100.0), &rect_hit, &back, &forth).unwrap();
    assert_eq!(f(hit.t), 3.0);
    assert_eq!(a(hit.point), [0.5, 2.0, 0.25]);
    assert_eq!(a(hit.normal), [0.0, 1.0, 0.0]);
    assert!(hit.front_face);
    assert_eq!(hit.material, 3);
    let along_x = Ray::new(v(5.0, 0.5, 0.25), v(-1.0, 0.0, 0.0), s(0.0));
    assert!(turned.hit(&along_x, s(0.001), s(100.0), &rect_hit, &back, &forth).is_none());
}

#[test]
fn xy_rect_is_the_rectangle_of_its_plane() {
    let rect = XYRect { material: 6, x: (s(0.0), s(2.0)), y: (s(0.0), s(4.0)), k: s(-3.0) };
    let same = AARect::new(Plane::XY, rect.x, rect.y, rect.k, 6);
    let crossing = |x: f32, y: f32, facing: f32| PlaneCrossing {
        t: s(3.0),
        a: s(x),
        b: s(y),
        u: s(x / 2.0),
        v: s(y / 4.0),
        point: v(x, y, -3.0),
        facing: s(facing),
    };
    for (x, y, facing) in [(1.0f32, 1.0f32, -1.0f32), (1.0, 1.0, 1.0), (3.0, 1.0, -1.0), (1.0, -0.5, -1.0)] {
        assert_eq!(
            rect.hit(&crossing(x, y, facing), s(0.001), s(100.0)),
            same.hit(&crossing(x, y, facing), s(0.001), s(100.0))
        );
    }
    let hit = rect.hit(&crossing(1.0, 1.0, -1.0), s(0.001), s(100.0)).unwrap();
    assert_eq!(a(hit.normal), [0.0, 0.0, 1.0]);
    assert_eq!((f(hit.u), f(hit.v), hit.material), (0.5, 0.25, 6));
    assert_eq!(
        rect.bounding_box((s(-3.0001), s(-2.9999))),
        Some(AABB::new(v(0.0, 0.0, -3.0001), v(2.0, 4.0, -2.9999)))
    );
}
