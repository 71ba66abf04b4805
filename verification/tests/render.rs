use feoh::hittable::rect::{AARect, Plane, PlaneCrossing};
use feoh::material::diffuse_light::DiffuseLight;
use feoh::other_renderer::{render, RenderInfo};
use feoh::scalar::Scalar;
use feoh::vec::Vec3;
use feoh::hittable::HitRecord;
use feoh::ray::Ray;
use feoh::{draw, ray_color, render_row, search_interval, tone_byte, Bounce};
use rand::rngs::SmallRng;
use rand::{Rng, SeedableRng};

fn s(x: f32) -> Scalar {
    Scalar::from_bits(x.to_bits())
}

fn f(x: Scalar) -> f32 {
    f32::from_bits(x.to_bits())
}

fn v(x: f32, y: f32, z: f32) -> Vec3 {
    Vec3::new(s(x), s(y), s(z))
}

fn record(t: f32, material: usize) -> HitRecord {
    HitRecord {
        point: v(0.0, 0.0, t),
        normal: v(0.0, 0.0, -1.0),
        t: s(t),
        u: s(0.0),
        v: s(0.0),
        material,
        front_face: true,
    }
}

fn weigh(bounce: &Bounce, incoming: &Vec3) -> Vec3 {
    match bounce {
        Bounce::Absorbed { emitted } => *emitted,
        Bounce::Scattered { emitted, albedo, scattering_pdf, pdf, .. } => v(
            f(emitted.x) + f(albedo.x) * f(*scattering_pdf) * f(incoming.x) / f(*pdf),
            f(emitted.y) + f(albedo.y) * f(*scattering_pdf) * f(incoming.y) / f(*pdf),
            f(emitted.z) + f(albedo.z) * f(*scattering_pdf) * f(incoming.z) / f(*pdf),
        ),
    }
}

fn nothing(_ray: &Ray, _t_min: Scalar, _t_max: Scalar) -> Option<HitRecord> {
    None
}

fn wall(_ray: &Ray, _t_min: Scalar, _t_max: Scalar) -> Option<HitRecord> {
    Some(record(1.0, 0))
}

fn never_asked(_ray: &Ray, _hit: &HitRecord, _rng: &mut SmallRng) -> Bounce {
    panic!("no surface is asked where the ray meets none")
}

fn ray() -> Ray {
    Ray::new(v(0.0, 0.0, 0.0), v(0.0, 0.0, 1.0), s(0.25))
}

#[test]
fn estimator_with_no_bounce_left_is_black() {
    let mut rng = SmallRng::seed_from_u64(1);
    let background = v(0.5, 0.7, 1.0);
    let unasked = |_ray: &Ray, _t_min: Scalar, _t_max: Scalar| -> Option<HitRecord> {
        panic!("the scene is not searched without a bounce left")
    };
    assert_eq!(ray_color(&ray(), &background, 0, &unasked, &never_asked, &weigh, &mut rng), v(0.0, 0.0, 0.0));
}

#[test]
fn estimator_sees_the_background_on_a_miss() {
    let mut rng = SmallRng::seed_from_u64(1);
    let background = v(0.5, 0.7, 1.0);
    assert_eq!(ray_color(&ray(), &background, 50, &nothing, &never_asked, &weigh, &mut rng), background);
    assert_eq!(ray_color(&ray(), &background, 1, &nothing, &never_asked, &weigh, &mut rng), background);
}

#[test]
fn estimator_searches_from_just_off_the_surface_to_infinity() {
    let mut rng = SmallRng::seed_from_u64(1);
    let asked = std::cell::RefCell::new(Vec::new());
    let intersect = |ray: &Ray, t_min: Scalar, t_max: Scalar| -> Option<HitRecord> {
        asked.borrow_mut().push((*ray, f(t_min), f(t_max)));
        None
    };
    ray_color(&ray(), &v(0.0, 0.0, 0.0), 3, &intersect, &never_asked, &weigh, &mut rng);
    assert_eq!(*asked.borrow(), vec![(ray(), 0.001, f32::INFINITY)]);
    let (t_min, t_max) = search_interval();
    assert_eq!(f(t_min), 0.001);
    assert_eq!(f(t_max), f32::INFINITY);
}

#[test]
fn estimator_returns_what_an_absorbing_surface_emits() {
    let mut rng = SmallRng::seed_from_u64(1);
    let emitted = v(15.0, 15.0, 15.0);
    let absorb = |_ray: &Ray, _hit: &HitRecord, _rng: &mut SmallRng| Bounce::Absorbed { emitted };
    assert_eq!(ray_color(&ray(), &v(0.0, 0.0, 0.0), 5, &wall, &absorb, &weigh, &mut rng), emitted);
}

#[test]
fn estimator_weighs_what_comes_along_the_scattered_ray() {
    let mut rng = SmallRng::seed_from_u64(1);
    let background = v(1.0, 2.0, 4.0);
    let scattered = Ray::new(v(0.0, 0.0, 1.0), v(0.0, 1.0, 0.0), s(0.25));
    // The first ray meets a wall; the scattered ray leaves the scene.
    let intersect = |r: &Ray, _t_min: Scalar, _t_max: Scalar| {
        if *r == ray() {
            Some(record(1.0, 0))
        } else {
            assert_eq!(*r, scattered);
            None
        }
    };
    let scatter = |_ray: &Ray, hit: &HitRecord, _rng: &mut SmallRng| {
        assert_eq!(*hit, record(1.0, 0));
        Bounce::Scattered {
            emitted: v(0.5, 0.5, 0.5),
            albedo: v(0.5, 0.25, 0.125),
            scattering_pdf: s(0.5),
            pdf: s(0.25),
            scattered,
        }
    };
    // emitted + albedo * scattering_pdf * background / pdf
    assert_eq!(
        ray_color(&ray(), &background, 2, &intersect, &scatter, &weigh, &mut rng),
        v(0.5 + 0.5 * 0.5 * 1.0 / 0.25, 0.5 + 0.25 * 0.5 * 2.0 / 0.25, 0.5 + 0.125 * 0.5 * 4.0 / 0.25)
    );
    // With one bounce only, what comes in is black.
    assert_eq!(ray_color(&ray(), &background, 1, &intersect, &scatter, &weigh, &mut rng), v(0.5, 0.5, 0.5));
}

#[test]
fn estimator_stops_after_its_budget_of_bounces() {
    let mut rng = SmallRng::seed_from_u64(1);
    for depth in [1usize, 2, 7, 50] {
        let bounces = std::cell::Cell::new(0usize);
        // A hall of mirrors: every ray meets a surface that scatters.
        let scatter = |ray: &Ray, _hit: &HitRecord, _rng: &mut SmallRng| {
            bounces.set(bounces.get() + 1);
            Bounce::Scattered {
                emitted: v(1.0, 1.0, 1.0),
                albedo: v(0.5, 0.5, 0.5),
                scattering_pdf: s(1.0),
                pdf: s(1.0),
                scattered: *ray,
            }
        };
        let radiance = ray_color(&ray(), &v(9.0, 9.0, 9.0), depth, &wall, &scatter, &weigh, &mut rng);
        assert_eq!(bounces.get(), depth);
        // 1 + 1/2 + 1/4 + ... over `depth` surfaces.
        let expected = 2.0 - 0.5f32.powi(depth as i32 - 1);
        assert_eq!(radiance, v(expected, expected, expected));
    }
}

#[test]
fn estimator_guards_a_density_that_is_not_above_zero() {
    let mut rng = SmallRng::seed_from_u64(1);
    let emitted = v(0.1, 0.2, 0.3);
    for pdf in [0.0f32, -0.0, -1.0, f32::NAN] {
        let scatter = |ray: &Ray, _hit: &HitRecord, _rng: &mut SmallRng| Bounce::Scattered {
            emitted,
            albedo: v(0.5, 0.5, 0.5),
            scattering_pdf: s(1.0),
            pdf: s(pdf),
            scattered: *ray,
        };
        let unweighed = |_bounce: &Bounce, _incoming: &Vec3| -> Vec3 {
            panic!("nothing is weighed by a density that is not above zero")
        };
        assert_eq!(ray_color(&ray(), &v(0.0, 0.0, 0.0), 50, &wall, &scatter, &unweighed, &mut rng), emitted);
    }
}

#[test]
fn estimator_draws_from_the_generator_it_is_given() {
    let mut rng = SmallRng::seed_from_u64(42);
    let mut twin = SmallRng::seed_from_u64(42);
    let scatter = |_ray: &Ray, _hit: &HitRecord, rng: &mut SmallRng| Bounce::Absorbed {
        emitted: v(rng.gen::<f32>(), 0.0, 0.0),
    };
    let radiance = ray_color(&ray(), &v(0.0, 0.0, 0.0), 5, &wall, &scatter, &weigh, &mut rng);
    assert_eq!(f(radiance.x), twin.gen::<f32>());
    assert_eq!(rng.gen::<u32>(), twin.gen::<u32>());
}

#[test]
fn tone_byte_clamps_and_truncates() {
    assert_eq!(tone_byte(s(0.0)), 0);
    assert_eq!(tone_byte(s(-5.0)), 0);
    assert_eq!(tone_byte(s(f32::NAN)), 0);
    assert_eq!(tone_byte(s(0.99)), 0);
    assert_eq!(tone_byte(s(1.0)), 1);
    assert_eq!(tone_byte(s(128.0)), 128);
    assert_eq!(tone_byte(s(181.01933)), 181);
    assert_eq!(tone_byte(s(255.5)), 255);
    assert_eq!(tone_byte(s(255.999)), 255);
    assert_eq!(tone_byte(s(256.0)), 255);
    assert_eq!(tone_byte(s(1.0e9)), 255);
    assert_eq!(tone_byte(s(f32::INFINITY)), 255);
    // 256 * sqrt(radiance / samples), as the driver computes it.
    for (radiance, samples) in [(0.25f32, 1.0f32), (2.0, 4.0), (15.0, 1.0), (0.0, 8.0), (30.0, 100.0)] {
        let level = 256.0 * (radiance * (1.0 / samples)).sqrt();
        assert_eq!(tone_byte(s(level)), level.clamp(0.0, 255.999) as u8);
        assert_eq!(
            tone_byte(s(level)),
            (256.0 * (radiance * (1.0 / samples)).sqrt().clamp(0.0, 0.999)) as u8
        );
    }
    assert_eq!(tone_byte(s(256.0 * 0.25f32.sqrt())), 128);
}

#[test]
fn draw_lays_rows_out_from_the_top() {
    let rows = vec![
        vec![v(1.0, 2.0, 3.0), v(4.0, 5.0, 6.0)],
        vec![v(10.0, 20.0, 30.0), v(40.0, 50.0, 60.0)],
        vec![v(100.0, 200.0, 300.0), v(-1.0, 0.5, 255.9)],
    ];
    assert_eq!(
        draw(&rows),
        vec![100, 200, 255, 0, 0, 255, 10, 20, 30, 40, 50, 60, 1, 2, 3, 4, 5, 6]
    );
    assert_eq!(draw(&Vec::new()), Vec::<u8>::new());
    assert_eq!(draw(&vec![Vec::new(), Vec::new()]), Vec::<u8>::new());
    let width = 5;
    let height = 4;
    let rows: Vec<Vec<Vec3>> = (0..height)
        .map(|y| (0..width).map(|x| v((10 * y + x) as f32, 0.0, 255.0)).collect())
        .collect();
    let image = draw(&rows);
    assert_eq!(image.len(), 3 * width * height);
    for y in 0..height {
        for x in 0..width {
            let at = 3 * ((height - 1 - y) * width + x);
            assert_eq!(image[at..at + 3], [(10 * y + x) as u8, 0, 255]);
        }
    }
}

#[test]
fn emissive_rectangle_fills_a_two_by_two_image() {
    // A light that fills the view, seen at depth 1 with one sample per pixel: every
    // pixel shows what the light emits and nothing else.
    let mut rng = SmallRng::seed_from_u64(1);
    let emitted = v(0.5, 0.25, 0.125);
    let light = DiffuseLight::from(emitted);
    let rect = AARect::new(Plane::XY, (s(-10.0), s(10.0)), (s(-10.0), s(10.0)), s(-1.0), 0);
    let background = v(0.0, 0.0, 0.0);
    let intersect = |ray: &Ray, t_min: Scalar, t_max: Scalar| {
        let direction = [f(ray.direction.x), f(ray.direction.y), f(ray.direction.z)];
        let t = (f(rect.k) - f(ray.origin.z)) / direction[2];
        let crossing = PlaneCrossing {
            t: s(t),
            a: s(t * direction[0]),
            b: s(t * direction[1]),
            u: s((t * direction[0] + 10.0) / 20.0),
            v: s((t * direction[1] + 10.0) / 20.0),
            point: v(t * direction[0], t * direction[1], t * direction[2]),
            facing: s(direction[2]),
        };
        rect.hit(&crossing, t_min, t_max)
    };
    let scatter = |ray: &Ray, hit: &HitRecord, _rng: &mut SmallRng| match light.scatter(ray, hit) {
        Some(_) => unreachable!(),
        None => Bounce::Absorbed { emitted: light.emitted(hit, s(0.0)) },
    };
    let mut rows = Vec::new();
    for y in 0..2 {
        let mut row = Vec::new();
        for x in 0..2 {
            let ray = Ray::new(v(0.0, 0.0, 0.0), v(x as f32 - 0.5, y as f32 - 0.5, -1.0), s(0.0));
            let radiance = ray_color(&ray, &background, 1, &intersect, &scatter, &weigh, &mut rng);
            assert_eq!(radiance, emitted);
            row.push(v(
                256.0 * f(radiance.x).sqrt(),
                256.0 * f(radiance.y).sqrt(),
                256.0 * f(radiance.z).sqrt(),
            ));
        }
        rows.push(row);
    }
    let image = draw(&rows);
    assert_eq!(image.len(), 12);
    for pixel in image.chunks(3) {
        assert_eq!(pixel, [181, 128, 90]);
        assert_ne!(pixel, [0, 0, 0]);
    }
    // Seen from behind, the same light is black.
    let behind = Ray::new(v(0.0, 0.0, -2.0), v(0.0, 0.0, 1.0), s(0.0));
    assert_eq!(ray_color(&behind, &background, 1, &intersect, &scatter, &weigh, &mut rng), v(0.0, 0.0, 0.0));
}

#[test]
fn gradient_matches_the_floating_point_ramp() {
    for (width, height) in [(1usize, 1usize), (2, 2), (3, 5), (16, 9), (256, 256), (1, 7), (7, 1), (0, 3)] {
        let info = RenderInfo { img_width: width, img_height: height };
        let mut pixels = vec![7u8; 3 * width * height];
        render(&info, &mut pixels);
        for j in 0..height {
            for i in 0..width {
                let at = 3 * (j * width + i);
                if j == height - 1 {
                    assert_eq!(pixels[at..at + 3], [7, 7, 7]);
                } else {
                    let r = i as f64 / (width - 1) as f64;
                    let g = j as f64 / (height - 1) as f64;
                    let expected = [(255.999 * r) as u8, (255.999 * g) as u8, (255.999 * 0.25) as u8];
                    assert_eq!(pixels[at..at + 3], expected, "{} {} in {}x{}", i, j, width, height);
                }
            }
        }
    }
}

#[test]
fn gradient_leaves_the_rest_of_the_buffer_alone() {
    let info = RenderInfo { img_width: 2, img_height: 3 };
    let mut pixels = vec![9u8; 20];
    render(&info, &mut pixels);
    assert_eq!(pixels, vec![0, 0, 63, 255, 0, 63, 0, 127, 63, 255, 127, 63, 9, 9, 9, 9, 9, 9, 9, 9]);
}

#[test]
fn row_takes_every_sample_of_every_pixel_in_order() {
    let mut rng = SmallRng::seed_from_u64(1);
    let taken = std::cell::RefCell::new(Vec::new());
    let sample = |x: usize, y: usize, _rng: &mut SmallRng| {
        taken.borrow_mut().push((x, y));
        v(x as f32, y as f32, 1.0)
    };
    let sum = |a: &Vec3, b: &Vec3| v(f(a.x) + f(b.x), f(a.y) + f(b.y), f(a.z) + f(b.z));
    let level = |total: &Vec3, samples: usize| {
        v(f(total.x) / samples as f32, f(total.y) / samples as f32, f(total.z) * 10.0)
    };
    let row = render_row(7, 3, 4, &sample, &sum, &level, &mut rng);
    assert_eq!(row, vec![v(0.0, 7.0, 40.0), v(1.0, 7.0, 40.0), v(2.0, 7.0, 40.0)]);
    let expected: Vec<(usize, usize)> = (0..3).flat_map(|x| (0..4).map(move |_| (x, 7))).collect();
    assert_eq!(*taken.borrow(), expected);
    assert_eq!(render_row(0, 0, 4, &sample, &sum, &level, &mut rng), Vec::<Vec3>::new());
    // Without samples a pixel is the level of black.
    let none = |_x: usize, _y: usize, _rng: &mut SmallRng| -> Vec3 { panic!("no sample is taken") };
    assert_eq!(render_row(2, 2, 0, &none, &sum, &|total: &Vec3, _samples: usize| *total, &mut rng), vec![
        v(0.0, 0.0, 0.0),
        v(0.0, 0.0, 0.0)
    ]);
}

#[test]
fn row_samples_draw_from_the_generator_of_the_row() {
    let mut rng = SmallRng::seed_from_u64(9);
    let mut twin = SmallRng::seed_from_u64(9);
    let sample = |_x: usize, _y: usize, rng: &mut SmallRng| v(rng.gen::<f32>(), 0.0, 0.0);
    let last = |_total: &Vec3, one: &Vec3| *one;
    let same = |total: &Vec3, _samples: usize| *total;
    let row = render_row(0, 2, 3, &sample, &last, &same, &mut rng);
    let drawn: Vec<f32> = (0..6).map(|_| twin.gen::<f32>()).collect();
    assert_eq!(row.iter().map(|p| f(p.x)).collect::<Vec<f32>>(), vec![drawn[2], drawn[5]]);
}
