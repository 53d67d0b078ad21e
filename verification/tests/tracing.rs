//! Scene aggregation, the color integrator, sampling and the full renderer
//! on concrete values.  One whole unit is 65536 fixed-point units.

use raytrace::camera::Camera;
use raytrace::fixed;
use raytrace::list::HitableList;
use raytrace::ray::Ray;
use raytrace::ray::T_FAR;
use raytrace::render::Rgb;
use raytrace::render::render_image;
use raytrace::rng::Rng;
use raytrace::rng::random0;
use raytrace::rng::random2;
use raytrace::sphere::Sphere;
use raytrace::vec3::Color;
use raytrace::vec3::Point3;
use raytrace::vec3::Vec3;

const S: i64 = 65536;

#[test]
fn list_empty_misses() {
    let world = HitableList::new();
    let ray = Ray::new(Point3::origin(), Vec3::new(0, 0, -S));
    assert!(world.hit(&ray, 0, T_FAR).is_none());
}

#[test]
fn list_nearest_of_overlapping() {
    // two spheres along the ray: t = 1 (near) and t = 4 (far)
    let near = Sphere::new(Point3::new(0, 0, -2 * S), S);
    let far = Sphere::new(Point3::new(0, 0, -5 * S), S);
    let ray = Ray::new(Point3::origin(), Vec3::new(0, 0, -S));

    let mut world = HitableList::new();
    world.add(&far);
    world.add(&near);
    let rec = world.hit(&ray, 0, T_FAR).expect("must hit");
    assert_eq!(rec.t, S);

    // insertion order must not matter for which t is returned
    let mut world2 = HitableList::new();
    world2.add(&near);
    world2.add(&far);
    let rec2 = world2.hit(&ray, 0, T_FAR).expect("must hit");
    assert_eq!(rec2.t, S);
    assert_eq!(rec, rec2);
}

#[test]
fn list_miss_everything() {
    let mut world = HitableList::new();
    world.add(&Sphere::new(Point3::new(0, 5 * S, 0), S));
    world.add(&Sphere::new(Point3::new(5 * S, 0, 0), S));
    let ray = Ray::new(Point3::origin(), Vec3::new(0, 0, -S));
    assert!(world.hit(&ray, 0, T_FAR).is_none());
}

#[test]
fn color_depth_zero_is_black() {
    let mut world = HitableList::new();
    world.add(&Sphere::new(Point3::new(0, 0, -2 * S), S));
    let ray = Ray::new(Point3::origin(), Vec3::new(0, 0, -S));
    let mut rng = Rng::new(7);
    assert_eq!(ray.color(&world, 0, &mut rng), Color::black());
    assert_eq!(ray.color(&world, -3, &mut rng), Color::black());
    // exhausted depth consumes no randomness
    assert_eq!(rng.state, Rng::new(7).state);
}

#[test]
fn color_miss_is_sky_gradient() {
    // straight down -z: unit direction y = 0, blend factor 1/2,
    // so the color is (white + sky blue) / 2
    let ray = Ray::new(Point3::origin(), Vec3::new(0, 0, -S));
    let empty = HitableList::new();
    let mut rng = Rng::new(1);
    let c = ray.color(&empty, 5, &mut rng);
    assert_eq!(c, Color::new(49152, 55705, S));
    // a miss consumes no randomness
    assert_eq!(rng.state, Rng::new(1).state);
}

#[test]
fn color_missing_scene_matches_empty() {
    // the scene holds spheres, all off this ray's path
    let mut world = HitableList::new();
    world.add(&Sphere::new(Point3::new(0, 5 * S, 0), S));
    world.add(&Sphere::new(Point3::new(-5 * S, 0, 0), S));
    let empty = HitableList::new();
    let ray = Ray::new(Point3::origin(), Vec3::new(0, 0, -S));
    let mut rng1 = Rng::new(3);
    let mut rng2 = Rng::new(3);
    let against_world = ray.color(&world, 8, &mut rng1);
    let against_empty = ray.color(&empty, 8, &mut rng2);
    assert_eq!(against_world, against_empty);
    assert_eq!(rng1.state, rng2.state);
}

#[test]
fn color_upward_ray_is_sky_blue() {
    // straight up +y: unit direction y = 1, blend factor 1, pure sky blue
    let ray = Ray::new(Point3::origin(), Vec3::new(0, S, 0));
    let empty = HitableList::new();
    let mut rng = Rng::new(1);
    let c = ray.color(&empty, 5, &mut rng);
    assert_eq!(c, Color::new(32768, 45875, S));
}

#[test]
fn color_of_short_direction_stays_in_range() {
    // a short straight-down direction normalizes exactly and lands on the
    // white end of the gradient; every channel stays within one
    let ray = Ray::new(Point3::origin(), Vec3::new(0, -300, 0));
    let empty = HitableList::new();
    let mut rng = Rng::new(2);
    let c = ray.color(&empty, 4, &mut rng);
    assert_eq!(c, Color::new(S, S, S));
}

#[test]
fn color_components_stay_in_range() {
    let mut world = HitableList::new();
    world.add(&Sphere::new(Point3::new(0, 0, -2 * S), S));
    world.add(&Sphere::new(Point3::new(0, -101 * S, -2 * S), 100 * S));
    let mut rng = Rng::new(9);
    for dz in [-S, -300, -3, -5 * S] {
        let ray = Ray::new(Point3::origin(), Vec3::new(17, -40000, dz));
        let c = ray.color(&world, 6, &mut rng);
        assert!(0 <= c.x() && c.x() <= S);
        assert!(0 <= c.y() && c.y() <= S);
        assert!(0 <= c.z() && c.z() <= S);
    }
}

#[test]
fn rng_is_deterministic() {
    let mut a = Rng::new(42);
    let mut b = Rng::new(42);
    for _ in 0..100 {
        assert_eq!(a.next_u64(), b.next_u64());
    }
    let mut c = Rng::new(43);
    let first_42: u64 = Rng::new(42).next_u64();
    let first_43: u64 = c.next_u64();
    assert_ne!(first_42, first_43);
}

#[test]
fn rng_matches_splitmix_formula() {
    let seed: u64 = 0x1234_5678_9abc_def0;
    let mut rng = Rng::new(seed);
    let got: u64 = rng.next_u64();
    let state: u64 = seed.wrapping_add(0x9E3779B97F4A7C15);
    let z1: u64 = (state ^ (state >> 30)).wrapping_mul(0xBF58476D1CE4E5B9);
    let z2: u64 = (z1 ^ (z1 >> 27)).wrapping_mul(0x94D049BB133111EB);
    let expected: u64 = z2 ^ (z2 >> 31);
    assert_eq!(got, expected);
    assert_eq!(rng.state, state);
}

#[test]
fn random_samples_in_range() {
    let mut rng = Rng::new(99);
    for _ in 0..200 {
        let r: i64 = random0(&mut rng);
        assert!(0 <= r && r < S);
    }
    let mut rng2 = Rng::new(100);
    for _ in 0..50 {
        let v = Vec3::random_in_unit_shpere(&mut rng2);
        assert!(v.length_squared() < S);
    }
}

#[test]
fn random2_stays_in_range() {
    let mut rng = Rng::new(5);
    for _ in 0..200 {
        let r: i64 = random2(&mut rng, -S, S);
        assert!(-S <= r && r < S);
    }
}

#[test]
fn random_vectors_are_seed_deterministic() {
    let mut a = Rng::new(31);
    let mut b = Rng::new(31);
    assert_eq!(Vec3::random0(&mut a), Vec3::random0(&mut b));
    assert_eq!(
        Vec3::random2(&mut a, -S, S),
        Vec3::random2(&mut b, -S, S)
    );
    assert_eq!(
        Vec3::random_in_unit_shpere(&mut a),
        Vec3::random_in_unit_shpere(&mut b)
    );
    assert_eq!(a.state, b.state);
}

#[test]
fn quantize_full_and_half() {
    // a full-white accumulated sample clamps to 0.999 and quantizes to 255
    assert_eq!(
        Color::new(S, S, S).to_rgb(1),
        Rgb { r: 255, g: 255, b: 255 }
    );
    // 0.25 averages then square-roots to 0.5, quantizing to 128
    assert_eq!(
        Color::new(S / 4, S / 4, S / 4).to_rgb(1),
        Rgb { r: 128, g: 128, b: 128 }
    );
    // four samples of one unit each average back to 0.25 per channel
    assert_eq!(Color::new(S, S, S).to_rgb(4), Rgb { r: 128, g: 128, b: 128 });
    assert_eq!(Color::black().to_rgb(16), Rgb { r: 0, g: 0, b: 0 });
}

#[test]
fn camera_default_geometry() {
    let camera = Camera::new();
    // viewport 16:9 of height 2: width 3.5556, half spans 1.7778 and 1
    assert_eq!(camera.horizontal, Vec3::new(233016, 0, 0));
    assert_eq!(camera.vertical, Vec3::new(0, 2 * S, 0));
    assert_eq!(camera.lower_left_corner, Vec3::new(-116508, -S, -S));
    let bottom_left = camera.get_ray(0, 0);
    assert_eq!(bottom_left.origin, Point3::origin());
    assert_eq!(bottom_left.direction, Vec3::new(-116508, -S, -S));
    let top_right = camera.get_ray(S, S);
    assert_eq!(top_right.direction, Vec3::new(116508, S, -S));
}

#[test]
fn render_two_pixels_of_empty_scene() {
    // 2 x 1 image, 1 sample, depth 1, empty scene: both pixels are the sky
    // gradient at their own jittered rays, reproduced here draw by draw
    let camera = Camera::new();
    let world = HitableList::new();
    let seed: u64 = 11;
    let pixels = render_image(&camera, &world, 2, 1, 1, 1, seed);
    assert_eq!(pixels.len(), 2);

    let mut rng = Rng::new(seed);
    let mut expected: Vec<Rgb> = Vec::new();
    for px in 0..2i64 {
        let du: i64 = random0(&mut rng);
        let dv: i64 = random0(&mut rng);
        let u: i64 = fixed::qdiv(fixed::qadd(px * S, du), S);
        // the single scanline normalizes v by zero, which yields zero
        let v: i64 = fixed::qdiv(dv, 0);
        assert_eq!(v, 0);
        let ray = camera.get_ray(u, v);
        let color = ray.color(&world, 1, &mut rng);
        expected.push(color.to_rgb(1));
    }
    assert_eq!(pixels, expected);
}

#[test]
fn render_same_seed_same_image() {
    let camera = Camera::new();
    let mut world = HitableList::new();
    world.add(&Sphere::new(Point3::new(0, 0, -2 * S), S));
    world.add(&Sphere::new(Point3::new(0, -101 * S, -2 * S), 100 * S));
    let first = render_image(&camera, &world, 4, 3, 2, 4, 777);
    let second = render_image(&camera, &world, 4, 3, 2, 4, 777);
    assert_eq!(first, second);
    assert_eq!(first.len(), 12);
}
