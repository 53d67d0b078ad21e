//! Vector, scalar and intersection behavior on concrete values.
//! One whole unit is 65536 fixed-point units.

use raytrace::fixed;
use raytrace::ray::Ray;
use raytrace::ray::T_FAR;
use raytrace::sphere::Sphere;
use raytrace::vec3::Point3;
use raytrace::vec3::Vec3;

const S: i64 = 65536;

#[test]
fn vec_add_sub() {
    let a = Vec3::new(S, 2 * S, 3 * S);
    let b = Vec3::new(4 * S, 5 * S, 6 * S);
    assert_eq!(a.add(b), Vec3::new(5 * S, 7 * S, 9 * S));
    assert_eq!(b.sub(a), Vec3::new(3 * S, 3 * S, 3 * S));
}

#[test]
fn vec_scalar_mul_div() {
    let a = Vec3::new(S, 2 * S, -3 * S);
    assert_eq!(a.mul(2 * S), Vec3::new(2 * S, 4 * S, -6 * S));
    assert_eq!(a.div(2 * S), Vec3::new(S / 2, S, -3 * S / 2));
}

#[test]
fn vec_elementwise_mul_div() {
    let a = Vec3::new(2 * S, 3 * S, 4 * S);
    let b = Vec3::new(S / 2, S, 2 * S);
    assert_eq!(a.hadamard(b), Vec3::new(S, 3 * S, 8 * S));
    assert_eq!(a.div_elem(b), Vec3::new(4 * S, 3 * S, 2 * S));
}

#[test]
fn vec_dot_cross() {
    let a = Vec3::new(S, 2 * S, 3 * S);
    let b = Vec3::new(4 * S, 5 * S, 6 * S);
    assert_eq!(a.dot(b), 32 * S);
    let x = Vec3::new(S, 0, 0);
    let y = Vec3::new(0, S, 0);
    assert_eq!(x.cross(y), Vec3::new(0, 0, S));
    assert_eq!(y.cross(x), Vec3::new(0, 0, -S));
}

#[test]
fn vec_length() {
    let a = Vec3::new(0, 3 * S, 4 * S);
    assert_eq!(a.length_squared(), 25 * S);
    assert_eq!(a.length(), 5 * S);
}

#[test]
fn vec_unit_vector() {
    let a = Vec3::new(0, 3 * S, 4 * S);
    // 3/5 and 4/5, truncated toward zero
    assert_eq!(a.unit_vector(), Vec3::new(0, 39321, 52428));
    // the zero vector maps to itself: division by zero length yields zero
    assert_eq!(Vec3::origin().unit_vector(), Vec3::origin());
}

#[test]
fn vec_length_of_short_vectors() {
    // the exact squares keep sub-unit precision: |(0, 300, 0)| is 300 units
    let a = Vec3::new(0, 300, 0);
    assert_eq!(a.length(), 300);
    assert_eq!(a.unit_vector(), Vec3::new(0, S, 0));
    let b = Vec3::new(0, -300, 0);
    assert_eq!(b.unit_vector(), Vec3::new(0, -S, 0));
}

#[test]
fn vec_unit_vector_components_bounded() {
    let samples = [
        Vec3::new(123, -45678, 999_999_999),
        Vec3::new(1, 1, 1),
        Vec3::new(-7 * S, 3, 12345),
        Vec3::new(i64::MAX, i64::MIN, 5),
    ];
    for v in samples {
        let u = v.unit_vector();
        assert!(-S <= u.x() && u.x() <= S);
        assert!(-S <= u.y() && u.y() <= S);
        assert!(-S <= u.z() && u.z() <= S);
    }
}

#[test]
fn vec_unit_vector_near_unit_length() {
    // for a vector of length >= 2^-8 units the squared length of the unit
    // vector is within a few fixed-point units of one
    let v = Vec3::new(1000, 2000, 3000);
    let sq: i64 = v.unit_vector().length_squared();
    assert!(S - 9 <= sq && sq <= S + 767);
    let w = Vec3::new(-5 * S, 4 * S, -3 * S);
    let sq2: i64 = w.unit_vector().length_squared();
    assert!(S - 9 <= sq2 && sq2 <= S + 767);
}

#[test]
fn vec_accessors() {
    let a = Vec3::new(7, -8, 9);
    assert_eq!(a.x(), 7);
    assert_eq!(a.y(), -8);
    assert_eq!(a.z(), 9);
    assert_eq!(Vec3::origin(), Vec3::new(0, 0, 0));
}

#[test]
fn scalar_clamp() {
    assert_eq!(fixed::clamp(5, 1, 3), 3);
    assert_eq!(fixed::clamp(-2, 0, 10), 0);
    assert_eq!(fixed::clamp(7, 0, 10), 7);
    // when the bounds cross, the upper bound wins (raise first, then lower)
    assert_eq!(fixed::clamp(5, 6, 2), 2);
}

#[test]
fn scalar_saturation() {
    let max = i64::MAX;
    assert_eq!(fixed::qadd(max, max), max);
    assert_eq!(fixed::qsub(-max, max), -max);
    assert_eq!(fixed::qmul(max, max), max);
    assert_eq!(fixed::qdiv(max, 1), max);
    assert_eq!(fixed::qdiv(S, 0), 0);
}

#[test]
fn ray_at() {
    let r = Ray::new(Point3::new(S, 0, 0), Vec3::new(0, 0, -S));
    assert_eq!(r.at(2 * S), Point3::new(S, 0, -2 * S));
    assert_eq!(r.at(0), Point3::new(S, 0, 0));
}

#[test]
fn sphere_hit_head_on() {
    // unit sphere two units down -z, ray straight at it
    let sphere = Sphere::new(Point3::new(0, 0, -2 * S), S);
    let ray = Ray::new(Point3::origin(), Vec3::new(0, 0, -S));
    let rec = sphere.hit(&ray, 0, T_FAR).expect("must hit");
    assert_eq!(rec.t, S);
    assert_eq!(rec.p, Point3::new(0, 0, -S));
    assert_eq!(rec.normal, Vec3::new(0, 0, S));
    assert!(rec.front_face);
    // the normal has exactly unit length here
    assert_eq!(rec.normal.length(), S);
    assert_eq!(rec.normal.length_squared(), S);
}

#[test]
fn sphere_hit_from_outside_distance() {
    // origin at distance 5 > radius 2, aimed at the center: t = 5 - 2
    let sphere = Sphere::new(Point3::origin(), 2 * S);
    let ray = Ray::new(Point3::new(0, 0, 5 * S), Vec3::new(0, 0, -S));
    let rec = sphere.hit(&ray, 0, T_FAR).expect("must hit");
    assert_eq!(rec.t, 3 * S);
    assert_eq!(rec.p, Point3::new(0, 0, 2 * S));
    assert_eq!(rec.normal, Vec3::new(0, 0, S));
    assert!(rec.front_face);
}

#[test]
fn sphere_hit_head_on_off_center() {
    // same head-on geometry, moved to a center away from the origin
    let sphere = Sphere::new(Point3::new(7 * S, -3 * S, 2 * S), 2 * S);
    let ray = Ray::new(Point3::new(7 * S, -3 * S, 8 * S), Vec3::new(0, 0, -S));
    let rec = sphere.hit(&ray, 0, T_FAR).expect("must hit");
    assert_eq!(rec.t, 4 * S);
    assert_eq!(rec.p, Point3::new(7 * S, -3 * S, 4 * S));
    assert_eq!(rec.normal, Vec3::new(0, 0, S));
    assert!(rec.front_face);
}

#[test]
fn sphere_miss() {
    let sphere = Sphere::new(Point3::new(0, 5 * S, 0), S);
    let ray = Ray::new(Point3::origin(), Vec3::new(0, 0, -S));
    assert!(sphere.hit(&ray, 0, T_FAR).is_none());
}

#[test]
fn sphere_hit_respects_range() {
    let sphere = Sphere::new(Point3::new(0, 0, -2 * S), S);
    let ray = Ray::new(Point3::origin(), Vec3::new(0, 0, -S));
    // both roots (t = 1 and t = 3) beyond the upper bound
    assert!(sphere.hit(&ray, 0, S / 2).is_none());
    // lower bound past the first root: the far (inner) surface is hit
    let rec = sphere.hit(&ray, 2 * S, T_FAR).expect("must hit far root");
    assert_eq!(rec.t, 3 * S);
    assert!(!rec.front_face);
    // the stored normal is flipped against the ray
    assert_eq!(rec.normal, Vec3::new(0, 0, S));
}

#[test]
fn sphere_degenerate_direction() {
    // a zero direction cannot hit anything
    let sphere = Sphere::new(Point3::new(0, 0, -2 * S), S);
    let ray = Ray::new(Point3::origin(), Vec3::new(0, 0, 0));
    assert!(sphere.hit(&ray, 0, T_FAR).is_none());
}
