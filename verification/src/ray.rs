//! Rays and the recursive path-tracing color integrator.
//!
//! A ray is an origin and a direction; `color` traces it against a scene:
//! on a hit it bounces a diffuse ray and keeps half the recursive light, on a
//! miss it returns the sky gradient, and at exhausted depth it returns black.

use vstd::prelude::*;
use crate::fixed;
use crate::fixed::SCALE;
use crate::list::HitableList;
use crate::list::spec_list_hit;
use crate::rng::Rng;
use crate::sphere::Sphere;
use crate::vec3::Color;
use crate::vec3::Point3;
use crate::vec3::SPHERE_SAMPLE_ATTEMPTS;
use crate::vec3::Vec3;
use crate::vec3::add_s;
use crate::vec3::dot_s;
use crate::vec3::lemma_unit_vector_component_bounds;
use crate::vec3::random_in_unit_sphere_s;
use crate::vec3::scale_s;
use crate::vec3::sub_s;
use crate::vec3::unit_vector_s;
use crate::vec3::zero_s;

verus! {

/// Lower parametric bound for every scene intersection query: about 0.001 in
/// fixed point, keeping a bounced ray from re-hitting its own origin surface.
pub const T_EPS: i64 = 65;

/// Upper parametric bound standing in for infinity: no scene distance
/// reaches it.
pub const T_FAR: i64 = 0x1000_0000_0000_0000;

/// One half in fixed point: the diffuse albedo, the fraction of light kept
/// per bounce.
pub const ALBEDO: i64 = 32768;

#[derive(Clone, Copy, Debug, PartialEq, Eq, Structural)]
pub struct Ray {
    pub origin: Point3,
    pub direction: Vec3,
}

/// The point `origin + direction * t`.
pub open spec fn at_s(r: Ray, t: i64) -> Point3 {
    add_s(r.origin, scale_s(r.direction, t as int))
}

/// The background: white blended toward sky blue by the height of the unit
/// direction, `t = (unit_direction.y + 1) / 2`.
pub open spec fn sky_color_s(r: Ray) -> Color {
    let unit_direction = unit_vector_s(r.direction);
    let t = fixed::qmul_s(fixed::qadd_s(unit_direction.y as int, SCALE as int), ALBEDO as int);
    add_s(
        scale_s(Vec3 { x: SCALE, y: SCALE, z: SCALE }, fixed::qsub_s(SCALE as int, t)),
        scale_s(Vec3 { x: 32768, y: 45875, z: SCALE }, t),
    )
}

/// A unit-sphere sample flipped, if needed, into the hemisphere around
/// `normal`; returns the sample and the generator state after it.
pub open spec fn random_in_hemisphere_s(normal: Vec3, st: u64) -> (Vec3, u64) {
    let p = random_in_unit_sphere_s(st, SPHERE_SAMPLE_ATTEMPTS as nat);
    if dot_s(p.0, normal) > 0 {
        p
    } else {
        (sub_s(zero_s(), p.0), p.1)
    }
}

/// The traced color of a ray and the generator state after tracing it.
/// Depth zero is black; a hit bounces once into the hemisphere of the surface
/// normal and keeps `ALBEDO` of the recursive light; a miss is the sky.
pub open spec fn spec_ray_color(r: Ray, world: Seq<Sphere>, depth: i32, st: u64) -> (Color, u64)
    decreases depth,
{
    if depth <= 0 {
        (zero_s(), st)
    } else {
        match spec_list_hit(world, r, T_EPS, T_FAR) {
            Option::Some(record) => {
                let samp = random_in_hemisphere_s(record.normal, st);
                let target = add_s(record.p, samp.0);
                let bounce = Ray { origin: record.p, direction: sub_s(target, record.p) };
                let rec_result = spec_ray_color(bounce, world, (depth - 1) as i32, samp.1);
                (scale_s(rec_result.0, ALBEDO as int), rec_result.1)
            },
            Option::None => (sky_color_s(r), st),
        }
    }
}

/// Scaling a fraction by a fraction stays a fraction: for a factor within
/// one whole unit, the fixed-point product lands in `[0, t]`.
proof fn lemma_scaled_bound(b: int, t: int)
    requires
        0 <= b <= SCALE as int,
        0 <= t <= SCALE as int,
    ensures
        0 <= fixed::qmul_s(b, t) <= t,
{
    fixed::lemma_tdiv_mag(b * t, SCALE as int);
    assert(b * t >= 0 && b * t <= 65536 * t) by (nonlinear_arith)
        requires
            0 <= b <= 65536,
            t >= 0,
    ;
    fixed::lemma_tdiv_ordered(b * t, t * 65536, SCALE as int);
    fixed::lemma_tdiv_multiple(t, SCALE as int);
}

/// The sky gradient stays within `[0, 1]` on every channel, for every ray:
/// each unit-vector component is a fraction, so the blend factor is one, and
/// both endpoint colors are fractions.
pub proof fn lemma_sky_color_in_range(r: Ray)
    ensures
        0 <= sky_color_s(r).x as int <= SCALE as int,
        0 <= sky_color_s(r).y as int <= SCALE as int,
        0 <= sky_color_s(r).z as int <= SCALE as int,
{
    lemma_unit_vector_component_bounds(r.direction);
    let yu = unit_vector_s(r.direction).y as int;
    let s1 = fixed::qadd_s(yu, SCALE as int);
    assert(0 <= s1 <= 2 * 65536);
    let t = fixed::qmul_s(s1, ALBEDO as int);
    fixed::lemma_tdiv_mag(s1 * 32768, SCALE as int);
    fixed::lemma_tdiv_ordered(s1 * 32768, (65536 * 65536) as int, SCALE as int);
    fixed::lemma_tdiv_multiple(65536, SCALE as int);
    assert(0 <= t <= SCALE as int);
    let w = fixed::qsub_s(SCALE as int, t);
    fixed::lemma_tdiv_multiple(w, SCALE as int);
    assert(fixed::qmul_s(SCALE as int, w) == w);
    lemma_scaled_bound(32768, t);
    lemma_scaled_bound(45875, t);
    lemma_scaled_bound(SCALE as int, t);
}

/// Every traced color lies within `[0, 1]` per channel: black and the sky
/// do, and each diffuse bounce only halves the recursive light.
pub proof fn lemma_ray_color_in_range(r: Ray, world: Seq<Sphere>, depth: i32, st: u64)
    ensures
        0 <= spec_ray_color(r, world, depth, st).0.x as int <= SCALE as int,
        0 <= spec_ray_color(r, world, depth, st).0.y as int <= SCALE as int,
        0 <= spec_ray_color(r, world, depth, st).0.z as int <= SCALE as int,
    decreases depth,
{
    if depth <= 0 {
    } else {
        match spec_list_hit(world, r, T_EPS, T_FAR) {
            Option::Some(record) => {
                let samp = random_in_hemisphere_s(record.normal, st);
                let target = add_s(record.p, samp.0);
                let bounce = Ray { origin: record.p, direction: sub_s(target, record.p) };
                lemma_ray_color_in_range(bounce, world, (depth - 1) as i32, samp.1);
                let c = spec_ray_color(bounce, world, (depth - 1) as i32, samp.1).0;
                lemma_scaled_bound(c.x as int, ALBEDO as int);
                lemma_scaled_bound(c.y as int, ALBEDO as int);
                lemma_scaled_bound(c.z as int, ALBEDO as int);
            },
            Option::None => {
                lemma_sky_color_in_range(r);
            },
        }
    }
}

impl Ray {
    pub fn new(origin: Point3, direction: Vec3) -> (r: Ray)
        ensures
            r.origin == origin,
            r.direction == direction,
    {
        Ray { origin, direction }
    }

    pub fn at(&self, t: i64) -> (p: Point3)
        ensures
            p == at_s(*self, t),
    {
        let origin = self.origin;
        origin.add(self.direction.mul(t))
    }

    /// Trace this ray against `world` with at most `depth` diffuse bounces.
    /// The result and the generator state are exactly those of
    /// `spec_ray_color`; a non-positive depth yields black.
    pub fn color(&self, world: &HitableList, depth: i32, rng: &mut Rng) -> (c: Color)
        ensures
            c == spec_ray_color(*self, world@, depth, old(rng).state).0,
            final(rng).state == spec_ray_color(*self, world@, depth, old(rng).state).1,
            depth <= 0 ==> c == zero_s(),
            0 <= c.x <= SCALE,
            0 <= c.y <= SCALE,
            0 <= c.z <= SCALE,
        decreases depth,
    {
        proof {
            lemma_ray_color_in_range(*self, world@, depth, old(rng).state);
        }
        if depth <= 0 {
            return Color::black();
        }

        match world.hit(self, T_EPS, T_FAR) {
            Option::Some(record) => {
                let samp = self.random_in_hemisphere(record.normal, rng);
                let target = record.p.add(samp);
                let bounce = Ray::new(record.p, target.sub(record.p));
                let c = bounce.color(world, depth - 1, rng);
                c.mul(ALBEDO)
            },
            Option::None => {
                let unit_direction = self.direction.unit_vector();
                let t = fixed::qmul(fixed::qadd(unit_direction.y(), SCALE), ALBEDO);
                let white = Color::new(SCALE, SCALE, SCALE);
                let blue = Color::new(32768, 45875, SCALE);
                white.mul(fixed::qsub(SCALE, t)).add(blue.mul(t))
            },
        }
    }

    fn random_in_hemisphere(&self, normal: Vec3, rng: &mut Rng) -> (v: Vec3)
        ensures
            v == random_in_hemisphere_s(normal, old(rng).state).0,
            final(rng).state == random_in_hemisphere_s(normal, old(rng).state).1,
    {
        let in_unit_sphere = Vec3::random_in_unit_shpere(rng);
        if in_unit_sphere.dot(normal) > 0 {
            in_unit_sphere
        } else {
            Vec3::origin().sub(in_unit_sphere)
        }
    }
}

} // verus!
