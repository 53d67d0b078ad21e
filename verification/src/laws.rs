//! The library's global laws, each proved from the contracts in the other
//! modules:
//!
//! - a ray aimed straight at a sphere from outside hits it at the distance to
//!   the surface, with the exact outward unit normal (`lemma_head_on_hit`);
//! - a ray that misses every sphere of a scene is colored exactly as against
//!   an empty scene (`lemma_miss_matches_empty`);
//! - rendering is a function of the seed: two runs from equal seeds produce
//!   identical pixel output (`lemma_render_deterministic`).
//!
//! That an aggregate query returns the nearest hit, and that depth zero
//! traces to black, are stated directly on `HitableList::hit` and
//! `Ray::color`.  The unit-length bounds on normalized vectors and hit
//! normals live beside their subjects (`vec3::lemma_unit_vector_near_unit`,
//! `sphere::lemma_record_normal_props`), as does the `[0, 1]` range of every
//! traced color (`ray::lemma_ray_color_in_range`).

use vstd::prelude::*;
use crate::camera::Camera;
use crate::fixed::SCALE;
use crate::fixed::lemma_sqrt_unique;
use crate::fixed::lemma_tdiv_multiple;
use crate::fixed::lemma_tdiv_zero;
use crate::fixed::tdiv;
use crate::ray::Ray;
use crate::ray::T_EPS;
use crate::ray::T_FAR;
use crate::ray::spec_ray_color;
use crate::render::Rgb;
use crate::render::spec_render;
use crate::sphere::HitRecord;
use crate::sphere::Sphere;
use crate::sphere::hit_a;
use crate::sphere::hit_c;
use crate::sphere::hit_disc;
use crate::sphere::hit_half_b;
use crate::sphere::hit_oc;
use crate::sphere::hit_root1;
use crate::sphere::hit_sqrtd;
use crate::sphere::make_record_s;
use crate::sphere::spec_sphere_hit;
use crate::list::spec_list_hit;
use crate::vec3::Vec3;
use crate::vec3::zero_s;

verus! {

/// A scene in which no member intersects the ray reports no hit.
proof fn lemma_list_hit_all_none(objs: Seq<Sphere>, r: Ray, t_min: i64, t_max: i64)
    requires
        forall|i: int| 0 <= i < objs.len() ==> spec_sphere_hit(objs[i], r, t_min, t_max) is None,
    ensures
        spec_list_hit(objs, r, t_min, t_max) is None,
    decreases objs.len(),
{
    if objs.len() > 0 {
        let prefix = objs.drop_last();
        assert(forall|i: int| 0 <= i < prefix.len() ==> prefix[i] == objs[i]);
        lemma_list_hit_all_none(prefix, r, t_min, t_max);
        assert(spec_sphere_hit(objs[objs.len() - 1], r, t_min, t_max) is None);
    }
}

/// A ray that misses every sphere of `world` is colored exactly as a miss
/// against an empty scene: the same sky gradient (or black at exhausted
/// depth), with the generator untouched.
pub proof fn lemma_miss_matches_empty(r: Ray, world: Seq<Sphere>, depth: i32, st: u64)
    requires
        forall|i: int| 0 <= i < world.len() ==> spec_sphere_hit(world[i], r, T_EPS, T_FAR) is None,
    ensures
        spec_ray_color(r, world, depth, st) == spec_ray_color(r, Seq::<Sphere>::empty(), depth, st),
{
    lemma_list_hit_all_none(world, r, T_EPS, T_FAR);
    assert(spec_list_hit(Seq::<Sphere>::empty(), r, T_EPS, T_FAR) is None);
}

/// A rendered image is a function of the scene, camera, geometry and seed
/// alone: two results that both satisfy the renderer's contract on equal
/// arguments — in particular on equal seeds — are identical, pixel for pixel.
pub proof fn lemma_render_deterministic(
    cam: Camera,
    world: Seq<Sphere>,
    width: u32,
    height: u32,
    samples_per_pixel: u32,
    depth: i32,
    seed1: u64,
    seed2: u64,
    out1: Seq<Rgb>,
    out2: Seq<Rgb>,
)
    requires
        seed1 == seed2,
        out1 == spec_render(cam, world, width, height, samples_per_pixel, depth, seed1),
        out2 == spec_render(cam, world, width, height, samples_per_pixel, depth, seed2),
    ensures
        out1 == out2,
{
}

/// A head-on hit from outside: a ray starting `d` units along `+z` from the
/// center of a sphere of radius `m < d` and aimed along `-z` (straight at the
/// center) hits at `t = d - m` — the distance to the center less the radius —
/// on the front face, at the point `m` units along `+z` from the center, with
/// the exact outward unit normal `(0, 0, 1)`.  All values are in whole units,
/// where the fixed-point arithmetic is exact.
pub proof fn lemma_head_on_hit(cx: i64, cy: i64, cz: i64, d: i64, m: i64)
    requires
        0 < m,
        m < d,
        d <= 30000,
        -30000 <= cx <= 30000,
        -30000 <= cy <= 30000,
        -30000 <= cz <= 30000,
    ensures
        ({
            let center = Vec3 { x: (cx * SCALE) as i64, y: (cy * SCALE) as i64, z: (cz * SCALE) as i64 };
            let sph = Sphere { center: center, radius: (m * SCALE) as i64 };
            let ray = Ray {
                origin: Vec3 { x: center.x, y: center.y, z: ((cz + d) * SCALE) as i64 },
                direction: Vec3 { x: 0, y: 0, z: (-(SCALE as int)) as i64 },
            };
            spec_sphere_hit(sph, ray, 0, T_FAR) == Option::Some(
                HitRecord {
                    p: Vec3 { x: center.x, y: center.y, z: ((cz + m) * SCALE) as i64 },
                    normal: Vec3 { x: 0, y: 0, z: SCALE },
                    t: ((d - m) * SCALE) as i64,
                    front_face: true,
                },
            )
        }),
{
    let di = d as int;
    let mi = m as int;
    let k = SCALE as int;
    let center = Vec3 {
        x: ((cx as int) * k) as i64,
        y: ((cy as int) * k) as i64,
        z: ((cz as int) * k) as i64,
    };
    let sph = Sphere { center: center, radius: (m * SCALE) as i64 };
    let ray = Ray {
        origin: Vec3 { x: center.x, y: center.y, z: (((cz as int) + di) * k) as i64 },
        direction: Vec3 { x: 0, y: 0, z: (-(SCALE as int)) as i64 },
    };

    // relative to the center, the origin is d units along +z
    assert((cz as int + di) * k - (cz as int) * k == di * k) by (nonlinear_arith);
    assert(hit_oc(sph, ray) == Vec3 { x: 0, y: 0, z: (di * k) as i64 });

    // a = direction . direction = 1 (all zero terms, and (-1) * (-1))
    lemma_tdiv_zero(k);
    lemma_tdiv_multiple(k, k);
    assert((-k) * (-k) == k * k) by (nonlinear_arith);
    assert(hit_a(ray) == k);

    // half_b = oc . direction = -(d * SCALE)
    assert((di * k) * (-k) == (-(di * k)) * k) by (nonlinear_arith);
    lemma_tdiv_multiple(-(di * k), k);
    assert(hit_half_b(sph, ray) == -(di * k));

    // |oc|^2 = d^2 * SCALE, radius^2 = m^2 * SCALE, c = (d^2 - m^2) * SCALE
    assert((di * k) * (di * k) == (di * di * k) * k) by (nonlinear_arith);
    lemma_tdiv_multiple(di * di * k, k);
    assert((mi * k) * (mi * k) == (mi * mi * k) * k) by (nonlinear_arith);
    lemma_tdiv_multiple(mi * mi * k, k);
    assert(0 <= di * di * k <= 30000 * 30000 * 65536 && 0 <= mi * mi * k <= 30000 * 30000 * 65536
        && mi * mi * k <= di * di * k) by (nonlinear_arith)
        requires
            0 < mi,
            mi < di,
            di <= 30000,
            k == 65536,
    ;
    assert(hit_c(sph, ray) == (di * di - mi * mi) * k) by {
        assert(di * di * k - mi * mi * k == (di * di - mi * mi) * k) by (nonlinear_arith);
    }

    // discriminant = (d * SCALE)^2 - SCALE * ((d^2 - m^2) * SCALE)
    //              = (m * SCALE)^2
    assert((-(di * k)) * (-(di * k)) - k * ((di * di - mi * mi) * k) == (mi * k) * (mi * k))
        by (nonlinear_arith);
    assert(hit_disc(sph, ray) == (mi * k) * (mi * k));
    assert((mi * k) * (mi * k) >= 0 && (mi * k) * (mi * k) < (mi * k + 1) * (mi * k + 1))
        by (nonlinear_arith)
        requires
            mi > 0,
            k == 65536,
    ;
    lemma_sqrt_unique((mi * k) * (mi * k), mi * k);
    assert(hit_sqrtd(sph, ray) == mi * k);

    // nearer root: ((d - m) * SCALE * SCALE) / (SCALE) = (d - m) * SCALE
    assert((di * k - mi * k) * k == ((di - mi) * k) * k) by (nonlinear_arith);
    lemma_tdiv_multiple((di - mi) * k, k);
    assert(hit_root1(sph, ray) == (di - mi) * k);
    assert(0 <= (di - mi) * k <= T_FAR as int) by (nonlinear_arith)
        requires
            0 < mi < di <= 30000,
            k == 65536,
            T_FAR as int == 0x1000_0000_0000_0000,
    ;

    let t: i64 = ((di - mi) * k) as i64;
    assert(spec_sphere_hit(sph, ray, 0, T_FAR) == Option::Some(make_record_s(sph, ray, t)));

    // hit point: origin + direction * t = (0, 0, m * SCALE)
    assert((-k) * ((di - mi) * k) == (-((di - mi) * k)) * k) by (nonlinear_arith);
    lemma_tdiv_multiple(-((di - mi) * k), k);
    assert((cz as int + di) * k + (-((di - mi) * k)) == (cz as int + mi) * k) by (nonlinear_arith);
    assert(make_record_s(sph, ray, t).p == Vec3 {
        x: center.x,
        y: center.y,
        z: ((cz as int + mi) * k) as i64,
    });
    assert((cz as int + mi) * k - (cz as int) * k == mi * k) by (nonlinear_arith);

    // outward normal: (p - center) / radius = (0, 0, 1), exactly unit length
    assert((mi * k) * k == k * (mi * k)) by (nonlinear_arith);
    lemma_tdiv_multiple(k, mi * k);
    assert(tdiv((mi * k) * k, mi * k) == k);
    lemma_tdiv_zero(mi * k);

    // facing: direction . outward = -1 < 0, so the front face is hit
    lemma_tdiv_multiple(-k, k);
    assert(make_record_s(sph, ray, t).front_face);
    assert(make_record_s(sph, ray, t).normal == Vec3 { x: 0, y: 0, z: SCALE });
}

} // verus!
