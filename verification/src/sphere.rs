//! Ray-sphere intersection.
//!
//! `Sphere::hit` solves the fixed-point quadratic `|o + t d - c|^2 == r^2`
//! by the half-`b` formulation, takes the nearest root inside `[t_min,
//! t_max]`, and fills a `HitRecord` whose normal is oriented against the
//! incoming ray.  The result is proved equal to the spec-level
//! `spec_sphere_hit`, and the two monotonicity lemmas below say how the
//! result moves with the upper bound `t_max`, which is what the aggregate
//! nearest-hit search in `list` rests on.

use vstd::prelude::*;
use crate::fixed;
use crate::fixed::SCALE;
use crate::fixed::iabs;
use crate::fixed::sqrt_i;
use crate::fixed::lemma_tdiv_ordered;
use crate::fixed::tdiv;
use crate::ray::Ray;
use crate::ray::at_s;
use crate::vec3::Point3;
use crate::vec3::Vec3;
use crate::vec3::dot_s;
use crate::vec3::length_s;
use crate::vec3::lemma_dot_negation;
use crate::vec3::lemma_unit_vector_component_bounds;
use crate::vec3::lemma_unit_vector_near_unit;
use crate::vec3::sub_s;
use crate::vec3::unit_vector_s;
use crate::vec3::zero_s;

verus! {

/// The outcome of a successful intersection: hit point, oriented unit-facing
/// normal, parametric distance, and whether the outer surface was hit.
#[derive(Clone, Copy, Debug, PartialEq, Eq, Structural)]
pub struct HitRecord {
    pub p: Point3,
    pub normal: Vec3,
    pub t: i64,
    pub front_face: bool,
}

#[derive(Clone, Copy, Debug, PartialEq, Eq, Structural)]
pub struct Sphere {
    pub center: Point3,
    pub radius: i64,
}

/// The parametric distance of a hit; zero when there is none.
pub open spec fn hit_time(res: Option<HitRecord>) -> int {
    match res {
        Option::Some(h) => h.t as int,
        Option::None => 0,
    }
}

/// Orient `outward_normal` against the ray: the stored normal is the outward
/// one when the ray arrives from outside (`front_face`), else its negation.
pub open spec fn set_front_face_s(rec: HitRecord, r: Ray, outward_normal: Vec3) -> HitRecord {
    let front = dot_s(r.direction, outward_normal) < 0;
    HitRecord {
        p: rec.p,
        t: rec.t,
        front_face: front,
        normal: if front {
            outward_normal
        } else {
            sub_s(zero_s(), outward_normal)
        },
    }
}

pub open spec fn hit_oc(s: Sphere, r: Ray) -> Vec3 {
    sub_s(r.origin, s.center)
}

/// Quadratic coefficient `a = |direction|^2`.
pub open spec fn hit_a(r: Ray) -> int {
    dot_s(r.direction, r.direction)
}

/// Quadratic half-coefficient `half_b = oc . direction`.
pub open spec fn hit_half_b(s: Sphere, r: Ray) -> int {
    dot_s(hit_oc(s, r), r.direction)
}

/// Quadratic coefficient `c = |oc|^2 - radius^2`.
pub open spec fn hit_c(s: Sphere, r: Ray) -> int {
    fixed::qsub_s(
        dot_s(hit_oc(s, r), hit_oc(s, r)),
        fixed::qmul_s(s.radius as int, s.radius as int),
    )
}

/// The discriminant `half_b^2 - a c`, exact (both terms carry the square of
/// the fixed-point scale, so its square root is again a fixed-point value).
pub open spec fn hit_disc(s: Sphere, r: Ray) -> int {
    hit_half_b(s, r) * hit_half_b(s, r) - hit_a(r) * hit_c(s, r)
}

pub open spec fn hit_sqrtd(s: Sphere, r: Ray) -> int {
    sqrt_i(hit_disc(s, r))
}

/// The nearer quadratic root `(-half_b - sqrtd) / a` in fixed point.
pub open spec fn hit_root1(s: Sphere, r: Ray) -> int {
    tdiv((-hit_half_b(s, r) - hit_sqrtd(s, r)) * (SCALE as int), hit_a(r))
}

/// The farther quadratic root `(-half_b + sqrtd) / a` in fixed point.
pub open spec fn hit_root2(s: Sphere, r: Ray) -> int {
    tdiv((-hit_half_b(s, r) + hit_sqrtd(s, r)) * (SCALE as int), hit_a(r))
}

/// The outward normal at the point the ray reaches at `t`: the offset from
/// the center, normalized by its own length (which the accepted root makes
/// equal to the radius up to rounding), so the stored normal is of unit
/// length up to a few fixed-point units whenever the hit point stands clear
/// of the center.
pub open spec fn outward_normal_s(s: Sphere, r: Ray, t: i64) -> Vec3 {
    unit_vector_s(sub_s(at_s(r, t), s.center))
}

/// The record built for an accepted root `t`: hit point on the ray, the
/// normalized outward normal, then oriented against the ray.
pub open spec fn make_record_s(s: Sphere, r: Ray, t: i64) -> HitRecord {
    let p = at_s(r, t);
    set_front_face_s(
        HitRecord { p: p, normal: zero_s(), t: t, front_face: false },
        r,
        outward_normal_s(s, r, t),
    )
}

/// Ray-sphere intersection: none when the direction is degenerate (`a == 0`)
/// or the discriminant is negative; otherwise the nearest of the two roots
/// that lies in `[t_min, t_max]`, or none when neither does.
pub open spec fn spec_sphere_hit(s: Sphere, r: Ray, t_min: i64, t_max: i64) -> Option<HitRecord> {
    if hit_a(r) <= 0 {
        Option::None
    } else if hit_disc(s, r) < 0 {
        Option::None
    } else {
        let r1 = hit_root1(s, r);
        if t_min as int <= r1 && r1 <= t_max as int {
            Option::Some(make_record_s(s, r, r1 as i64))
        } else {
            let r2 = hit_root2(s, r);
            if t_min as int <= r2 && r2 <= t_max as int {
                Option::Some(make_record_s(s, r, r2 as i64))
            } else {
                Option::None
            }
        }
    }
}

impl HitRecord {
    pub fn new() -> (rec: HitRecord)
        ensures
            rec == (HitRecord { p: zero_s(), normal: zero_s(), t: 0, front_face: false }),
    {
        HitRecord { p: Point3::origin(), normal: Vec3::origin(), t: 0, front_face: false }
    }

    pub(crate) fn set_front_face(&mut self, r: &Ray, outward_normal: &Vec3)
        ensures
            *final(self) == set_front_face_s(*old(self), *r, *outward_normal),
    {
        self.front_face = r.direction.dot(*outward_normal) < 0;
        if self.front_face {
            self.normal = *outward_normal;
        } else {
            self.normal = Vec3::origin().sub(*outward_normal);
        }
    }
}

impl Sphere {
    pub fn new(center: Point3, radius: i64) -> (s: Sphere)
        requires
            radius > 0,
        ensures
            s == (Sphere { center, radius }),
    {
        Sphere { center, radius }
    }

    /// Nearest intersection of `r` with this sphere inside `[t_min, t_max]`.
    pub fn hit(&self, r: &Ray, t_min: i64, t_max: i64) -> (res: Option<HitRecord>)
        ensures
            res == spec_sphere_hit(*self, *r, t_min, t_max),
            res matches Some(rec) ==> {
                &&& t_min <= rec.t <= t_max
                &&& rec.p == at_s(*r, rec.t)
                &&& (rec.front_face <==> dot_s(r.direction, outward_normal_s(*self, *r, rec.t))
                    < 0)
                &&& rec.normal == (if rec.front_face {
                    outward_normal_s(*self, *r, rec.t)
                } else {
                    sub_s(zero_s(), outward_normal_s(*self, *r, rec.t))
                })
                &&& rec.front_face ==> dot_s(r.direction, rec.normal) < 0
                &&& -(SCALE as int) <= rec.normal.x as int <= SCALE as int
                &&& -(SCALE as int) <= rec.normal.y as int <= SCALE as int
                &&& -(SCALE as int) <= rec.normal.z as int <= SCALE as int
                &&& ({
                    let off = sub_s(rec.p, self.center);
                    (length_s(off) >= 256 && -0x4000000000000000 <= off.x as int
                        <= 0x4000000000000000 && -0x4000000000000000 <= off.y as int
                        <= 0x4000000000000000 && -0x4000000000000000 <= off.z as int
                        <= 0x4000000000000000) ==> (SCALE as int - 9 <= dot_s(
                        rec.normal,
                        rec.normal,
                    ) <= SCALE as int + 767)
                })
            },
    {
        let oc: Vec3 = r.origin.sub(self.center);
        let a: i64 = r.direction.dot(r.direction);
        let half_b: i64 = oc.dot(r.direction);
        let c: i64 = fixed::qsub(oc.dot(oc), fixed::qmul(self.radius, self.radius));
        if a <= 0 {
            return Option::None;
        }
        proof {
            assert((half_b as int) * (half_b as int) >= 0 && (half_b as int) * (half_b as int)
                <= 0x3fffffffffffffff0000000000000001 && (a as int) * (c as int)
                >= -0x3fffffffffffffff0000000000000001 && (a as int) * (c as int)
                <= 0x3fffffffffffffff0000000000000001) by (nonlinear_arith)
                requires
                    -0x7fffffffffffffff <= (half_b as int) <= 0x7fffffffffffffff,
                    -0x7fffffffffffffff <= (a as int) <= 0x7fffffffffffffff,
                    -0x7fffffffffffffff <= (c as int) <= 0x7fffffffffffffff,
            ;
        }
        let hb: i128 = half_b as i128;
        let disc: i128 = hb * hb - (a as i128) * (c as i128);
        if disc < 0 {
            return Option::None;
        }
        let sq: u64 = fixed::isqrt(disc as u128);
        let root1: i128 = fixed::tdiv128((-hb - sq as i128) * (SCALE as i128), a as i128);
        proof {
            assert(root1 as int == hit_root1(*self, *r));
        }
        if t_min as i128 <= root1 && root1 <= t_max as i128 {
            let rec = self.build_record(r, root1 as i64);
            proof {
                lemma_record_normal_props(*self, *r, root1 as i64);
            }
            return Option::Some(rec);
        }
        let root2: i128 = fixed::tdiv128((-hb + sq as i128) * (SCALE as i128), a as i128);
        proof {
            assert(root2 as int == hit_root2(*self, *r));
        }
        if t_min as i128 <= root2 && root2 <= t_max as i128 {
            let rec = self.build_record(r, root2 as i64);
            proof {
                lemma_record_normal_props(*self, *r, root2 as i64);
            }
            return Option::Some(rec);
        }
        Option::None
    }

    fn build_record(&self, r: &Ray, t: i64) -> (rec: HitRecord)
        ensures
            rec == make_record_s(*self, *r, t),
            rec.t == t,
            rec.p == at_s(*r, t),
            rec.front_face ==> dot_s(r.direction, rec.normal) < 0,
    {
        let p: Point3 = r.at(t);
        let outward: Vec3 = p.sub(self.center).unit_vector();
        let mut rec = HitRecord::new();
        rec.t = t;
        rec.p = p;
        rec.set_front_face(r, &outward);
        rec
    }
}

/// A reported hit is the record of its own `t`: both accepting branches of
/// `spec_sphere_hit` store the accepted root in the record.
pub proof fn lemma_sphere_hit_record(s: Sphere, r: Ray, t_min: i64, t_max: i64)
    ensures
        spec_sphere_hit(s, r, t_min, t_max) matches Some(h) ==> h == make_record_s(s, r, h.t),
{
}

/// The stored normal of any record is a unit vector up to fixed-point
/// rounding: each component lies in [-1, 1] always, and whenever the hit
/// point stands at least 2^-8 whole units clear of the center (and within
/// 2^46 units of it), the squared length is within a few fixed-point units
/// of one.
pub proof fn lemma_record_normal_props(s: Sphere, r: Ray, t: i64)
    ensures
        ({
            let rec = make_record_s(s, r, t);
            &&& -(SCALE as int) <= rec.normal.x as int <= SCALE as int
            &&& -(SCALE as int) <= rec.normal.y as int <= SCALE as int
            &&& -(SCALE as int) <= rec.normal.z as int <= SCALE as int
        }),
        ({
            let rec = make_record_s(s, r, t);
            let off = sub_s(at_s(r, t), s.center);
            (length_s(off) >= 256 && -0x4000000000000000 <= off.x as int <= 0x4000000000000000
                && -0x4000000000000000 <= off.y as int <= 0x4000000000000000
                && -0x4000000000000000 <= off.z as int <= 0x4000000000000000) ==> (SCALE as int - 9
                <= dot_s(rec.normal, rec.normal) <= SCALE as int + 767)
        }),
{
    let off = sub_s(at_s(r, t), s.center);
    let u = unit_vector_s(off);
    lemma_unit_vector_component_bounds(off);
    let rec = make_record_s(s, r, t);
    if length_s(off) >= 256 && -0x4000000000000000 <= off.x as int <= 0x4000000000000000
        && -0x4000000000000000 <= off.y as int <= 0x4000000000000000 && -0x4000000000000000
        <= off.z as int <= 0x4000000000000000 {
        lemma_unit_vector_near_unit(off);
        if !rec.front_face {
            lemma_dot_negation(u);
        }
    }
}

/// Widening the upper bound keeps a hit unchanged: a record found inside
/// `[t_min, t1]` is also the record found inside `[t_min, t2]` for `t2 >=
/// t1`.
pub proof fn lemma_sphere_hit_widen(s: Sphere, r: Ray, t_min: i64, t1: i64, t2: i64)
    requires
        t1 <= t2,
        spec_sphere_hit(s, r, t_min, t1) is Some,
    ensures
        spec_sphere_hit(s, r, t_min, t2) == spec_sphere_hit(s, r, t_min, t1),
{
    lemma_roots_ordered(s, r);
}

/// Narrowing the upper bound down to (at least) the hit's own `t` keeps the
/// hit unchanged.
pub proof fn lemma_sphere_hit_narrow(s: Sphere, r: Ray, t_min: i64, t1: i64, t2: i64)
    requires
        t1 <= t2,
        spec_sphere_hit(s, r, t_min, t2) is Some,
        hit_time(spec_sphere_hit(s, r, t_min, t2)) <= t1 as int,
    ensures
        spec_sphere_hit(s, r, t_min, t1) == spec_sphere_hit(s, r, t_min, t2),
{
    lemma_roots_ordered(s, r);
}

/// A hit's `t` lies inside the queried range.
pub proof fn lemma_sphere_hit_range(s: Sphere, r: Ray, t_min: i64, t_max: i64)
    ensures
        spec_sphere_hit(s, r, t_min, t_max) is Some ==> t_min as int <= hit_time(
            spec_sphere_hit(s, r, t_min, t_max),
        ) <= t_max as int,
{
}

/// The nearer root really is the nearer one.
proof fn lemma_roots_ordered(s: Sphere, r: Ray)
    requires
        hit_a(r) > 0,
        hit_disc(s, r) >= 0,
    ensures
        hit_root1(s, r) <= hit_root2(s, r),
{
    fixed::lemma_sqrt_i_bounds(hit_disc(s, r));
    let hb = hit_half_b(s, r);
    let sq = hit_sqrtd(s, r);
    let n1 = (-hb - sq) * (SCALE as int);
    let n2 = (-hb + sq) * (SCALE as int);
    assert(n1 <= n2) by (nonlinear_arith)
        requires
            sq >= 0,
            n1 == (-hb - sq) * (SCALE as int),
            n2 == (-hb + sq) * (SCALE as int),
            SCALE == 65536,
    ;
    lemma_tdiv_ordered(n1, n2, hit_a(r));
}

} // verus!
