//! Three-component fixed-point vectors, used as points, directions and
//! colors.  Every operation is proved equal to a spec-level counterpart over
//! the saturating fixed-point scalars of `fixed`.

use vstd::prelude::*;
use crate::fixed;
use crate::fixed::SCALE;
use crate::rng;
use crate::rng::Rng;

verus! {

#[derive(Clone, Copy, Debug, PartialEq, Eq, Structural)]
pub struct Vec3 {
    pub x: i64,
    pub y: i64,
    pub z: i64,
}

/// A vector is also a point in space or an RGB color.
pub type Point3 = Vec3;

pub type Color = Vec3;

/// How many rejection-sampling draws `random_in_unit_shpere` makes before it
/// falls back to a fixed interior vector; the chance of ever needing the
/// fallback is negligible, but a bound is needed for termination.
pub const SPHERE_SAMPLE_ATTEMPTS: u32 = 64;

pub open spec fn zero_s() -> Vec3 {
    Vec3 { x: 0, y: 0, z: 0 }
}

pub open spec fn add_s(a: Vec3, b: Vec3) -> Vec3 {
    Vec3 {
        x: fixed::qadd_s(a.x as int, b.x as int) as i64,
        y: fixed::qadd_s(a.y as int, b.y as int) as i64,
        z: fixed::qadd_s(a.z as int, b.z as int) as i64,
    }
}

pub open spec fn sub_s(a: Vec3, b: Vec3) -> Vec3 {
    Vec3 {
        x: fixed::qsub_s(a.x as int, b.x as int) as i64,
        y: fixed::qsub_s(a.y as int, b.y as int) as i64,
        z: fixed::qsub_s(a.z as int, b.z as int) as i64,
    }
}

/// Component-wise product.
pub open spec fn hadamard_s(a: Vec3, b: Vec3) -> Vec3 {
    Vec3 {
        x: fixed::qmul_s(a.x as int, b.x as int) as i64,
        y: fixed::qmul_s(a.y as int, b.y as int) as i64,
        z: fixed::qmul_s(a.z as int, b.z as int) as i64,
    }
}

/// Component-wise quotient.
pub open spec fn div_elem_s(a: Vec3, b: Vec3) -> Vec3 {
    Vec3 {
        x: fixed::qdiv_s(a.x as int, b.x as int) as i64,
        y: fixed::qdiv_s(a.y as int, b.y as int) as i64,
        z: fixed::qdiv_s(a.z as int, b.z as int) as i64,
    }
}

/// Scalar multiply.
pub open spec fn scale_s(a: Vec3, s: int) -> Vec3 {
    Vec3 {
        x: fixed::qmul_s(a.x as int, s) as i64,
        y: fixed::qmul_s(a.y as int, s) as i64,
        z: fixed::qmul_s(a.z as int, s) as i64,
    }
}

/// Scalar divide.
pub open spec fn divs_s(a: Vec3, s: int) -> Vec3 {
    Vec3 {
        x: fixed::qdiv_s(a.x as int, s) as i64,
        y: fixed::qdiv_s(a.y as int, s) as i64,
        z: fixed::qdiv_s(a.z as int, s) as i64,
    }
}

pub open spec fn dot_s(a: Vec3, b: Vec3) -> int {
    fixed::qadd_s(
        fixed::qadd_s(
            fixed::qmul_s(a.x as int, b.x as int),
            fixed::qmul_s(a.y as int, b.y as int),
        ),
        fixed::qmul_s(a.z as int, b.z as int),
    )
}

pub open spec fn cross_s(a: Vec3, b: Vec3) -> Vec3 {
    Vec3 {
        x: fixed::qsub_s(
            fixed::qmul_s(a.y as int, b.z as int),
            fixed::qmul_s(a.z as int, b.y as int),
        ) as i64,
        y: fixed::qsub_s(
            fixed::qmul_s(a.z as int, b.x as int),
            fixed::qmul_s(a.x as int, b.z as int),
        ) as i64,
        z: fixed::qsub_s(
            fixed::qmul_s(a.x as int, b.y as int),
            fixed::qmul_s(a.y as int, b.x as int),
        ) as i64,
    }
}

/// The exact, unsaturated sum of squared components.  It carries the square
/// of the fixed-point scale, so its integer square root is again a
/// fixed-point value.
pub open spec fn norm2_s(a: Vec3) -> int {
    (a.x as int) * (a.x as int) + (a.y as int) * (a.y as int) + (a.z as int) * (a.z as int)
}

/// The Euclidean length: the integer square root of the exact sum of squared
/// components, saturated.  Working from the unsaturated squares (rather than
/// the truncated `length_squared`) keeps full precision for short vectors,
/// which normalization depends on.
pub open spec fn length_s(a: Vec3) -> int {
    fixed::sat64(fixed::sqrt_i(norm2_s(a)))
}

/// The vector divided by its own length; the zero vector maps to itself,
/// since fixed-point division by zero yields zero.
pub open spec fn unit_vector_s(a: Vec3) -> Vec3 {
    divs_s(a, length_s(a))
}

/// The quotient of one component by a positive length: the truncating
/// division inside `divs_s`, characterized by its remainder bracket.  The
/// magnitude hypothesis is what keeps each quotient within one whole unit.
proof fn lemma_component_char(x: i64, len: int)
    requires
        1 <= len <= i64::MAX as int,
        fixed::iabs(x as int) * (SCALE as int) < ((SCALE as int) + 1) * len,
    ensures
        ({
            let u = fixed::qdiv_s(x as int, len);
            &&& u == fixed::tdiv((x as int) * (SCALE as int), len)
            &&& fixed::iabs(u) <= SCALE as int
            &&& fixed::iabs(u) * len <= fixed::iabs(x as int) * (SCALE as int)
            &&& fixed::iabs(x as int) * (SCALE as int) < (fixed::iabs(u) + 1) * len
        }),
{
    let k = SCALE as int;
    let num = (x as int) * k;
    fixed::lemma_mag_mul(x as int, k);
    fixed::lemma_tdiv_mag(num, len);
    let q = fixed::tdiv(num, len);
    assert(fixed::iabs(q) <= k) by (nonlinear_arith)
        requires
            len >= 1,
            fixed::iabs(q) * len <= fixed::iabs(num),
            fixed::iabs(num) < (k + 1) * len,
            fixed::iabs(q) >= 0,
    ;
}

/// Every component of a unit vector lies within one whole unit in magnitude,
/// whatever the input: the length bounds each component, so no quotient can
/// exceed one.
pub proof fn lemma_unit_vector_component_bounds(a: Vec3)
    ensures
        -(SCALE as int) <= unit_vector_s(a).x as int <= SCALE as int,
        -(SCALE as int) <= unit_vector_s(a).y as int <= SCALE as int,
        -(SCALE as int) <= unit_vector_s(a).z as int <= SCALE as int,
{
    let k = SCALE as int;
    let n = norm2_s(a);
    assert((a.x as int) * (a.x as int) >= 0 && (a.y as int) * (a.y as int) >= 0 && (a.z as int)
        * (a.z as int) >= 0) by (nonlinear_arith);
    fixed::lemma_sqrt_i_bounds(n);
    let s = fixed::sqrt_i(n);
    let len = length_s(a);
    if len > 0 {
        if s <= i64::MAX as int {
            lemma_component_magnitude(a.x, n, s);
            lemma_component_magnitude(a.y, n, s);
            lemma_component_magnitude(a.z, n, s);
        } else {
            // the length saturates at i64::MAX, which still dominates every
            // component magnitude closely enough
            assert(fixed::iabs(a.x as int) * k < (k + 1) * len && fixed::iabs(a.y as int) * k < (k
                + 1) * len && fixed::iabs(a.z as int) * k < (k + 1) * len) by (nonlinear_arith)
                requires
                    fixed::iabs(a.x as int) <= 0x8000000000000000,
                    fixed::iabs(a.y as int) <= 0x8000000000000000,
                    fixed::iabs(a.z as int) <= 0x8000000000000000,
                    len == 0x7fffffffffffffff,
                    k == 65536,
            ;
        }
        lemma_component_char(a.x, len);
        lemma_component_char(a.y, len);
        lemma_component_char(a.z, len);
    }
}

/// A component whose square is below `(s + 1)^2` has magnitude at most `s`,
/// and then its scaled magnitude sits strictly below `(SCALE + 1) * s`.
proof fn lemma_component_magnitude(x: i64, n: int, s: int)
    requires
        s >= 1,
        (x as int) * (x as int) <= n,
        n < (s + 1) * (s + 1),
    ensures
        fixed::iabs(x as int) <= s,
        fixed::iabs(x as int) * (SCALE as int) < ((SCALE as int) + 1) * s,
{
    let xa = fixed::iabs(x as int);
    assert(xa * xa == (x as int) * (x as int)) by (nonlinear_arith)
        requires
            xa == x as int || xa == -(x as int),
    ;
    assert(xa <= s) by (nonlinear_arith)
        requires
            xa >= 0,
            s >= 0,
            xa * xa < (s + 1) * (s + 1),
    ;
    assert(xa * (SCALE as int) < ((SCALE as int) + 1) * s) by (nonlinear_arith)
        requires
            0 <= xa <= s,
            s >= 1,
            SCALE == 65536,
    ;
}

/// For inputs whose components stay within 2^62 and whose length is at least
/// 2^-8 whole units, the unit vector's squared length is within a few
/// fixed-point units of one whole unit.
pub proof fn lemma_unit_vector_near_unit(a: Vec3)
    requires
        length_s(a) >= 256,
        -0x4000000000000000 <= a.x as int <= 0x4000000000000000,
        -0x4000000000000000 <= a.y as int <= 0x4000000000000000,
        -0x4000000000000000 <= a.z as int <= 0x4000000000000000,
    ensures
        SCALE as int - 9 <= dot_s(unit_vector_s(a), unit_vector_s(a)) <= SCALE as int + 767,
{
    let k = SCALE as int;
    let xi = a.x as int;
    let yi = a.y as int;
    let zi = a.z as int;
    let n = norm2_s(a);
    // the squares sum stays below 2^126, so the square root cannot saturate
    assert(0 <= xi * xi <= 0x10000000000000000000000000000000 && 0 <= yi * yi
        <= 0x10000000000000000000000000000000 && 0 <= zi * zi
        <= 0x10000000000000000000000000000000) by (nonlinear_arith)
        requires
            -0x4000000000000000 <= xi <= 0x4000000000000000,
            -0x4000000000000000 <= yi <= 0x4000000000000000,
            -0x4000000000000000 <= zi <= 0x4000000000000000,
    ;
    fixed::lemma_sqrt_i_bounds(n);
    let s = fixed::sqrt_i(n);
    assert(s < 0x7fffffffffffffff) by (nonlinear_arith)
        requires
            s >= 0,
            s * s <= n,
            n <= 0x30000000000000000000000000000000,
    ;
    let len = length_s(a);
    assert(len == s);
    lemma_component_magnitude(a.x, n, len);
    lemma_component_magnitude(a.y, n, len);
    lemma_component_magnitude(a.z, n, len);
    lemma_component_char(a.x, len);
    lemma_component_char(a.y, len);
    lemma_component_char(a.z, len);
    let x1 = fixed::iabs(xi);
    let x2 = fixed::iabs(yi);
    let x3 = fixed::iabs(zi);
    let vx = fixed::qdiv_s(xi, len);
    let vy = fixed::qdiv_s(yi, len);
    let vz = fixed::qdiv_s(zi, len);
    let u1 = fixed::iabs(vx);
    let u2 = fixed::iabs(vy);
    let u3 = fixed::iabs(vz);
    let t = u1 * u1 + u2 * u2 + u3 * u3;

    // magnitude squares agree with the signed squares
    assert(x1 * x1 == xi * xi && x2 * x2 == yi * yi && x3 * x3 == zi * zi && vx * vx == u1 * u1
        && vy * vy == u2 * u2 && vz * vz == u3 * u3) by (nonlinear_arith)
        requires
            x1 == xi || x1 == -xi,
            x2 == yi || x2 == -yi,
            x3 == zi || x3 == -zi,
            vx == u1 || vx == -u1,
            vy == u2 || vy == -u2,
            vz == u3 || vz == -u3,
    ;

    // upper bound: len^2 * t <= k^2 * n < k^2 (len+1)^2 <= len^2 (k^2 + 768 k)
    assert(u1 * u1 * (len * len) <= (x1 * x1) * (k * k) && u2 * u2 * (len * len) <= (x2 * x2) * (k
        * k) && u3 * u3 * (len * len) <= (x3 * x3) * (k * k)) by (nonlinear_arith)
        requires
            0 <= u1 * len && u1 * len <= x1 * k,
            0 <= u2 * len && u2 * len <= x2 * k,
            0 <= u3 * len && u3 * len <= x3 * k,
    ;
    assert(len * len * t <= k * k * n) by (nonlinear_arith)
        requires
            t == u1 * u1 + u2 * u2 + u3 * u3,
            n == xi * xi + yi * yi + zi * zi,
            x1 * x1 == xi * xi,
            x2 * x2 == yi * yi,
            x3 * x3 == zi * zi,
            u1 * u1 * (len * len) <= (x1 * x1) * (k * k),
            u2 * u2 * (len * len) <= (x2 * x2) * (k * k),
            u3 * u3 * (len * len) <= (x3 * x3) * (k * k),
    ;
    assert(len * len >= 256 * len) by (nonlinear_arith)
        requires
            len >= 256,
    ;
    assert(k * k * n < len * len * (k * k + 768 * k)) by (nonlinear_arith)
        requires
            k == 65536,
            len >= 256,
            len * len >= 256 * len,
            n < (len + 1) * (len + 1),
    ;
    assert(t < k * k + 768 * k) by (nonlinear_arith)
        requires
            len >= 1,
            len * len * t < len * len * (k * k + 768 * k),
    ;

    // lower bound: k^2 * len^2 <= k^2 * n < len^2 * sum of (u_i + 1)^2
    assert((x1 * x1) * (k * k) < (u1 + 1) * (u1 + 1) * (len * len) && (x2 * x2) * (k * k) < (u2
        + 1) * (u2 + 1) * (len * len) && (x3 * x3) * (k * k) < (u3 + 1) * (u3 + 1) * (len * len))
        by (nonlinear_arith)
        requires
            0 <= x1 * k && x1 * k < (u1 + 1) * len,
            0 <= x2 * k && x2 * k < (u2 + 1) * len,
            0 <= x3 * k && x3 * k < (u3 + 1) * len,
    ;
    assert(k * k * n < len * len * ((u1 + 1) * (u1 + 1) + (u2 + 1) * (u2 + 1) + (u3 + 1) * (u3
        + 1))) by (nonlinear_arith)
        requires
            n == xi * xi + yi * yi + zi * zi,
            x1 * x1 == xi * xi,
            x2 * x2 == yi * yi,
            x3 * x3 == zi * zi,
            (x1 * x1) * (k * k) < (u1 + 1) * (u1 + 1) * (len * len),
            (x2 * x2) * (k * k) < (u2 + 1) * (u2 + 1) * (len * len),
            (x3 * x3) * (k * k) < (u3 + 1) * (u3 + 1) * (len * len),
    ;
    assert(k * k * (len * len) <= k * k * n) by (nonlinear_arith)
        requires
            len * len <= n,
    ;
    assert(k * k < (u1 + 1) * (u1 + 1) + (u2 + 1) * (u2 + 1) + (u3 + 1) * (u3 + 1))
        by (nonlinear_arith)
        requires
            len >= 1,
            k * k * (len * len) < len * len * ((u1 + 1) * (u1 + 1) + (u2 + 1) * (u2 + 1) + (u3
                + 1) * (u3 + 1)),
    ;
    assert((u1 + 1) * (u1 + 1) + (u2 + 1) * (u2 + 1) + (u3 + 1) * (u3 + 1) == t + 2 * (u1 + u2
        + u3) + 3) by (nonlinear_arith)
        requires
            t == u1 * u1 + u2 * u2 + u3 * u3,
    ;
    assert(k * k < t + 2 * (u1 + u2 + u3) + 3);
    assert(t > k * k - 6 * k - 3) by (nonlinear_arith)
        requires
            k == 65536,
            0 <= u1 <= k,
            0 <= u2 <= k,
            0 <= u3 <= k,
            k * k < t + 2 * (u1 + u2 + u3) + 3,
    ;

    // the dot product floors each quotient square once more
    fixed::lemma_tdiv_mag(vx * vx, k);
    fixed::lemma_tdiv_mag(vy * vy, k);
    fixed::lemma_tdiv_mag(vz * vz, k);
    let d1 = fixed::tdiv(vx * vx, k);
    let d2 = fixed::tdiv(vy * vy, k);
    let d3 = fixed::tdiv(vz * vz, k);
    assert(u1 * u1 <= k * k && u2 * u2 <= k * k && u3 * u3 <= k * k) by (nonlinear_arith)
        requires
            0 <= u1 <= k,
            0 <= u2 <= k,
            0 <= u3 <= k,
    ;
    assert(fixed::iabs(d1) == d1 && fixed::iabs(d2) == d2 && fixed::iabs(d3) == d3);
    assert(dot_s(unit_vector_s(a), unit_vector_s(a)) == d1 + d2 + d3);
    assert(d1 * k <= u1 * u1 && u1 * u1 < (d1 + 1) * k);
    assert(d2 * k <= u2 * u2 && u2 * u2 < (d2 + 1) * k);
    assert(d3 * k <= u3 * u3 && u3 * u3 < (d3 + 1) * k);
}

/// Negating a vector whose components lie inside the symmetric saturation
/// range leaves its squared length unchanged.
pub proof fn lemma_dot_negation(a: Vec3)
    requires
        -(i64::MAX as int) <= a.x as int,
        -(i64::MAX as int) <= a.y as int,
        -(i64::MAX as int) <= a.z as int,
    ensures
        dot_s(sub_s(zero_s(), a), sub_s(zero_s(), a)) == dot_s(a, a),
{
    let nx = fixed::qsub_s(0, a.x as int);
    let ny = fixed::qsub_s(0, a.y as int);
    let nz = fixed::qsub_s(0, a.z as int);
    assert(nx * nx == (a.x as int) * (a.x as int) && ny * ny == (a.y as int) * (a.y as int) && nz
        * nz == (a.z as int) * (a.z as int)) by (nonlinear_arith)
        requires
            nx == -(a.x as int),
            ny == -(a.y as int),
            nz == -(a.z as int),
    ;
}

/// Three successive `[0, 1)` draws, filling `x`, `y`, `z` in order; returns
/// the vector and the generator state after the draws.
pub open spec fn random0_vec_s(st: u64) -> (Vec3, u64) {
    let st1 = rng::next_state_s(st);
    let st2 = rng::next_state_s(st1);
    let st3 = rng::next_state_s(st2);
    (
        Vec3 {
            x: rng::random0_val(st),
            y: rng::random0_val(st1),
            z: rng::random0_val(st2),
        },
        st3,
    )
}

/// Three successive `[min, max)` draws, filling `x`, `y`, `z` in order.
pub open spec fn random2_vec_s(st: u64, min: i64, max: i64) -> (Vec3, u64) {
    let st1 = rng::next_state_s(st);
    let st2 = rng::next_state_s(st1);
    let st3 = rng::next_state_s(st2);
    (
        Vec3 {
            x: rng::random2_val(st, min, max) as i64,
            y: rng::random2_val(st1, min, max) as i64,
            z: rng::random2_val(st2, min, max) as i64,
        },
        st3,
    )
}

/// Rejection sampling for a vector strictly inside the unit sphere: draw in
/// `[-1, 1)^3` until the squared length is below one, falling back to a fixed
/// interior vector when `fuel` runs out.
pub open spec fn random_in_unit_sphere_s(st: u64, fuel: nat) -> (Vec3, u64)
    decreases fuel,
{
    if fuel == 0 {
        (Vec3 { x: 32768, y: 0, z: 0 }, st)
    } else {
        let p = random2_vec_s(st, (-SCALE) as i64, SCALE);
        if dot_s(p.0, p.0) < SCALE as int {
            p
        } else {
            random_in_unit_sphere_s(p.1, (fuel - 1) as nat)
        }
    }
}

/// Whatever the generator state and fuel, the unit-sphere sample lies
/// strictly inside the unit sphere: accepted draws by the sampling condition,
/// and the fallback by computation (its squared length is one quarter).
pub proof fn lemma_unit_sphere_sample_inside(st: u64, fuel: nat)
    ensures
        dot_s(random_in_unit_sphere_s(st, fuel).0, random_in_unit_sphere_s(st, fuel).0) < SCALE
            as int,
    decreases fuel,
{
    if fuel == 0 {
        fixed::lemma_tdiv_zero(SCALE as int);
        fixed::lemma_tdiv_multiple(16384, SCALE as int);
        assert(32768 * 32768 == 16384 * (SCALE as int));
    } else {
        let p = random2_vec_s(st, (-SCALE) as i64, SCALE);
        if dot_s(p.0, p.0) < SCALE as int {
        } else {
            lemma_unit_sphere_sample_inside(p.1, (fuel - 1) as nat);
        }
    }
}

impl Vec3 {
    pub fn new(e0: i64, e1: i64, e2: i64) -> (v: Vec3)
        ensures
            v == (Vec3 { x: e0, y: e1, z: e2 }),
    {
        Vec3 { x: e0, y: e1, z: e2 }
    }

    pub fn origin() -> (v: Vec3)
        ensures
            v == zero_s(),
    {
        Vec3 { x: 0, y: 0, z: 0 }
    }

    /// Black: no light on any channel.
    pub fn black() -> (v: Vec3)
        ensures
            v == zero_s(),
    {
        Vec3 { x: 0, y: 0, z: 0 }
    }

    pub fn x(&self) -> (r: i64)
        ensures
            r == self.x,
    {
        self.x
    }

    pub fn y(&self) -> (r: i64)
        ensures
            r == self.y,
    {
        self.y
    }

    pub fn z(&self) -> (r: i64)
        ensures
            r == self.z,
    {
        self.z
    }

    pub fn add(self, r: Vec3) -> (v: Vec3)
        ensures
            v == add_s(self, r),
    {
        Vec3 {
            x: fixed::qadd(self.x, r.x),
            y: fixed::qadd(self.y, r.y),
            z: fixed::qadd(self.z, r.z),
        }
    }

    pub fn sub(self, r: Vec3) -> (v: Vec3)
        ensures
            v == sub_s(self, r),
    {
        Vec3 {
            x: fixed::qsub(self.x, r.x),
            y: fixed::qsub(self.y, r.y),
            z: fixed::qsub(self.z, r.z),
        }
    }

    /// Component-wise product.
    pub fn hadamard(self, r: Vec3) -> (v: Vec3)
        ensures
            v == hadamard_s(self, r),
    {
        Vec3 {
            x: fixed::qmul(self.x, r.x),
            y: fixed::qmul(self.y, r.y),
            z: fixed::qmul(self.z, r.z),
        }
    }

    /// Component-wise quotient.
    pub fn div_elem(self, r: Vec3) -> (v: Vec3)
        ensures
            v == div_elem_s(self, r),
    {
        Vec3 {
            x: fixed::qdiv(self.x, r.x),
            y: fixed::qdiv(self.y, r.y),
            z: fixed::qdiv(self.z, r.z),
        }
    }

    /// Scalar multiply.
    pub fn mul(self, s: i64) -> (v: Vec3)
        ensures
            v == scale_s(self, s as int),
    {
        Vec3 {
            x: fixed::qmul(self.x, s),
            y: fixed::qmul(self.y, s),
            z: fixed::qmul(self.z, s),
        }
    }

    /// Scalar divide.
    pub fn div(self, s: i64) -> (v: Vec3)
        ensures
            v == divs_s(self, s as int),
    {
        Vec3 {
            x: fixed::qdiv(self.x, s),
            y: fixed::qdiv(self.y, s),
            z: fixed::qdiv(self.z, s),
        }
    }

    pub fn dot(&self, right: Vec3) -> (r: i64)
        ensures
            r as int == dot_s(*self, right),
    {
        fixed::qadd(
            fixed::qadd(fixed::qmul(self.x, right.x), fixed::qmul(self.y, right.y)),
            fixed::qmul(self.z, right.z),
        )
    }

    pub fn cross(&self, right: Vec3) -> (v: Vec3)
        ensures
            v == cross_s(*self, right),
    {
        Vec3 {
            x: fixed::qsub(fixed::qmul(self.y, right.z), fixed::qmul(self.z, right.y)),
            y: fixed::qsub(fixed::qmul(self.z, right.x), fixed::qmul(self.x, right.z)),
            z: fixed::qsub(fixed::qmul(self.x, right.y), fixed::qmul(self.y, right.x)),
        }
    }

    pub fn length_squared(&self) -> (r: i64)
        ensures
            r as int == dot_s(*self, *self),
    {
        self.dot(*self)
    }

    /// The Euclidean length, computed from the exact component squares so
    /// that short vectors keep their precision (saturating only beyond the
    /// fixed-point range).
    pub fn length(&self) -> (r: i64)
        ensures
            r as int == length_s(*self),
    {
        proof {
            assert(0 <= (self.x as int) * (self.x as int)
                <= 0x40000000000000000000000000000000 && 0 <= (self.y as int) * (self.y as int)
                <= 0x40000000000000000000000000000000 && 0 <= (self.z as int) * (self.z as int)
                <= 0x40000000000000000000000000000000) by (nonlinear_arith)
                requires
                    -0x8000000000000000 <= self.x as int <= 0x7fffffffffffffff,
                    -0x8000000000000000 <= self.y as int <= 0x7fffffffffffffff,
                    -0x8000000000000000 <= self.z as int <= 0x7fffffffffffffff,
            ;
        }
        let n: u128 = fixed::sq128(self.x) + fixed::sq128(self.y) + fixed::sq128(self.z);
        let s: u64 = fixed::isqrt(n);
        if s > i64::MAX as u64 {
            i64::MAX
        } else {
            s as i64
        }
    }

    pub fn unit_vector(self) -> (v: Vec3)
        ensures
            v == unit_vector_s(self),
    {
        let length: i64 = self.length();
        self.div(length)
    }

    /// A vector whose components are three `[0, 1)` draws.
    pub fn random0(rng: &mut Rng) -> (v: Vec3)
        ensures
            v == random0_vec_s(old(rng).state).0,
            final(rng).state == random0_vec_s(old(rng).state).1,
    {
        let e0: i64 = rng::random0(rng);
        let e1: i64 = rng::random0(rng);
        let e2: i64 = rng::random0(rng);
        Vec3 { x: e0, y: e1, z: e2 }
    }

    /// A vector whose components are three `[min, max)` draws.
    pub fn random2(rng: &mut Rng, min: i64, max: i64) -> (v: Vec3)
        ensures
            v == random2_vec_s(old(rng).state, min, max).0,
            final(rng).state == random2_vec_s(old(rng).state, min, max).1,
    {
        let e0: i64 = rng::random2(rng, min, max);
        let e1: i64 = rng::random2(rng, min, max);
        let e2: i64 = rng::random2(rng, min, max);
        Vec3 { x: e0, y: e1, z: e2 }
    }

    /// Rejection-sample a vector strictly inside the unit sphere.
    pub fn random_in_unit_shpere(rng: &mut Rng) -> (v: Vec3)
        ensures
            v == random_in_unit_sphere_s(old(rng).state, SPHERE_SAMPLE_ATTEMPTS as nat).0,
            final(rng).state == random_in_unit_sphere_s(
                old(rng).state,
                SPHERE_SAMPLE_ATTEMPTS as nat,
            ).1,
            dot_s(v, v) < SCALE as int,
    {
        proof {
            lemma_unit_sphere_sample_inside(rng.state, SPHERE_SAMPLE_ATTEMPTS as nat);
        }
        Self::sample_in_unit_sphere(rng, SPHERE_SAMPLE_ATTEMPTS)
    }

    fn sample_in_unit_sphere(rng: &mut Rng, fuel: u32) -> (v: Vec3)
        ensures
            v == random_in_unit_sphere_s(old(rng).state, fuel as nat).0,
            final(rng).state == random_in_unit_sphere_s(old(rng).state, fuel as nat).1,
        decreases fuel,
    {
        if fuel == 0 {
            Vec3 { x: 32768, y: 0, z: 0 }
        } else {
            let vec = Vec3::random2(rng, -SCALE, SCALE);
            if vec.length_squared() < SCALE {
                vec
            } else {
                Self::sample_in_unit_sphere(rng, fuel - 1)
            }
        }
    }
}

} // verus!
