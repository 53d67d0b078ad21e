//! Saturating fixed-point scalar arithmetic.
//!
//! A scalar is an `i64` holding `SCALE` units per whole unit, so the value it
//! stands for is `q / SCALE`.  Every operation is total: results are rounded
//! toward zero and saturated into `[-i64::MAX, i64::MAX]`, and division by
//! zero yields zero.  Each executable operation is proved equal to its
//! spec-level counterpart (`qadd_s`, `qmul_s`, ...), so everything built on
//! top of this module has an exact arithmetic model.

use vstd::prelude::*;
use vstd::arithmetic::div_mod::lemma_div_is_ordered;
use vstd::arithmetic::div_mod::lemma_div_multiples_vanish;
use vstd::arithmetic::div_mod::lemma_div_nonincreasing;
use vstd::arithmetic::div_mod::lemma_div_pos_is_pos;
use vstd::arithmetic::div_mod::lemma_fundamental_div_mod;
use vstd::arithmetic::div_mod::lemma_mod_division_less_than_divisor;

verus! {

/// Number of fixed-point units per whole unit.
pub const SCALE: i64 = 65536;

/// Magnitude of an unbounded integer.
pub open spec fn iabs(x: int) -> int {
    if x < 0 {
        -x
    } else {
        x
    }
}

/// Saturation into the symmetric range `[-i64::MAX, i64::MAX]`.
pub open spec fn sat64(x: int) -> int {
    if x > i64::MAX as int {
        i64::MAX as int
    } else if x < -(i64::MAX as int) {
        -(i64::MAX as int)
    } else {
        x
    }
}

/// Division rounding toward zero, the rounding of every fixed-point
/// operation here.
pub open spec fn tdiv(a: int, b: int) -> int
    recommends
        b != 0,
{
    if (a < 0) == (b < 0) {
        iabs(a) / iabs(b)
    } else {
        -(iabs(a) / iabs(b))
    }
}

pub open spec fn qadd_s(a: int, b: int) -> int {
    sat64(a + b)
}

pub open spec fn qsub_s(a: int, b: int) -> int {
    sat64(a - b)
}

pub open spec fn qmul_s(a: int, b: int) -> int {
    sat64(tdiv(a * b, SCALE as int))
}

pub open spec fn qdiv_s(a: int, b: int) -> int {
    if b == 0 {
        0
    } else {
        sat64(tdiv(a * (SCALE as int), b))
    }
}

/// Integer square root, defined by counting up; `lemma_sqrt_i_bounds` gives
/// its characteristic inequalities.
pub open spec fn sqrt_i(n: int) -> int
    decreases n,
{
    if n <= 0 {
        0
    } else {
        let r = sqrt_i(n - 1);
        if (r + 1) * (r + 1) <= n {
            r + 1
        } else {
            r
        }
    }
}

/// Fixed-point square root: `sqrt(x / SCALE)` in fixed-point units is the
/// integer square root of `x * SCALE`.  Non-positive inputs yield zero.
pub open spec fn qsqrt_s(x: int) -> int {
    if x <= 0 {
        0
    } else {
        sqrt_i(x * (SCALE as int))
    }
}

/// Clamping into `[min, max]`: raise to `min`, then lower to `max`.
pub open spec fn clamp_s(value: int, min: int, max: int) -> int {
    let raised = if value < min {
        min
    } else {
        value
    };
    if raised > max {
        max
    } else {
        raised
    }
}

pub proof fn lemma_sqrt_i_bounds(n: int)
    requires
        n >= 0,
    ensures
        0 <= sqrt_i(n),
        sqrt_i(n) * sqrt_i(n) <= n,
        n < (sqrt_i(n) + 1) * (sqrt_i(n) + 1),
    decreases n,
{
    if n == 0 {
        assert(sqrt_i(0) == 0);
    } else {
        lemma_sqrt_i_bounds(n - 1);
        let r = sqrt_i(n - 1);
        if (r + 1) * (r + 1) <= n {
            assert((r + 2) * (r + 2) > n) by (nonlinear_arith)
                requires
                    r >= 0,
                    n - 1 < (r + 1) * (r + 1),
            ;
        }
    }
}

pub proof fn lemma_sqrt_unique(n: int, r: int)
    requires
        n >= 0,
        r >= 0,
        r * r <= n,
        n < (r + 1) * (r + 1),
    ensures
        r == sqrt_i(n),
{
    lemma_sqrt_i_bounds(n);
    let s = sqrt_i(n);
    if r < s {
        assert((r + 1) * (r + 1) <= s * s) by (nonlinear_arith)
            requires
                0 <= r,
                r < s,
        ;
    }
    if s < r {
        assert((s + 1) * (s + 1) <= r * r) by (nonlinear_arith)
            requires
                0 <= s,
                s < r,
        ;
    }
}

/// Truncating division cancels an exact multiple of a positive divisor.
pub proof fn lemma_tdiv_multiple(a: int, d: int)
    requires
        d > 0,
    ensures
        tdiv(a * d, d) == a,
{
    if a >= 0 {
        assert(a * d >= 0 && a * d == d * a) by (nonlinear_arith)
            requires
                a >= 0,
                d > 0,
        ;
        lemma_div_multiples_vanish(a, d);
    } else {
        assert(a * d < 0 && -(a * d) == d * (-a)) by (nonlinear_arith)
            requires
                a < 0,
                d > 0,
        ;
        lemma_div_multiples_vanish(-a, d);
    }
}

/// Truncating division by a positive divisor is monotone in the numerator.
pub proof fn lemma_tdiv_ordered(n1: int, n2: int, d: int)
    requires
        n1 <= n2,
        d > 0,
    ensures
        tdiv(n1, d) <= tdiv(n2, d),
{
    if n1 >= 0 {
        lemma_div_is_ordered(n1, n2, d);
    } else if n2 < 0 {
        lemma_div_is_ordered(-n2, -n1, d);
    } else {
        lemma_div_pos_is_pos(-n1, d);
        lemma_div_pos_is_pos(n2, d);
    }
}

/// The magnitude of a truncating quotient is the floor quotient of the
/// magnitudes, bracketed by the usual remainder inequalities.
pub proof fn lemma_tdiv_mag(a: int, d: int)
    requires
        d > 0,
    ensures
        iabs(tdiv(a, d)) == iabs(a) / d,
        iabs(tdiv(a, d)) * d <= iabs(a),
        iabs(a) < (iabs(tdiv(a, d)) + 1) * d,
        a >= 0 ==> tdiv(a, d) >= 0,
{
    let q = iabs(a) / d;
    lemma_div_pos_is_pos(iabs(a), d);
    lemma_fundamental_div_mod(iabs(a), d);
    lemma_mod_division_less_than_divisor(iabs(a), d);
    assert(iabs(a) == d * q + iabs(a) % d);
    assert(q * d == d * q) by (nonlinear_arith);
    assert((q + 1) * d == d * q + d) by (nonlinear_arith);
}

/// Truncating division of zero is zero.
pub proof fn lemma_tdiv_zero(d: int)
    requires
        d > 0,
    ensures
        tdiv(0, d) == 0,
{
    lemma_tdiv_multiple(0, d);
    assert(0 * d == 0);
}

/// Magnitude and sign facts about a product.
pub proof fn lemma_mag_mul(a: int, b: int)
    ensures
        iabs(a) * iabs(b) == iabs(a * b),
        ((a < 0) != (b < 0)) ==> a * b <= 0,
        ((a < 0) == (b < 0)) ==> a * b >= 0,
{
    if a >= 0 && b >= 0 {
        assert(a * b >= 0 && iabs(a) * iabs(b) == iabs(a * b)) by (nonlinear_arith)
            requires
                a >= 0,
                b >= 0,
        ;
    } else if a >= 0 && b < 0 {
        assert(a * b <= 0 && a * (-b) == -(a * b)) by (nonlinear_arith)
            requires
                a >= 0,
                b < 0,
        ;
    } else if a < 0 && b >= 0 {
        assert(a * b <= 0 && (-a) * b == -(a * b)) by (nonlinear_arith)
            requires
                a < 0,
                b >= 0,
        ;
    } else {
        assert(a * b > 0 && (-a) * (-b) == a * b) by (nonlinear_arith)
            requires
                a < 0,
                b < 0,
        ;
    }
}

fn abs_mag(a: i64) -> (r: u64)
    ensures
        r as int == iabs(a as int),
{
    if a >= 0 {
        a as u64
    } else {
        (-(a as i128)) as u64
    }
}

/// The exact square of an `i64`, wide enough that nothing is lost.
pub fn sq128(a: i64) -> (r: u128)
    ensures
        r as int == (a as int) * (a as int),
{
    let m: u64 = abs_mag(a);
    proof {
        lemma_mag_mul(a as int, a as int);
        assert((m as int) * (m as int) <= u128::MAX as int) by (nonlinear_arith)
            requires
                0 <= m as int <= 0x8000000000000000,
        ;
    }
    (m as u128) * (m as u128)
}

fn sat_signed(mag: u128, neg: bool) -> (r: i64)
    ensures
        r as int == sat64(
            if neg {
                -(mag as int)
            } else {
                mag as int
            },
        ),
{
    if neg {
        if mag >= i64::MAX as u128 {
            -i64::MAX
        } else {
            -(mag as i64)
        }
    } else {
        if mag >= i64::MAX as u128 {
            i64::MAX
        } else {
            mag as i64
        }
    }
}

pub fn qadd(a: i64, b: i64) -> (r: i64)
    ensures
        r as int == qadd_s(a as int, b as int),
{
    let s: i128 = a as i128 + b as i128;
    if s > i64::MAX as i128 {
        i64::MAX
    } else if s < -(i64::MAX as i128) {
        -i64::MAX
    } else {
        s as i64
    }
}

pub fn qsub(a: i64, b: i64) -> (r: i64)
    ensures
        r as int == qsub_s(a as int, b as int),
{
    let s: i128 = a as i128 - b as i128;
    if s > i64::MAX as i128 {
        i64::MAX
    } else if s < -(i64::MAX as i128) {
        -i64::MAX
    } else {
        s as i64
    }
}

pub fn qmul(a: i64, b: i64) -> (r: i64)
    ensures
        r as int == qmul_s(a as int, b as int),
{
    let neg: bool = (a < 0) != (b < 0);
    let am: u64 = abs_mag(a);
    let bm: u64 = abs_mag(b);
    proof {
        lemma_mag_mul(a as int, b as int);
        assert((am as int) * (bm as int) <= u128::MAX as int) by (nonlinear_arith)
            requires
                0 <= am as int <= 0x8000000000000000,
                0 <= bm as int <= 0x8000000000000000,
        ;
    }
    let p: u128 = (am as u128) * (bm as u128);
    let q: u128 = p / (SCALE as u128);
    proof {
        assert(p as int == iabs((a as int) * (b as int)));
        assert(q as int == iabs((a as int) * (b as int)) / (SCALE as int));
        lemma_div_pos_is_pos(p as int, SCALE as int);
        let ab = (a as int) * (b as int);
        if neg {
            assert(tdiv(ab, SCALE as int) == -(q as int));
        } else {
            assert(tdiv(ab, SCALE as int) == q as int);
        }
    }
    sat_signed(q, neg)
}

pub fn qdiv(a: i64, b: i64) -> (r: i64)
    ensures
        r as int == qdiv_s(a as int, b as int),
{
    if b == 0 {
        return 0;
    }
    let neg: bool = (a < 0) != (b < 0);
    let am: u64 = abs_mag(a);
    let bm: u64 = abs_mag(b);
    proof {
        assert((am as int) * (SCALE as int) <= u128::MAX as int) by (nonlinear_arith)
            requires
                0 <= am as int <= 0x8000000000000000,
        ;
    }
    let p: u128 = (am as u128) * (SCALE as u128);
    let q: u128 = p / (bm as u128);
    proof {
        lemma_mag_mul(a as int, SCALE as int);
        let num = (a as int) * (SCALE as int);
        assert(p as int == iabs(num));
        assert(q as int == iabs(num) / (bm as int));
        assert(iabs(num) / iabs(b as int) == q as int);
        lemma_div_pos_is_pos(p as int, bm as int);
        if neg {
            assert((a < 0) == (num < 0) || num == 0);
            assert(tdiv(num, b as int) == -(q as int));
        } else {
            assert(tdiv(num, b as int) == q as int);
        }
    }
    sat_signed(q, neg)
}

/// Truncating division of a fixed-point value by a positive plain integer,
/// used to average accumulated sample colors.
pub fn tdiv64(a: i64, b: i64) -> (r: i64)
    requires
        b > 0,
    ensures
        r as int == tdiv(a as int, b as int),
{
    let am: u64 = abs_mag(a);
    let q: u64 = am / (b as u64);
    proof {
        lemma_div_nonincreasing(am as int, b as int);
        lemma_div_pos_is_pos(am as int, b as int);
    }
    if a >= 0 {
        q as i64
    } else {
        if q > i64::MAX as u64 {
            i64::MIN
        } else {
            -(q as i64)
        }
    }
}

/// Truncating division on wide intermediates, used by the sphere
/// intersection quadratic.
pub fn tdiv128(n: i128, d: i128) -> (r: i128)
    requires
        d > 0,
        n > i128::MIN as int,
    ensures
        r as int == tdiv(n as int, d as int),
{
    if n >= 0 {
        let q: u128 = (n as u128) / (d as u128);
        proof {
            lemma_div_nonincreasing(n as int, d as int);
            lemma_div_pos_is_pos(n as int, d as int);
        }
        q as i128
    } else {
        let m: u128 = (-n) as u128;
        let q: u128 = m / (d as u128);
        proof {
            lemma_div_nonincreasing(m as int, d as int);
            lemma_div_pos_is_pos(m as int, d as int);
        }
        -(q as i128)
    }
}

pub fn isqrt(n: u128) -> (r: u64)
    ensures
        r as int == sqrt_i(n as int),
        (r as int) * (r as int) <= n as int,
        (n as int) < (r as int + 1) * (r as int + 1),
{
    let mut lo: u128 = 0;
    let mut hi: u128 = 0xffff_ffff_ffff_ffff;
    proof {
        assert((hi as int + 1) * (hi as int + 1) > u128::MAX as int) by (nonlinear_arith)
            requires
                hi as int == 0xffff_ffff_ffff_ffff,
        ;
    }
    while lo < hi
        invariant
            lo <= hi,
            hi <= 0xffff_ffff_ffff_ffff,
            (lo as int) * (lo as int) <= n as int,
            (n as int) < (hi as int + 1) * (hi as int + 1),
        decreases hi - lo,
    {
        let mid: u128 = lo + (hi - lo + 1) / 2;
        proof {
            assert((mid as int) * (mid as int) <= u128::MAX as int) by (nonlinear_arith)
                requires
                    0 <= mid as int <= 0xffff_ffff_ffff_ffff,
            ;
        }
        let sq: u128 = mid * mid;
        if sq <= n {
            lo = mid;
        } else {
            hi = mid - 1;
        }
    }
    proof {
        lemma_sqrt_unique(n as int, lo as int);
    }
    lo as u64
}

pub fn qsqrt(x: i64) -> (r: i64)
    ensures
        r as int == qsqrt_s(x as int),
{
    if x <= 0 {
        return 0;
    }
    proof {
        assert((x as int) * (SCALE as int) < 0x1_0000_0000_0000_0000_0000) by (nonlinear_arith)
            requires
                0 <= x as int <= 0x8000000000000000,
        ;
    }
    let n: u128 = (x as u128) * (SCALE as u128);
    let s: u64 = isqrt(n);
    proof {
        assert((s as int) < 0x100_0000_0000) by (nonlinear_arith)
            requires
                0 <= s as int,
                (s as int) * (s as int) <= n as int,
                (n as int) < 0x1_0000_0000_0000_0000_0000,
        ;
    }
    s as i64
}

/// Clamp `value` into `[min, max]`: raise to `min` first, then lower to
/// `max`, so `max` wins when the bounds cross.
pub fn clamp(value: i64, min: i64, max: i64) -> (r: i64)
    ensures
        r as int == clamp_s(value as int, min as int, max as int),
{
    let raised: i64 = if value < min {
        min
    } else {
        value
    };
    if raised > max {
        max
    } else {
        raised
    }
}

} // verus!
