//! Pixel accumulation, gamma correction and quantization, and the full
//! deterministic render loop.
//!
//! For each pixel, `samples_per_pixel` jittered rays are traced and summed;
//! the sum is averaged, gamma-corrected with a square root, clamped to
//! `[0, 0.999]` and quantized to a byte per channel.  The whole image is a
//! function of the seed alone (for a fixed scene and camera), which is what
//! `laws::lemma_render_deterministic` states.

use vstd::prelude::*;
use vstd::arithmetic::div_mod::lemma_fundamental_div_mod_converse_div;
use vstd::arithmetic::div_mod::lemma_fundamental_div_mod_converse_mod;
use crate::camera::Camera;
use crate::camera::get_ray_s;
use crate::fixed;
use crate::fixed::SCALE;
use crate::fixed::clamp_s;
use crate::fixed::qsqrt_s;
use crate::fixed::tdiv;
use crate::list::HitableList;
use crate::ray::spec_ray_color;
use crate::rng;
use crate::rng::Rng;
use crate::rng::next_state_s;
use crate::rng::random0_val;
use crate::sphere::Sphere;
use crate::vec3::Color;
use crate::vec3::Vec3;
use crate::vec3::add_s;
use crate::vec3::zero_s;

verus! {

/// The largest channel value kept by the output clamp: 0.999 in fixed point.
pub const CHANNEL_MAX: i64 = 65470;

/// One 8-bit output pixel.
#[derive(Clone, Copy, Debug, PartialEq, Eq, Structural)]
pub struct Rgb {
    pub r: u8,
    pub g: u8,
    pub b: u8,
}

/// One output channel: average the accumulated samples, gamma-correct with a
/// square root, clamp to `[0, 0.999]`, and keep the top byte (multiplying by
/// 256 and truncating).
pub open spec fn channel_byte_s(c: i64, samples: i64) -> u8 {
    let avg = tdiv(c as int, samples as int);
    let root = qsqrt_s(avg);
    let clamped = clamp_s(root, 0, CHANNEL_MAX as int);
    (clamped / 256) as u8
}

pub open spec fn rgb_s(color: Color, samples: i64) -> Rgb {
    Rgb {
        r: channel_byte_s(color.x, samples),
        g: channel_byte_s(color.y, samples),
        b: channel_byte_s(color.z, samples),
    }
}

/// The color sum of the first `n` jittered samples of pixel `(px, py)` and
/// the generator state after them.  Each sample draws a `u` jitter then a `v`
/// jitter, normalizes by `width - 1` and `height - 1`, and traces the camera
/// ray.
pub open spec fn spec_pixel_sum(
    cam: Camera,
    world: Seq<Sphere>,
    width: u32,
    height: u32,
    px: int,
    py: int,
    n: nat,
    depth: i32,
    st: u64,
) -> (Color, u64)
    decreases n,
{
    if n == 0 {
        (zero_s(), st)
    } else {
        let prev = spec_pixel_sum(cam, world, width, height, px, py, (n - 1) as nat, depth, st);
        let du = random0_val(prev.1);
        let st1 = next_state_s(prev.1);
        let dv = random0_val(st1);
        let st2 = next_state_s(st1);
        let u = fixed::qdiv_s(
            fixed::qadd_s(px * (SCALE as int), du as int),
            (width - 1) * (SCALE as int),
        );
        let v = fixed::qdiv_s(
            fixed::qadd_s(py * (SCALE as int), dv as int),
            (height - 1) * (SCALE as int),
        );
        let ray = get_ray_s(cam, u as i64, v as i64);
        let traced = spec_ray_color(ray, world, depth, st2);
        (add_s(prev.0, traced.0), traced.1)
    }
}

/// The first `k` output pixels (row-major from the top scanline downward)
/// and the generator state after them.
pub open spec fn spec_render_prefix(
    cam: Camera,
    world: Seq<Sphere>,
    width: u32,
    height: u32,
    samples_per_pixel: u32,
    depth: i32,
    k: nat,
    st: u64,
) -> (Seq<Rgb>, u64)
    decreases k,
{
    if k == 0 {
        (Seq::empty(), st)
    } else {
        let prev = spec_render_prefix(
            cam,
            world,
            width,
            height,
            samples_per_pixel,
            depth,
            (k - 1) as nat,
            st,
        );
        let idx = k - 1;
        let py = (height - 1) - idx / (width as int);
        let px = idx % (width as int);
        let sum = spec_pixel_sum(
            cam,
            world,
            width,
            height,
            px,
            py,
            samples_per_pixel as nat,
            depth,
            prev.1,
        );
        (prev.0.push(rgb_s(sum.0, samples_per_pixel as i64)), sum.1)
    }
}

/// The full image: all `width * height` pixels from the seed.
pub open spec fn spec_render(
    cam: Camera,
    world: Seq<Sphere>,
    width: u32,
    height: u32,
    samples_per_pixel: u32,
    depth: i32,
    seed: u64,
) -> Seq<Rgb> {
    spec_render_prefix(
        cam,
        world,
        width,
        height,
        samples_per_pixel,
        depth,
        (width * height) as nat,
        seed,
    ).0
}

fn channel_byte(c: i64, samples: i64) -> (b: u8)
    requires
        samples > 0,
    ensures
        b == channel_byte_s(c, samples),
{
    let avg: i64 = fixed::tdiv64(c, samples);
    let root: i64 = fixed::qsqrt(avg);
    let clamped: i64 = fixed::clamp(root, 0, CHANNEL_MAX);
    ((clamped as u64) / 256) as u8
}

impl Vec3 {
    /// Average `sample_per_pixel` accumulated samples and quantize to bytes,
    /// with gamma-2 correction and the `[0, 0.999]` clamp, channel by
    /// channel.
    pub fn to_rgb(&self, sample_per_pixel: i64) -> (px: Rgb)
        requires
            sample_per_pixel > 0,
        ensures
            px == rgb_s(*self, sample_per_pixel),
    {
        Rgb {
            r: channel_byte(self.x, sample_per_pixel),
            g: channel_byte(self.y, sample_per_pixel),
            b: channel_byte(self.z, sample_per_pixel),
        }
    }
}

/// The color sum of all samples of one pixel.
fn sample_pixel(
    camera: &Camera,
    world: &HitableList,
    width: u32,
    height: u32,
    px: u32,
    py: u32,
    samples_per_pixel: u32,
    depth: i32,
    rng: &mut Rng,
) -> (c: Color)
    requires
        width >= 1,
        height >= 1,
    ensures
        c == spec_pixel_sum(
            *camera,
            world@,
            width,
            height,
            px as int,
            py as int,
            samples_per_pixel as nat,
            depth,
            old(rng).state,
        ).0,
        final(rng).state == spec_pixel_sum(
            *camera,
            world@,
            width,
            height,
            px as int,
            py as int,
            samples_per_pixel as nat,
            depth,
            old(rng).state,
        ).1,
{
    let ghost st0: u64 = rng.state;
    let mut color = Color::black();
    let mut s: u32 = 0;
    while s < samples_per_pixel
        invariant
            s <= samples_per_pixel,
            width >= 1,
            height >= 1,
            color == spec_pixel_sum(
                *camera,
                world@,
                width,
                height,
                px as int,
                py as int,
                s as nat,
                depth,
                st0,
            ).0,
            rng.state == spec_pixel_sum(
                *camera,
                world@,
                width,
                height,
                px as int,
                py as int,
                s as nat,
                depth,
                st0,
            ).1,
        decreases samples_per_pixel - s,
    {
        let du: i64 = rng::random0(rng);
        let dv: i64 = rng::random0(rng);
        let u: i64 = fixed::qdiv(
            fixed::qadd((px as i64) * SCALE, du),
            ((width - 1) as i64) * SCALE,
        );
        let v: i64 = fixed::qdiv(
            fixed::qadd((py as i64) * SCALE, dv),
            ((height - 1) as i64) * SCALE,
        );
        let ray = camera.get_ray(u, v);
        let traced = ray.color(world, depth, rng);
        color = color.add(traced);
        s = s + 1;
    }
    color
}

/// Render the whole image: `width * height` pixels, row-major from the top
/// scanline downward, left to right, each the quantized average of
/// `samples_per_pixel` jittered traces.  The output is a function of the
/// arguments alone — in particular, of the seed.
pub fn render_image(
    camera: &Camera,
    world: &HitableList,
    width: u32,
    height: u32,
    samples_per_pixel: u32,
    max_depth: i32,
    seed: u64,
) -> (pixels: Vec<Rgb>)
    requires
        width >= 1,
        height >= 1,
        samples_per_pixel >= 1,
    ensures
        pixels@ == spec_render(*camera, world@, width, height, samples_per_pixel, max_depth, seed),
{
    let mut pixels: Vec<Rgb> = Vec::new();
    let mut rng = Rng::new(seed);
    let mut row: u32 = height;
    while row > 0
        invariant
            row <= height,
            width >= 1,
            height >= 1,
            samples_per_pixel >= 1,
            pixels@.len() == ((height - row) as int) * (width as int),
            pixels@ == spec_render_prefix(
                *camera,
                world@,
                width,
                height,
                samples_per_pixel,
                max_depth,
                (((height - row) as int) * (width as int)) as nat,
                seed,
            ).0,
            rng.state == spec_render_prefix(
                *camera,
                world@,
                width,
                height,
                samples_per_pixel,
                max_depth,
                (((height - row) as int) * (width as int)) as nat,
                seed,
            ).1,
        decreases row,
    {
        row = row - 1;
        let ghost done_rows: int = ((height - 1 - row) as int) * (width as int);
        let mut col: u32 = 0;
        while col < width
            invariant
                col <= width,
                row < height,
                width >= 1,
                height >= 1,
                samples_per_pixel >= 1,
                done_rows == ((height - 1 - row) as int) * (width as int),
                pixels@.len() == done_rows + col as int,
                pixels@ == spec_render_prefix(
                    *camera,
                    world@,
                    width,
                    height,
                    samples_per_pixel,
                    max_depth,
                    (done_rows + col as int) as nat,
                    seed,
                ).0,
                rng.state == spec_render_prefix(
                    *camera,
                    world@,
                    width,
                    height,
                    samples_per_pixel,
                    max_depth,
                    (done_rows + col as int) as nat,
                    seed,
                ).1,
            decreases width - col,
        {
            let sum = sample_pixel(
                camera,
                world,
                width,
                height,
                col,
                row,
                samples_per_pixel,
                max_depth,
                &mut rng,
            );
            let px_rgb = sum.to_rgb(samples_per_pixel as i64);
            pixels.push(px_rgb);
            proof {
                let idx = done_rows + col as int;
                lemma_fundamental_div_mod_converse_div(
                    idx,
                    width as int,
                    (height - 1 - row) as int,
                    col as int,
                );
                lemma_fundamental_div_mod_converse_mod(
                    idx,
                    width as int,
                    (height - 1 - row) as int,
                    col as int,
                );
                assert(idx / (width as int) == (height - 1 - row) as int);
                assert(idx % (width as int) == col as int);
            }
            col = col + 1;
        }
        proof {
            assert(((height - 1 - row) as int) * (width as int) + (width as int) == ((height - row) as int) * (width as int)) by (nonlinear_arith);
        }
    }
    proof {
        assert(((height - 0) as int) * (width as int) == (width * height) as int) by (nonlinear_arith);
    }
    pixels
}

} // verus!
