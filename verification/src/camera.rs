//! The camera: immutable viewport geometry mapping normalized image-plane
//! coordinates to world-space rays.

use vstd::prelude::*;
use crate::fixed;
use crate::fixed::SCALE;
use crate::ray::Ray;
use crate::vec3::Point3;
use crate::vec3::Vec3;
use crate::vec3::add_s;
use crate::vec3::divs_s;
use crate::vec3::scale_s;
use crate::vec3::sub_s;
use crate::vec3::zero_s;

verus! {

pub struct Camera {
    pub origin: Point3,
    pub lower_left_corner: Point3,
    pub horizontal: Vec3,
    pub vertical: Vec3,
}

/// The viewport derived from aspect ratio, viewport height and focal length:
/// the eye at the origin, the viewport plane one focal length toward `-z`,
/// spanned by `horizontal` and `vertical` from its lower-left corner.
pub open spec fn camera_s(aspect_ratio: i64, viewport_height: i64, focal_length: i64) -> Camera {
    let viewport_width = fixed::qmul_s(aspect_ratio as int, viewport_height as int);
    let origin = zero_s();
    let horizontal = Vec3 { x: viewport_width as i64, y: 0, z: 0 };
    let vertical = Vec3 { x: 0, y: viewport_height, z: 0 };
    let lower_left_corner = sub_s(
        sub_s(sub_s(origin, divs_s(horizontal, 2 * (SCALE as int))), divs_s(vertical, 2 * (SCALE as int))),
        Vec3 { x: 0, y: 0, z: focal_length },
    );
    Camera { origin, lower_left_corner, horizontal, vertical }
}

/// The ray from the eye toward the viewport point at fractions `u` (left to
/// right) and `v` (bottom to top).
pub open spec fn get_ray_s(c: Camera, u: i64, v: i64) -> Ray {
    Ray {
        origin: c.origin,
        direction: sub_s(
            add_s(add_s(c.lower_left_corner, scale_s(c.horizontal, u as int)), scale_s(c.vertical, v as int)),
            c.origin,
        ),
    }
}

impl Camera {
    /// The default camera: 16:9 aspect ratio, viewport height 2, focal
    /// length 1.
    pub fn new() -> (c: Camera)
        ensures
            c == camera_s(
                fixed::qdiv_s(16 * (SCALE as int), 9 * (SCALE as int)) as i64,
                (2 * SCALE) as i64,
                SCALE,
            ),
    {
        let aspect_ratio: i64 = fixed::qdiv(16 * SCALE, 9 * SCALE);
        Self::with_viewport(aspect_ratio, 2 * SCALE, SCALE)
    }

    pub fn with_viewport(aspect_ratio: i64, viewport_height: i64, focal_length: i64) -> (c: Camera)
        ensures
            c == camera_s(aspect_ratio, viewport_height, focal_length),
    {
        let viewport_width: i64 = fixed::qmul(aspect_ratio, viewport_height);

        let origin = Point3::origin();
        let horizontal = Vec3::new(viewport_width, 0, 0);
        let vertical = Vec3::new(0, viewport_height, 0);
        let lower_left_corner = origin.sub(horizontal.div(2 * SCALE)).sub(
            vertical.div(2 * SCALE),
        ).sub(Vec3::new(0, 0, focal_length));

        Camera { origin, horizontal, vertical, lower_left_corner }
    }

    pub fn get_ray(&self, u: i64, v: i64) -> (r: Ray)
        ensures
            r == get_ray_s(*self, u, v),
    {
        let direction = self.lower_left_corner.add(self.horizontal.mul(u)).add(
            self.vertical.mul(v),
        ).sub(self.origin);
        Ray::new(self.origin, direction)
    }
}

} // verus!
