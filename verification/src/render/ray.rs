//! Rays, parametrized as `p + t * d`, over integer-scaled coordinates.
//!
//! A ray carries its world-space/object-space duality through a common
//! positive denominator: the real origin and direction are `p / den` and
//! `d / den`. World rays start with `den == 1` (or a camera's frame norm);
//! pulling a ray into a primitive's object space multiplies the
//! denominator by the transform's scale, so no division ever happens and
//! the ray parameter `t` is preserved exactly.

use vstd::prelude::*;
use crate::arith::lemma_mul_bounds;
use crate::math::transform::Transform;
use crate::math::vec3::Vec3;
use crate::math::vec3::spec_dot;

verus! {

/// Componentwise bound on the origin and direction of a world ray.
pub const RAY_COORD_BOUND: i64 = 0x20000;

/// Bound on a world ray's denominator.
pub const RAY_DEN_BOUND: i64 = 64;

/// A ray with origin `p / den` and direction `d / den`.
#[derive(Clone, Copy, Debug, PartialEq, Eq, Structural)]
pub struct Ray {
    pub p: Vec3,
    pub d: Vec3,
    pub den: i64,
}

/// A point with wide components, used for exact rational evaluation of a
/// ray at a rational parameter.
#[derive(Clone, Copy, Debug, PartialEq, Eq, Structural)]
pub struct WidePoint {
    pub x: i128,
    pub y: i128,
    pub z: i128,
}

impl Ray {
    /// Whether the ray fits the bounds of the world-space pipeline.
    pub open spec fn in_world_bounds(self) -> bool {
        &&& self.p.bounded(RAY_COORD_BOUND as int)
        &&& self.d.bounded(RAY_COORD_BOUND as int)
        &&& 1 <= self.den <= RAY_DEN_BOUND
    }

    pub fn new(p: Vec3, d: Vec3) -> (r: Ray)
        ensures
            r == (Ray { p, d, den: 1i64 }),
    {
        Ray { p, d, den: 1 }
    }

    /// The ray evaluated at the rational parameter `t_num / t_den`: the
    /// numerators of the point, over the denominator `den * t_den`.
    pub fn at(&self, t_num: i128, t_den: i128) -> (r: WidePoint)
        requires
            self.p.bounded(0x4000_0000),
            self.d.bounded(0x4000_0000),
            -0x1_0000_0000_0000_0000_0000 <= t_num <= 0x1_0000_0000_0000_0000_0000,
            -0x1_0000_0000_0000_0000_0000 <= t_den <= 0x1_0000_0000_0000_0000_0000,
        ensures
            r.x == self.p.x * t_den + t_num * self.d.x,
            r.y == self.p.y * t_den + t_num * self.d.y,
            r.z == self.p.z * t_den + t_num * self.d.z,
    {
        proof {
            lemma_mul_bounds(self.p.x as int, t_den as int, 0x4000_0000, 0x1_0000_0000_0000_0000_0000);
            lemma_mul_bounds(self.p.y as int, t_den as int, 0x4000_0000, 0x1_0000_0000_0000_0000_0000);
            lemma_mul_bounds(self.p.z as int, t_den as int, 0x4000_0000, 0x1_0000_0000_0000_0000_0000);
            lemma_mul_bounds(t_num as int, self.d.x as int, 0x1_0000_0000_0000_0000_0000, 0x4000_0000);
            lemma_mul_bounds(t_num as int, self.d.y as int, 0x1_0000_0000_0000_0000_0000, 0x4000_0000);
            lemma_mul_bounds(t_num as int, self.d.z as int, 0x1_0000_0000_0000_0000_0000, 0x4000_0000);
        }
        WidePoint {
            x: (self.p.x as i128) * t_den + t_num * (self.d.x as i128),
            y: (self.p.y as i128) * t_den + t_num * (self.d.y as i128),
            z: (self.p.z as i128) * t_den + t_num * (self.d.z as i128),
        }
    }

    /// The ray pulled into the transform's object space, exactly: the
    /// origin goes through the full affine inverse (homogeneous form, so
    /// the translation applies), the direction through the linear part of
    /// the inverse only, and the denominator absorbs the transform scale.
    pub fn apply_inv(&self, transform: &Transform) -> (r: Ray)
        requires
            self.in_world_bounds(),
            transform.wf(),
            transform.mat.bounded(0x200),
        ensures
            r == self.spec_apply_inv(*transform),
    {
        let u = Vec3::new(transform.mat.m[0], transform.mat.m[4], transform.mat.m[8]);
        let v = Vec3::new(transform.mat.m[1], transform.mat.m[5], transform.mat.m[9]);
        let w = Vec3::new(transform.mat.m[2], transform.mat.m[6], transform.mat.m[10]);
        proof {
            assert(u == transform.col_u());
            assert(v == transform.col_v());
            assert(w == transform.col_w());
            lemma_obj_ray_bounds(*self, *transform);
        }
        let px = (u.dot(&self.p) + (transform.inv.m[3] as i128) * (self.den as i128)) as i64;
        let py = (v.dot(&self.p) + (transform.inv.m[7] as i128) * (self.den as i128)) as i64;
        let pz = (w.dot(&self.p) + (transform.inv.m[11] as i128) * (self.den as i128)) as i64;
        let dx = u.dot(&self.d) as i64;
        let dy = v.dot(&self.d) as i64;
        let dz = w.dot(&self.d) as i64;
        let den = ((self.den as i128) * (transform.den as i128)) as i64;
        Ray { p: Vec3 { x: px, y: py, z: pz }, d: Vec3 { x: dx, y: dy, z: dz }, den }
    }

    /// The exact object-space image of the ray under the transform's
    /// inverse.
    pub open spec fn spec_apply_inv(self, t: Transform) -> Ray {
        Ray {
            p: Vec3 {
                x: (spec_dot(t.col_u(), self.p) + t.inv.m[3] * self.den) as i64,
                y: (spec_dot(t.col_v(), self.p) + t.inv.m[7] * self.den) as i64,
                z: (spec_dot(t.col_w(), self.p) + t.inv.m[11] * self.den) as i64,
            },
            d: Vec3 {
                x: spec_dot(t.col_u(), self.d) as i64,
                y: spec_dot(t.col_v(), self.d) as i64,
                z: spec_dot(t.col_w(), self.d) as i64,
            },
            den: (self.den * t.den) as i64,
        }
    }
}

/// Bounds of the object-space ray for a compact transform: every numerator
/// stays within `2^28` and the combined denominator within `2^26`.
pub proof fn lemma_obj_ray_bounds(ray: Ray, t: Transform)
    requires
        ray.in_world_bounds(),
        t.wf(),
        t.mat.bounded(0x200),
    ensures
        -0x1000_0000 <= spec_dot(t.col_u(), ray.p) + t.inv.m[3] * ray.den <= 0x1000_0000,
        -0x1000_0000 <= spec_dot(t.col_v(), ray.p) + t.inv.m[7] * ray.den <= 0x1000_0000,
        -0x1000_0000 <= spec_dot(t.col_w(), ray.p) + t.inv.m[11] * ray.den <= 0x1000_0000,
        -0x1000_0000 <= spec_dot(t.col_u(), ray.d) <= 0x1000_0000,
        -0x1000_0000 <= spec_dot(t.col_v(), ray.d) <= 0x1000_0000,
        -0x1000_0000 <= spec_dot(t.col_w(), ray.d) <= 0x1000_0000,
        1 <= ray.den * t.den <= 0x400_0000,
        -0x400_0000 <= t.inv.m[3] * ray.den <= 0x400_0000,
        -0x400_0000 <= t.inv.m[7] * ray.den <= 0x400_0000,
        -0x400_0000 <= t.inv.m[11] * ray.den <= 0x400_0000,
        -0x1000_0000 <= spec_dot(t.col_u(), ray.p) <= 0x1000_0000,
        -0x1000_0000 <= spec_dot(t.col_v(), ray.p) <= 0x1000_0000,
        -0x1000_0000 <= spec_dot(t.col_w(), ray.p) <= 0x1000_0000,
{
    let bb = 0x200int;
    let rb = RAY_COORD_BOUND as int;
    crate::math::vec3::lemma_dot_bound(t.col_u(), ray.p, bb, rb);
    crate::math::vec3::lemma_dot_bound(t.col_v(), ray.p, bb, rb);
    crate::math::vec3::lemma_dot_bound(t.col_w(), ray.p, bb, rb);
    crate::math::vec3::lemma_dot_bound(t.col_u(), ray.d, bb, rb);
    crate::math::vec3::lemma_dot_bound(t.col_v(), ray.d, bb, rb);
    crate::math::vec3::lemma_dot_bound(t.col_w(), ray.d, bb, rb);
    crate::math::vec3::lemma_dot_bound(t.col_u(), t.origin(), bb, bb);
    crate::math::vec3::lemma_dot_bound(t.col_v(), t.origin(), bb, bb);
    crate::math::vec3::lemma_dot_bound(t.col_w(), t.origin(), bb, bb);
    lemma_mul_bounds(t.inv.m[3] as int, ray.den as int, 3 * bb * bb, RAY_DEN_BOUND as int);
    lemma_mul_bounds(t.inv.m[7] as int, ray.den as int, 3 * bb * bb, RAY_DEN_BOUND as int);
    lemma_mul_bounds(t.inv.m[11] as int, ray.den as int, 3 * bb * bb, RAY_DEN_BOUND as int);
    crate::math::vec3::lemma_dot_bound(t.col_u(), t.col_u(), bb, bb);
    assert(t.den == spec_dot(t.col_u(), t.col_u()));
    lemma_mul_bounds(ray.den as int, t.den as int, RAY_DEN_BOUND as int, 3 * bb * bb);
    assert(ray.den * t.den >= 1) by (nonlinear_arith)
        requires
            ray.den >= 1,
            t.den >= 1,
    ;
}

} // verus!
