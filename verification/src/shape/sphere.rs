//! A canonical sphere at the origin with integer radius `r`, and the
//! quadratic intersection kernel that defines the numeric policy every
//! shape follows.
//!
//! For an object-space ray `(p + t*d) / den` the sphere equation gives
//! `a*t^2 + b*t + c == 0` with `a = d.d`, `b = 2*p.d`,
//! `c = p.p - (r*den)^2`; all three are exact integers. The kernel takes
//! the square root of the discriminant rounded down, so the reported roots
//! are exact rationals `(-b -/+ s) / 2a` with `s = floor(sqrt(disc))`, and
//! root acceptance (`t` above the shared epsilon) is decided by exact
//! cross-multiplication.

use vstd::prelude::*;
use crate::T_EPS_DEN;
use crate::T_EPS_NUM;
use crate::accel::aabb::Aabb;
use crate::arith::isqrt;
use crate::arith::isqrt_spec;
use crate::arith::lemma_mul_bounds;
use crate::math::vec3::Vec3;
use crate::math::vec3::lemma_dot_bound;
use crate::math::vec3::spec_dot;
use crate::render::ray::Ray;
use crate::shape::Boundable;
use crate::shape::Geometry;
use crate::shape::LocalHitRecord;
use crate::shape::Shape;

verus! {

/// Componentwise bound on object-space rays entering the kernel.
pub const KERNEL_BOUND: i64 = 0x2000_0000;

/// The quadratic's leading coefficient: `d . d`.
pub open spec fn quad_a(ray: Ray) -> int {
    spec_dot(ray.d, ray.d)
}

/// The quadratic's linear coefficient: `2 * p . d`.
pub open spec fn quad_b(ray: Ray) -> int {
    2 * spec_dot(ray.p, ray.d)
}

/// The quadratic's constant coefficient: `p . p - (r * den)^2`.
pub open spec fn quad_c(r: int, ray: Ray) -> int {
    spec_dot(ray.p, ray.p) - (r * ray.den) * (r * ray.den)
}

/// The discriminant `b^2 - 4*a*c`.
pub open spec fn quad_disc(r: int, ray: Ray) -> int {
    quad_b(ray) * quad_b(ray) - 4 * quad_a(ray) * quad_c(r, ray)
}

/// The floor square root of the discriminant.
pub open spec fn root_shift(r: int, ray: Ray) -> int {
    isqrt_spec(quad_disc(r, ray) as nat) as int
}

/// Numerator of the nearer root, over the denominator `2*a`.
pub open spec fn near_num(r: int, ray: Ray) -> int {
    -quad_b(ray) - root_shift(r, ray)
}

/// Numerator of the farther root, over the denominator `2*a`.
pub open spec fn far_num(r: int, ray: Ray) -> int {
    -quad_b(ray) + root_shift(r, ray)
}

/// Common denominator of the two roots.
pub open spec fn root_den(ray: Ray) -> int {
    2 * quad_a(ray)
}

/// Whether the rational `t_num / t_den` (with `t_den > 0`) exceeds the
/// shared self-intersection epsilon.
pub open spec fn t_above_eps(t_num: int, t_den: int) -> bool {
    t_num * T_EPS_DEN > t_den * T_EPS_NUM
}

/// Whether a radius and an object-space ray lie within the machine bounds
/// of the intersection kernel.
pub open spec fn kernel_admissible(r: i64, ray: Ray) -> bool {
    &&& ray.p.bounded(KERNEL_BOUND as int)
    &&& ray.d.bounded(KERNEL_BOUND as int)
    &&& 1 <= ray.den
    &&& r >= 1
    &&& r * ray.den <= KERNEL_BOUND
}

/// Whether the ray hits the sphere: the direction is nonzero, the
/// discriminant is nonnegative, and at least one root exceeds the epsilon.
pub open spec fn sphere_hit_exists(r: int, ray: Ray) -> bool {
    &&& quad_a(ray) > 0
    &&& quad_disc(r, ray) >= 0
    &&& (t_above_eps(near_num(r, ray), root_den(ray)) || t_above_eps(far_num(r, ray), root_den(ray)))
}

/// Numerator of the accepted root: the nearer one when it exceeds the
/// epsilon, else the farther one.
pub open spec fn sphere_t_num(r: int, ray: Ray) -> int {
    if t_above_eps(near_num(r, ray), root_den(ray)) {
        near_num(r, ray)
    } else {
        far_num(r, ray)
    }
}

/// A canonical sphere at the origin.
#[derive(Clone, Copy, Debug, PartialEq, Eq, Structural)]
pub struct Sphere {
    /// Radius, in object-space units.
    pub r: i64,
}

impl Sphere {
    pub fn new(r: i64) -> (s: Sphere)
        ensures
            s.r == r,
    {
        Sphere { r }
    }

    /// Whether the radius is positive.
    pub open spec fn wf(self) -> bool {
        self.r >= 1
    }

    /// The local-space intersection: the smallest root above the shared
    /// epsilon, else the larger one, else no hit. The returned parameter
    /// is the exact rational described by the root spec functions; the hit
    /// point and normal direction are the exact ray evaluation at it.
    pub fn intersect_local(&self, ray: &Ray) -> (res: Option<LocalHitRecord>)
        requires
            kernel_admissible(self.r, *ray),
        ensures
            res is Some <==> sphere_hit_exists(self.r as int, *ray),
            res matches Some(h) ==> {
                &&& h.t_num == sphere_t_num(self.r as int, *ray)
                &&& h.t_den == root_den(*ray)
                &&& h.t_den > 0
                &&& t_above_eps(h.t_num as int, h.t_den as int)
                &&& h.p.x == ray.p.x * h.t_den + h.t_num * ray.d.x
                &&& h.p.y == ray.p.y * h.t_den + h.t_num * ray.d.y
                &&& h.p.z == ray.p.z * h.t_den + h.t_num * ray.d.z
                &&& h.n == h.p
                &&& -0x8000_0000_0000_0000 <= h.t_num <= 0x8000_0000_0000_0000
                &&& h.t_den <= 0x8000_0000_0000_0000
            },
    {
        let ghost kb = KERNEL_BOUND as int;
        proof {
            lemma_dot_bound(ray.d, ray.d, kb, kb);
            lemma_dot_bound(ray.p, ray.d, kb, kb);
            lemma_dot_bound(ray.p, ray.p, kb, kb);
            assert(self.r <= KERNEL_BOUND) by (nonlinear_arith)
                requires
                    self.r >= 1,
                    ray.den >= 1,
                    self.r * ray.den <= KERNEL_BOUND,
            ;
            assert(ray.den <= KERNEL_BOUND) by (nonlinear_arith)
                requires
                    self.r >= 1,
                    ray.den >= 1,
                    self.r * ray.den <= KERNEL_BOUND,
            ;
            lemma_mul_bounds(self.r as int, ray.den as int, kb, kb);
        }
        let a = ray.d.length_squared();
        if a == 0 {
            return None;
        }
        let b = 2 * ray.p.dot(&ray.d);
        let rd = (self.r as i128) * (ray.den as i128);
        proof {
            assert(rd == self.r * ray.den);
            assert(rd >= 1) by (nonlinear_arith)
                requires
                    self.r >= 1,
                    ray.den >= 1,
                    rd == self.r * ray.den,
            ;
            assert(rd <= kb);
            lemma_mul_bounds(rd as int, rd as int, kb, kb);
        }
        let c = ray.p.dot(&ray.p) - rd * rd;
        proof {
            assert(0 <= a <= 0xC00_0000_0000_0000);
            assert(-0x1800_0000_0000_0000 <= b <= 0x1800_0000_0000_0000);
            assert(-0x1000_0000_0000_0000 <= c <= 0x1000_0000_0000_0000);
            assert(-0xC0_0000_0000_0000_0000_0000_0000_0000 <= a * c
                <= 0xC0_0000_0000_0000_0000_0000_0000_0000) by (nonlinear_arith)
                requires
                    0 <= a <= 0xC00_0000_0000_0000,
                    -0x1000_0000_0000_0000 <= c <= 0x1000_0000_0000_0000,
            ;
            assert(0 <= b * b <= 0x240_0000_0000_0000_0000_0000_0000_0000) by (nonlinear_arith)
                requires
                    -0x1800_0000_0000_0000 <= b <= 0x1800_0000_0000_0000,
            ;
        }
        let ac = a * c;
        let disc = b * b - 4 * ac;
        proof {
            assert(b * b == quad_b(*ray) * quad_b(*ray)) by (nonlinear_arith)
                requires
                    b == quad_b(*ray),
            ;
            assert(rd * rd == (self.r * ray.den) * (self.r * ray.den)) by (nonlinear_arith)
                requires
                    rd == self.r * ray.den,
            ;
            assert(4 * ac == 4 * quad_a(*ray) * quad_c(self.r as int, *ray)) by (nonlinear_arith)
                requires
                    ac == quad_a(*ray) * quad_c(self.r as int, *ray),
            ;
            assert(disc == quad_disc(self.r as int, *ray));
        }
        if disc < 0 {
            return None;
        }
        let s = isqrt(disc as u128);
        proof {
            assert(s < 0x8000_0000_0000_0000) by (nonlinear_arith)
                requires
                    s * s <= disc as u128,
                    (disc as u128) < 0x4000_0000_0000_0000_0000_0000_0000_0000,
            ;
        }
        proof {
            assert(s < 0x4000_0000_0000_0000) by (nonlinear_arith)
                requires
                    s * s <= disc as u128,
                    (disc as u128) < 0x1000_0000_0000_0000_0000_0000_0000_0000,
            ;
            assert((disc as u128) < 0x1000_0000_0000_0000_0000_0000_0000_0000);
        }
        let sw = s as i128;
        let td = 2 * a;
        let t1 = -b - sw;
        let t2 = -b + sw;
        proof {
            assert(sw == root_shift(self.r as int, *ray));
            assert(t1 == near_num(self.r as int, *ray));
            assert(t2 == far_num(self.r as int, *ray));
            assert(td == root_den(*ray));
            lemma_mul_bounds(t1 as int, T_EPS_DEN as int, 0x1_0000_0000_0000_0000_0000, 0x10_0000);
            lemma_mul_bounds(t2 as int, T_EPS_DEN as int, 0x1_0000_0000_0000_0000_0000, 0x10_0000);
            lemma_mul_bounds(td as int, T_EPS_NUM as int, 0x1_0000_0000_0000_0000_0000, 0x10_0000);
        }
        let tn: i128 = if t1 * (T_EPS_DEN as i128) > td * (T_EPS_NUM as i128) {
            t1
        } else if t2 * (T_EPS_DEN as i128) > td * (T_EPS_NUM as i128) {
            t2
        } else {
            return None;
        };
        let p = ray.at(tn, td);
        Some(LocalHitRecord { t_num: tn, t_den: td, p, n: p })
    }

    /// The tight object-space bounding box `[-r, r]^3`.
    pub fn bounds(&self) -> (b: Aabb)
        requires
            self.wf(),
        ensures
            b.min.x == -self.r && b.min.y == -self.r && b.min.z == -self.r,
            b.max.x == self.r && b.max.y == self.r && b.max.z == self.r,
            b.wf(),
    {
        Aabb {
            min: Vec3 { x: -self.r, y: -self.r, z: -self.r },
            max: Vec3 { x: self.r, y: self.r, z: self.r },
        }
    }
}

impl Shape for Sphere {
    /// The polymorphic entry point carries the same contract as the
    /// inherent kernel on admissible inputs, and reports no hit outside
    /// the kernel's machine bounds.
    fn intersect_local(&self, ray: &Ray) -> (res: Option<LocalHitRecord>)
        ensures
            kernel_admissible(self.r, *ray) ==> (res is Some <==> sphere_hit_exists(
                self.r as int,
                *ray,
            )),
            !kernel_admissible(self.r, *ray) ==> res is None,
            res matches Some(h) ==> {
                &&& h.t_num == sphere_t_num(self.r as int, *ray)
                &&& h.t_den == root_den(*ray)
                &&& h.t_den > 0
                &&& t_above_eps(h.t_num as int, h.t_den as int)
                &&& h.p.x == ray.p.x * h.t_den + h.t_num * ray.d.x
                &&& h.p.y == ray.p.y * h.t_den + h.t_num * ray.d.y
                &&& h.p.z == ray.p.z * h.t_den + h.t_num * ray.d.z
                &&& h.n == h.p
            },
    {
        if self.r < 1 {
            return None;
        }
        if !(ray.p.x >= -KERNEL_BOUND && ray.p.x <= KERNEL_BOUND && ray.p.y >= -KERNEL_BOUND
            && ray.p.y <= KERNEL_BOUND && ray.p.z >= -KERNEL_BOUND && ray.p.z <= KERNEL_BOUND) {
            return None;
        }
        if !(ray.d.x >= -KERNEL_BOUND && ray.d.x <= KERNEL_BOUND && ray.d.y >= -KERNEL_BOUND
            && ray.d.y <= KERNEL_BOUND && ray.d.z >= -KERNEL_BOUND && ray.d.z <= KERNEL_BOUND) {
            return None;
        }
        if ray.den < 1 {
            return None;
        }
        proof {
            lemma_mul_bounds(
                self.r as int,
                ray.den as int,
                0x8000_0000_0000_0000,
                0x8000_0000_0000_0000,
            );
        }
        if (self.r as i128) * (ray.den as i128) > KERNEL_BOUND as i128 {
            return None;
        }
        self.intersect_local(ray)
    }
}

impl Boundable for Sphere {
    /// The polymorphic entry point returns the tight box of any valid
    /// radius, and the degenerate point box at the origin otherwise.
    fn bounds(&self) -> (b: Aabb)
        ensures
            b.wf(),
            self.r >= 1 ==> {
                &&& b.min.x == -self.r && b.min.y == -self.r && b.min.z == -self.r
                &&& b.max.x == self.r && b.max.y == self.r && b.max.z == self.r
            },
            self.r < 1 ==> b == (Aabb {
                min: Vec3 { x: 0i64, y: 0i64, z: 0i64 },
                max: Vec3 { x: 0i64, y: 0i64, z: 0i64 },
            }),
    {
        if self.r >= 1 {
            self.bounds()
        } else {
            Aabb { min: Vec3 { x: 0, y: 0, z: 0 }, max: Vec3 { x: 0, y: 0, z: 0 } }
        }
    }
}

impl Geometry for Sphere {

}

/// The two roots are symmetric about the closest-approach parameter:
/// their numerators sum to `-2b` over the common denominator `2a`, the
/// nearer never exceeds the farther, and a tangent ray (zero discriminant)
/// yields a single root.
pub proof fn lemma_root_symmetry(r: int, ray: Ray)
    requires
        quad_a(ray) > 0,
        quad_disc(r, ray) >= 0,
    ensures
        near_num(r, ray) + far_num(r, ray) == -2 * quad_b(ray),
        near_num(r, ray) <= far_num(r, ray),
        quad_disc(r, ray) == 0 ==> near_num(r, ray) == far_num(r, ray),
{
    crate::arith::lemma_isqrt_bounds(quad_disc(r, ray) as nat);
    if quad_disc(r, ray) == 0 {
        assert(isqrt_spec(0) == 0);
    }
}

/// Self-intersection avoidance: a ray whose origin lies exactly on the
/// sphere's surface and which points outward (or tangentially) finds no
/// root above the epsilon.
pub proof fn lemma_surface_outward_no_hit(r: int, ray: Ray)
    requires
        spec_dot(ray.p, ray.p) == (r * ray.den) * (r * ray.den),
        spec_dot(ray.p, ray.d) >= 0,
    ensures
        !sphere_hit_exists(r, ray),
{
    if quad_a(ray) > 0 {
        let b = quad_b(ray);
        let a = quad_a(ray);
        assert(quad_c(r, ray) == 0);
        assert(4 * a * quad_c(r, ray) == 0) by (nonlinear_arith)
            requires
                quad_c(r, ray) == 0,
        ;
        assert(quad_disc(r, ray) == b * b);
        assert(b >= 0);
        assert(b * b >= 0) by (nonlinear_arith)
            requires
                b >= 0,
        ;
        assert(b * b < (b + 1) * (b + 1)) by (nonlinear_arith)
            requires
                b >= 0,
        ;
        crate::arith::lemma_isqrt_unique((b * b) as nat, b as nat);
        assert(root_shift(r, ray) == b);
        assert(near_num(r, ray) == -2 * b);
        assert(far_num(r, ray) == 0);
        assert(root_den(ray) == 2 * a);
        assert((-2 * b) * T_EPS_DEN <= 0);
        assert((2 * a) * T_EPS_NUM > 0);
        assert(0 * T_EPS_DEN == 0);
        assert(!t_above_eps(near_num(r, ray), root_den(ray)));
        assert(!t_above_eps(far_num(r, ray), root_den(ray)));
    }
}

} // verus!
