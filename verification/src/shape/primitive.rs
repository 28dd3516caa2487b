//! A primitive binds a shape to a placement transform and a material
//! handle, and lifts the shape's local-space hits into world space.

use vstd::prelude::*;
use crate::arith::lemma_mul_bounds;
use crate::math::transform::Transform;
use crate::math::vec3::Vec3;
use crate::render::ray::Ray;
use crate::render::ray::WidePoint;
use crate::render::ray::lemma_obj_ray_bounds;
use crate::shape::HitRecord;
use crate::shape::sphere::Sphere;
use crate::shape::sphere::root_den;
use crate::shape::sphere::sphere_hit_exists;
use crate::shape::sphere::sphere_t_num;
use crate::shape::sphere::t_above_eps;

verus! {

/// Bound on a primitive's radius scaled by its transform denominator; with
/// the world-ray denominator bound this keeps the kernel's inputs in range.
pub const PRIM_RADIUS_BOUND: i64 = 0x40_0000;

/// Entry bound on a primitive's placement frame.
pub const PRIM_FRAME_BOUND: i64 = 0x200;

/// A shape placed in the world: the shape itself, the placement transform,
/// and an opaque handle naming the material, resolved by the shading stage.
#[derive(Clone, Copy, Debug)]
pub struct Primitive {
    /// The shape of the object, in its own canonical space.
    pub shape: Sphere,
    /// The placement applied to this primitive.
    pub transform: Transform,
    /// Handle of the material of the object.
    pub material: usize,
}

/// The object-space x numerator of the accepted hit point.
pub open spec fn local_hit_x(r: int, obj: Ray) -> int {
    obj.p.x * root_den(obj) + sphere_t_num(r, obj) * obj.d.x
}

/// The object-space y numerator of the accepted hit point.
pub open spec fn local_hit_y(r: int, obj: Ray) -> int {
    obj.p.y * root_den(obj) + sphere_t_num(r, obj) * obj.d.y
}

/// The object-space z numerator of the accepted hit point.
pub open spec fn local_hit_z(r: int, obj: Ray) -> int {
    obj.p.z * root_den(obj) + sphere_t_num(r, obj) * obj.d.z
}

/// Whether the ray hits the primitive: the object-space quadratic has an
/// accepted root.
pub open spec fn prim_hits(p: Primitive, ray: Ray) -> bool {
    sphere_hit_exists(p.shape.r as int, p.obj_ray(ray))
}

/// Numerator of the primitive's accepted ray parameter.
pub open spec fn prim_t_num(p: Primitive, ray: Ray) -> int {
    sphere_t_num(p.shape.r as int, p.obj_ray(ray))
}

/// Positive denominator of the primitive's accepted ray parameter.
pub open spec fn prim_t_den(p: Primitive, ray: Ray) -> int {
    root_den(p.obj_ray(ray))
}

/// Whether the hit of `a` comes strictly earlier along the ray than the
/// hit of `b`: exact comparison of `t_a < t_b` by cross-multiplication
/// over the positive denominators.
pub open spec fn hit_earlier(a: Primitive, b: Primitive, ray: Ray) -> bool {
    prim_t_num(a, ray) * prim_t_den(b, ray) < prim_t_num(b, ray) * prim_t_den(a, ray)
}

/// Whether the hit of `a` comes no later along the ray than the hit of
/// `b`: exact comparison of `t_a <= t_b` by cross-multiplication.
pub open spec fn hit_no_later(a: Primitive, b: Primitive, ray: Ray) -> bool {
    prim_t_num(a, ray) * prim_t_den(b, ray) <= prim_t_num(b, ray) * prim_t_den(a, ray)
}

/// A rational with positive denominator that is no later than a second,
/// which is no later than a third, is no later than the third.
pub proof fn lemma_rational_le_trans(xa: int, ya: int, xb: int, yb: int, xc: int, yc: int)
    by (nonlinear_arith)
    requires
        ya > 0,
        yb > 0,
        yc > 0,
        xa * yb <= xb * ya,
        xb * yc <= xc * yb,
    ensures
        xa * yc <= xc * ya,
{
}

/// The world-space hit record that intersecting `p` with `ray` yields,
/// apart from the primitive index: the exact accepted parameter, the world
/// ray evaluated at it, the frame's image of the object-space normal, and
/// the facing flag.
pub open spec fn hit_record_matches(p: Primitive, ray: Ray, h: HitRecord) -> bool {
    let obj = p.obj_ray(ray);
    let r = p.shape.r as int;
    &&& h.t_num == sphere_t_num(r, obj)
    &&& h.t_den == root_den(obj)
    &&& h.t_den > 0
    &&& t_above_eps(h.t_num as int, h.t_den as int)
    &&& -0x8000_0000_0000_0000 <= h.t_num <= 0x8000_0000_0000_0000
    &&& h.t_den <= 0x8000_0000_0000_0000
    &&& h.p.x == ray.p.x * h.t_den + h.t_num * ray.d.x
    &&& h.p.y == ray.p.y * h.t_den + h.t_num * ray.d.y
    &&& h.p.z == ray.p.z * h.t_den + h.t_num * ray.d.z
    &&& h.n.x == p.transform.col_u().x * local_hit_x(r, obj) + p.transform.col_v().x * local_hit_y(
        r,
        obj,
    ) + p.transform.col_w().x * local_hit_z(r, obj)
    &&& h.n.y == p.transform.col_u().y * local_hit_x(r, obj) + p.transform.col_v().y * local_hit_y(
        r,
        obj,
    ) + p.transform.col_w().y * local_hit_z(r, obj)
    &&& h.n.z == p.transform.col_u().z * local_hit_x(r, obj) + p.transform.col_v().z * local_hit_y(
        r,
        obj,
    ) + p.transform.col_w().z * local_hit_z(r, obj)
    &&& h.front_facing == (local_hit_x(r, obj) * obj.d.x + local_hit_y(r, obj) * obj.d.y
        + local_hit_z(r, obj) * obj.d.z < 0)
}

impl Primitive {
    /// Structural soundness: a valid transform with a compact frame and a
    /// radius that keeps the intersection kernel within machine bounds.
    pub open spec fn wf(self) -> bool {
        &&& self.transform.wf()
        &&& self.transform.mat.bounded(PRIM_FRAME_BOUND as int)
        &&& self.shape.wf()
        &&& self.shape.r * self.transform.den <= PRIM_RADIUS_BOUND
    }

    pub fn new(shape: Sphere, transform: Transform, material: usize) -> (r: Primitive)
        ensures
            r.shape == shape,
            r.transform == transform,
            r.material == material,
    {
        Primitive { shape, transform, material }
    }

    /// The ray in this primitive's object space.
    pub open spec fn obj_ray(self, ray: Ray) -> Ray {
        ray.spec_apply_inv(self.transform)
    }

    /// Intersects a world-space ray with this primitive. The ray is pulled
    /// into object space, the shape reports the accepted root, and the hit
    /// is lifted back: the world point is the world ray evaluated at the
    /// same exact parameter, and the normal direction is the frame's image
    /// of the object-space normal (for an orthogonal frame the
    /// inverse-transpose of the linear part is that same linear part,
    /// scaled), so it is correct for every admissible placement.
    pub fn intersect(&self, ray: &Ray) -> (res: Option<HitRecord>)
        requires
            self.wf(),
            ray.in_world_bounds(),
        ensures
            res is Some <==> prim_hits(*self, *ray),
            res matches Some(h) ==> hit_record_matches(*self, *ray, h) && h.prim == 0,
    {
        proof {
            lemma_obj_ray_bounds(*ray, self.transform);
            assert(self.shape.r * (ray.den * self.transform.den) <= 0x2000_0000)
                by (nonlinear_arith)
                requires
                    self.shape.r * self.transform.den <= PRIM_RADIUS_BOUND,
                    1 <= ray.den <= 64,
                    1 <= self.transform.den,
                    self.shape.r >= 1,
            ;
        }
        let obj = ray.apply_inv(&self.transform);
        let local = match self.shape.intersect_local(&obj) {
            Some(local) => local,
            None => {
                return None;
            },
        };
        proof {
            lemma_local_hit_bounds(obj, local.t_num as int, local.t_den as int);
        }
        let p = ray.at(local.t_num, local.t_den);
        let u = Vec3::new(
            self.transform.mat.m[0],
            self.transform.mat.m[4],
            self.transform.mat.m[8],
        );
        let v = Vec3::new(
            self.transform.mat.m[1],
            self.transform.mat.m[5],
            self.transform.mat.m[9],
        );
        let w = Vec3::new(
            self.transform.mat.m[2],
            self.transform.mat.m[6],
            self.transform.mat.m[10],
        );
        proof {
            assert(u == self.transform.col_u());
            assert(v == self.transform.col_v());
            assert(w == self.transform.col_w());
        }
        proof {
            let nb = 0x2000_0000_0000_0000_0000_0000int;
            let fb = PRIM_FRAME_BOUND as int;
            lemma_mul_bounds(u.x as int, local.n.x as int, fb, nb);
            lemma_mul_bounds(v.x as int, local.n.y as int, fb, nb);
            lemma_mul_bounds(w.x as int, local.n.z as int, fb, nb);
            lemma_mul_bounds(u.y as int, local.n.x as int, fb, nb);
            lemma_mul_bounds(v.y as int, local.n.y as int, fb, nb);
            lemma_mul_bounds(w.y as int, local.n.z as int, fb, nb);
            lemma_mul_bounds(u.z as int, local.n.x as int, fb, nb);
            lemma_mul_bounds(v.z as int, local.n.y as int, fb, nb);
            lemma_mul_bounds(w.z as int, local.n.z as int, fb, nb);
            lemma_mul_bounds(local.n.x as int, obj.d.x as int, nb, 0x2000_0000);
            lemma_mul_bounds(local.n.y as int, obj.d.y as int, nb, 0x2000_0000);
            lemma_mul_bounds(local.n.z as int, obj.d.z as int, nb, 0x2000_0000);
        }
        let nx = (u.x as i128) * local.n.x + (v.x as i128) * local.n.y + (w.x as i128) * local.n.z;
        let ny = (u.y as i128) * local.n.x + (v.y as i128) * local.n.y + (w.y as i128) * local.n.z;
        let nz = (u.z as i128) * local.n.x + (v.z as i128) * local.n.y + (w.z as i128) * local.n.z;
        let facing = local.n.x * (obj.d.x as i128) + local.n.y * (obj.d.y as i128) + local.n.z * (
        obj.d.z as i128);
        Some(
            HitRecord {
                t_num: local.t_num,
                t_den: local.t_den,
                p,
                n: WidePoint { x: nx, y: ny, z: nz },
                front_facing: facing < 0,
                prim: 0,
            },
        )
    }
}

/// Magnitude bounds for the object-space hit point numerators: the kernel
/// keeps the ray parameter within `2^66` over a positive denominator, so
/// every product in the lift back to world space fits the wide word.
proof fn lemma_local_hit_bounds(obj: Ray, t_num: int, t_den: int)
    requires
        obj.p.bounded(0x2000_0000),
        obj.d.bounded(0x2000_0000),
        -0x8000_0000_0000_0000 <= t_num <= 0x8000_0000_0000_0000,
        0 < t_den <= 0x8000_0000_0000_0000,
    ensures
        -0x2000_0000_0000_0000_0000_0000 <= obj.p.x * t_den + t_num * obj.d.x
            <= 0x2000_0000_0000_0000_0000_0000,
        -0x2000_0000_0000_0000_0000_0000 <= obj.p.y * t_den + t_num * obj.d.y
            <= 0x2000_0000_0000_0000_0000_0000,
        -0x2000_0000_0000_0000_0000_0000 <= obj.p.z * t_den + t_num * obj.d.z
            <= 0x2000_0000_0000_0000_0000_0000,
{
    lemma_mul_bounds(obj.p.x as int, t_den, 0x2000_0000, 0x8000_0000_0000_0000);
    lemma_mul_bounds(obj.p.y as int, t_den, 0x2000_0000, 0x8000_0000_0000_0000);
    lemma_mul_bounds(obj.p.z as int, t_den, 0x2000_0000, 0x8000_0000_0000_0000);
    lemma_mul_bounds(t_num, obj.d.x as int, 0x8000_0000_0000_0000, 0x2000_0000);
    lemma_mul_bounds(t_num, obj.d.y as int, 0x8000_0000_0000_0000, 0x2000_0000);
    lemma_mul_bounds(t_num, obj.d.z as int, 0x8000_0000_0000_0000, 0x2000_0000);
}

} // verus!
