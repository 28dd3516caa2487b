//! The shape interface and the hit records that intersections produce.

pub mod primitive;
pub mod sphere;

use vstd::prelude::*;
use crate::accel::aabb::Aabb;
use crate::render::ray::Ray;
use crate::render::ray::WidePoint;

verus! {

/// Local-space intersection: the ray is given in the shape's own canonical
/// object space.
pub trait Shape {
    /// The smallest ray parameter above the shared epsilon at which the
    /// ray meets the shape, with the object-space hit point and normal
    /// direction; `None` when no root exceeds the epsilon.
    fn intersect_local(&self, ray: &Ray) -> Option<LocalHitRecord>;
}

/// A shape that can report a tight object-space bounding box.
pub trait Boundable {
    fn bounds(&self) -> Aabb;
}

/// The full capability set a primitive needs from its shape.
pub trait Geometry: Shape + Boundable {

}

/// Object-space hit record. The ray parameter is the exact rational
/// `t_num / t_den`; the hit point and (unnormalized) normal direction are
/// numerators over the denominator `ray.den * t_den`.
///
/// Hit records carry no `u, v` surface parametrization: it is defined
/// through `acos` and `atan2`, which have no exact integer form, so
/// texture coordinates are left to the floating-point shading stage,
/// which can recover them from the hit point and normal.
#[derive(Clone, Copy, Debug, PartialEq, Eq, Structural)]
pub struct LocalHitRecord {
    /// Numerator of the ray parameter.
    pub t_num: i128,
    /// Positive denominator of the ray parameter.
    pub t_den: i128,
    /// Object-space hit point, as numerators.
    pub p: WidePoint,
    /// Object-space normal direction, unnormalized.
    pub n: WidePoint,
}

/// World-space hit record: the same exact ray parameter, the world-space
/// hit point and normal direction, whether the surface faces the ray, and
/// the index of the primitive that was hit, for later material lookup.
#[derive(Clone, Copy, Debug, PartialEq, Eq, Structural)]
pub struct HitRecord {
    /// Numerator of the ray parameter.
    pub t_num: i128,
    /// Positive denominator of the ray parameter.
    pub t_den: i128,
    /// World-space hit point, as numerators over `ray.den * t_den`.
    pub p: WidePoint,
    /// World-space normal direction, unnormalized.
    pub n: WidePoint,
    /// Whether the normal faces against the ray direction.
    pub front_facing: bool,
    /// Index of the primitive that was hit.
    pub prim: usize,
}

} // verus!
