//! Core of an offline ray tracer: exact-arithmetic vector/matrix algebra,
//! coordinate transforms, ray-shape intersection, a bounding-volume
//! hierarchy, scene-level nearest-hit resolution, and camera ray generation.
//!
//! All geometry is carried in integer-scaled coordinates so that every
//! intersection decision is exact and provable; ray parameters are exact
//! rationals. Points, directions and radii quantize freely to the integer
//! grid, but placement and camera frames must be exactly orthogonal with a
//! common squared norm on that grid (axis-aligned frames at any scale, or
//! rotated frames built from equal-norm integer vectors): a rounded
//! floating-point rotation is almost never exactly orthogonal and is
//! rejected as a degenerate basis.

pub mod accel;
pub mod arith;
pub mod math;
pub mod options;
pub mod render;
pub mod rng;
pub mod scene;
pub mod shape;

use vstd::prelude::*;

verus! {

/// Numerator of the shared self-intersection epsilon: a ray parameter is
/// accepted only when it strictly exceeds `T_EPS_NUM / T_EPS_DEN`. One
/// constant serves every shape and the acceleration structure alike, so
/// shadow-acne behaviour stays consistent.
pub const T_EPS_NUM: i64 = 1;

/// Denominator of the shared self-intersection epsilon.
pub const T_EPS_DEN: i64 = 1_000_000;

/// Failures of geometric construction. Per-ray "no hit" outcomes are
/// ordinary `None` values, never errors.
#[derive(Clone, Copy, Debug, PartialEq, Eq, Structural)]
pub enum GeomError {
    /// General 4x4 inversion was attempted on a non-invertible matrix.
    SingularMatrix,
    /// An orthogonal-frame construction was given a degenerate basis.
    DegenerateBasis,
}

} // verus!
