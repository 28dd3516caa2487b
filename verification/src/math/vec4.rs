//! Homogeneous four-component vectors over integer-scaled coordinates.

use vstd::prelude::*;
use crate::math::vec3::Vec3;

verus! {

/// A homogeneous vector: three spatial components and a weight.
#[derive(Clone, Copy, Debug, PartialEq, Eq, Structural)]
pub struct Vec4 {
    pub x: i64,
    pub y: i64,
    pub z: i64,
    pub w: i64,
}

/// The dot product of `a` and `b` as a mathematical integer.
pub open spec fn spec_dot4(a: Vec4, b: Vec4) -> int {
    a.x * b.x + a.y * b.y + a.z * b.z + a.w * b.w
}

impl Vec4 {
    /// Whether every component lies in `[-b, b]`.
    pub open spec fn bounded(self, b: int) -> bool {
        -b <= self.x <= b && -b <= self.y <= b && -b <= self.z <= b && -b <= self.w <= b
    }

    pub fn new(x: i64, y: i64, z: i64, w: i64) -> (r: Vec4)
        ensures
            r == (Vec4 { x, y, z, w }),
    {
        Vec4 { x, y, z, w }
    }

    pub fn zero() -> (r: Vec4)
        ensures
            r == (Vec4 { x: 0i64, y: 0i64, z: 0i64, w: 0i64 }),
    {
        Vec4 { x: 0, y: 0, z: 0, w: 0 }
    }

    /// The dot product, computed exactly in a wide word.
    pub fn dot(&self, rhs: &Vec4) -> (r: i128)
        requires
            self.bounded(0x4000_0000_0000_0000),
            rhs.bounded(0x4000_0000_0000_0000),
        ensures
            r == spec_dot4(*self, *rhs),
    {
        proof {
            crate::arith::lemma_mul_bounds(
                self.x as int, rhs.x as int, 0x4000_0000_0000_0000, 0x4000_0000_0000_0000,
            );
            crate::arith::lemma_mul_bounds(
                self.y as int, rhs.y as int, 0x4000_0000_0000_0000, 0x4000_0000_0000_0000,
            );
            crate::arith::lemma_mul_bounds(
                self.z as int, rhs.z as int, 0x4000_0000_0000_0000, 0x4000_0000_0000_0000,
            );
            crate::arith::lemma_mul_bounds(
                self.w as int, rhs.w as int, 0x4000_0000_0000_0000, 0x4000_0000_0000_0000,
            );
        }
        (self.x as i128) * (rhs.x as i128) + (self.y as i128) * (rhs.y as i128) + (self.z as i128)
            * (rhs.z as i128) + (self.w as i128) * (rhs.w as i128)
    }

    /// The spatial components of a homogeneous point with unit weight.
    ///
    /// A general perspective divide by `w` has no exact form on the
    /// integer grid, so this conversion is restricted to `w == 1`; where
    /// the pipeline produces points over a nontrivial weight it keeps the
    /// numerators and the denominator explicit (see the ray type) instead
    /// of dividing.
    pub fn to_inhomo(&self) -> (r: Vec3)
        requires
            self.w == 1,
        ensures
            r == (Vec3 { x: self.x, y: self.y, z: self.z }),
    {
        Vec3 { x: self.x, y: self.y, z: self.z }
    }
}

impl Vec3 {
    /// The homogeneous point form, with weight one.
    pub fn to_homo(&self) -> (r: Vec4)
        ensures
            r == (Vec4 { x: self.x, y: self.y, z: self.z, w: 1i64 }),
    {
        Vec4 { x: self.x, y: self.y, z: self.z, w: 1 }
    }
}

} // verus!
