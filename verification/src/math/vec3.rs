//! Three-component vectors and points over integer-scaled coordinates.
//!
//! Coordinates are plain `i64` values on a caller-chosen uniform grid; all
//! operations are exact, so every contract is an equation over the
//! mathematical integers.

use vstd::prelude::*;
use crate::arith::isqrt;
use crate::arith::lemma_mul_bounds;

verus! {

/// A vector (or point) with three integer-scaled components.
#[derive(Clone, Copy, Debug, PartialEq, Eq, Structural)]
pub struct Vec3 {
    pub x: i64,
    pub y: i64,
    pub z: i64,
}

/// The dot product of `a` and `b` as a mathematical integer.
pub open spec fn spec_dot(a: Vec3, b: Vec3) -> int {
    a.x * b.x + a.y * b.y + a.z * b.z
}

/// Bound on a dot product of componentwise-bounded vectors.
pub proof fn lemma_dot_bound(a: Vec3, b: Vec3, ba: int, bb: int) by (nonlinear_arith)
    requires
        ba >= 0,
        bb >= 0,
        a.bounded(ba),
        b.bounded(bb),
    ensures
        -3 * ba * bb <= spec_dot(a, b) <= 3 * ba * bb,
{
}

impl Vec3 {
    /// Whether every component lies in `[-b, b]`.
    pub open spec fn bounded(self, b: int) -> bool {
        -b <= self.x <= b && -b <= self.y <= b && -b <= self.z <= b
    }

    pub fn new(x: i64, y: i64, z: i64) -> (r: Vec3)
        ensures
            r == (Vec3 { x, y, z }),
    {
        Vec3 { x, y, z }
    }

    pub fn zero() -> (r: Vec3)
        ensures
            r == (Vec3 { x: 0i64, y: 0i64, z: 0i64 }),
    {
        Vec3 { x: 0, y: 0, z: 0 }
    }

    /// Componentwise sum.
    pub fn add(self, other: Vec3) -> (r: Vec3)
        requires
            i64::MIN <= self.x + other.x <= i64::MAX,
            i64::MIN <= self.y + other.y <= i64::MAX,
            i64::MIN <= self.z + other.z <= i64::MAX,
        ensures
            r.x == self.x + other.x,
            r.y == self.y + other.y,
            r.z == self.z + other.z,
    {
        Vec3 { x: self.x + other.x, y: self.y + other.y, z: self.z + other.z }
    }

    /// Componentwise difference.
    pub fn sub(self, other: Vec3) -> (r: Vec3)
        requires
            i64::MIN <= self.x - other.x <= i64::MAX,
            i64::MIN <= self.y - other.y <= i64::MAX,
            i64::MIN <= self.z - other.z <= i64::MAX,
        ensures
            r.x == self.x - other.x,
            r.y == self.y - other.y,
            r.z == self.z - other.z,
    {
        Vec3 { x: self.x - other.x, y: self.y - other.y, z: self.z - other.z }
    }

    /// The vector scaled by `s`.
    pub fn scale(self, s: i64) -> (r: Vec3)
        requires
            i64::MIN <= self.x * s <= i64::MAX,
            i64::MIN <= self.y * s <= i64::MAX,
            i64::MIN <= self.z * s <= i64::MAX,
        ensures
            r.x == self.x * s,
            r.y == self.y * s,
            r.z == self.z * s,
    {
        Vec3 { x: self.x * s, y: self.y * s, z: self.z * s }
    }

    /// The opposite vector.
    pub fn neg(self) -> (r: Vec3)
        requires
            self.x > i64::MIN,
            self.y > i64::MIN,
            self.z > i64::MIN,
        ensures
            r.x == -self.x,
            r.y == -self.y,
            r.z == -self.z,
    {
        Vec3 { x: -self.x, y: -self.y, z: -self.z }
    }

    /// The dot product, computed exactly in a wide word.
    pub fn dot(&self, rhs: &Vec3) -> (r: i128)
        requires
            self.bounded(0x4000_0000_0000_0000),
            rhs.bounded(0x4000_0000_0000_0000),
        ensures
            r == spec_dot(*self, *rhs),
    {
        proof {
            lemma_mul_bounds(
                self.x as int, rhs.x as int, 0x4000_0000_0000_0000, 0x4000_0000_0000_0000,
            );
            lemma_mul_bounds(
                self.y as int, rhs.y as int, 0x4000_0000_0000_0000, 0x4000_0000_0000_0000,
            );
            lemma_mul_bounds(
                self.z as int, rhs.z as int, 0x4000_0000_0000_0000, 0x4000_0000_0000_0000,
            );
        }
        (self.x as i128) * (rhs.x as i128) + (self.y as i128) * (rhs.y as i128) + (self.z as i128)
            * (rhs.z as i128)
    }

    /// The cross product.
    pub fn cross(&self, rhs: &Vec3) -> (r: Vec3)
        requires
            self.bounded(0x4000_0000_0000_0000),
            rhs.bounded(0x4000_0000_0000_0000),
            i64::MIN <= self.y * rhs.z - self.z * rhs.y <= i64::MAX,
            i64::MIN <= self.z * rhs.x - self.x * rhs.z <= i64::MAX,
            i64::MIN <= self.x * rhs.y - self.y * rhs.x <= i64::MAX,
        ensures
            r.x == self.y * rhs.z - self.z * rhs.y,
            r.y == self.z * rhs.x - self.x * rhs.z,
            r.z == self.x * rhs.y - self.y * rhs.x,
    {
        proof {
            lemma_mul_bounds(
                self.y as int, rhs.z as int, 0x4000_0000_0000_0000, 0x4000_0000_0000_0000,
            );
            lemma_mul_bounds(
                self.z as int, rhs.y as int, 0x4000_0000_0000_0000, 0x4000_0000_0000_0000,
            );
            lemma_mul_bounds(
                self.z as int, rhs.x as int, 0x4000_0000_0000_0000, 0x4000_0000_0000_0000,
            );
            lemma_mul_bounds(
                self.x as int, rhs.z as int, 0x4000_0000_0000_0000, 0x4000_0000_0000_0000,
            );
            lemma_mul_bounds(
                self.x as int, rhs.y as int, 0x4000_0000_0000_0000, 0x4000_0000_0000_0000,
            );
            lemma_mul_bounds(
                self.y as int, rhs.x as int, 0x4000_0000_0000_0000, 0x4000_0000_0000_0000,
            );
        }
        let x = ((self.y as i128) * (rhs.z as i128) - (self.z as i128) * (rhs.y as i128)) as i64;
        let y = ((self.z as i128) * (rhs.x as i128) - (self.x as i128) * (rhs.z as i128)) as i64;
        let z = ((self.x as i128) * (rhs.y as i128) - (self.y as i128) * (rhs.x as i128)) as i64;
        Vec3 { x, y, z }
    }

    /// The squared Euclidean length, exact.
    pub fn length_squared(&self) -> (r: i128)
        requires
            self.bounded(0x4000_0000_0000_0000),
        ensures
            r == spec_dot(*self, *self),
            r >= 0,
    {
        let r = self.dot(self);
        proof {
            assert(self.x * self.x >= 0) by (nonlinear_arith);
            assert(self.y * self.y >= 0) by (nonlinear_arith);
            assert(self.z * self.z >= 0) by (nonlinear_arith);
        }
        r
    }

    /// The Euclidean length rounded down to the grid: the greatest `r` with
    /// `r * r <= |self|^2`.
    pub fn length(&self) -> (r: i64)
        requires
            self.bounded(0x4000_0000_0000_0000),
        ensures
            r >= 0,
            r * r <= spec_dot(*self, *self),
            spec_dot(*self, *self) < (r + 1) * (r + 1),
    {
        let ls = self.length_squared();
        proof {
            assert(self.x * self.x <= 0x1000_0000_0000_0000_0000_0000_0000_0000) by (nonlinear_arith)
                requires
                    -0x4000_0000_0000_0000 <= self.x <= 0x4000_0000_0000_0000,
            ;
            assert(self.y * self.y <= 0x1000_0000_0000_0000_0000_0000_0000_0000) by (nonlinear_arith)
                requires
                    -0x4000_0000_0000_0000 <= self.y <= 0x4000_0000_0000_0000,
            ;
            assert(self.z * self.z <= 0x1000_0000_0000_0000_0000_0000_0000_0000) by (nonlinear_arith)
                requires
                    -0x4000_0000_0000_0000 <= self.z <= 0x4000_0000_0000_0000,
            ;
        }
        let r = isqrt(ls as u128);
        proof {
            assert(r * r <= ls as u128);
            assert(r < 0x8000_0000_0000_0000) by (nonlinear_arith)
                requires
                    r * r <= ls as u128,
                    (ls as u128) < 0x4000_0000_0000_0000_0000_0000_0000_0000,
            ;
        }
        r as i64
    }
}

} // verus!
