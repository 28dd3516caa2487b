//! Axis-aligned bounding boxes over integer-scaled coordinates.
//!
//! A box is always non-empty: `min <= max` on every axis. The empty state
//! is represented explicitly by `Option<Aabb>` at the places that need it,
//! never by a sentinel value.

use vstd::prelude::*;
use crate::math::vec3::Vec3;

verus! {

/// An axis-aligned box `[min, max]`, inclusive on both ends.
#[derive(Clone, Copy, Debug, PartialEq, Eq, Structural)]
pub struct Aabb {
    pub min: Vec3,
    pub max: Vec3,
}

impl Aabb {
    /// The box is non-empty on every axis.
    pub open spec fn wf(self) -> bool {
        self.min.x <= self.max.x && self.min.y <= self.max.y && self.min.z <= self.max.z
    }

    /// Whether this box contains `other` entirely.
    pub open spec fn contains_box(self, other: Aabb) -> bool {
        &&& self.min.x <= other.min.x && other.max.x <= self.max.x
        &&& self.min.y <= other.min.y && other.max.y <= self.max.y
        &&& self.min.z <= other.min.z && other.max.z <= self.max.z
    }

    /// Whether this box contains the point `p`.
    pub open spec fn contains_point(self, p: Vec3) -> bool {
        &&& self.min.x <= p.x <= self.max.x
        &&& self.min.y <= p.y <= self.max.y
        &&& self.min.z <= p.z <= self.max.z
    }

    pub fn new(min: Vec3, max: Vec3) -> (r: Aabb)
        requires
            min.x <= max.x,
            min.y <= max.y,
            min.z <= max.z,
        ensures
            r == (Aabb { min, max }),
            r.wf(),
    {
        Aabb { min, max }
    }

    /// The smallest box containing both inputs.
    pub fn union(&self, other: &Aabb) -> (r: Aabb)
        requires
            self.wf(),
            other.wf(),
        ensures
            r.wf(),
            r.contains_box(*self),
            r.contains_box(*other),
            r.min.x == if self.min.x <= other.min.x { self.min.x } else { other.min.x },
            r.min.y == if self.min.y <= other.min.y { self.min.y } else { other.min.y },
            r.min.z == if self.min.z <= other.min.z { self.min.z } else { other.min.z },
            r.max.x == if self.max.x >= other.max.x { self.max.x } else { other.max.x },
            r.max.y == if self.max.y >= other.max.y { self.max.y } else { other.max.y },
            r.max.z == if self.max.z >= other.max.z { self.max.z } else { other.max.z },
    {
        Aabb {
            min: Vec3 {
                x: if self.min.x <= other.min.x { self.min.x } else { other.min.x },
                y: if self.min.y <= other.min.y { self.min.y } else { other.min.y },
                z: if self.min.z <= other.min.z { self.min.z } else { other.min.z },
            },
            max: Vec3 {
                x: if self.max.x >= other.max.x { self.max.x } else { other.max.x },
                y: if self.max.y >= other.max.y { self.max.y } else { other.max.y },
                z: if self.max.z >= other.max.z { self.max.z } else { other.max.z },
            },
        }
    }

    /// The centroid, rounded toward zero on each axis.
    pub fn centroid(&self) -> (r: Vec3)
        requires
            self.wf(),
            self.min.bounded(0x1000_0000_0000_0000),
            self.max.bounded(0x1000_0000_0000_0000),
        ensures
            r.x == halve(self.min.x + self.max.x),
            r.y == halve(self.min.y + self.max.y),
            r.z == halve(self.min.z + self.max.z),
    {
        Vec3 {
            x: half_toward_zero(self.min.x + self.max.x),
            y: half_toward_zero(self.min.y + self.max.y),
            z: half_toward_zero(self.min.z + self.max.z),
        }
    }

    /// The axis (0, 1 or 2) along which the box is widest.
    pub fn largest_extent_axis(&self) -> (r: usize)
        requires
            self.wf(),
            self.min.bounded(0x1000_0000_0000_0000),
            self.max.bounded(0x1000_0000_0000_0000),
        ensures
            r < 3,
            r == 0 ==> self.max.x - self.min.x >= self.max.y - self.min.y && self.max.x - self.min.x
                >= self.max.z - self.min.z,
            r == 1 ==> self.max.y - self.min.y >= self.max.x - self.min.x && self.max.y - self.min.y
                >= self.max.z - self.min.z,
            r == 2 ==> self.max.z - self.min.z >= self.max.x - self.min.x && self.max.z - self.min.z
                >= self.max.y - self.min.y,
    {
        let ex = self.max.x - self.min.x;
        let ey = self.max.y - self.min.y;
        let ez = self.max.z - self.min.z;
        if ex >= ey && ex >= ez {
            0
        } else if ey >= ez {
            1
        } else {
            2
        }
    }

    /// The coordinate of `v` along axis `axis`.
    pub open spec fn spec_axis(v: Vec3, axis: int) -> int {
        if axis == 0 {
            v.x as int
        } else if axis == 1 {
            v.y as int
        } else {
            v.z as int
        }
    }
}

/// Half of `s`, rounded toward zero.
pub open spec fn halve(s: int) -> int {
    if s >= 0 {
        s / 2
    } else {
        -((-s) / 2)
    }
}

/// Half of `s`, rounded toward zero.
pub fn half_toward_zero(s: i64) -> (r: i64)
    requires
        -0x4000_0000_0000_0000 <= s <= 0x4000_0000_0000_0000,
    ensures
        r == halve(s as int),
{
    if s >= 0 {
        s / 2
    } else {
        -((-s) / 2)
    }
}

/// The coordinate of `v` along axis `axis`.
pub fn axis_coord(v: &Vec3, axis: usize) -> (r: i64)
    requires
        axis < 3,
    ensures
        r == Aabb::spec_axis(*v, axis as int),
{
    if axis == 0 {
        v.x
    } else if axis == 1 {
        v.y
    } else {
        v.z
    }
}

} // verus!
