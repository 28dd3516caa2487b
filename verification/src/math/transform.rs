//! Affine transforms between object (or camera) space and world space.
//!
//! A transform is built once from an orthogonal frame `(u, v, w)` and an
//! origin `e`, and is immutable afterwards. Because the frame's columns are
//! mutually orthogonal with a common squared norm `den`, the inverse needs
//! no general inversion: it is the transposed linear part with translation
//! `(-u.e, -v.e, -w.e)`, scaled by `den`. Both composition orders multiply
//! to `den` times the identity, exactly.

use vstd::prelude::*;
use crate::GeomError;
use crate::math::matrix4::Matrix4;
use crate::math::vec3::Vec3;
use crate::math::vec3::spec_dot;

verus! {

/// Entry bound on frame vectors and origins handed to the constructor.
pub const FRAME_BOUND: i64 = 0x4000;

/// Entry `(i, j)` of the matrix product `a * b`.
pub open spec fn prod_entry(a: Matrix4, b: Matrix4, i: int, j: int) -> int {
    a.entry(i, 0) * b.entry(0, j) + a.entry(i, 1) * b.entry(1, j) + a.entry(i, 2) * b.entry(2, j)
        + a.entry(i, 3) * b.entry(3, j)
}

/// Whether `a * b` equals `d` times the identity.
pub open spec fn scaled_identity_product(a: Matrix4, b: Matrix4, d: int) -> bool {
    forall|i: int, j: int|
        0 <= i < 4 && 0 <= j < 4 ==> prod_entry(a, b, i, j) == if i == j {
            d
        } else {
            0int
        }
}

/// Whether `(u, v, w)` is an orthogonal frame of positive common squared
/// norm `d`: the three vectors are mutually orthogonal with `|u|^2 == |v|^2
/// == |w|^2 == d`, and so are the three rows of the matrix whose columns
/// they form.
pub open spec fn orthogonal_frame(u: Vec3, v: Vec3, w: Vec3, d: int) -> bool {
    &&& d >= 1
    &&& spec_dot(u, u) == d
    &&& spec_dot(v, v) == d
    &&& spec_dot(w, w) == d
    &&& spec_dot(u, v) == 0
    &&& spec_dot(u, w) == 0
    &&& spec_dot(v, w) == 0
    &&& u.x * u.x + v.x * v.x + w.x * w.x == d
    &&& u.y * u.y + v.y * v.y + w.y * w.y == d
    &&& u.z * u.z + v.z * v.z + w.z * w.z == d
    &&& u.x * u.y + v.x * v.y + w.x * w.y == 0
    &&& u.x * u.z + v.x * v.z + w.x * w.z == 0
    &&& u.y * u.z + v.y * v.z + w.y * w.z == 0
}

/// Transform between object (or camera) coordinates and world coordinates.
#[derive(Clone, Copy, Debug)]
pub struct Transform {
    /// Object-to-world matrix: columns `u, v, w, e`, affine bottom row.
    pub mat: Matrix4,
    /// World-to-object matrix, scaled by `den`.
    pub inv: Matrix4,
    /// The positive scale of `inv`: `mat * inv == inv * mat == den * I`.
    pub den: i64,
}

impl Transform {
    /// First frame column of the forward matrix.
    pub open spec fn col_u(self) -> Vec3 {
        Vec3 { x: self.mat.m[0], y: self.mat.m[4], z: self.mat.m[8] }
    }

    /// Second frame column of the forward matrix.
    pub open spec fn col_v(self) -> Vec3 {
        Vec3 { x: self.mat.m[1], y: self.mat.m[5], z: self.mat.m[9] }
    }

    /// Third frame column of the forward matrix.
    pub open spec fn col_w(self) -> Vec3 {
        Vec3 { x: self.mat.m[2], y: self.mat.m[6], z: self.mat.m[10] }
    }

    /// Origin column of the forward matrix.
    pub open spec fn origin(self) -> Vec3 {
        Vec3 { x: self.mat.m[3], y: self.mat.m[7], z: self.mat.m[11] }
    }

    /// The forward matrix is an affine frame matrix.
    pub open spec fn mat_affine(self) -> bool {
        self.mat.m[12] == 0 && self.mat.m[13] == 0 && self.mat.m[14] == 0 && self.mat.m[15] == 1
    }

    /// The inverse matrix is exactly the closed form: transposed linear
    /// part, translation `(-u.e, -v.e, -w.e)`, and `den` in the corner.
    pub open spec fn inv_closed_form(self) -> bool {
        &&& self.inv.m[0] == self.mat.m[0]
        &&& self.inv.m[1] == self.mat.m[4]
        &&& self.inv.m[2] == self.mat.m[8]
        &&& self.inv.m[4] == self.mat.m[1]
        &&& self.inv.m[5] == self.mat.m[5]
        &&& self.inv.m[6] == self.mat.m[9]
        &&& self.inv.m[8] == self.mat.m[2]
        &&& self.inv.m[9] == self.mat.m[6]
        &&& self.inv.m[10] == self.mat.m[10]
        &&& self.inv.m[3] == -spec_dot(self.col_u(), self.origin())
        &&& self.inv.m[7] == -spec_dot(self.col_v(), self.origin())
        &&& self.inv.m[11] == -spec_dot(self.col_w(), self.origin())
        &&& self.inv.m[12] == 0
        &&& self.inv.m[13] == 0
        &&& self.inv.m[14] == 0
        &&& self.inv.m[15] == self.den
    }

    /// Well-formedness: an orthogonal frame with exact closed-form inverse,
    /// within the entry bounds the rest of the kernel computes under.
    pub open spec fn wf(self) -> bool {
        &&& orthogonal_frame(self.col_u(), self.col_v(), self.col_w(), self.den as int)
        &&& self.mat_affine()
        &&& self.inv_closed_form()
        &&& self.mat.bounded(FRAME_BOUND as int)
        &&& self.inv.bounded(0x4000_0000)
        &&& 1 <= self.den <= 0x4000_0000
    }

    /// Builds the transform whose columns are the frame `(u, v, w)` and
    /// origin `e`. Succeeds exactly when the frame is orthogonal with a
    /// positive common squared norm; on success the forward and inverse
    /// matrices compose to `den` times the identity in both orders.
    pub fn new(e: Vec3, u: Vec3, v: Vec3, w: Vec3) -> (r: Result<Transform, GeomError>)
        requires
            u.bounded(FRAME_BOUND as int),
            v.bounded(FRAME_BOUND as int),
            w.bounded(FRAME_BOUND as int),
            e.bounded(FRAME_BOUND as int),
        ensures
            r matches Ok(t) ==> {
                &&& t.wf()
                &&& t.col_u() == u
                &&& t.col_v() == v
                &&& t.col_w() == w
                &&& t.origin() == e
                &&& t.den == spec_dot(u, u)
            },
            r is Err <==> !(exists|d: int| orthogonal_frame(u, v, w, d)),
            r matches Err(err) ==> err == GeomError::DegenerateBasis,
    {
        let uu = u.dot(&u);
        let vv = v.dot(&v);
        let ww = w.dot(&w);
        let uv = u.dot(&v);
        let uw = u.dot(&w);
        let vw = v.dot(&w);
        let rx = Vec3::new(u.x, v.x, w.x);
        let ry = Vec3::new(u.y, v.y, w.y);
        let rz = Vec3::new(u.z, v.z, w.z);
        let rxx = rx.dot(&rx);
        let ryy = ry.dot(&ry);
        let rzz = rz.dot(&rz);
        let rxy = rx.dot(&ry);
        let rxz = rx.dot(&rz);
        let ryz = ry.dot(&rz);
        if uu < 1 || vv != uu || ww != uu || uv != 0 || uw != 0 || vw != 0 || rxx != uu || ryy != uu
            || rzz != uu || rxy != 0 || rxz != 0 || ryz != 0 {
            proof {
                assert forall|d: int| !orthogonal_frame(u, v, w, d) by {}
            }
            return Err(GeomError::DegenerateBasis);
        }
        proof {
            crate::math::vec3::lemma_dot_bound(u, e, FRAME_BOUND as int, FRAME_BOUND as int);
            crate::math::vec3::lemma_dot_bound(v, e, FRAME_BOUND as int, FRAME_BOUND as int);
            crate::math::vec3::lemma_dot_bound(w, e, FRAME_BOUND as int, FRAME_BOUND as int);
            crate::math::vec3::lemma_dot_bound(u, u, FRAME_BOUND as int, FRAME_BOUND as int);
        }
        let den = uu as i64;
        let nue = (-u.dot(&e)) as i64;
        let nve = (-v.dot(&e)) as i64;
        let nwe = (-w.dot(&e)) as i64;
        let mat = Matrix4::new(
            [u.x, v.x, w.x, e.x, u.y, v.y, w.y, e.y, u.z, v.z, w.z, e.z, 0, 0, 0, 1],
        );
        let inv = Matrix4::new(
            [u.x, u.y, u.z, nue, v.x, v.y, v.z, nve, w.x, w.y, w.z, nwe, 0, 0, 0, den],
        );
        let t = Transform { mat, inv, den };
        proof {
            assert(t.col_u() == u);
            assert(t.col_v() == v);
            assert(t.col_w() == w);
            assert(t.origin() == e);
            assert(orthogonal_frame(u, v, w, den as int));
        }
        Ok(t)
    }

    /// The identity transform.
    pub fn new_identity() -> (r: Transform)
        ensures
            r.wf(),
            r.den == 1,
            r.mat.is_identity(),
            forall|i: int| 0 <= i < 16 ==> -1 <= #[trigger] r.mat.m[i] <= 1,
            r.inv == r.mat,
    {
        let mat = Matrix4::new_identity();
        let t = Transform { mat, inv: mat, den: 1 };
        proof {
            let u = t.col_u();
            let v = t.col_v();
            let w = t.col_w();
            let e = t.origin();
            assert(u.x == 1 && u.y == 0 && u.z == 0);
            assert(v.x == 0 && v.y == 1 && v.z == 0);
            assert(w.x == 0 && w.y == 0 && w.z == 1);
            assert(e.x == 0 && e.y == 0 && e.z == 0);
            assert(spec_dot(u, u) == 1);
            assert(spec_dot(v, v) == 1);
            assert(spec_dot(w, w) == 1);
            assert(spec_dot(u, v) == 0);
            assert(spec_dot(u, w) == 0);
            assert(spec_dot(v, w) == 0);
            assert(orthogonal_frame(u, v, w, 1));
            assert(t.inv_closed_form());
        }
        proof {
            assert forall|i: int| 0 <= i < 16 implies -(FRAME_BOUND as int) <= #[trigger] t.mat.m[i] <= (
            FRAME_BOUND as int) by {
                let r = i / 4;
                let c = i % 4;
                assert(t.mat.entry(r, c) == if r == c { 1int } else { 0int });
                assert(4 * r + c == i);
            }
        }
        t
    }
}

/// Every entry of `forward * inverse` equals the scaled identity pattern.
#[verifier::rlimit(100)]
proof fn lemma_identity_fwd(t: Transform)
    requires
        t.wf(),
    ensures
        scaled_identity_product(t.mat, t.inv, t.den as int),
{
    let u = t.col_u();
    let v = t.col_v();
    let w = t.col_w();
    let e = t.origin();
    let d = t.den as int;
    assert(t.inv.m[3] == -(t.mat.m[0] * t.mat.m[3] + t.mat.m[4] * t.mat.m[7] + t.mat.m[8]
        * t.mat.m[11]));
    assert(t.inv.m[7] == -(t.mat.m[1] * t.mat.m[3] + t.mat.m[5] * t.mat.m[7] + t.mat.m[9]
        * t.mat.m[11]));
    assert(t.inv.m[11] == -(t.mat.m[2] * t.mat.m[3] + t.mat.m[6] * t.mat.m[7] + t.mat.m[10]
        * t.mat.m[11]));
    lemma_commute3(
        t.mat.m[0] as int, t.mat.m[4] as int, t.mat.m[1] as int, t.mat.m[5] as int,
        t.mat.m[2] as int, t.mat.m[6] as int, 0,
    );
    lemma_commute3(
        t.mat.m[0] as int, t.mat.m[8] as int, t.mat.m[1] as int, t.mat.m[9] as int,
        t.mat.m[2] as int, t.mat.m[10] as int, 0,
    );
    lemma_commute3(
        t.mat.m[4] as int, t.mat.m[8] as int, t.mat.m[5] as int, t.mat.m[9] as int,
        t.mat.m[6] as int, t.mat.m[10] as int, 0,
    );
    lemma_commute3(
        t.mat.m[0] as int, t.mat.m[1] as int, t.mat.m[4] as int, t.mat.m[5] as int,
        t.mat.m[8] as int, t.mat.m[9] as int, 0,
    );
    lemma_commute3(
        t.mat.m[0] as int, t.mat.m[2] as int, t.mat.m[4] as int, t.mat.m[6] as int,
        t.mat.m[8] as int, t.mat.m[10] as int, 0,
    );
    lemma_commute3(
        t.mat.m[1] as int, t.mat.m[2] as int, t.mat.m[5] as int, t.mat.m[6] as int,
        t.mat.m[9] as int, t.mat.m[10] as int, 0,
    );
    lemma_frame_translation(
        t.mat.m[0] as int, t.mat.m[4] as int, t.mat.m[8] as int, t.mat.m[1] as int,
        t.mat.m[5] as int, t.mat.m[9] as int, t.mat.m[2] as int, t.mat.m[6] as int,
        t.mat.m[10] as int, t.mat.m[3] as int, t.mat.m[7] as int, t.mat.m[11] as int,
        t.inv.m[3] as int, t.inv.m[7] as int, t.inv.m[11] as int, d,
    );
    lemma_frame_translation(
        t.mat.m[4] as int, t.mat.m[0] as int, t.mat.m[8] as int, t.mat.m[5] as int,
        t.mat.m[1] as int, t.mat.m[9] as int, t.mat.m[6] as int, t.mat.m[2] as int,
        t.mat.m[10] as int, t.mat.m[7] as int, t.mat.m[3] as int, t.mat.m[11] as int,
        t.inv.m[3] as int, t.inv.m[7] as int, t.inv.m[11] as int, d,
    );
    lemma_frame_translation(
        t.mat.m[8] as int, t.mat.m[4] as int, t.mat.m[0] as int, t.mat.m[9] as int,
        t.mat.m[5] as int, t.mat.m[1] as int, t.mat.m[10] as int, t.mat.m[6] as int,
        t.mat.m[2] as int, t.mat.m[11] as int, t.mat.m[7] as int, t.mat.m[3] as int,
        t.inv.m[3] as int, t.inv.m[7] as int, t.inv.m[11] as int, d,
    );
    lemma_dot4_subst(
        t.mat.m[0] as int,
        t.mat.m[1] as int,
        t.mat.m[2] as int,
        t.mat.m[3] as int,
        t.inv.m[0] as int,
        t.inv.m[4] as int,
        t.inv.m[8] as int,
        t.inv.m[12] as int,
        t.mat.m[0] as int,
        t.mat.m[1] as int,
        t.mat.m[2] as int,
        t.mat.m[3] as int,
        t.mat.m[0] as int,
        t.mat.m[1] as int,
        t.mat.m[2] as int,
        0,
        d,
    );
    assert(prod_entry(t.mat, t.inv, 0, 0) == d);
    lemma_dot4_subst(
        t.mat.m[0] as int,
        t.mat.m[1] as int,
        t.mat.m[2] as int,
        t.mat.m[3] as int,
        t.inv.m[1] as int,
        t.inv.m[5] as int,
        t.inv.m[9] as int,
        t.inv.m[13] as int,
        t.mat.m[0] as int,
        t.mat.m[1] as int,
        t.mat.m[2] as int,
        t.mat.m[3] as int,
        t.mat.m[4] as int,
        t.mat.m[5] as int,
        t.mat.m[6] as int,
        0,
        0,
    );
    assert(prod_entry(t.mat, t.inv, 0, 1) == 0);
    lemma_dot4_subst(
        t.mat.m[0] as int,
        t.mat.m[1] as int,
        t.mat.m[2] as int,
        t.mat.m[3] as int,
        t.inv.m[2] as int,
        t.inv.m[6] as int,
        t.inv.m[10] as int,
        t.inv.m[14] as int,
        t.mat.m[0] as int,
        t.mat.m[1] as int,
        t.mat.m[2] as int,
        t.mat.m[3] as int,
        t.mat.m[8] as int,
        t.mat.m[9] as int,
        t.mat.m[10] as int,
        0,
        0,
    );
    assert(prod_entry(t.mat, t.inv, 0, 2) == 0);
    lemma_dot4_subst(
        t.mat.m[0] as int,
        t.mat.m[1] as int,
        t.mat.m[2] as int,
        t.mat.m[3] as int,
        t.inv.m[3] as int,
        t.inv.m[7] as int,
        t.inv.m[11] as int,
        t.inv.m[15] as int,
        t.mat.m[0] as int,
        t.mat.m[1] as int,
        t.mat.m[2] as int,
        t.mat.m[3] as int,
        t.inv.m[3] as int,
        t.inv.m[7] as int,
        t.inv.m[11] as int,
        d,
        0,
    );
    assert(prod_entry(t.mat, t.inv, 0, 3) == 0);
    lemma_dot4_subst(
        t.mat.m[4] as int,
        t.mat.m[5] as int,
        t.mat.m[6] as int,
        t.mat.m[7] as int,
        t.inv.m[0] as int,
        t.inv.m[4] as int,
        t.inv.m[8] as int,
        t.inv.m[12] as int,
        t.mat.m[4] as int,
        t.mat.m[5] as int,
        t.mat.m[6] as int,
        t.mat.m[7] as int,
        t.mat.m[0] as int,
        t.mat.m[1] as int,
        t.mat.m[2] as int,
        0,
        0,
    );
    assert(prod_entry(t.mat, t.inv, 1, 0) == 0);
    lemma_dot4_subst(
        t.mat.m[4] as int,
        t.mat.m[5] as int,
        t.mat.m[6] as int,
        t.mat.m[7] as int,
        t.inv.m[1] as int,
        t.inv.m[5] as int,
        t.inv.m[9] as int,
        t.inv.m[13] as int,
        t.mat.m[4] as int,
        t.mat.m[5] as int,
        t.mat.m[6] as int,
        t.mat.m[7] as int,
        t.mat.m[4] as int,
        t.mat.m[5] as int,
        t.mat.m[6] as int,
        0,
        d,
    );
    assert(prod_entry(t.mat, t.inv, 1, 1) == d);
    lemma_dot4_subst(
        t.mat.m[4] as int,
        t.mat.m[5] as int,
        t.mat.m[6] as int,
        t.mat.m[7] as int,
        t.inv.m[2] as int,
        t.inv.m[6] as int,
        t.inv.m[10] as int,
        t.inv.m[14] as int,
        t.mat.m[4] as int,
        t.mat.m[5] as int,
        t.mat.m[6] as int,
        t.mat.m[7] as int,
        t.mat.m[8] as int,
        t.mat.m[9] as int,
        t.mat.m[10] as int,
        0,
        0,
    );
    assert(prod_entry(t.mat, t.inv, 1, 2) == 0);
    lemma_dot4_subst(
        t.mat.m[4] as int,
        t.mat.m[5] as int,
        t.mat.m[6] as int,
        t.mat.m[7] as int,
        t.inv.m[3] as int,
        t.inv.m[7] as int,
        t.inv.m[11] as int,
        t.inv.m[15] as int,
        t.mat.m[4] as int,
        t.mat.m[5] as int,
        t.mat.m[6] as int,
        t.mat.m[7] as int,
        t.inv.m[3] as int,
        t.inv.m[7] as int,
        t.inv.m[11] as int,
        d,
        0,
    );
    assert(prod_entry(t.mat, t.inv, 1, 3) == 0);
    lemma_dot4_subst(
        t.mat.m[8] as int,
        t.mat.m[9] as int,
        t.mat.m[10] as int,
        t.mat.m[11] as int,
        t.inv.m[0] as int,
        t.inv.m[4] as int,
        t.inv.m[8] as int,
        t.inv.m[12] as int,
        t.mat.m[8] as int,
        t.mat.m[9] as int,
        t.mat.m[10] as int,
        t.mat.m[11] as int,
        t.mat.m[0] as int,
        t.mat.m[1] as int,
        t.mat.m[2] as int,
        0,
        0,
    );
    assert(prod_entry(t.mat, t.inv, 2, 0) == 0);
    lemma_dot4_subst(
        t.mat.m[8] as int,
        t.mat.m[9] as int,
        t.mat.m[10] as int,
        t.mat.m[11] as int,
        t.inv.m[1] as int,
        t.inv.m[5] as int,
        t.inv.m[9] as int,
        t.inv.m[13] as int,
        t.mat.m[8] as int,
        t.mat.m[9] as int,
        t.mat.m[10] as int,
        t.mat.m[11] as int,
        t.mat.m[4] as int,
        t.mat.m[5] as int,
        t.mat.m[6] as int,
        0,
        0,
    );
    assert(prod_entry(t.mat, t.inv, 2, 1) == 0);
    lemma_dot4_subst(
        t.mat.m[8] as int,
        t.mat.m[9] as int,
        t.mat.m[10] as int,
        t.mat.m[11] as int,
        t.inv.m[2] as int,
        t.inv.m[6] as int,
        t.inv.m[10] as int,
        t.inv.m[14] as int,
        t.mat.m[8] as int,
        t.mat.m[9] as int,
        t.mat.m[10] as int,
        t.mat.m[11] as int,
        t.mat.m[8] as int,
        t.mat.m[9] as int,
        t.mat.m[10] as int,
        0,
        d,
    );
    assert(prod_entry(t.mat, t.inv, 2, 2) == d);
    lemma_dot4_subst(
        t.mat.m[8] as int,
        t.mat.m[9] as int,
        t.mat.m[10] as int,
        t.mat.m[11] as int,
        t.inv.m[3] as int,
        t.inv.m[7] as int,
        t.inv.m[11] as int,
        t.inv.m[15] as int,
        t.mat.m[8] as int,
        t.mat.m[9] as int,
        t.mat.m[10] as int,
        t.mat.m[11] as int,
        t.inv.m[3] as int,
        t.inv.m[7] as int,
        t.inv.m[11] as int,
        d,
        0,
    );
    assert(prod_entry(t.mat, t.inv, 2, 3) == 0);
    lemma_dot4_subst(
        t.mat.m[12] as int,
        t.mat.m[13] as int,
        t.mat.m[14] as int,
        t.mat.m[15] as int,
        t.inv.m[0] as int,
        t.inv.m[4] as int,
        t.inv.m[8] as int,
        t.inv.m[12] as int,
        0,
        0,
        0,
        1,
        t.mat.m[0] as int,
        t.mat.m[1] as int,
        t.mat.m[2] as int,
        0,
        0,
    );
    assert(prod_entry(t.mat, t.inv, 3, 0) == 0);
    lemma_dot4_subst(
        t.mat.m[12] as int,
        t.mat.m[13] as int,
        t.mat.m[14] as int,
        t.mat.m[15] as int,
        t.inv.m[1] as int,
        t.inv.m[5] as int,
        t.inv.m[9] as int,
        t.inv.m[13] as int,
        0,
        0,
        0,
        1,
        t.mat.m[4] as int,
        t.mat.m[5] as int,
        t.mat.m[6] as int,
        0,
        0,
    );
    assert(prod_entry(t.mat, t.inv, 3, 1) == 0);
    lemma_dot4_subst(
        t.mat.m[12] as int,
        t.mat.m[13] as int,
        t.mat.m[14] as int,
        t.mat.m[15] as int,
        t.inv.m[2] as int,
        t.inv.m[6] as int,
        t.inv.m[10] as int,
        t.inv.m[14] as int,
        0,
        0,
        0,
        1,
        t.mat.m[8] as int,
        t.mat.m[9] as int,
        t.mat.m[10] as int,
        0,
        0,
    );
    assert(prod_entry(t.mat, t.inv, 3, 2) == 0);
    lemma_dot4_subst(
        t.mat.m[12] as int,
        t.mat.m[13] as int,
        t.mat.m[14] as int,
        t.mat.m[15] as int,
        t.inv.m[3] as int,
        t.inv.m[7] as int,
        t.inv.m[11] as int,
        t.inv.m[15] as int,
        0,
        0,
        0,
        1,
        t.inv.m[3] as int,
        t.inv.m[7] as int,
        t.inv.m[11] as int,
        d,
        d,
    );
    assert(prod_entry(t.mat, t.inv, 3, 3) == d);

    assert forall|i: int, j: int| 0 <= i < 4 && 0 <= j < 4 implies prod_entry(t.mat, t.inv, i, j)
        == if i == j {
        t.den as int
    } else {
        0int
    } by {
        assert(i == 0 || i == 1 || i == 2 || i == 3);
        assert(j == 0 || j == 1 || j == 2 || j == 3);
    }
}

/// Every entry of `inverse * forward` equals the scaled identity pattern.
#[verifier::rlimit(100)]
proof fn lemma_identity_inv(t: Transform)
    requires
        t.wf(),
    ensures
        scaled_identity_product(t.inv, t.mat, t.den as int),
{
    let u = t.col_u();
    let v = t.col_v();
    let w = t.col_w();
    let e = t.origin();
    let d = t.den as int;
    assert(t.inv.m[3] == -(t.mat.m[0] * t.mat.m[3] + t.mat.m[4] * t.mat.m[7] + t.mat.m[8]
        * t.mat.m[11]));
    assert(t.inv.m[7] == -(t.mat.m[1] * t.mat.m[3] + t.mat.m[5] * t.mat.m[7] + t.mat.m[9]
        * t.mat.m[11]));
    assert(t.inv.m[11] == -(t.mat.m[2] * t.mat.m[3] + t.mat.m[6] * t.mat.m[7] + t.mat.m[10]
        * t.mat.m[11]));
    lemma_commute3(
        t.mat.m[0] as int, t.mat.m[4] as int, t.mat.m[1] as int, t.mat.m[5] as int,
        t.mat.m[2] as int, t.mat.m[6] as int, 0,
    );
    lemma_commute3(
        t.mat.m[0] as int, t.mat.m[8] as int, t.mat.m[1] as int, t.mat.m[9] as int,
        t.mat.m[2] as int, t.mat.m[10] as int, 0,
    );
    lemma_commute3(
        t.mat.m[4] as int, t.mat.m[8] as int, t.mat.m[5] as int, t.mat.m[9] as int,
        t.mat.m[6] as int, t.mat.m[10] as int, 0,
    );
    lemma_commute3(
        t.mat.m[0] as int, t.mat.m[1] as int, t.mat.m[4] as int, t.mat.m[5] as int,
        t.mat.m[8] as int, t.mat.m[9] as int, 0,
    );
    lemma_commute3(
        t.mat.m[0] as int, t.mat.m[2] as int, t.mat.m[4] as int, t.mat.m[6] as int,
        t.mat.m[8] as int, t.mat.m[10] as int, 0,
    );
    lemma_commute3(
        t.mat.m[1] as int, t.mat.m[2] as int, t.mat.m[5] as int, t.mat.m[6] as int,
        t.mat.m[9] as int, t.mat.m[10] as int, 0,
    );
    lemma_dot4_subst(
        t.inv.m[0] as int,
        t.inv.m[1] as int,
        t.inv.m[2] as int,
        t.inv.m[3] as int,
        t.mat.m[0] as int,
        t.mat.m[4] as int,
        t.mat.m[8] as int,
        t.mat.m[12] as int,
        t.mat.m[0] as int,
        t.mat.m[4] as int,
        t.mat.m[8] as int,
        t.inv.m[3] as int,
        t.mat.m[0] as int,
        t.mat.m[4] as int,
        t.mat.m[8] as int,
        0,
        d,
    );
    assert(prod_entry(t.inv, t.mat, 0, 0) == d);
    lemma_dot4_subst(
        t.inv.m[0] as int,
        t.inv.m[1] as int,
        t.inv.m[2] as int,
        t.inv.m[3] as int,
        t.mat.m[1] as int,
        t.mat.m[5] as int,
        t.mat.m[9] as int,
        t.mat.m[13] as int,
        t.mat.m[0] as int,
        t.mat.m[4] as int,
        t.mat.m[8] as int,
        t.inv.m[3] as int,
        t.mat.m[1] as int,
        t.mat.m[5] as int,
        t.mat.m[9] as int,
        0,
        0,
    );
    assert(prod_entry(t.inv, t.mat, 0, 1) == 0);
    lemma_dot4_subst(
        t.inv.m[0] as int,
        t.inv.m[1] as int,
        t.inv.m[2] as int,
        t.inv.m[3] as int,
        t.mat.m[2] as int,
        t.mat.m[6] as int,
        t.mat.m[10] as int,
        t.mat.m[14] as int,
        t.mat.m[0] as int,
        t.mat.m[4] as int,
        t.mat.m[8] as int,
        t.inv.m[3] as int,
        t.mat.m[2] as int,
        t.mat.m[6] as int,
        t.mat.m[10] as int,
        0,
        0,
    );
    assert(prod_entry(t.inv, t.mat, 0, 2) == 0);
    lemma_dot4_subst(
        t.inv.m[0] as int,
        t.inv.m[1] as int,
        t.inv.m[2] as int,
        t.inv.m[3] as int,
        t.mat.m[3] as int,
        t.mat.m[7] as int,
        t.mat.m[11] as int,
        t.mat.m[15] as int,
        t.mat.m[0] as int,
        t.mat.m[4] as int,
        t.mat.m[8] as int,
        t.inv.m[3] as int,
        t.mat.m[3] as int,
        t.mat.m[7] as int,
        t.mat.m[11] as int,
        1,
        0,
    );
    assert(prod_entry(t.inv, t.mat, 0, 3) == 0);
    lemma_dot4_subst(
        t.inv.m[4] as int,
        t.inv.m[5] as int,
        t.inv.m[6] as int,
        t.inv.m[7] as int,
        t.mat.m[0] as int,
        t.mat.m[4] as int,
        t.mat.m[8] as int,
        t.mat.m[12] as int,
        t.mat.m[1] as int,
        t.mat.m[5] as int,
        t.mat.m[9] as int,
        t.inv.m[7] as int,
        t.mat.m[0] as int,
        t.mat.m[4] as int,
        t.mat.m[8] as int,
        0,
        0,
    );
    assert(prod_entry(t.inv, t.mat, 1, 0) == 0);
    lemma_dot4_subst(
        t.inv.m[4] as int,
        t.inv.m[5] as int,
        t.inv.m[6] as int,
        t.inv.m[7] as int,
        t.mat.m[1] as int,
        t.mat.m[5] as int,
        t.mat.m[9] as int,
        t.mat.m[13] as int,
        t.mat.m[1] as int,
        t.mat.m[5] as int,
        t.mat.m[9] as int,
        t.inv.m[7] as int,
        t.mat.m[1] as int,
        t.mat.m[5] as int,
        t.mat.m[9] as int,
        0,
        d,
    );
    assert(prod_entry(t.inv, t.mat, 1, 1) == d);
    lemma_dot4_subst(
        t.inv.m[4] as int,
        t.inv.m[5] as int,
        t.inv.m[6] as int,
        t.inv.m[7] as int,
        t.mat.m[2] as int,
        t.mat.m[6] as int,
        t.mat.m[10] as int,
        t.mat.m[14] as int,
        t.mat.m[1] as int,
        t.mat.m[5] as int,
        t.mat.m[9] as int,
        t.inv.m[7] as int,
        t.mat.m[2] as int,
        t.mat.m[6] as int,
        t.mat.m[10] as int,
        0,
        0,
    );
    assert(prod_entry(t.inv, t.mat, 1, 2) == 0);
    lemma_dot4_subst(
        t.inv.m[4] as int,
        t.inv.m[5] as int,
        t.inv.m[6] as int,
        t.inv.m[7] as int,
        t.mat.m[3] as int,
        t.mat.m[7] as int,
        t.mat.m[11] as int,
        t.mat.m[15] as int,
        t.mat.m[1] as int,
        t.mat.m[5] as int,
        t.mat.m[9] as int,
        t.inv.m[7] as int,
        t.mat.m[3] as int,
        t.mat.m[7] as int,
        t.mat.m[11] as int,
        1,
        0,
    );
    assert(prod_entry(t.inv, t.mat, 1, 3) == 0);
    lemma_dot4_subst(
        t.inv.m[8] as int,
        t.inv.m[9] as int,
        t.inv.m[10] as int,
        t.inv.m[11] as int,
        t.mat.m[0] as int,
        t.mat.m[4] as int,
        t.mat.m[8] as int,
        t.mat.m[12] as int,
        t.mat.m[2] as int,
        t.mat.m[6] as int,
        t.mat.m[10] as int,
        t.inv.m[11] as int,
        t.mat.m[0] as int,
        t.mat.m[4] as int,
        t.mat.m[8] as int,
        0,
        0,
    );
    assert(prod_entry(t.inv, t.mat, 2, 0) == 0);
    lemma_dot4_subst(
        t.inv.m[8] as int,
        t.inv.m[9] as int,
        t.inv.m[10] as int,
        t.inv.m[11] as int,
        t.mat.m[1] as int,
        t.mat.m[5] as int,
        t.mat.m[9] as int,
        t.mat.m[13] as int,
        t.mat.m[2] as int,
        t.mat.m[6] as int,
        t.mat.m[10] as int,
        t.inv.m[11] as int,
        t.mat.m[1] as int,
        t.mat.m[5] as int,
        t.mat.m[9] as int,
        0,
        0,
    );
    assert(prod_entry(t.inv, t.mat, 2, 1) == 0);
    lemma_dot4_subst(
        t.inv.m[8] as int,
        t.inv.m[9] as int,
        t.inv.m[10] as int,
        t.inv.m[11] as int,
        t.mat.m[2] as int,
        t.mat.m[6] as int,
        t.mat.m[10] as int,
        t.mat.m[14] as int,
        t.mat.m[2] as int,
        t.mat.m[6] as int,
        t.mat.m[10] as int,
        t.inv.m[11] as int,
        t.mat.m[2] as int,
        t.mat.m[6] as int,
        t.mat.m[10] as int,
        0,
        d,
    );
    assert(prod_entry(t.inv, t.mat, 2, 2) == d);
    lemma_dot4_subst(
        t.inv.m[8] as int,
        t.inv.m[9] as int,
        t.inv.m[10] as int,
        t.inv.m[11] as int,
        t.mat.m[3] as int,
        t.mat.m[7] as int,
        t.mat.m[11] as int,
        t.mat.m[15] as int,
        t.mat.m[2] as int,
        t.mat.m[6] as int,
        t.mat.m[10] as int,
        t.inv.m[11] as int,
        t.mat.m[3] as int,
        t.mat.m[7] as int,
        t.mat.m[11] as int,
        1,
        0,
    );
    assert(prod_entry(t.inv, t.mat, 2, 3) == 0);
    lemma_dot4_subst(
        t.inv.m[12] as int,
        t.inv.m[13] as int,
        t.inv.m[14] as int,
        t.inv.m[15] as int,
        t.mat.m[0] as int,
        t.mat.m[4] as int,
        t.mat.m[8] as int,
        t.mat.m[12] as int,
        0,
        0,
        0,
        d,
        t.mat.m[0] as int,
        t.mat.m[4] as int,
        t.mat.m[8] as int,
        0,
        0,
    );
    assert(prod_entry(t.inv, t.mat, 3, 0) == 0);
    lemma_dot4_subst(
        t.inv.m[12] as int,
        t.inv.m[13] as int,
        t.inv.m[14] as int,
        t.inv.m[15] as int,
        t.mat.m[1] as int,
        t.mat.m[5] as int,
        t.mat.m[9] as int,
        t.mat.m[13] as int,
        0,
        0,
        0,
        d,
        t.mat.m[1] as int,
        t.mat.m[5] as int,
        t.mat.m[9] as int,
        0,
        0,
    );
    assert(prod_entry(t.inv, t.mat, 3, 1) == 0);
    lemma_dot4_subst(
        t.inv.m[12] as int,
        t.inv.m[13] as int,
        t.inv.m[14] as int,
        t.inv.m[15] as int,
        t.mat.m[2] as int,
        t.mat.m[6] as int,
        t.mat.m[10] as int,
        t.mat.m[14] as int,
        0,
        0,
        0,
        d,
        t.mat.m[2] as int,
        t.mat.m[6] as int,
        t.mat.m[10] as int,
        0,
        0,
    );
    assert(prod_entry(t.inv, t.mat, 3, 2) == 0);
    lemma_dot4_subst(
        t.inv.m[12] as int,
        t.inv.m[13] as int,
        t.inv.m[14] as int,
        t.inv.m[15] as int,
        t.mat.m[3] as int,
        t.mat.m[7] as int,
        t.mat.m[11] as int,
        t.mat.m[15] as int,
        0,
        0,
        0,
        d,
        t.mat.m[3] as int,
        t.mat.m[7] as int,
        t.mat.m[11] as int,
        1,
        d,
    );
    assert(prod_entry(t.inv, t.mat, 3, 3) == d);

    assert forall|i: int, j: int| 0 <= i < 4 && 0 <= j < 4 implies prod_entry(t.inv, t.mat, i, j)
        == if i == j {
        t.den as int
    } else {
        0int
    } by {
        assert(i == 0 || i == 1 || i == 2 || i == 3);
        assert(j == 0 || j == 1 || j == 2 || j == 3);
    }
}

/// A well-formed transform's forward and inverse matrices compose to `den`
/// times the identity, in both orders.
pub proof fn lemma_forward_inverse_identity(t: Transform)
    requires
        t.wf(),
    ensures
        scaled_identity_product(t.mat, t.inv, t.den as int),
        scaled_identity_product(t.inv, t.mat, t.den as int),
{
    lemma_identity_fwd(t);
    lemma_identity_inv(t);
}

/// Equal factors give an equal four-term dot product.
proof fn lemma_dot4_subst(
    a0: int,
    a1: int,
    a2: int,
    a3: int,
    b0: int,
    b1: int,
    b2: int,
    b3: int,
    p0: int,
    p1: int,
    p2: int,
    p3: int,
    q0: int,
    q1: int,
    q2: int,
    q3: int,
    r: int,
) by (nonlinear_arith)
    requires
        a0 == p0,
        a1 == p1,
        a2 == p2,
        a3 == p3,
        b0 == q0,
        b1 == q1,
        b2 == q2,
        b3 == q3,
        p0 * q0 + p1 * q1 + p2 * q2 + p3 * q3 == r,
    ensures
        a0 * b0 + a1 * b1 + a2 * b2 + a3 * b3 == r,
{
}

/// Commuting both factors preserves a three-term product sum.
proof fn lemma_commute3(a0: int, b0: int, a1: int, b1: int, a2: int, b2: int, r: int) by (nonlinear_arith)
    requires
        a0 * b0 + a1 * b1 + a2 * b2 == r,
    ensures
        b0 * a0 + b1 * a1 + b2 * a2 == r,
{
}

/// The translation column of the closed-form inverse cancels the frame's
/// origin: the first component of `L * (a, b, c) + d * e` vanishes when
/// `(a, b, c)` is `-L^T * e` and the first row of `L * L^T` is `(d, 0, 0)`.
#[verifier::rlimit(100)]
proof fn lemma_frame_translation(
    ux: int,
    uy: int,
    uz: int,
    vx: int,
    vy: int,
    vz: int,
    wx: int,
    wy: int,
    wz: int,
    ex: int,
    ey: int,
    ez: int,
    a: int,
    b: int,
    c: int,
    d: int,
)
    requires
        a == -(ux * ex + uy * ey + uz * ez),
        b == -(vx * ex + vy * ey + vz * ez),
        c == -(wx * ex + wy * ey + wz * ez),
        ux * ux + vx * vx + wx * wx == d,
        ux * uy + vx * vy + wx * wy == 0,
        ux * uz + vx * vz + wx * wz == 0,
    ensures
        ux * a + vx * b + wx * c + ex * d == 0,
{
    lemma_row_times_neg_dot(ux, ux, uy, uz, ex, ey, ez, a);
    lemma_row_times_neg_dot(vx, vx, vy, vz, ex, ey, ez, b);
    lemma_row_times_neg_dot(wx, wx, wy, wz, ex, ey, ez, c);
    vstd::arithmetic::mul::lemma_mul_is_distributive_add_other_way(ex, ux * ux, vx * vx);
    vstd::arithmetic::mul::lemma_mul_is_distributive_add_other_way(
        ex,
        ux * ux + vx * vx,
        wx * wx,
    );
    vstd::arithmetic::mul::lemma_mul_is_distributive_add_other_way(ey, ux * uy, vx * vy);
    vstd::arithmetic::mul::lemma_mul_is_distributive_add_other_way(
        ey,
        ux * uy + vx * vy,
        wx * wy,
    );
    vstd::arithmetic::mul::lemma_mul_is_distributive_add_other_way(ez, ux * uz, vx * vz);
    vstd::arithmetic::mul::lemma_mul_is_distributive_add_other_way(
        ez,
        ux * uz + vx * vz,
        wx * wz,
    );
    assert((ux * ux + vx * vx + wx * wx) * ex == d * ex);
    assert((ux * uy + vx * vy + wx * wy) * ey == 0 * ey);
    assert((ux * uz + vx * vz + wx * wz) * ez == 0 * ez);
}

/// One coordinate of `L * (-L^T e)`: the product of a row entry with the
/// negated dot product, distributed into three-factor terms.
proof fn lemma_row_times_neg_dot(
    x: int,
    c1: int,
    c2: int,
    c3: int,
    e1: int,
    e2: int,
    e3: int,
    a: int,
)
    requires
        a == -(c1 * e1 + c2 * e2 + c3 * e3),
    ensures
        x * a == -((x * c1) * e1 + (x * c2) * e2 + (x * c3) * e3),
{
    let q = c1 * e1 + c2 * e2 + c3 * e3;
    vstd::arithmetic::mul::lemma_mul_unary_negation(x, q);
    vstd::arithmetic::mul::lemma_mul_is_distributive_add(x, c1 * e1 + c2 * e2, c3 * e3);
    vstd::arithmetic::mul::lemma_mul_is_distributive_add(x, c1 * e1, c2 * e2);
    vstd::arithmetic::mul::lemma_mul_is_associative(x, c1, e1);
    vstd::arithmetic::mul::lemma_mul_is_associative(x, c2, e2);
    vstd::arithmetic::mul::lemma_mul_is_associative(x, c3, e3);
}

} // verus!
