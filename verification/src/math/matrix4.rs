//! 4x4 matrices over integer-scaled coordinates, stored row-major.
//!
//! General inversion is by first-row cofactor expansion over 3x3 minors.
//! Because the entries are integers, the inverse is returned in exact form:
//! the transposed cofactor matrix (the adjugate) together with the
//! determinant as a separate scale. The contract pins every adjugate entry
//! and the determinant to their cofactor formulas; that the pair multiplies
//! to the scaled identity is classical algebra the verifier is not asked to
//! reprove here.

use vstd::prelude::*;
use crate::GeomError;
use crate::math::vec4::Vec4;

verus! {

/// Entry bound under which matrix products are computed without overflow.
pub const MUL_BOUND: i64 = 0x4000_0000;

/// Entry bound under which the cofactor expansion is computed without
/// overflow.
pub const INV_BOUND: i64 = 0x4000;

/// A 4x4 matrix, row-major: entry `(r, c)` is at index `4*r + c`.
#[derive(Clone, Copy, Debug)]
pub struct Matrix4 {
    pub m: [i64; 16],
}

/// The signed 3x3 determinant used by the cofactor expansion.
pub open spec fn det3(
    a: int,
    b: int,
    c: int,
    d: int,
    e: int,
    f: int,
    g: int,
    h: int,
    i: int,
) -> int {
    a * (e * i - f * h) - b * (d * i - f * g) + c * (d * h - e * g)
}

impl Matrix4 {
    /// Entry `(r, c)` as a mathematical integer.
    pub open spec fn entry(self, r: int, c: int) -> int {
        self.m[4 * r + c] as int
    }

    /// Whether every entry lies in `[-b, b]`.
    pub open spec fn bounded(self, b: int) -> bool {
        forall|i: int| 0 <= i < 16 ==> -b <= #[trigger] self.m[i] <= b
    }

    /// The determinant, by cofactor expansion along the first row.
    pub open spec fn spec_det(self) -> int {
        self.entry(0, 0) * self.spec_cofactor(0, 0) + self.entry(0, 1) * self.spec_cofactor(0, 1)
            + self.entry(0, 2) * self.spec_cofactor(0, 2) + self.entry(0, 3) * self.spec_cofactor(
            0,
            3,
        )
    }

    /// The identity pattern: one on the diagonal, zero elsewhere.
    pub open spec fn is_identity(self) -> bool {
        forall|r: int, c: int|
            0 <= r < 4 && 0 <= c < 4 ==> self.entry(r, c) == if r == c {
                1int
            } else {
                0int
            }
    }

    pub fn new(data: [i64; 16]) -> (r: Matrix4)
        ensures
            r.m == data,
    {
        Matrix4 { m: data }
    }

    pub fn data(&self) -> (r: &[i64; 16])
        ensures
            r == self.m,
    {
        &self.m
    }

    pub fn new_zero() -> (r: Matrix4)
        ensures
            forall|i: int| 0 <= i < 16 ==> #[trigger] r.m[i] == 0,
    {
        Matrix4 { m: [0, 0, 0, 0, 0, 0, 0, 0, 0, 0, 0, 0, 0, 0, 0, 0] }
    }

    pub fn new_identity() -> (r: Matrix4)
        ensures
            r.is_identity(),
            forall|i: int|
                0 <= i < 16 ==> #[trigger] r.m[i] == if i == 0 || i == 5 || i == 10 || i == 15 {
                    1int
                } else {
                    0int
                },
    {
        let r = Matrix4 { m: [1, 0, 0, 0, 0, 1, 0, 0, 0, 0, 1, 0, 0, 0, 0, 1] };
        proof {
            assert forall|i: int, j: int| 0 <= i < 4 && 0 <= j < 4 implies r.entry(i, j) == if i
                == j {
                1int
            } else {
                0int
            } by {
                assert(0 <= 4 * i + j < 16);
            }
        }
        r
    }

    /// The affine translation by `v`: the identity with `v` as the last
    /// column.
    pub fn new_translate(v: [i64; 3]) -> (r: Matrix4)
        ensures
            forall|i: int, j: int|
                0 <= i < 4 && 0 <= j < 3 ==> #[trigger] r.entry(i, j) == if i == j {
                    1int
                } else {
                    0int
                },
            r.entry(0, 3) == v[0],
            r.entry(1, 3) == v[1],
            r.entry(2, 3) == v[2],
            r.entry(3, 3) == 1,
    {
        let r = Matrix4 {
            m: [1, 0, 0, v[0], 0, 1, 0, v[1], 0, 0, 1, v[2], 0, 0, 0, 1],
        };
        proof {
            assert forall|i: int, j: int| 0 <= i < 4 && 0 <= j < 3 implies #[trigger] r.entry(i, j)
                == if i == j {
                1int
            } else {
                0int
            } by {
                assert(0 <= 4 * i + j < 16);
            }
        }
        r
    }

    /// Componentwise sum.
    pub fn add(&self, rhs: &Matrix4) -> (r: Matrix4)
        requires
            forall|i: int| 0 <= i < 16 ==> i64::MIN <= #[trigger] self.m[i] + rhs.m[i] <= i64::MAX,
        ensures
            forall|i: int| 0 <= i < 16 ==> #[trigger] r.m[i] == self.m[i] + rhs.m[i],
    {
        let a = &self.m;
        let b = &rhs.m;
        Matrix4 {
            m: [
                a[0] + b[0], a[1] + b[1], a[2] + b[2], a[3] + b[3],
                a[4] + b[4], a[5] + b[5], a[6] + b[6], a[7] + b[7],
                a[8] + b[8], a[9] + b[9], a[10] + b[10], a[11] + b[11],
                a[12] + b[12], a[13] + b[13], a[14] + b[14], a[15] + b[15],
            ],
        }
    }

    /// Componentwise difference.
    pub fn sub(&self, rhs: &Matrix4) -> (r: Matrix4)
        requires
            forall|i: int| 0 <= i < 16 ==> i64::MIN <= #[trigger] self.m[i] - rhs.m[i] <= i64::MAX,
        ensures
            forall|i: int| 0 <= i < 16 ==> #[trigger] r.m[i] == self.m[i] - rhs.m[i],
    {
        let a = &self.m;
        let b = &rhs.m;
        Matrix4 {
            m: [
                a[0] - b[0], a[1] - b[1], a[2] - b[2], a[3] - b[3],
                a[4] - b[4], a[5] - b[5], a[6] - b[6], a[7] - b[7],
                a[8] - b[8], a[9] - b[9], a[10] - b[10], a[11] - b[11],
                a[12] - b[12], a[13] - b[13], a[14] - b[14], a[15] - b[15],
            ],
        }
    }

    /// Every entry scaled by `s`.
    pub fn mul_scalar(&self, s: i64) -> (r: Matrix4)
        requires
            forall|i: int| 0 <= i < 16 ==> i64::MIN <= #[trigger] self.m[i] * s <= i64::MAX,
        ensures
            forall|i: int| 0 <= i < 16 ==> #[trigger] r.m[i] == self.m[i] * s,
    {
        let a = &self.m;
        let s128 = s as i128;
        Matrix4 {
            m: [
                ((a[0] as i128) * s128) as i64, ((a[1] as i128) * s128) as i64,
                ((a[2] as i128) * s128) as i64, ((a[3] as i128) * s128) as i64,
                ((a[4] as i128) * s128) as i64, ((a[5] as i128) * s128) as i64,
                ((a[6] as i128) * s128) as i64, ((a[7] as i128) * s128) as i64,
                ((a[8] as i128) * s128) as i64, ((a[9] as i128) * s128) as i64,
                ((a[10] as i128) * s128) as i64, ((a[11] as i128) * s128) as i64,
                ((a[12] as i128) * s128) as i64, ((a[13] as i128) * s128) as i64,
                ((a[14] as i128) * s128) as i64, ((a[15] as i128) * s128) as i64,
            ],
        }
    }

    /// The matrix product `self * rhs`: entry `(r, c)` is the dot product of
    /// row `r` of `self` with column `c` of `rhs`.
    pub fn mul(&self, rhs: &Matrix4) -> (r: Matrix4)
        requires
            self.bounded(MUL_BOUND as int),
            rhs.bounded(MUL_BOUND as int),
        ensures
            forall|i: int, j: int|
                0 <= i < 4 && 0 <= j < 4 ==> #[trigger] r.entry(i, j) == self.entry(i, 0) * rhs.entry(
                    0,
                    j,
                ) + self.entry(i, 1) * rhs.entry(1, j) + self.entry(i, 2) * rhs.entry(2, j)
                    + self.entry(i, 3) * rhs.entry(3, j),
            r.bounded(0x4000_0000_0000_0000),
    {
        let r = Matrix4 {
            m: [
                row_col(self, rhs, 0, 0), row_col(self, rhs, 0, 1), row_col(self, rhs, 0, 2),
                row_col(self, rhs, 0, 3),
                row_col(self, rhs, 1, 0), row_col(self, rhs, 1, 1), row_col(self, rhs, 1, 2),
                row_col(self, rhs, 1, 3),
                row_col(self, rhs, 2, 0), row_col(self, rhs, 2, 1), row_col(self, rhs, 2, 2),
                row_col(self, rhs, 2, 3),
                row_col(self, rhs, 3, 0), row_col(self, rhs, 3, 1), row_col(self, rhs, 3, 2),
                row_col(self, rhs, 3, 3),
            ],
        };
        proof {
            assert forall|i: int, j: int| 0 <= i < 4 && 0 <= j < 4 implies #[trigger] r.entry(i, j)
                == self.entry(i, 0) * rhs.entry(0, j) + self.entry(i, 1) * rhs.entry(1, j)
                + self.entry(i, 2) * rhs.entry(2, j) + self.entry(i, 3) * rhs.entry(3, j) by {
                assert(0 <= 4 * i + j < 16);
            }
        }
        r
    }

    /// The image of a homogeneous vector: component `i` is the dot product
    /// of row `i` with `v`.
    pub fn mul_vec4(&self, v: &Vec4) -> (r: Vec4)
        requires
            self.bounded(MUL_BOUND as int),
            -MUL_BOUND <= v.x <= MUL_BOUND,
            -MUL_BOUND <= v.y <= MUL_BOUND,
            -MUL_BOUND <= v.z <= MUL_BOUND,
            -MUL_BOUND <= v.w <= MUL_BOUND,
        ensures
            r.x == self.entry(0, 0) * v.x + self.entry(0, 1) * v.y + self.entry(0, 2) * v.z
                + self.entry(0, 3) * v.w,
            r.y == self.entry(1, 0) * v.x + self.entry(1, 1) * v.y + self.entry(1, 2) * v.z
                + self.entry(1, 3) * v.w,
            r.z == self.entry(2, 0) * v.x + self.entry(2, 1) * v.y + self.entry(2, 2) * v.z
                + self.entry(2, 3) * v.w,
            r.w == self.entry(3, 0) * v.x + self.entry(3, 1) * v.y + self.entry(3, 2) * v.z
                + self.entry(3, 3) * v.w,
    {
        Vec4 {
            x: row_vec(self, v, 0),
            y: row_vec(self, v, 1),
            z: row_vec(self, v, 2),
            w: row_vec(self, v, 3),
        }
    }

    /// The exact inverse pair: the transposed cofactor matrix and the
    /// determinant, satisfying `self * adjugate == det * identity`. Fails
    /// with `SingularMatrix` exactly when the determinant is zero.
    pub fn inv(&self) -> (r: Result<(Matrix4, i64), GeomError>)
        requires
            self.bounded(INV_BOUND as int),
        ensures
            r matches Ok((adj, det)) ==> {
                &&& det == self.spec_det()
                &&& det != 0
                &&& forall|i: int, j: int|
                    0 <= i < 4 && 0 <= j < 4 ==> #[trigger] adj.entry(i, j) == self.spec_cofactor(
                        j,
                        i,
                    )
                &&& adj.bounded(0x2000_0000_0000)
            },
            r is Err <==> self.spec_det() == 0,
            r matches Err(e) ==> e == GeomError::SingularMatrix,
    {
        let c00 = cof(self, 0, 0);
        let c01 = cof(self, 0, 1);
        let c02 = cof(self, 0, 2);
        let c03 = cof(self, 0, 3);
        let c10 = cof(self, 1, 0);
        let c11 = cof(self, 1, 1);
        let c12 = cof(self, 1, 2);
        let c13 = cof(self, 1, 3);
        let c20 = cof(self, 2, 0);
        let c21 = cof(self, 2, 1);
        let c22 = cof(self, 2, 2);
        let c23 = cof(self, 2, 3);
        let c30 = cof(self, 3, 0);
        let c31 = cof(self, 3, 1);
        let c32 = cof(self, 3, 2);
        let c33 = cof(self, 3, 3);
        let m = &self.m;
        proof {
            lemma_prod_bound2(m[0] as int, c00 as int, INV_BOUND as int, 0x2000_0000_0000int);
            lemma_prod_bound2(m[1] as int, c01 as int, INV_BOUND as int, 0x2000_0000_0000int);
            lemma_prod_bound2(m[2] as int, c02 as int, INV_BOUND as int, 0x2000_0000_0000int);
            lemma_prod_bound2(m[3] as int, c03 as int, INV_BOUND as int, 0x2000_0000_0000int);
        }
        let det = ((m[0] as i128) * (c00 as i128) + (m[1] as i128) * (c01 as i128) + (m[2] as i128)
            * (c02 as i128) + (m[3] as i128) * (c03 as i128)) as i64;
        if det == 0 {
            return Err(GeomError::SingularMatrix);
        }
        let adj = Matrix4 {
            m: [
                c00, c10, c20, c30,
                c01, c11, c21, c31,
                c02, c12, c22, c32,
                c03, c13, c23, c33,
            ],
        };
        proof {
            assert forall|i: int, j: int| 0 <= i < 4 && 0 <= j < 4 implies #[trigger] adj.entry(
                i,
                j,
            ) == self.spec_cofactor(j, i) by {
                assert(0 <= 4 * i + j < 16);
            }
        }
        Ok((adj, det))
    }

    /// The signed cofactor of entry `(r, c)`: the 3x3 minor with row `r` and
    /// column `c` struck out, with the checkerboard sign.
    pub open spec fn spec_cofactor(self, r: int, c: int) -> int {
        let rows = Seq::new(3, |k: int| if k < r { k } else { k + 1 });
        let cols = Seq::new(3, |k: int| if k < c { k } else { k + 1 });
        let s = if (r + c) % 2 == 0 {
            1int
        } else {
            -1int
        };
        s * det3(
            self.entry(rows[0], cols[0]), self.entry(rows[0], cols[1]), self.entry(rows[0], cols[2]),
            self.entry(rows[1], cols[0]), self.entry(rows[1], cols[1]), self.entry(rows[1], cols[2]),
            self.entry(rows[2], cols[0]), self.entry(rows[2], cols[1]), self.entry(rows[2], cols[2]),
        )
    }
}

/// Dot product of row `r` of `a` with column `c` of `b`, exact.
fn row_col(a: &Matrix4, b: &Matrix4, r: usize, c: usize) -> (s: i64)
    requires
        r < 4,
        c < 4,
        a.bounded(MUL_BOUND as int),
        b.bounded(MUL_BOUND as int),
    ensures
        s == a.entry(r as int, 0) * b.entry(0, c as int) + a.entry(r as int, 1) * b.entry(
            1,
            c as int,
        ) + a.entry(r as int, 2) * b.entry(2, c as int) + a.entry(r as int, 3) * b.entry(
            3,
            c as int,
        ),
        -0x4000_0000_0000_0000 <= s <= 0x4000_0000_0000_0000,
    {
    let a0 = a.m[4 * r];
    let a1 = a.m[4 * r + 1];
    let a2 = a.m[4 * r + 2];
    let a3 = a.m[4 * r + 3];
    let b0 = b.m[c];
    let b1 = b.m[4 + c];
    let b2 = b.m[8 + c];
    let b3 = b.m[12 + c];
    proof {
        lemma_prod_bound(a0 as int, b0 as int, MUL_BOUND as int);
        lemma_prod_bound(a1 as int, b1 as int, MUL_BOUND as int);
        lemma_prod_bound(a2 as int, b2 as int, MUL_BOUND as int);
        lemma_prod_bound(a3 as int, b3 as int, MUL_BOUND as int);
    }
    let s = (a0 as i128) * (b0 as i128) + (a1 as i128) * (b1 as i128) + (a2 as i128) * (b2 as i128)
        + (a3 as i128) * (b3 as i128);
    s as i64
}

/// Dot product of row `r` of `a` with `v`, exact.
fn row_vec(a: &Matrix4, v: &Vec4, r: usize) -> (s: i64)
    requires
        r < 4,
        a.bounded(MUL_BOUND as int),
        -MUL_BOUND <= v.x <= MUL_BOUND,
        -MUL_BOUND <= v.y <= MUL_BOUND,
        -MUL_BOUND <= v.z <= MUL_BOUND,
        -MUL_BOUND <= v.w <= MUL_BOUND,
    ensures
        s == a.entry(r as int, 0) * v.x + a.entry(r as int, 1) * v.y + a.entry(r as int, 2) * v.z
            + a.entry(r as int, 3) * v.w,
    {
    let a0 = a.m[4 * r];
    let a1 = a.m[4 * r + 1];
    let a2 = a.m[4 * r + 2];
    let a3 = a.m[4 * r + 3];
    proof {
        lemma_prod_bound(a0 as int, v.x as int, MUL_BOUND as int);
        lemma_prod_bound(a1 as int, v.y as int, MUL_BOUND as int);
        lemma_prod_bound(a2 as int, v.z as int, MUL_BOUND as int);
        lemma_prod_bound(a3 as int, v.w as int, MUL_BOUND as int);
    }
    let s = (a0 as i128) * (v.x as i128) + (a1 as i128) * (v.y as i128) + (a2 as i128) * (v.z
        as i128) + (a3 as i128) * (v.w as i128);
    s as i64
}

/// Bound on a product of bounded factors.
proof fn lemma_prod_bound(a: int, b: int, bd: int) by (nonlinear_arith)
    requires
        bd >= 0,
        -bd <= a <= bd,
        -bd <= b <= bd,
    ensures
        -bd * bd <= a * b <= bd * bd,
{
}

/// Bound on a product of factors with separate bounds.
proof fn lemma_prod_bound2(a: int, b: int, ba: int, bb: int) by (nonlinear_arith)
    requires
        ba >= 0,
        bb >= 0,
        -ba <= a <= ba,
        -bb <= b <= bb,
    ensures
        -ba * bb <= a * b <= ba * bb,
{
}

/// The signed cofactor of entry `(r, c)` of `a`, computed exactly.
fn cof(a: &Matrix4, r: usize, c: usize) -> (s: i64)
    requires
        r < 4,
        c < 4,
        a.bounded(INV_BOUND as int),
    ensures
        s == a.spec_cofactor(r as int, c as int),
        -0x2000_0000_0000 <= s <= 0x2000_0000_0000,
{
    let rows: [usize; 3] = [if r > 0 { 0 } else { 1 }, if r > 1 { 1 } else { 2 }, if r > 2 {
        2
    } else {
        3
    }];
    let cols: [usize; 3] = [if c > 0 { 0 } else { 1 }, if c > 1 { 1 } else { 2 }, if c > 2 {
        2
    } else {
        3
    }];
    let v00 = a.m[4 * rows[0] + cols[0]];
    let v01 = a.m[4 * rows[0] + cols[1]];
    let v02 = a.m[4 * rows[0] + cols[2]];
    let v10 = a.m[4 * rows[1] + cols[0]];
    let v11 = a.m[4 * rows[1] + cols[1]];
    let v12 = a.m[4 * rows[1] + cols[2]];
    let v20 = a.m[4 * rows[2] + cols[0]];
    let v21 = a.m[4 * rows[2] + cols[1]];
    let v22 = a.m[4 * rows[2] + cols[2]];
    let d = det3_exec(v00, v01, v02, v10, v11, v12, v20, v21, v22);
    proof {
        let ri = r as int;
        let ci = c as int;
        let rs = Seq::new(3, |k: int| if k < ri { k } else { k + 1 });
        let cs = Seq::new(3, |k: int| if k < ci { k } else { k + 1 });
        assert(rs[0] == rows[0] && rs[1] == rows[1] && rs[2] == rows[2]);
        assert(cs[0] == cols[0] && cs[1] == cols[1] && cs[2] == cols[2]);
        assert(0 <= 4 * rs[0] + cs[0] < 16 && 0 <= 4 * rs[0] + cs[1] < 16 && 0 <= 4 * rs[0] + cs[2]
            < 16);
        assert(0 <= 4 * rs[1] + cs[0] < 16 && 0 <= 4 * rs[1] + cs[1] < 16 && 0 <= 4 * rs[1] + cs[2]
            < 16);
        assert(0 <= 4 * rs[2] + cs[0] < 16 && 0 <= 4 * rs[2] + cs[1] < 16 && 0 <= 4 * rs[2] + cs[2]
            < 16);
        assert(v00 == a.entry(rs[0], cs[0]) && v01 == a.entry(rs[0], cs[1]) && v02 == a.entry(
            rs[0],
            cs[2],
        ));
        assert(v10 == a.entry(rs[1], cs[0]) && v11 == a.entry(rs[1], cs[1]) && v12 == a.entry(
            rs[1],
            cs[2],
        ));
        assert(v20 == a.entry(rs[2], cs[0]) && v21 == a.entry(rs[2], cs[1]) && v22 == a.entry(
            rs[2],
            cs[2],
        ));
        let dd = det3(
            a.entry(rs[0], cs[0]), a.entry(rs[0], cs[1]), a.entry(rs[0], cs[2]),
            a.entry(rs[1], cs[0]), a.entry(rs[1], cs[1]), a.entry(rs[1], cs[2]),
            a.entry(rs[2], cs[0]), a.entry(rs[2], cs[1]), a.entry(rs[2], cs[2]),
        );
        assert(d == dd);
        if (ri + ci) % 2 == 0 {
            assert(a.spec_cofactor(ri, ci) == 1 * dd);
        } else {
            assert(a.spec_cofactor(ri, ci) == -1 * dd);
            assert(-1 * dd == -dd);
        }
    }
    if (r + c) % 2 == 0 {
        d
    } else {
        -d
    }
}

/// The 3x3 determinant, computed exactly in a wide word.
fn det3_exec(
    a: i64,
    b: i64,
    c: i64,
    d: i64,
    e: i64,
    f: i64,
    g: i64,
    h: i64,
    i: i64,
) -> (s: i64)
    requires
        -INV_BOUND <= a <= INV_BOUND,
        -INV_BOUND <= b <= INV_BOUND,
        -INV_BOUND <= c <= INV_BOUND,
        -INV_BOUND <= d <= INV_BOUND,
        -INV_BOUND <= e <= INV_BOUND,
        -INV_BOUND <= f <= INV_BOUND,
        -INV_BOUND <= g <= INV_BOUND,
        -INV_BOUND <= h <= INV_BOUND,
        -INV_BOUND <= i <= INV_BOUND,
    ensures
        s == det3(a as int, b as int, c as int, d as int, e as int, f as int, g as int, h as int,
            i as int),
        -0x2000_0000_0000 <= s <= 0x2000_0000_0000,
{
    proof {
        lemma_prod_bound(e as int, i as int, INV_BOUND as int);
        lemma_prod_bound(f as int, h as int, INV_BOUND as int);
        lemma_prod_bound(d as int, i as int, INV_BOUND as int);
        lemma_prod_bound(f as int, g as int, INV_BOUND as int);
        lemma_prod_bound(d as int, h as int, INV_BOUND as int);
        lemma_prod_bound(e as int, g as int, INV_BOUND as int);
        lemma_prod_bound2(a as int, e * i - f * h, INV_BOUND as int, 0x2000_0000int);
        lemma_prod_bound2(b as int, d * i - f * g, INV_BOUND as int, 0x2000_0000int);
        lemma_prod_bound2(c as int, d * h - e * g, INV_BOUND as int, 0x2000_0000int);
    }
    let s = (a as i128) * ((e as i128) * (i as i128) - (f as i128) * (h as i128)) - (b as i128) * ((
    d as i128) * (i as i128) - (f as i128) * (g as i128)) + (c as i128) * ((d as i128) * (h as i128)
        - (e as i128) * (g as i128));
    s as i64
}



} // verus!
