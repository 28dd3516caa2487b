//! Exact integer arithmetic helpers shared by the geometry kernel.

use vstd::prelude::*;

verus! {

/// Bound on a product of factors with separate bounds.
pub proof fn lemma_mul_bounds(a: int, b: int, ba: int, bb: int) by (nonlinear_arith)
    requires
        ba >= 0,
        bb >= 0,
        -ba <= a <= ba,
        -bb <= b <= bb,
    ensures
        -ba * bb <= a * b <= ba * bb,
{
}

/// The floor of the square root of `n`.
pub open spec fn isqrt_spec(n: nat) -> nat
    decreases n,
{
    if n == 0 {
        0
    } else {
        let p = isqrt_spec((n - 1) as nat);
        if (p + 1) * (p + 1) <= n {
            p + 1
        } else {
            p
        }
    }
}

/// The floor square root is the unique `r` with `r^2 <= n < (r+1)^2`.
pub proof fn lemma_isqrt_unique(n: nat, r: nat)
    requires
        r * r <= n,
        n < (r + 1) * (r + 1),
    ensures
        r == isqrt_spec(n),
    decreases n,
{
    lemma_isqrt_bounds(n);
    let q = isqrt_spec(n);
    if r < q {
        assert((r + 1) * (r + 1) <= q * q) by (nonlinear_arith)
            requires
                r + 1 <= q,
        ;
    }
    if q < r {
        assert((q + 1) * (q + 1) <= r * r) by (nonlinear_arith)
            requires
                q + 1 <= r,
        ;
    }
}

/// The floor square root satisfies its defining inequalities.
pub proof fn lemma_isqrt_bounds(n: nat)
    ensures
        isqrt_spec(n) * isqrt_spec(n) <= n,
        n < (isqrt_spec(n) + 1) * (isqrt_spec(n) + 1),
    decreases n,
{
    let q = isqrt_spec(n);
    if n == 0 {
        assert(q == 0);
        assert(q * q <= n && n < (q + 1) * (q + 1)) by (nonlinear_arith)
            requires
                q == 0,
                n == 0,
        ;
    } else {
        lemma_isqrt_bounds((n - 1) as nat);
        let p = isqrt_spec((n - 1) as nat);
        assert(q == if (p + 1) * (p + 1) <= n {
            p + 1
        } else {
            p
        });
        if (p + 1) * (p + 1) <= n {
            assert(n - 1 < (p + 1) * (p + 1));
            assert(n < (p + 2) * (p + 2)) by (nonlinear_arith)
                requires
                    n <= (p + 1) * (p + 1),
                    p >= 0,
            ;
            assert(q * q <= n && n < (q + 1) * (q + 1)) by (nonlinear_arith)
                requires
                    q == p + 1,
                    (p + 1) * (p + 1) <= n,
                    n < (p + 2) * (p + 2),
            ;
        } else {
            assert(p * p <= n - 1);
            assert(q * q <= n && n < (q + 1) * (q + 1)) by (nonlinear_arith)
                requires
                    q == p,
                    p * p <= n - 1,
                    n < (p + 1) * (p + 1),
            ;
        }
    }
}

/// Integer square root: the greatest `r` with `r * r <= n`.
///
/// Callers keep `n` below `2^126` so that the midpoint square fits in the
/// machine word; every discriminant produced by the intersection kernel is
/// far below that.
pub fn isqrt(n: u128) -> (r: u128)
    requires
        n < 0x4000_0000_0000_0000_0000_0000_0000_0000,
    ensures
        r * r <= n,
        n < (r + 1) * (r + 1),
        r == isqrt_spec(n as nat),
{
    if n == 0 {
        return 0;
    }
    let mut lo: u128 = 0;
    let mut hi: u128 = 0x8000_0000_0000_0000;
    assert(hi * hi > n);
    while lo + 1 < hi
        invariant
            lo < hi,
            hi <= 0x8000_0000_0000_0000,
            lo * lo <= n,
            n < hi * hi,
        decreases hi - lo,
    {
        let mid = lo + (hi - lo) / 2;
        assert(lo < mid < hi);
        proof {
            assert(mid * mid <= 0x4000_0000_0000_0000_0000_0000_0000_0000) by (nonlinear_arith)
                requires
                    mid <= 0x8000_0000_0000_0000,
            ;
        }
        if mid * mid <= n {
            lo = mid;
        } else {
            hi = mid;
        }
    }
    proof {
        lemma_isqrt_unique(n as nat, lo as nat);
    }
    lo
}


/// Value of the quadratic `a t^2 + b t + c` at the computed root
/// `(-b -/+ s) / 2a`, scaled by `(2a)^2`: it equals `a (s^2 - disc)`, so
/// a floor square root (`s^2 <= disc`) always lands on or inside the
/// level set.
pub proof fn lemma_quadratic_at_root(
    a: int,
    b: int,
    c: int,
    s: int,
    tn: int,
    td: int,
    disc: int,
)
    requires
        disc == b * b - 4 * (a * c),
        tn == -b - s || tn == -b + s,
        td == 2 * a,
    ensures
        (tn * tn) * a + (tn * td) * b + (td * td) * c == a * (s * s - disc),
{
    if tn == -b - s {
        lemma_quadratic_at_root_near(a, b, c, s, tn, td, disc);
    } else {
        lemma_quadratic_at_root_far(a, b, c, s, tn, td, disc);
    }
}

/// The nearer-root case of the quadratic evaluation.
proof fn lemma_quadratic_at_root_near(
    a: int,
    b: int,
    c: int,
    s: int,
    tn: int,
    td: int,
    disc: int,
)
    requires
        disc == b * b - 4 * (a * c),
        tn == -b - s,
        td == 2 * a,
    ensures
        (tn * tn) * a + (tn * td) * b + (td * td) * c == a * (s * s - disc),
{
    assert((tn * tn) * a == (b * b) * a + (2 * (b * s)) * a + (s * s) * a) by (nonlinear_arith)
        requires
            tn == -b - s,
    ;
    assert((tn * td) * b == -((2 * (a * b)) * b) - (2 * (a * s)) * b) by (nonlinear_arith)
        requires
            tn == -b - s,
            td == 2 * a,
    ;
    assert((td * td) * c == 4 * ((a * a) * c)) by (nonlinear_arith)
        requires
            td == 2 * a,
    ;
    assert(a * (s * s - disc) == (s * s) * a - (b * b) * a + 4 * ((a * a) * c))
        by (nonlinear_arith)
        requires
            disc == b * b - 4 * (a * c),
    ;
    assert((2 * (a * b)) * b == 2 * ((b * b) * a)) by (nonlinear_arith);
    assert((2 * (a * s)) * b == (2 * (b * s)) * a) by (nonlinear_arith);
}

/// The farther-root case of the quadratic evaluation.
proof fn lemma_quadratic_at_root_far(
    a: int,
    b: int,
    c: int,
    s: int,
    tn: int,
    td: int,
    disc: int,
)
    requires
        disc == b * b - 4 * (a * c),
        tn == -b + s,
        td == 2 * a,
    ensures
        (tn * tn) * a + (tn * td) * b + (td * td) * c == a * (s * s - disc),
{
    assert((tn * tn) * a == (b * b) * a - (2 * (b * s)) * a + (s * s) * a) by (nonlinear_arith)
        requires
            tn == -b + s,
    ;
    assert((tn * td) * b == -((2 * (a * b)) * b) + (2 * (a * s)) * b) by (nonlinear_arith)
        requires
            tn == -b + s,
            td == 2 * a,
    ;
    assert((td * td) * c == 4 * ((a * a) * c)) by (nonlinear_arith)
        requires
            td == 2 * a,
    ;
    assert(a * (s * s - disc) == (s * s) * a - (b * b) * a + 4 * ((a * a) * c))
        by (nonlinear_arith)
        requires
            disc == b * b - 4 * (a * c),
    ;
    assert((2 * (a * b)) * b == 2 * ((b * b) * a)) by (nonlinear_arith);
    assert((2 * (a * s)) * b == (2 * (b * s)) * a) by (nonlinear_arith);
}

/// Square of a two-term linear combination, expanded.
pub proof fn lemma_combination_square(x: int, y: int, tn: int, td: int, p: int)
    requires
        p == x * td + tn * y,
    ensures
        p * p == (td * td) * (x * x) + (2 * (tn * td)) * (x * y) + (tn * tn) * (y * y),
{
    assert(p * p == (x * td) * (x * td) + 2 * ((x * td) * (tn * y)) + (tn * y) * (tn * y))
        by (nonlinear_arith)
        requires
            p == x * td + tn * y,
    ;
    assert((x * td) * (x * td) == (td * td) * (x * x)) by (nonlinear_arith);
    assert(2 * ((x * td) * (tn * y)) == (2 * (tn * td)) * (x * y)) by (nonlinear_arith);
    assert((tn * y) * (tn * y) == (tn * tn) * (y * y)) by (nonlinear_arith);
}

/// A factor distributes over a three-term dot product, into three-factor
/// terms.
pub proof fn lemma_mul_distributes_dot3(
    x: int,
    c1: int,
    c2: int,
    c3: int,
    d1: int,
    d2: int,
    d3: int,
    q: int,
)
    requires
        q == c1 * d1 + c2 * d2 + c3 * d3,
    ensures
        x * q == (x * c1) * d1 + (x * c2) * d2 + (x * c3) * d3,
{
    vstd::arithmetic::mul::lemma_mul_is_distributive_add(x, c1 * d1 + c2 * d2, c3 * d3);
    vstd::arithmetic::mul::lemma_mul_is_distributive_add(x, c1 * d1, c2 * d2);
    vstd::arithmetic::mul::lemma_mul_is_associative(x, c1, d1);
    vstd::arithmetic::mul::lemma_mul_is_associative(x, c2, d2);
    vstd::arithmetic::mul::lemma_mul_is_associative(x, c3, d3);
}

/// Recombining the columns of an orthogonal frame against a vector they
/// were resolved along returns the vector, scaled by the common squared
/// norm: the first coordinate of `L (L^T delta) == D delta`.
pub proof fn lemma_rows_recombine(
    ux: int,
    uy: int,
    uz: int,
    vx: int,
    vy: int,
    vz: int,
    wx: int,
    wy: int,
    wz: int,
    d1: int,
    d2: int,
    d3: int,
    p1: int,
    p2: int,
    p3: int,
    dd: int,
)
    requires
        p1 == ux * d1 + uy * d2 + uz * d3,
        p2 == vx * d1 + vy * d2 + vz * d3,
        p3 == wx * d1 + wy * d2 + wz * d3,
        ux * ux + vx * vx + wx * wx == dd,
        ux * uy + vx * vy + wx * wy == 0,
        ux * uz + vx * vz + wx * wz == 0,
    ensures
        ux * p1 + vx * p2 + wx * p3 == dd * d1,
{
    lemma_mul_distributes_dot3(ux, ux, uy, uz, d1, d2, d3, p1);
    lemma_mul_distributes_dot3(vx, vx, vy, vz, d1, d2, d3, p2);
    lemma_mul_distributes_dot3(wx, wx, wy, wz, d1, d2, d3, p3);
    vstd::arithmetic::mul::lemma_mul_is_distributive_add_other_way(d1, ux * ux, vx * vx);
    vstd::arithmetic::mul::lemma_mul_is_distributive_add_other_way(d1, ux * ux + vx * vx, wx * wx);
    vstd::arithmetic::mul::lemma_mul_is_distributive_add_other_way(d2, ux * uy, vx * vy);
    vstd::arithmetic::mul::lemma_mul_is_distributive_add_other_way(d2, ux * uy + vx * vy, wx * wy);
    vstd::arithmetic::mul::lemma_mul_is_distributive_add_other_way(d3, ux * uz, vx * vz);
    vstd::arithmetic::mul::lemma_mul_is_distributive_add_other_way(d3, ux * uz + vx * vz, wx * wz);
    assert((ux * ux + vx * vx + wx * wx) * d1 == dd * d1);
    assert((ux * uy + vx * vy + wx * wy) * d2 == 0 * d2);
    assert((ux * uz + vx * vz + wx * wz) * d3 == 0 * d3);
}

/// Any nonnegative value whose square is at most `n` is at most the floor
/// square root of `n`.
pub proof fn lemma_isqrt_maximal(x: int, n: nat)
    requires
        x >= 0,
        x * x <= n,
    ensures
        x <= isqrt_spec(n),
{
    lemma_isqrt_bounds(n);
    let q = isqrt_spec(n);
    if x > q {
        assert((q + 1) * (q + 1) <= x * x) by (nonlinear_arith)
            requires
                0 <= q + 1 <= x,
        ;
    }
}

/// A square bounded by the square of a nonnegative value bounds the value
/// itself in absolute terms.
pub proof fn lemma_abs_le_of_sq_le(x: int, y: int) by (nonlinear_arith)
    requires
        x * x <= y * y,
        y >= 0,
    ensures
        -y <= x <= y,
{
}

/// A positive common factor cancels from an inequality.
pub proof fn lemma_cancel_pos_factor(d: int, x: int, y: int) by (nonlinear_arith)
    requires
        d > 0,
        d * x <= d * y,
    ensures
        x <= y,
{
}


/// Resolving an affine combination along one frame column: the
/// object-space coordinate built from the column's dot products equals
/// the column resolved against the world offset vector.
pub proof fn lemma_affine_resolve(
    ux: int,
    uy: int,
    uz: int,
    rpx: int,
    rpy: int,
    rpz: int,
    rdx: int,
    rdy: int,
    rdz: int,
    ex: int,
    ey: int,
    ez: int,
    tn: int,
    td: int,
    den: int,
    p: int,
)
    requires
        p == (ux * rpx + uy * rpy + uz * rpz + (-(ux * ex + uy * ey + uz * ez)) * den) * td + tn
            * (ux * rdx + uy * rdy + uz * rdz),
    ensures
        p == ux * (rpx * td + tn * rdx - ex * (den * td)) + uy * (rpy * td + tn * rdy - ey * (den
            * td)) + uz * (rpz * td + tn * rdz - ez * (den * td)),
{
    let up = ux * rpx + uy * rpy + uz * rpz;
    let ue = ux * ex + uy * ey + uz * ez;
    let ud = ux * rdx + uy * rdy + uz * rdz;
    assert(p == up * td - (ue * den) * td + tn * ud) by (nonlinear_arith)
        requires
            p == (up + (-ue) * den) * td + tn * ud,
    ;
    lemma_mul_distributes_dot3(td, ux, uy, uz, rpx, rpy, rpz, up);
    assert(td * up == up * td) by (nonlinear_arith);
    assert((td * ux) * rpx == ux * (rpx * td)) by (nonlinear_arith);
    assert((td * uy) * rpy == uy * (rpy * td)) by (nonlinear_arith);
    assert((td * uz) * rpz == uz * (rpz * td)) by (nonlinear_arith);
    lemma_mul_distributes_dot3(tn, ux, uy, uz, rdx, rdy, rdz, ud);
    assert((tn * ux) * rdx == ux * (tn * rdx)) by (nonlinear_arith);
    assert((tn * uy) * rdy == uy * (tn * rdy)) by (nonlinear_arith);
    assert((tn * uz) * rdz == uz * (tn * rdz)) by (nonlinear_arith);
    lemma_mul_distributes_dot3(den * td, ux, uy, uz, ex, ey, ez, ue);
    assert((ue * den) * td == (den * td) * ue) by (nonlinear_arith);
    assert(((den * td) * ux) * ex == ux * (ex * (den * td))) by (nonlinear_arith);
    assert(((den * td) * uy) * ey == uy * (ey * (den * td))) by (nonlinear_arith);
    assert(((den * td) * uz) * ez == uz * (ez * (den * td))) by (nonlinear_arith);
    assert(ux * (rpx * td + tn * rdx - ex * (den * td)) == ux * (rpx * td) + ux * (tn * rdx) - ux
        * (ex * (den * td))) by (nonlinear_arith);
    assert(uy * (rpy * td + tn * rdy - ey * (den * td)) == uy * (rpy * td) + uy * (tn * rdy) - uy
        * (ey * (den * td))) by (nonlinear_arith);
    assert(uz * (rpz * td + tn * rdz - ez * (den * td)) == uz * (rpz * td) + uz * (tn * rdz) - uz
        * (ez * (den * td))) by (nonlinear_arith);
}

} // verus!
