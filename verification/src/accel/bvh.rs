//! Bounding-volume hierarchy: a spatial index over a set of primitives
//! that answers nearest-hit queries over the same primitives as the
//! linear scan.
//!
//! The build recursively partitions a range of primitive indices: each
//! step computes the union box of the range, emits a leaf when the range
//! is small enough, and otherwise orders the range by primitive centroid
//! along the axis of largest centroid extent and splits at the median
//! position. The invariants proved about the finished tree: every node's
//! box contains the boxes of all primitives in its subtree, an interior
//! node's box contains both children's boxes, every primitive index
//! appears in the order (which, with the unchanged length, makes the
//! order a permutation), and no leaf exceeds the requested size.
//!
//! The traversal visits the tree and is proved to return a hit exactly
//! when the linear scan does, with a ray parameter no later than that of
//! every hit primitive.

use vstd::prelude::*;
use crate::accel::aabb::Aabb;
use crate::accel::aabb::axis_coord;
use crate::accel::bvh_node::BVHNode;
use crate::accel::bvh_node::lemma_leaf_bound_prefix;
use crate::accel::bvh_node::lemma_node_wf_order_frame;
use crate::accel::bvh_node::lemma_node_wf_prefix;
use crate::accel::bvh_node::node_leaf_bound;
use crate::accel::bvh_node::node_wf;
use crate::arith::isqrt;
use crate::arith::isqrt_spec;
use crate::arith::lemma_mul_bounds;
use crate::math::vec3::Vec3;
use crate::render::ray::Ray;
use crate::shape::HitRecord;
use crate::shape::primitive::Primitive;
use crate::shape::primitive::hit_no_later;
use crate::shape::primitive::hit_record_matches;
use crate::shape::primitive::lemma_rational_le_trans;
use crate::shape::primitive::prim_hits;
use crate::shape::primitive::prim_t_den;
use crate::shape::primitive::prim_t_num;
use crate::arith::lemma_combination_square;
use crate::arith::lemma_quadratic_at_root;
use crate::math::vec3::spec_dot;
use crate::render::ray::lemma_obj_ray_bounds;
use crate::shape::sphere::quad_a;
use crate::shape::sphere::quad_b;
use crate::shape::sphere::quad_c;
use crate::shape::sphere::quad_disc;
use crate::shape::sphere::root_shift;
use crate::shape::sphere::t_above_eps;
use crate::T_EPS_DEN;
use crate::T_EPS_NUM;

verus! {

/// Whether the index `j` occurs somewhere in the order.
pub open spec fn order_contains(order: Seq<usize>, j: int) -> bool {
    exists|k: int| 0 <= k < order.len() && order[k] == j
}

/// Whether every index below `n` occurs in the order. Together with an
/// order of length `n` this makes the order a permutation of `0..n`:
/// every index is covered, and none can repeat without another vanishing.
pub open spec fn covers_all(order: Seq<usize>, n: int) -> bool {
    forall|j: int| 0 <= j < n ==> #[trigger] order_contains(order, j)
}

/// Whether the ray's point at the exact parameter `tn / td` (with
/// `td > 0`) lies inside the box, written denominator-free: the real
/// point is `(p + (tn/td) d) / den`, so membership on each axis is the
/// cross-multiplied comparison below.
pub open spec fn point_in_box(ray: Ray, b: Aabb, tn: int, td: int) -> bool {
    &&& (b.min.x * ray.den) * td <= ray.p.x * td + tn * ray.d.x <= (b.max.x * ray.den) * td
    &&& (b.min.y * ray.den) * td <= ray.p.y * td + tn * ray.d.y <= (b.max.y * ray.den) * td
    &&& (b.min.z * ray.den) * td <= ray.p.z * td + tn * ray.d.z <= (b.max.z * ray.den) * td
}

/// Whether the ray provably misses the box for every nonnegative exact
/// parameter.
pub open spec fn ray_misses_box(ray: Ray, b: Aabb) -> bool {
    forall|tn: int, td: int| td > 0 && tn >= 0 ==> !#[trigger] point_in_box(ray, b, tn, td)
}

/// Box membership is monotone under box containment.
proof fn lemma_point_box_monotone(ray: Ray, inner: Aabb, outer: Aabb, tn: int, td: int)
    requires
        td > 0,
        ray.den >= 1,
        outer.contains_box(inner),
        point_in_box(ray, inner, tn, td),
    ensures
        point_in_box(ray, outer, tn, td),
{
    lemma_box_edge_mono(outer.min.x as int, inner.min.x as int, ray.den as int, td);
    lemma_box_edge_mono(outer.min.y as int, inner.min.y as int, ray.den as int, td);
    lemma_box_edge_mono(outer.min.z as int, inner.min.z as int, ray.den as int, td);
    lemma_box_edge_mono(inner.max.x as int, outer.max.x as int, ray.den as int, td);
    lemma_box_edge_mono(inner.max.y as int, outer.max.y as int, ray.den as int, td);
    lemma_box_edge_mono(inner.max.z as int, outer.max.z as int, ray.den as int, td);
}

/// A smaller box edge keeps a smaller cross-multiplied slab bound.
proof fn lemma_box_edge_mono(lo: int, hi: int, den: int, td: int) by (nonlinear_arith)
    requires
        lo <= hi,
        den >= 1,
        td > 0,
    ensures
        (lo * den) * td <= (hi * den) * td,
{
}

/// A parameter admitted by both slab ends forces the exact lower end of
/// the interval not to exceed its upper end.
proof fn lemma_interval_nonempty(
    tn: int,
    td: int,
    lon: int,
    lod: int,
    hin: int,
    hid: int,
) by (nonlinear_arith)
    requires
        td > 0,
        lod > 0,
        hid > 0,
        tn * lod >= lon * td,
        tn * hid <= hin * td,
    ensures
        lon * hid <= hin * lod,
{
}

/// On an axis with positive direction component, box membership bounds
/// the parameter between the cross-multiplied slab ends.
proof fn lemma_axis_bounds_pos(mn: int, mx: int, p: int, d: int, tn: int, td: int)
    by (nonlinear_arith)
    requires
        d > 0,
        td > 0,
        mn * td <= p * td + tn * d,
        p * td + tn * d <= mx * td,
    ensures
        tn * d >= (mn - p) * td,
        tn * d <= (mx - p) * td,
{
}

/// On an axis with negative direction component, box membership bounds
/// the parameter between the cross-multiplied slab ends.
proof fn lemma_axis_bounds_neg(mn: int, mx: int, p: int, d: int, tn: int, td: int)
    by (nonlinear_arith)
    requires
        d < 0,
        td > 0,
        mn * td <= p * td + tn * d,
        p * td + tn * d <= mx * td,
    ensures
        tn * (-d) >= (p - mx) * td,
        tn * (-d) <= (p - mn) * td,
{
}

/// On an axis with zero direction component, an origin outside the slab
/// keeps every ray point outside the box.
proof fn lemma_axis_zero_miss(mn: int, mx: int, p: int, d: int, tn: int, td: int)
    by (nonlinear_arith)
    requires
        d == 0,
        td > 0,
        p < mn || p > mx,
    ensures
        !(mn * td <= p * td + tn * d && p * td + tn * d <= mx * td),
{
}

/// The exact slab test: `true` only when the ray misses the box for every
/// nonnegative parameter. The parameter interval admitted by each axis is
/// intersected by cross-multiplied comparison; the test reports a miss
/// when the interval (cut at zero) is empty, and is conservative the
/// other way: `false` promises nothing.
pub fn slab_miss(ray: &Ray, b: &Aabb) -> (res: bool)
    requires
        ray.in_world_bounds(),
        b.wf(),
        b.min.bounded(0x100_0000),
        b.max.bounded(0x100_0000),
    ensures
        res ==> ray_misses_box(*ray, *b),
{
    let den = ray.den as i128;
    let ghost rayg = *ray;
    let ghost bg = *b;

    // Running lower end of the admitted interval, starting at zero, and
    // running upper end, absent until some axis bounds it. The unstated
    // direction of the test is deliberate: only `true` carries a claim.
    let mut lon: i128 = 0;
    let mut lod: i128 = 1;
    let mut hi: Option<(i128, i128)> = None;

    let mins: [i64; 3] = [b.min.x, b.min.y, b.min.z];
    let maxs: [i64; 3] = [b.max.x, b.max.y, b.max.z];
    let ps: [i64; 3] = [ray.p.x, ray.p.y, ray.p.z];
    let ds: [i64; 3] = [ray.d.x, ray.d.y, ray.d.z];
    let mut axis: usize = 0;
    while axis < 3
        invariant
            rayg == *ray,
            bg == *b,
            ray.in_world_bounds(),
            b.min.bounded(0x100_0000),
            b.max.bounded(0x100_0000),
            den == ray.den as int,
            mins@ == seq![b.min.x, b.min.y, b.min.z],
            maxs@ == seq![b.max.x, b.max.y, b.max.z],
            ps@ == seq![ray.p.x, ray.p.y, ray.p.z],
            ds@ == seq![ray.d.x, ray.d.y, ray.d.z],
            axis <= 3,
            lod > 0,
            -0x8000_0000_0000 <= lon <= 0x8000_0000_0000,
            lod <= 0x8000_0000_0000,
            forall|tn: int, td: int|
                td > 0 && tn >= 0 && #[trigger] point_in_box(rayg, bg, tn, td) ==> tn * lod
                    >= lon * td,
            hi matches Some((hin, hid)) ==> hid > 0 && -0x8000_0000_0000 <= hin
                <= 0x8000_0000_0000 && hid <= 0x8000_0000_0000 && forall|tn: int, td: int|
                td > 0 && tn >= 0 && #[trigger] point_in_box(rayg, bg, tn, td) ==> tn * hid
                    <= hin * td,
        decreases 3 - axis,
    {
        proof {
            lemma_mul_bounds(mins@[axis as int] as int, den as int, 0x100_0000, 64);
            lemma_mul_bounds(maxs@[axis as int] as int, den as int, 0x100_0000, 64);
        }
        let mn = (mins[axis] as i128) * den;
        let mx = (maxs[axis] as i128) * den;
        let p = ps[axis] as i128;
        let d = ds[axis] as i128;
        if d == 0 {
            if p < mn || p > mx {
                proof {
                    assert forall|tn: int, td: int|
                        td > 0 && tn >= 0 implies !#[trigger] point_in_box(rayg, bg, tn, td) by {
                        if point_in_box(rayg, bg, tn, td) {
                            lemma_axis_zero_miss(mn as int, mx as int, p as int, 0, tn, td);
                        }
                    }
                }
                return true;
            }
        } else {
            let (cln, cld, chn, chd): (i128, i128, i128, i128) = if d > 0 {
                (mn - p, d, mx - p, d)
            } else {
                (p - mx, -d, p - mn, -d)
            };
            proof {
                assert forall|tn: int, td: int|
                    td > 0 && tn >= 0 && #[trigger] point_in_box(rayg, bg, tn, td) implies tn
                    * cld >= cln * td && tn * chd <= chn * td by {
                    if d > 0 {
                        lemma_axis_bounds_pos(mn as int, mx as int, p as int, d as int, tn, td);
                    } else {
                        lemma_axis_bounds_neg(mn as int, mx as int, p as int, d as int, tn, td);
                    }
                }
            }
            proof {
                lemma_mul_bounds(cln as int, lod as int, 0x8000_0000_0000, 0x8000_0000_0000);
                lemma_mul_bounds(lon as int, cld as int, 0x8000_0000_0000, 0x8000_0000_0000);
            }
            if cln * lod > lon * cld {
                lon = cln;
                lod = cld;
            }
            match hi {
                None => {
                    hi = Some((chn, chd));
                },
                Some((hin, hid)) => {
                    proof {
                        lemma_mul_bounds(
                            chn as int,
                            hid as int,
                            0x8000_0000_0000,
                            0x8000_0000_0000,
                        );
                        lemma_mul_bounds(
                            hin as int,
                            chd as int,
                            0x8000_0000_0000,
                            0x8000_0000_0000,
                        );
                    }
                    if chn * hid < hin * chd {
                        hi = Some((chn, chd));
                    }
                },
            }
        }
        axis = axis + 1;
    }
    match hi {
        None => false,
        Some((hin, hid)) => {
            proof {
                lemma_mul_bounds(lon as int, hid as int, 0x8000_0000_0000, 0x8000_0000_0000);
                lemma_mul_bounds(hin as int, lod as int, 0x8000_0000_0000, 0x8000_0000_0000);
            }
            if lon * hid > hin * lod {
                proof {
                    assert forall|tn: int, td: int|
                        td > 0 && tn >= 0 implies !#[trigger] point_in_box(rayg, bg, tn, td) by {
                        if point_in_box(rayg, bg, tn, td) {
                            lemma_interval_nonempty(
                                tn,
                                td,
                                lon as int,
                                lod as int,
                                hin as int,
                                hid as int,
                            );
                        }
                    }
                }
                true
            } else {
                false
            }
        },
    }
}

/// The conservative world-space bounding box of a primitive: the
/// placement origin, padded on every axis by three times one more than
/// the floor square root of `r^2 * den` (the squared world radius). The
/// padding covers the true world radius `r * sqrt(den)` with room for
/// resolving a hit point along the frame columns coordinate by
/// coordinate, which keeps the pruning proof free of square roots.
pub open spec fn spec_world_bounds(p: Primitive) -> Aabb {
    let e = p.transform.origin();
    let hw = 3 * (isqrt_spec((p.shape.r * p.shape.r * p.transform.den) as nat) + 1);
    Aabb {
        min: Vec3 { x: (e.x - hw) as i64, y: (e.y - hw) as i64, z: (e.z - hw) as i64 },
        max: Vec3 { x: (e.x + hw) as i64, y: (e.y + hw) as i64, z: (e.z + hw) as i64 },
    }
}

/// Computes the conservative world bounds of a primitive.
pub fn world_bounds(p: &Primitive) -> (b: Aabb)
    requires
        p.wf(),
    ensures
        b == spec_world_bounds(*p),
        b.wf(),
        b.min.bounded(0x100_0000),
        b.max.bounded(0x100_0000),
{
    proof {
        assert(p.shape.r <= 0x40_0000 && p.transform.den <= 0x40_0000) by (nonlinear_arith)
            requires
                p.shape.r >= 1,
                p.transform.den >= 1,
                p.shape.r * p.transform.den <= 0x40_0000,
        ;
        assert(1 <= p.shape.r * (p.shape.r * p.transform.den) <= 0x40_0000 * 0x40_0000)
            by (nonlinear_arith)
            requires
                1 <= p.shape.r <= 0x40_0000,
                1 <= p.transform.den,
                p.shape.r * p.transform.den <= 0x40_0000,
        ;
        assert(p.shape.r * p.shape.r * p.transform.den == p.shape.r * (p.shape.r
            * p.transform.den)) by (nonlinear_arith);
    }
    let rrd = (p.shape.r as u128) * ((p.shape.r as u128) * (p.transform.den as u128));
    let s = isqrt(rrd);
    proof {
        assert(s <= 0x40_0000) by (nonlinear_arith)
            requires
                s * s <= rrd,
                rrd <= 0x1000_0000_0000,
        ;
    }
    let hw = 3 * ((s as i64) + 1);
    let ex = p.transform.mat.m[3];
    let ey = p.transform.mat.m[7];
    let ez = p.transform.mat.m[11];
    Aabb {
        min: Vec3 { x: ex - hw, y: ey - hw, z: ez - hw },
        max: Vec3 { x: ex + hw, y: ey + hw, z: ez + hw },
    }
}

/// Every accepted hit of a primitive lies inside the primitive's
/// conservative world box: the kernel's floor square root lands the hit
/// point on or inside the sphere, resolving that point through the
/// orthogonal frame bounds each world coordinate by the frame's column
/// entries, and the box padding absorbs both.
#[verifier::rlimit(100)]
pub proof fn lemma_hit_in_world_bounds(pr: Primitive, ray: Ray)
    requires
        pr.wf(),
        ray.in_world_bounds(),
        prim_hits(pr, ray),
    ensures
        prim_t_den(pr, ray) > 0,
        prim_t_num(pr, ray) > 0,
        point_in_box(ray, spec_world_bounds(pr), prim_t_num(pr, ray), prim_t_den(pr, ray)),
{
    let t = pr.transform;
    let u = t.col_u();
    let v = t.col_v();
    let w = t.col_w();
    let e = t.origin();
    let dd = t.den as int;
    let den = ray.den as int;
    let r = pr.shape.r as int;
    let obj = pr.obj_ray(ray);
    lemma_obj_ray_bounds(ray, t);
    assert(obj.p.x == spec_dot(u, ray.p) + t.inv.m[3] * ray.den);
    assert(obj.p.y == spec_dot(v, ray.p) + t.inv.m[7] * ray.den);
    assert(obj.p.z == spec_dot(w, ray.p) + t.inv.m[11] * ray.den);
    assert(obj.d.x == spec_dot(u, ray.d));
    assert(obj.d.y == spec_dot(v, ray.d));
    assert(obj.d.z == spec_dot(w, ray.d));
    assert(obj.den == ray.den * t.den);
    let px = obj.p.x as int;
    let py = obj.p.y as int;
    let pz = obj.p.z as int;
    let qx = obj.d.x as int;
    let qy = obj.d.y as int;
    let qz = obj.d.z as int;
    let den_o = obj.den as int;
    let a = quad_a(obj);
    let b = quad_b(obj);
    let c = quad_c(r, obj);
    let disc = quad_disc(r, obj);
    let sh = root_shift(r, obj);
    let tn = prim_t_num(pr, ray);
    let td = prim_t_den(pr, ray);
    assert(a > 0 && disc >= 0);
    assert(td == 2 * a && td > 0);
    assert(t_above_eps(tn, td));
    assert(tn * T_EPS_DEN > td * T_EPS_NUM);
    assert(tn > 0);
    crate::arith::lemma_isqrt_bounds(disc as nat);
    assert(sh >= 0 && sh * sh <= disc);
    assert(disc == b * b - 4 * (a * c)) by (nonlinear_arith)
        requires
            disc == b * b - 4 * a * c,
    ;
    assert(tn == -b - sh || tn == -b + sh);
    lemma_quadratic_at_root(a, b, c, sh, tn, td, disc);
    let qval = (tn * tn) * a + (tn * td) * b + (td * td) * c;
    assert(qval <= 0) by (nonlinear_arith)
        requires
            qval == a * (sh * sh - disc),
            a > 0,
            sh * sh <= disc,
    ;
    let p1 = px * td + tn * qx;
    let p2 = py * td + tn * qy;
    let p3 = pz * td + tn * qz;
    lemma_combination_square(px, qx, tn, td, p1);
    lemma_combination_square(py, qy, tn, td, p2);
    lemma_combination_square(pz, qz, tn, td, p3);
    let rd = r * den_o;
    assert(rd * rd == (r * den_o) * (r * den_o)) by (nonlinear_arith)
        requires
            rd == r * den_o,
    ;
    let pp = px * px + py * py + pz * pz;
    let pq = px * qx + py * qy + pz * qz;
    let qq = qx * qx + qy * qy + qz * qz;
    assert(a == qq);
    assert(b == 2 * pq);
    assert(c == pp - rd * rd);
    let sum_p = p1 * p1 + p2 * p2 + p3 * p3;
    assert((td * td) * (px * px) + (td * td) * (py * py) + (td * td) * (pz * pz) == (td * td)
        * pp) by (nonlinear_arith)
        requires
            pp == px * px + py * py + pz * pz,
    ;
    assert((2 * (tn * td)) * (px * qx) + (2 * (tn * td)) * (py * qy) + (2 * (tn * td)) * (pz * qz)
        == (tn * td) * (2 * pq)) by (nonlinear_arith)
        requires
            pq == px * qx + py * qy + pz * qz,
    ;
    assert((tn * tn) * (qx * qx) + (tn * tn) * (qy * qy) + (tn * tn) * (qz * qz) == (tn * tn)
        * qq) by (nonlinear_arith)
        requires
            qq == qx * qx + qy * qy + qz * qz,
    ;
    assert((td * td) * pp == (td * td) * c + (td * td) * (rd * rd)) by (nonlinear_arith)
        requires
            c == pp - rd * rd,
    ;
    assert(sum_p == qval + (td * td) * (rd * rd));
    assert(sum_p <= (td * td) * (rd * rd));
    assert(p1 * p1 >= 0 && p2 * p2 >= 0 && p3 * p3 >= 0) by (nonlinear_arith);
    assert(rd >= 1) by (nonlinear_arith)
        requires
            r >= 1,
            den_o >= 1,
            rd == r * den_o,
    ;
    let bound = td * rd;
    assert(bound > 0) by (nonlinear_arith)
        requires
            td > 0,
            rd >= 1,
            bound == td * rd,
    ;
    assert(bound * bound == (td * td) * (rd * rd)) by (nonlinear_arith)
        requires
            bound == td * rd,
    ;
    crate::arith::lemma_abs_le_of_sq_le(p1, bound);
    crate::arith::lemma_abs_le_of_sq_le(p2, bound);
    crate::arith::lemma_abs_le_of_sq_le(p3, bound);
    let dtx = ray.p.x * td + tn * ray.d.x - e.x * (den * td);
    let dty = ray.p.y * td + tn * ray.d.y - e.y * (den * td);
    let dtz = ray.p.z * td + tn * ray.d.z - e.z * (den * td);
    assert(t.inv.m[3] == -spec_dot(u, e));
    assert(t.inv.m[7] == -spec_dot(v, e));
    assert(t.inv.m[11] == -spec_dot(w, e));
    crate::arith::lemma_affine_resolve(
        u.x as int, u.y as int, u.z as int, ray.p.x as int, ray.p.y as int, ray.p.z as int,
        ray.d.x as int, ray.d.y as int, ray.d.z as int, e.x as int, e.y as int, e.z as int, tn,
        td, den, p1,
    );
    crate::arith::lemma_affine_resolve(
        v.x as int, v.y as int, v.z as int, ray.p.x as int, ray.p.y as int, ray.p.z as int,
        ray.d.x as int, ray.d.y as int, ray.d.z as int, e.x as int, e.y as int, e.z as int, tn,
        td, den, p2,
    );
    crate::arith::lemma_affine_resolve(
        w.x as int, w.y as int, w.z as int, ray.p.x as int, ray.p.y as int, ray.p.z as int,
        ray.d.x as int, ray.d.y as int, ray.d.z as int, e.x as int, e.y as int, e.z as int, tn,
        td, den, p3,
    );
    assert(u.y * u.x + v.y * v.x + w.y * w.x == 0) by (nonlinear_arith)
        requires
            u.x * u.y + v.x * v.y + w.x * w.y == 0,
    ;
    assert(u.z * u.y + v.z * v.y + w.z * w.y == 0) by (nonlinear_arith)
        requires
            u.y * u.z + v.y * v.z + w.y * w.z == 0,
    ;
    assert(u.z * u.x + v.z * v.x + w.z * w.x == 0) by (nonlinear_arith)
        requires
            u.x * u.z + v.x * v.z + w.x * w.z == 0,
    ;
    crate::arith::lemma_rows_recombine(
        u.x as int, u.y as int, u.z as int, v.x as int, v.y as int, v.z as int, w.x as int,
        w.y as int, w.z as int, dtx, dty, dtz, p1, p2, p3, dd,
    );
    crate::arith::lemma_rows_recombine(
        u.y as int, u.x as int, u.z as int, v.y as int, v.x as int, v.z as int, w.y as int,
        w.x as int, w.z as int, dty, dtx, dtz, p1, p2, p3, dd,
    );
    crate::arith::lemma_rows_recombine(
        u.z as int, u.y as int, u.x as int, v.z as int, v.y as int, v.x as int, w.z as int,
        w.y as int, w.x as int, dtz, dty, dtx, p1, p2, p3, dd,
    );
    let sq = isqrt_spec(dd as nat) as int;
    crate::arith::lemma_isqrt_bounds(dd as nat);
    lemma_offset_bounds(
        u.x as int, u.y as int, u.z as int, v.x as int, v.y as int, v.z as int, w.x as int,
        w.y as int, w.z as int, dd, sq, p1, p2, p3, bound, dtx, dty, dtz,
    );
    let q0 = isqrt_spec((r * r * dd) as nat) as int;
    let hw = 3 * (q0 + 1);
    assert(spec_world_bounds(pr).min.x as int == e.x - hw && spec_world_bounds(pr).max.x as int
        == e.x + hw && spec_world_bounds(pr).min.y as int == e.y - hw && spec_world_bounds(
        pr,
    ).max.y as int == e.y + hw && spec_world_bounds(pr).min.z as int == e.z - hw
        && spec_world_bounds(pr).max.z as int == e.z + hw) by {
        lemma_world_bounds_casts(pr);
    }
    assert((sq * r) * (sq * r) <= r * r * dd) by (nonlinear_arith)
        requires
            sq * sq <= dd,
            r >= 1,
            sq >= 0,
    ;
    assert(sq * r >= 0) by (nonlinear_arith)
        requires
            sq >= 0,
            r >= 1,
    ;
    crate::arith::lemma_isqrt_maximal(sq * r, (r * r * dd) as nat);
    assert(sq * r <= q0);
    let lim = hw * (den * td);
    assert(3 * (sq * bound) <= dd * lim) by (nonlinear_arith)
        requires
            bound == td * rd,
            rd == r * den_o,
            den_o == den * dd,
            sq * r <= q0,
            hw == 3 * (q0 + 1),
            lim == hw * (den * td),
            sq >= 0,
            r >= 1,
            den >= 1,
            dd >= 1,
            td > 0,
            q0 >= 0,
    ;
    assert(dd * (-lim) <= dd * dtx && dd * dtx <= dd * lim) by (nonlinear_arith)
        requires
            -(dd * lim) <= dd * dtx <= dd * lim,
    ;
    assert(dd * (-lim) <= dd * dty && dd * dty <= dd * lim) by (nonlinear_arith)
        requires
            -(dd * lim) <= dd * dty <= dd * lim,
    ;
    assert(dd * (-lim) <= dd * dtz && dd * dtz <= dd * lim) by (nonlinear_arith)
        requires
            -(dd * lim) <= dd * dtz <= dd * lim,
    ;
    crate::arith::lemma_cancel_pos_factor(dd, dtx, lim);
    crate::arith::lemma_cancel_pos_factor(dd, -lim, dtx);
    crate::arith::lemma_cancel_pos_factor(dd, dty, lim);
    crate::arith::lemma_cancel_pos_factor(dd, -lim, dty);
    crate::arith::lemma_cancel_pos_factor(dd, dtz, lim);
    crate::arith::lemma_cancel_pos_factor(dd, -lim, dtz);
    lemma_axis_membership(e.x as int, hw, den, td, dtx, ray.p.x as int, ray.d.x as int, tn, lim);
    lemma_axis_membership(e.y as int, hw, den, td, dty, ray.p.y as int, ray.d.y as int, tn, lim);
    lemma_axis_membership(e.z as int, hw, den, td, dtz, ray.p.z as int, ray.d.z as int, tn, lim);
}

/// The scaled world offsets resolved through an orthogonal frame are
/// bounded by three frame entries' worth of the coordinate bound.
proof fn lemma_offset_bounds(
    ux: int,
    uy: int,
    uz: int,
    vx: int,
    vy: int,
    vz: int,
    wx: int,
    wy: int,
    wz: int,
    dd: int,
    sq: int,
    p1: int,
    p2: int,
    p3: int,
    bound: int,
    d1: int,
    d2: int,
    d3: int,
)
    requires
        ux * ux + vx * vx + wx * wx == dd,
        uy * uy + vy * vy + wy * wy == dd,
        uz * uz + vz * vz + wz * wz == dd,
        sq >= 0,
        sq * sq <= dd,
        dd < (sq + 1) * (sq + 1),
        bound >= 0,
        -bound <= p1 <= bound,
        -bound <= p2 <= bound,
        -bound <= p3 <= bound,
        dd * d1 == ux * p1 + vx * p2 + wx * p3,
        dd * d2 == uy * p1 + vy * p2 + wy * p3,
        dd * d3 == uz * p1 + vz * p2 + wz * p3,
    ensures
        -(3 * (sq * bound)) <= dd * d1 <= 3 * (sq * bound),
        -(3 * (sq * bound)) <= dd * d2 <= 3 * (sq * bound),
        -(3 * (sq * bound)) <= dd * d3 <= 3 * (sq * bound),
{
    lemma_entry_within(ux, vx, wx, dd, sq);
    lemma_entry_within(uy, vy, wy, dd, sq);
    lemma_entry_within(uz, vz, wz, dd, sq);
    lemma_mul_bounds(ux, p1, sq, bound);
    lemma_mul_bounds(vx, p2, sq, bound);
    lemma_mul_bounds(wx, p3, sq, bound);
    lemma_mul_bounds(uy, p1, sq, bound);
    lemma_mul_bounds(vy, p2, sq, bound);
    lemma_mul_bounds(wy, p3, sq, bound);
    lemma_mul_bounds(uz, p1, sq, bound);
    lemma_mul_bounds(vz, p2, sq, bound);
    lemma_mul_bounds(wz, p3, sq, bound);
    assert((-sq) * bound == -(sq * bound)) by (nonlinear_arith);
    assert(3 * (sq * bound) == sq * bound + sq * bound + sq * bound);
    assert(dd * d1 <= sq * bound + sq * bound + sq * bound);
    assert(dd * d1 >= -(sq * bound) - (sq * bound) - (sq * bound));
    assert(dd * d2 <= sq * bound + sq * bound + sq * bound);
    assert(dd * d2 >= -(sq * bound) - (sq * bound) - (sq * bound));
    assert(dd * d3 <= sq * bound + sq * bound + sq * bound);
    assert(dd * d3 >= -(sq * bound) - (sq * bound) - (sq * bound));
}

/// A frame entry is bounded by the floor square root of the common
/// squared norm.
proof fn lemma_entry_within(x: int, y: int, z: int, dd: int, sq: int)
    requires
        x * x + y * y + z * z == dd,
        sq >= 0,
        sq * sq <= dd,
        dd < (sq + 1) * (sq + 1),
    ensures
        -sq <= x <= sq,
        -sq <= y <= sq,
        -sq <= z <= sq,
{
    assert(x * x <= dd && y * y <= dd && z * z <= dd) by (nonlinear_arith)
        requires
            x * x + y * y + z * z == dd,
    ;
    lemma_entry_within_one(x, dd, sq);
    lemma_entry_within_one(y, dd, sq);
    lemma_entry_within_one(z, dd, sq);
}

/// One coordinate of the frame-entry bound.
proof fn lemma_entry_within_one(x: int, dd: int, sq: int) by (nonlinear_arith)
    requires
        x * x <= dd,
        sq >= 0,
        dd < (sq + 1) * (sq + 1),
    ensures
        -sq <= x <= sq,
{
}

/// The world offset bound turns into the cross-multiplied box membership
/// on one axis.
proof fn lemma_axis_membership(
    ec: int,
    hw: int,
    den: int,
    td: int,
    dt: int,
    rp: int,
    rdir: int,
    tn: int,
    lim: int,
) by (nonlinear_arith)
    requires
        lim == hw * (den * td),
        -lim <= dt <= lim,
        dt == rp * td + tn * rdir - ec * (den * td),
    ensures
        ((ec - hw) * den) * td <= rp * td + tn * rdir <= ((ec + hw) * den) * td,
{
}

/// The box coordinates of the conservative world bounds are the origin
/// offset by the padding, with every cast in range.
proof fn lemma_world_bounds_casts(pr: Primitive)
    requires
        pr.wf(),
    ensures
        ({
            let e = pr.transform.origin();
            let hw = 3 * (isqrt_spec((pr.shape.r * pr.shape.r * pr.transform.den) as nat) as int
                + 1);
            &&& spec_world_bounds(pr).min.x as int == e.x - hw
            &&& spec_world_bounds(pr).max.x as int == e.x + hw
            &&& spec_world_bounds(pr).min.y as int == e.y - hw
            &&& spec_world_bounds(pr).max.y as int == e.y + hw
            &&& spec_world_bounds(pr).min.z as int == e.z - hw
            &&& spec_world_bounds(pr).max.z as int == e.z + hw
        }),
{
    let r = pr.shape.r as int;
    let dd = pr.transform.den as int;
    let q0 = isqrt_spec((r * r * dd) as nat) as int;
    assert(1 <= r * (r * dd) <= 0x40_0000 * 0x40_0000) by (nonlinear_arith)
        requires
            r >= 1,
            dd >= 1,
            r * dd <= 0x40_0000,
    ;
    assert(r * r * dd == r * (r * dd)) by (nonlinear_arith);
    crate::arith::lemma_isqrt_bounds((r * r * dd) as nat);
    assert(q0 * q0 <= 0x1000_0000_0000);
    assert(q0 <= 0x80_0000) by (nonlinear_arith)
        requires
            q0 >= 0,
            q0 * q0 <= 0x1000_0000_0000,
    ;
}

/// A bounding-volume hierarchy over a snapshot of primitive bounds: a
/// flat node arena whose last node is the root, and the order in which
/// the build arranged the primitive indices.
#[derive(Debug)]
pub struct BVH {
    /// The node arena; children always precede their parent.
    pub nodes: Vec<BVHNode>,
    /// Primitive indices, contiguous per leaf.
    pub order: Vec<usize>,
    /// Greatest number of primitives a leaf may hold.
    pub max_prims_in_node: usize,
}

impl BVH {
    /// Soundness with respect to the primitive boxes the tree was built
    /// over: the root covers the whole order and every subtree satisfies
    /// the containment invariant.
    pub open spec fn wf(self, boxes: Seq<Aabb>) -> bool {
        &&& self.nodes.len() >= 1
        &&& self.order.len() >= 1
        &&& node_wf(self.nodes@, boxes, self.order@, self.nodes@.len() - 1)
        &&& self.nodes@[self.nodes@.len() - 1].start() == 0
        &&& self.nodes@[self.nodes@.len() - 1].count() == self.order.len()
    }

    /// Builds the hierarchy over the given primitive boxes; `None` exactly
    /// when there are no primitives, so an empty scene never traverses an
    /// absent tree. The order covers every primitive index exactly once
    /// and no leaf exceeds the (positive) leaf size.
    pub fn build(boxes: &Vec<Aabb>, max_prims_in_node: usize) -> (r: Option<BVH>)
        requires
            forall|i: int|
                0 <= i < boxes@.len() ==> (#[trigger] boxes@[i]).wf() && boxes@[i].min.bounded(
                    0x100_0000,
                ) && boxes@[i].max.bounded(0x100_0000),
        ensures
            r is Some <==> boxes@.len() > 0,
            r matches Some(b) ==> {
                &&& b.wf(boxes@)
                &&& b.order.len() == boxes@.len()
                &&& covers_all(b.order@, boxes@.len() as int)
                &&& forall|k: int|
                    0 <= k < b.order@.len() ==> (#[trigger] b.order@[k]) < boxes@.len()
                &&& b.max_prims_in_node == if max_prims_in_node >= 1 {
                    max_prims_in_node
                } else {
                    1
                }
                &&& node_leaf_bound(b.nodes@, b.nodes@.len() - 1, b.max_prims_in_node as int)
            },
    {
        if boxes.len() == 0 {
            return None;
        }
        let max = if max_prims_in_node >= 1 {
            max_prims_in_node
        } else {
            1
        };
        let mut order: Vec<usize> = Vec::new();
        let mut i: usize = 0;
        while i < boxes.len()
            invariant
                i <= boxes@.len(),
                order@.len() == i,
                forall|k: int| 0 <= k < i ==> (#[trigger] order@[k]) == k,
            decreases boxes@.len() - i,
        {
            order.push(i);
            i = i + 1;
        }
        proof {
            assert forall|j: int| 0 <= j < boxes@.len() implies #[trigger] order_contains(
                order@,
                j,
            ) by {
                assert(order@[j] == j);
            }
            assert forall|k: int| 0 <= k < order@.len() implies (#[trigger] order@[k])
                < boxes@.len() by {
                assert(order@[k] == k);
            }
        }
        let mut nodes: Vec<BVHNode> = Vec::new();
        let n = order.len();
        let root = build_range(boxes, &mut order, 0, n, max, &mut nodes);
        proof {
            assert(root == nodes@.len() - 1);
        }
        Some(BVH { nodes, order, max_prims_in_node: max })
    }

    /// Nearest hit among the primitives the tree was built over:
    /// identical in outcome to the linear scan. `None` exactly when no
    /// primitive is hit; otherwise a genuine hit record of a hit
    /// primitive whose exact ray parameter is no later than that of
    /// every hit primitive.
    pub fn intersect(&self, prims: &Vec<Primitive>, ray: &Ray) -> (res: Option<HitRecord>)
        requires
            self.wf(Seq::new(prims@.len(), |i: int| spec_world_bounds(prims@[i]))),
            self.order@.len() == prims@.len(),
            covers_all(self.order@, prims@.len() as int),
            forall|k: int| 0 <= k < self.order@.len() ==> (#[trigger] self.order@[k]) < prims@.len(),
            forall|i: int| 0 <= i < prims@.len() ==> (#[trigger] prims@[i]).wf(),
            ray.in_world_bounds(),
        ensures
            res is Some <==> exists|j: int|
                0 <= j < prims@.len() && prim_hits(#[trigger] prims@[j], *ray),
            res matches Some(h) ==> {
                &&& h.prim < prims@.len()
                &&& prim_hits(prims@[h.prim as int], *ray)
                &&& hit_record_matches(prims@[h.prim as int], *ray, h)
                &&& forall|j: int|
                    0 <= j < prims@.len() && prim_hits(#[trigger] prims@[j], *ray)
                        ==> hit_no_later(prims@[h.prim as int], prims@[j], *ray)
            },
    {
        let root = self.nodes.len() - 1;
        let res = intersect_node(
            &self.nodes,
            &self.order,
            prims,
            ray,
            root,
            Ghost(Seq::new(prims@.len(), |i: int| spec_world_bounds(prims@[i]))),
        );
        proof {
            let order = self.order@;
            let n = prims@.len() as int;
            if exists|j: int| 0 <= j < n && prim_hits(#[trigger] prims@[j], *ray) {
                let j = choose|j: int| 0 <= j < n && prim_hits(#[trigger] prims@[j], *ray);
                assert(order_contains(order, j));
                let k = choose|k: int| 0 <= k < order.len() && order[k] == j;
                assert(prim_hits(prims@[order[k] as int], *ray));
            }
            match res {
                None => {
                },
                Some(h) => {
                    assert forall|j: int|
                        0 <= j < n && prim_hits(#[trigger] prims@[j], *ray) implies hit_no_later(
                        prims@[h.prim as int],
                        prims@[j],
                        *ray,
                    ) by {
                        assert(order_contains(order, j));
                        let k = choose|k: int| 0 <= k < order.len() && order[k] == j;
                        assert(prims@[order[k] as int] == prims@[j]);
                    }
                },
            }
        }
        res
    }
}

/// Nearest hit among the ordered primitives covered by node `idx`: the
/// depth-first traversal of the subtree, combining child results by the
/// same earliest-parameter rule as the linear scan.
fn intersect_node(
    nodes: &Vec<BVHNode>,
    order: &Vec<usize>,
    prims: &Vec<Primitive>,
    ray: &Ray,
    idx: usize,
    Ghost(boxes): Ghost<Seq<Aabb>>,
) -> (res: Option<HitRecord>)
    requires
        node_wf(nodes@, boxes, order@, idx as int),
        boxes.len() == prims@.len(),
        forall|j: int| 0 <= j < boxes.len() ==> #[trigger] boxes[j] == spec_world_bounds(prims@[j]),
        forall|i: int| 0 <= i < prims@.len() ==> (#[trigger] prims@[i]).wf(),
        ray.in_world_bounds(),
    ensures
        ({
            let start = nodes@[idx as int].start();
            let count = nodes@[idx as int].count();
            &&& (res is Some <==> exists|k: int|
                start <= k < start + count && prim_hits(
                    #[trigger] prims@[order@[k] as int],
                    *ray,
                ))
            &&& (res matches Some(h) ==> {
                &&& h.prim < prims@.len()
                &&& prim_hits(prims@[h.prim as int], *ray)
                &&& hit_record_matches(prims@[h.prim as int], *ray, h)
                &&& forall|k: int|
                    start <= k < start + count && prim_hits(
                        #[trigger] prims@[order@[k] as int],
                        *ray,
                    ) ==> hit_no_later(prims@[h.prim as int], prims@[order@[k] as int], *ray)
            })
        }),
    decreases idx,
{
    let node = nodes[idx].clone();
    let bbox = match node {
        BVHNode::Leaf { bbox, .. } => bbox,
        BVHNode::Interior { bbox, .. } => bbox,
    };
    if slab_miss(ray, &bbox) {
        proof {
            crate::accel::bvh_node::lemma_subtree_contains(nodes@, boxes, order@, idx as int);
            let start = nodes@[idx as int].start();
            let count = nodes@[idx as int].count();
            assert forall|k: int|
                start <= k < start + count implies !prim_hits(
                #[trigger] prims@[order@[k] as int],
                *ray,
            ) by {
                if prim_hits(prims@[order@[k] as int], *ray) {
                    let pr = prims@[order@[k] as int];
                    lemma_hit_in_world_bounds(pr, *ray);
                    let tn = prim_t_num(pr, *ray);
                    let td = prim_t_den(pr, *ray);
                    assert(boxes[order@[k] as int] == spec_world_bounds(pr));
                    lemma_point_box_monotone(
                        *ray,
                        spec_world_bounds(pr),
                        nodes@[idx as int].bbox(),
                        tn,
                        td,
                    );
                    assert(point_in_box(*ray, bbox, tn, td));
                }
            }
        }
        return None;
    }
    match node {
        BVHNode::Leaf { bbox: _, start, count } => {
            let n = order.len();
            proof {
                assert(nodes@[idx as int].start() == start as int);
                assert(nodes@[idx as int].count() == count as int);
                assert(start + count <= n);
            }
            let end = start + count;
            let mut best: Option<HitRecord> = None;
            let mut k: usize = start;
            while k < end
                invariant
                    node_wf(nodes@, boxes, order@, idx as int),
                    nodes@[idx as int] is Leaf,
                    nodes@[idx as int].start() == start as int,
                    nodes@[idx as int].count() == count as int,
                    end == start + count,
                    start <= k <= start + count,
                    start + count <= order@.len(),
                    boxes.len() == prims@.len(),
                    forall|i: int| 0 <= i < prims@.len() ==> (#[trigger] prims@[i]).wf(),
                    ray.in_world_bounds(),
                    best is Some <==> exists|k2: int|
                        start <= k2 < k && prim_hits(#[trigger] prims@[order@[k2] as int], *ray),
                    best matches Some(h) ==> {
                        &&& h.prim < prims@.len()
                        &&& prim_hits(prims@[h.prim as int], *ray)
                        &&& hit_record_matches(prims@[h.prim as int], *ray, h)
                        &&& forall|k2: int|
                            start <= k2 < k && prim_hits(#[trigger] prims@[order@[k2] as int], *ray)
                                ==> hit_no_later(
                                prims@[h.prim as int],
                                prims@[order@[k2] as int],
                                *ray,
                            )
                    },
                decreases end - k,
            {
                let pi = order[k];
                proof {
                    assert(order@[k as int] < boxes.len());
                }
                let p = &prims[pi];
                let prev = best;
                match p.intersect(ray) {
                    None => {
                        proof {
                            assert(!prim_hits(prims@[order@[k as int] as int], *ray));
                            assert forall|k2: int|
                                start <= k2 < k + 1 && prim_hits(
                                    #[trigger] prims@[order@[k2] as int],
                                    *ray,
                                ) implies k2 < k by {}
                        }
                    },
                    Some(hit) => {
                        let cur = HitRecord { prim: pi, ..hit };
                        proof {
                            assert(hit_record_matches(prims@[pi as int], *ray, cur));
                        }
                        best = combine_best(prev, cur, prims, ray);
                        proof {
                            match best {
                                None => {
                                },
                                Some(h) => {
                                    assert forall|k2: int|
                                        start <= k2 < k + 1 && prim_hits(
                                            #[trigger] prims@[order@[k2] as int],
                                            *ray,
                                        ) implies hit_no_later(
                                        prims@[h.prim as int],
                                        prims@[order@[k2] as int],
                                        *ray,
                                    ) by {
                                        if k2 == k {
                                            assert(prims@[order@[k2] as int] == prims@[cur.prim
                                                as int]);
                                        } else {
                                            match prev {
                                                None => {
                                                },
                                                Some(b) => {
                                                    if h.prim != b.prim {
                                                        assert(h == cur);
                                                    }
                                                    lemma_rational_le_trans(
                                                        prim_t_num(prims@[h.prim as int], *ray),
                                                        prim_t_den(prims@[h.prim as int], *ray),
                                                        prim_t_num(prims@[b.prim as int], *ray),
                                                        prim_t_den(prims@[b.prim as int], *ray),
                                                        prim_t_num(
                                                            prims@[order@[k2] as int],
                                                            *ray,
                                                        ),
                                                        prim_t_den(
                                                            prims@[order@[k2] as int],
                                                            *ray,
                                                        ),
                                                    );
                                                },
                                            }
                                        }
                                    }
                                },
                            }
                        }
                    },
                }
                k = k + 1;
            }
            best
        },
        BVHNode::Interior { bbox: _, start, count, left, right } => {
            let lres = intersect_node(nodes, order, prims, ray, left, Ghost(boxes));
            let rres = intersect_node(nodes, order, prims, ray, right, Ghost(boxes));
            let ghost ls = nodes@[left as int].start();
            let ghost lc = nodes@[left as int].count();
            let ghost rs = nodes@[right as int].start();
            let ghost rc = nodes@[right as int].count();
            let res = match (lres, rres) {
                (None, None) => None,
                (Some(l), None) => Some(l),
                (None, Some(r)) => Some(r),
                (Some(l), Some(r)) => {
                    proof {
                        lemma_mul_bounds(
                            r.t_num as int,
                            l.t_den as int,
                            0x8000_0000_0000_0000,
                            0x8000_0000_0000_0000,
                        );
                        lemma_mul_bounds(
                            l.t_num as int,
                            r.t_den as int,
                            0x8000_0000_0000_0000,
                            0x8000_0000_0000_0000,
                        );
                    }
                    if r.t_num * l.t_den < l.t_num * r.t_den {
                        proof {
                            lemma_combine_minimal(prims@, *ray, r.prim as int, l.prim as int);
                        }
                        Some(r)
                    } else {
                        proof {
                            lemma_combine_minimal_keep(prims@, *ray, l.prim as int, r.prim as int);
                        }
                        Some(l)
                    }
                },
            };
            proof {
                match res {
                    None => {
                        assert forall|k: int|
                            start <= k < start + count implies !prim_hits(
                            #[trigger] prims@[order@[k] as int],
                            *ray,
                        ) by {
                            if ls <= k < ls + lc {
                            } else {
                                assert(rs <= k < rs + rc);
                            }
                        }
                    },
                    Some(h) => {
                        match lres {
                            None => {
                                match rres {
                                    None => {
                                    },
                                    Some(_r) => {
                                        let k2 = choose|k2: int|
                                            rs <= k2 < rs + rc && prim_hits(
                                                #[trigger] prims@[order@[k2] as int],
                                                *ray,
                                            );
                                        assert(start <= k2 < start + count && prim_hits(
                                            prims@[order@[k2] as int],
                                            *ray,
                                        ));
                                    },
                                }
                            },
                            Some(_l) => {
                                let k2 = choose|k2: int|
                                    ls <= k2 < ls + lc && prim_hits(
                                        #[trigger] prims@[order@[k2] as int],
                                        *ray,
                                    );
                                assert(start <= k2 < start + count && prim_hits(
                                    prims@[order@[k2] as int],
                                    *ray,
                                ));
                            },
                        }
                    },
                }
                match res {
                    None => {
                    },
                    Some(h) => {
                        assert forall|k: int|
                            start <= k < start + count && prim_hits(
                                #[trigger] prims@[order@[k] as int],
                                *ray,
                            ) implies hit_no_later(
                            prims@[h.prim as int],
                            prims@[order@[k] as int],
                            *ray,
                        ) by {
                            let other = prims@[order@[k] as int];
                            let winner = prims@[h.prim as int];
                            if ls <= k < ls + lc {
                                match lres {
                                    None => {
                                    },
                                    Some(l) => {
                                        if h.prim != l.prim {
                                            lemma_rational_le_trans(
                                                prim_t_num(winner, *ray),
                                                prim_t_den(winner, *ray),
                                                prim_t_num(prims@[l.prim as int], *ray),
                                                prim_t_den(prims@[l.prim as int], *ray),
                                                prim_t_num(other, *ray),
                                                prim_t_den(other, *ray),
                                            );
                                        }
                                    },
                                }
                            } else {
                                match rres {
                                    None => {
                                    },
                                    Some(r) => {
                                        if h.prim != r.prim {
                                            lemma_rational_le_trans(
                                                prim_t_num(winner, *ray),
                                                prim_t_den(winner, *ray),
                                                prim_t_num(prims@[r.prim as int], *ray),
                                                prim_t_den(prims@[r.prim as int], *ray),
                                                prim_t_num(other, *ray),
                                                prim_t_den(other, *ray),
                                            );
                                        }
                                    },
                                }
                            }
                        }
                    },
                }
            }
            res
        },
    }
}

/// Keeps the running best or replaces it by a strictly earlier new hit,
/// mirroring the linear scan's fold step.
fn combine_best(
    best: Option<HitRecord>,
    hit: HitRecord,
    prims: &Vec<Primitive>,
    ray: &Ray,
) -> (res: Option<HitRecord>)
    requires
        hit.prim < prims@.len(),
        prim_hits(prims@[hit.prim as int], *ray),
        hit_record_matches(prims@[hit.prim as int], *ray, hit),
        best matches Some(b) ==> b.prim < prims@.len() && prim_hits(prims@[b.prim as int], *ray)
            && hit_record_matches(prims@[b.prim as int], *ray, b),
    ensures
        res is Some,
        res matches Some(h) ==> {
            &&& (h == hit || (best matches Some(b) && h == b))
            &&& h.prim < prims@.len()
            &&& prim_hits(prims@[h.prim as int], *ray)
            &&& hit_record_matches(prims@[h.prim as int], *ray, h)
            &&& hit_no_later(prims@[h.prim as int], prims@[hit.prim as int], *ray)
            &&& (best matches Some(b) ==> hit_no_later(
                prims@[h.prim as int],
                prims@[b.prim as int],
                *ray,
            ))
        },
{
    match best {
        None => Some(hit),
        Some(b) => {
            proof {
                lemma_mul_bounds(
                    hit.t_num as int,
                    b.t_den as int,
                    0x8000_0000_0000_0000,
                    0x8000_0000_0000_0000,
                );
                lemma_mul_bounds(
                    b.t_num as int,
                    hit.t_den as int,
                    0x8000_0000_0000_0000,
                    0x8000_0000_0000_0000,
                );
            }
            if hit.t_num * b.t_den < b.t_num * hit.t_den {
                Some(hit)
            } else {
                Some(b)
            }
        },
    }
}

/// When the right child's winner is strictly earlier than the left's, it
/// is no later than either.
proof fn lemma_combine_minimal(prims: Seq<Primitive>, ray: Ray, w: int, o: int)
    requires
        0 <= w < prims.len(),
        0 <= o < prims.len(),
        prim_hits(prims[w], ray),
        prim_hits(prims[o], ray),
        prim_t_num(prims[w], ray) * prim_t_den(prims[o], ray) < prim_t_num(prims[o], ray)
            * prim_t_den(prims[w], ray),
    ensures
        hit_no_later(prims[w], prims[o], ray),
        hit_no_later(prims[w], prims[w], ray),
{
}

/// When the right child's winner is not strictly earlier, the left's is
/// no later than either.
proof fn lemma_combine_minimal_keep(prims: Seq<Primitive>, ray: Ray, w: int, o: int)
    requires
        0 <= w < prims.len(),
        0 <= o < prims.len(),
        prim_hits(prims[w], ray),
        prim_hits(prims[o], ray),
        !(prim_t_num(prims[o], ray) * prim_t_den(prims[w], ray) < prim_t_num(prims[w], ray)
            * prim_t_den(prims[o], ray)),
    ensures
        hit_no_later(prims[w], prims[o], ray),
        hit_no_later(prims[w], prims[w], ray),
{
}

/// Builds the subtree covering order positions `[start, end)` and returns
/// the index of its root, which is the last node pushed.
fn build_range(
    boxes: &Vec<Aabb>,
    order: &mut Vec<usize>,
    start: usize,
    end: usize,
    max: usize,
    nodes: &mut Vec<BVHNode>,
) -> (root: usize)
    requires
        forall|i: int|
            0 <= i < boxes@.len() ==> (#[trigger] boxes@[i]).wf() && boxes@[i].min.bounded(
                0x100_0000,
            ) && boxes@[i].max.bounded(0x100_0000),
        start < end <= old(order)@.len(),
        forall|k: int| 0 <= k < old(order)@.len() ==> (#[trigger] old(order)@[k]) < boxes@.len(),
        covers_all(old(order)@, boxes@.len() as int),
        max >= 1,
    ensures
        final(order)@.len() == old(order)@.len(),
        forall|k: int| 0 <= k < final(order)@.len() ==> (#[trigger] final(order)@[k]) < boxes@.len(),
        covers_all(final(order)@, boxes@.len() as int),
        forall|k: int|
            0 <= k < final(order)@.len() && !(start <= k < end) ==> final(order)@[k] == old(
                order,
            )@[k],
        final(nodes)@.len() > old(nodes)@.len(),
        forall|j: int| 0 <= j < old(nodes)@.len() ==> final(nodes)@[j] == old(nodes)@[j],
        root == final(nodes)@.len() - 1,
        node_wf(final(nodes)@, boxes@, final(order)@, root as int),
        node_leaf_bound(final(nodes)@, root as int, max as int),
        final(nodes)@[root as int].start() == start,
        final(nodes)@[root as int].count() == end - start,
    decreases end - start,
{
    let mut bbox = boxes[order[start]];
    let mut k: usize = start + 1;
    while k < end
        invariant
            start < end <= order@.len(),
            start + 1 <= k <= end,
            forall|j: int| 0 <= j < order@.len() ==> (#[trigger] order@[j]) < boxes@.len(),
            forall|i: int|
                0 <= i < boxes@.len() ==> (#[trigger] boxes@[i]).wf() && boxes@[i].min.bounded(
                    0x100_0000,
                ) && boxes@[i].max.bounded(0x100_0000),
            bbox.wf(),
            bbox.min.bounded(0x100_0000),
            bbox.max.bounded(0x100_0000),
            forall|j: int|
                start <= j < k ==> bbox.contains_box(#[trigger] boxes@[order@[j] as int]),
        decreases end - k,
    {
        let nb = bbox.union(&boxes[order[k]]);
        proof {
            assert forall|j: int| start <= j < k + 1 implies nb.contains_box(
                #[trigger] boxes@[order@[j] as int],
            ) by {
                if j < k {
                    assert(bbox.contains_box(boxes@[order@[j] as int]));
                }
            }
        }
        bbox = nb;
        k = k + 1;
    }
    if end - start <= max {
        nodes.push(BVHNode::Leaf { bbox, start, count: end - start });
        proof {
            assert(node_wf(nodes@, boxes@, order@, nodes@.len() - 1));
            assert(node_leaf_bound(nodes@, nodes@.len() - 1, max as int));
        }
        return nodes.len() - 1;
    }
    let axis = centroid_split_axis(boxes, order, start, end);
    sort_range_by_centroid(boxes, order, start, end, axis);
    let mid = start + (end - start) / 2;
    let left = build_range(boxes, order, start, mid, max, nodes);
    let ghost order_mid = order@;
    let ghost nodes_mid = nodes@;
    let right = build_range(boxes, order, mid, end, max, nodes);
    proof {
        lemma_node_wf_prefix(nodes_mid, nodes@, boxes@, order_mid, left as int);
        lemma_node_wf_order_frame(nodes@, boxes@, order_mid, order@, left as int);
    }
    let lb = nodes[left].clone();
    let rb = nodes[right].clone();
    let (lbox, rbox) = match (lb, rb) {
        (
            BVHNode::Leaf { bbox: b1, .. },
            BVHNode::Leaf { bbox: b2, .. },
        ) => (b1, b2),
        (
            BVHNode::Leaf { bbox: b1, .. },
            BVHNode::Interior { bbox: b2, .. },
        ) => (b1, b2),
        (
            BVHNode::Interior { bbox: b1, .. },
            BVHNode::Leaf { bbox: b2, .. },
        ) => (b1, b2),
        (
            BVHNode::Interior { bbox: b1, .. },
            BVHNode::Interior { bbox: b2, .. },
        ) => (b1, b2),
    };
    let pbox = lbox.union(&rbox);
    let ghost nodes_before = nodes@;
    nodes.push(
        BVHNode::Interior { bbox: pbox, start, count: end - start, left, right },
    );
    proof {
        let r = nodes@.len() - 1;
        lemma_node_wf_prefix(nodes_before, nodes@, boxes@, order@, left as int);
        lemma_node_wf_prefix(nodes_before, nodes@, boxes@, order@, right as int);
        assert(node_wf(nodes@, boxes@, order@, r));
        lemma_leaf_bound_prefix(nodes_mid, nodes@, left as int, max as int);
        lemma_leaf_bound_prefix(nodes_before, nodes@, right as int, max as int);
        assert(node_leaf_bound(nodes@, r, max as int));
    }
    nodes.len() - 1
}

/// The axis of largest extent of the box of the range's centroids.
fn centroid_split_axis(boxes: &Vec<Aabb>, order: &Vec<usize>, start: usize, end: usize) -> (r:
    usize)
    requires
        start < end <= order@.len(),
        forall|k: int| 0 <= k < order@.len() ==> (#[trigger] order@[k]) < boxes@.len(),
        forall|i: int|
            0 <= i < boxes@.len() ==> (#[trigger] boxes@[i]).wf() && boxes@[i].min.bounded(
                0x100_0000,
            ) && boxes@[i].max.bounded(0x100_0000),
    ensures
        r < 3,
{
    let c0 = boxes[order[start]].centroid();
    let mut cbox = Aabb { min: c0, max: c0 };
    let mut k: usize = start + 1;
    while k < end
        invariant
            start < end <= order@.len(),
            start + 1 <= k <= end,
            forall|j: int| 0 <= j < order@.len() ==> (#[trigger] order@[j]) < boxes@.len(),
            forall|i: int|
                0 <= i < boxes@.len() ==> (#[trigger] boxes@[i]).wf() && boxes@[i].min.bounded(
                    0x100_0000,
                ) && boxes@[i].max.bounded(0x100_0000),
            cbox.wf(),
            cbox.min.bounded(0x1_0000_0000),
            cbox.max.bounded(0x1_0000_0000),
        decreases end - k,
    {
        let c = boxes[order[k]].centroid();
        let cb = Aabb { min: c, max: c };
        cbox = cbox.union(&cb);
        k = k + 1;
    }
    cbox.largest_extent_axis()
}

/// Sorts the order positions `[start, end)` by primitive centroid along
/// `axis`, by insertion; positions outside the range are untouched and
/// the entries remain valid primitive indices.
fn sort_range_by_centroid(
    boxes: &Vec<Aabb>,
    order: &mut Vec<usize>,
    start: usize,
    end: usize,
    axis: usize,
)
    requires
        axis < 3,
        start <= end <= old(order)@.len(),
        forall|k: int| 0 <= k < old(order)@.len() ==> (#[trigger] old(order)@[k]) < boxes@.len(),
        covers_all(old(order)@, boxes@.len() as int),
        forall|i: int|
            0 <= i < boxes@.len() ==> (#[trigger] boxes@[i]).wf() && boxes@[i].min.bounded(
                0x100_0000,
            ) && boxes@[i].max.bounded(0x100_0000),
    ensures
        final(order)@.len() == old(order)@.len(),
        forall|k: int| 0 <= k < final(order)@.len() ==> (#[trigger] final(order)@[k]) < boxes@.len(),
        covers_all(final(order)@, boxes@.len() as int),
        forall|k: int|
            0 <= k < final(order)@.len() && !(start <= k < end) ==> final(order)@[k] == old(
                order,
            )@[k],
{
    let mut i: usize = start;
    while i < end
        invariant
            axis < 3,
            start <= i <= end <= order@.len(),
            forall|k: int| 0 <= k < order@.len() ==> (#[trigger] order@[k]) < boxes@.len(),
            forall|ii: int|
                0 <= ii < boxes@.len() ==> (#[trigger] boxes@[ii]).wf() && boxes@[ii].min.bounded(
                    0x100_0000,
                ) && boxes@[ii].max.bounded(0x100_0000),
            order@.len() == old(order)@.len(),
            covers_all(order@, boxes@.len() as int),
            forall|k: int|
                0 <= k < order@.len() && !(start <= k < end) ==> order@[k] == old(order)@[k],
        decreases end - i,
    {
        let mut j: usize = i;
        while j > start
            invariant
                axis < 3,
                start <= j <= i < end <= order@.len(),
                forall|k: int| 0 <= k < order@.len() ==> (#[trigger] order@[k]) < boxes@.len(),
                forall|ii: int|
                    0 <= ii < boxes@.len() ==> (#[trigger] boxes@[ii]).wf()
                        && boxes@[ii].min.bounded(0x100_0000) && boxes@[ii].max.bounded(
                        0x100_0000,
                    ),
                order@.len() == old(order)@.len(),
                covers_all(order@, boxes@.len() as int),
                forall|k: int|
                    0 <= k < order@.len() && !(start <= k < end) ==> order@[k] == old(order)@[k],
            decreases j,
        {
            let a = boxes[order[j - 1]].centroid();
            let b = boxes[order[j]].centroid();
            if axis_coord(&a, axis) > axis_coord(&b, axis) {
                let ghost before = order@;
                let tmp = order[j - 1];
                let tmp2 = order[j];
                order[j - 1] = tmp2;
                order[j] = tmp;
                proof {
                    assert forall|v: int| 0 <= v < boxes@.len() implies #[trigger] order_contains(
                        order@,
                        v,
                    ) by {
                        assert(order_contains(before, v));
                        let k0 = choose|k: int| 0 <= k < before.len() && before[k] == v;
                        if k0 == j - 1 {
                            assert(order@[j as int] == v);
                        } else if k0 == j {
                            assert(order@[j - 1] == v);
                        } else {
                            assert(order@[k0] == v);
                        }
                    }
                }
                j = j - 1;
            } else {
                break ;
            }
        }
        i = i + 1;
    }
}

} // verus!
