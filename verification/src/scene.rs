//! The scene: the primitive set, the acceleration structure over it, and
//! the single entry point for "find the first hit".
//!
//! Nearest-hit resolution keeps the hit with the smallest exact ray
//! parameter, compared by cross-multiplication over the positive
//! denominators, so no rounding and no ill-ordered value can ever decide
//! a comparison. The contract pins the winner's parameter to be no later
//! than every hit primitive's. On an exact tie the linear scan keeps the
//! earlier-listed primitive (a fold that replaces the running best only
//! on a strictly smaller parameter, as a minimum fold does), while the
//! accelerated path keeps the first in its traversal order; the contract
//! deliberately fixes only the parameter, not which of several equally
//! near primitives is reported.

use vstd::prelude::*;
use crate::accel::aabb::Aabb;
use crate::accel::bvh::BVH;
use crate::accel::bvh::covers_all;
use crate::accel::bvh::spec_world_bounds;
use crate::accel::bvh::world_bounds;
use crate::arith::lemma_mul_bounds;
use crate::render::ray::Ray;
use crate::shape::HitRecord;
use crate::shape::primitive::Primitive;
use crate::shape::primitive::hit_earlier;
use crate::shape::primitive::hit_no_later;
use crate::shape::primitive::hit_record_matches;
use crate::shape::primitive::lemma_rational_le_trans;
use crate::shape::primitive::prim_hits;

verus! {

/// The world bounds of every primitive of a scene, in list order.
pub open spec fn scene_boxes(prims: Seq<Primitive>) -> Seq<Aabb> {
    Seq::new(prims.len(), |i: int| spec_world_bounds(prims[i]))
}

/// Index of the nearest hit among the first `n` primitives, resolved as a
/// forward fold: a new hit replaces the running best only when its
/// parameter is strictly earlier, so on a tie the first-listed primitive
/// wins.
pub open spec fn best_hit_upto(prims: Seq<Primitive>, ray: Ray, n: int) -> Option<int>
    decreases n,
{
    if n <= 0 {
        None
    } else {
        let rest = best_hit_upto(prims, ray, n - 1);
        if !prim_hits(prims[n - 1], ray) {
            rest
        } else {
            match rest {
                None => Some(n - 1),
                Some(j) => if hit_earlier(prims[n - 1], prims[j], ray) {
                    Some(n - 1)
                } else {
                    Some(j)
                },
            }
        }
    }
}

/// The scene: the owner of the primitive list and, once built, of the
/// bounding-volume hierarchy over it; queried many times, never mutated
/// during queries.
#[derive(Debug)]
pub struct Scene {
    /// The primitives, in insertion order.
    pub primitives: Vec<Primitive>,
    /// The acceleration structure, once built over the current primitives.
    pub bvh: Option<BVH>,
}

impl Scene {
    /// Every primitive is structurally sound, and the hierarchy, when
    /// present, is sound over exactly these primitives' bounds.
    pub open spec fn wf(self) -> bool {
        &&& forall|i: int| 0 <= i < self.primitives.len() ==> (#[trigger] self.primitives[i]).wf()
        &&& match self.bvh {
            None => true,
            Some(b) => {
                &&& b.wf(scene_boxes(self.primitives@))
                &&& b.order@.len() == self.primitives@.len()
                &&& covers_all(b.order@, self.primitives@.len() as int)
                &&& forall|k: int|
                    0 <= k < b.order@.len() ==> (#[trigger] b.order@[k])
                        < self.primitives@.len()
            },
        }
    }

    pub fn new() -> (s: Scene)
        ensures
            s.primitives@.len() == 0,
            s.bvh is None,
            s.wf(),
    {
        Scene { primitives: Vec::new(), bvh: None }
    }

    /// Adds a primitive at the end of the list. Any previously built
    /// hierarchy no longer describes the list and is dropped.
    pub fn add_primitive(&mut self, p: Primitive)
        requires
            old(self).wf(),
            p.wf(),
        ensures
            final(self).primitives@ == old(self).primitives@.push(p),
            final(self).bvh is None,
            final(self).wf(),
    {
        self.primitives.push(p);
        self.bvh = None;
        proof {
            assert forall|i: int| 0 <= i < self.primitives.len() implies (
            #[trigger] self.primitives[i]).wf() by {
                if i < old(self).primitives.len() {
                    assert(self.primitives[i] == old(self).primitives[i]);
                }
            }
        }
    }

    /// Builds the bounding-volume hierarchy over the current primitives
    /// with the given leaf size; the hierarchy is present afterwards
    /// exactly when the scene is nonempty.
    pub fn build_acceleration(&mut self, max_prims_in_node: usize)
        requires
            old(self).wf(),
        ensures
            final(self).wf(),
            final(self).primitives@ == old(self).primitives@,
            final(self).bvh is Some <==> old(self).primitives@.len() > 0,
    {
        let mut boxes: Vec<Aabb> = Vec::new();
        let mut i: usize = 0;
        while i < self.primitives.len()
            invariant
                old(self).wf(),
                self.primitives@ == old(self).primitives@,
                self.bvh == old(self).bvh,
                i <= self.primitives@.len(),
                boxes@.len() == i,
                forall|k: int| 0 <= k < i ==> #[trigger] boxes@[k] == spec_world_bounds(
                    self.primitives@[k],
                ),
                forall|k: int|
                    0 <= k < i ==> (#[trigger] boxes@[k]).wf() && boxes@[k].min.bounded(0x100_0000)
                        && boxes@[k].max.bounded(0x100_0000),
            decreases self.primitives@.len() - i,
        {
            let b = world_bounds(&self.primitives[i]);
            boxes.push(b);
            i = i + 1;
        }
        proof {
            assert(boxes@ =~= scene_boxes(self.primitives@));
        }
        self.bvh = BVH::build(&boxes, max_prims_in_node);
    }

    /// The nearest hit of the ray among all primitives: `None` exactly
    /// when no primitive is hit; otherwise a genuine hit record of a hit
    /// primitive whose exact ray parameter is no later than that of every
    /// hit primitive. Delegates to the hierarchy when it is present, else
    /// scans linearly; the two paths agree on this contract.
    pub fn find_first_hit(&self, ray: &Ray) -> (res: Option<HitRecord>)
        requires
            self.wf(),
            ray.in_world_bounds(),
        ensures
            res is Some <==> best_hit_upto(self.primitives@, *ray, self.primitives@.len() as int)
                is Some,
            res matches Some(h) ==> {
                &&& h.prim < self.primitives@.len()
                &&& prim_hits(self.primitives@[h.prim as int], *ray)
                &&& hit_record_matches(self.primitives@[h.prim as int], *ray, h)
                &&& forall|j: int|
                    0 <= j < self.primitives@.len() && prim_hits(#[trigger] self.primitives@[j], *ray)
                        ==> hit_no_later(
                        self.primitives@[h.prim as int],
                        self.primitives@[j],
                        *ray,
                    )
            },
    {
        proof {
            lemma_best_hit_minimal(
                self.primitives@,
                *ray,
                self.primitives@.len() as int,
            );
        }
        if let Some(bvh) = &self.bvh {
            let res = bvh.intersect(&self.primitives, ray);
            proof {
                if res is None {
                    match best_hit_upto(self.primitives@, *ray, self.primitives@.len() as int) {
                        None => {
                        },
                        Some(b) => {
                            assert(prim_hits(self.primitives@[b], *ray));
                        },
                    }
                }
            }
            return res;
        }
        let mut best: Option<HitRecord> = None;
        let mut i: usize = 0;
        while i < self.primitives.len()
            invariant
                self.wf(),
                ray.in_world_bounds(),
                i <= self.primitives@.len(),
                best is Some <==> best_hit_upto(self.primitives@, *ray, i as int) is Some,
                best matches Some(h) ==> {
                    &&& best_hit_upto(self.primitives@, *ray, i as int) == Some(h.prim as int)
                    &&& h.prim < i
                    &&& prim_hits(self.primitives@[h.prim as int], *ray)
                    &&& hit_record_matches(self.primitives@[h.prim as int], *ray, h)
                },
            decreases self.primitives@.len() - i,
        {
            let p = &self.primitives[i];
            match p.intersect(ray) {
                None => {
                },
                Some(hit) => {
                    let replace = match &best {
                        None => true,
                        Some(b) => {
                            proof {
                                lemma_mul_bounds(
                                    hit.t_num as int,
                                    b.t_den as int,
                                    0x8000_0000_0000_0000,
                                    0x8000_0000_0000_0000,
                                );
                                lemma_mul_bounds(
                                    b.t_num as int,
                                    hit.t_den as int,
                                    0x8000_0000_0000_0000,
                                    0x8000_0000_0000_0000,
                                );
                            }
                            hit.t_num * b.t_den < b.t_num * hit.t_den
                        },
                    };
                    if replace {
                        best = Some(HitRecord { prim: i, ..hit });
                    }
                },
            }
            i = i + 1;
        }
        best
    }

    /// Pushes one canonical unit sphere at the origin under the identity
    /// placement, as a stand-in scene for exercising the pipeline.
    pub fn dummy(&mut self)
        requires
            old(self).wf(),
        ensures
            final(self).wf(),
            final(self).primitives@.len() == old(self).primitives@.len() + 1,
            forall|i: int|
                0 <= i < old(self).primitives@.len() ==> #[trigger] final(self).primitives@[i]
                    == old(self).primitives@[i],
            ({
                let p = final(self).primitives@.last();
                &&& p.shape.r == 1
                &&& p.transform.den == 1
                &&& p.transform.mat.is_identity()
                &&& p.material == 0
                &&& p.wf()
            }),
    {
        let t = crate::math::transform::Transform::new_identity();
        let p = Primitive {
            shape: crate::shape::sphere::Sphere { r: 1 },
            transform: t,
            material: 0,
        };
        proof {
            assert(p.wf());
        }
        self.add_primitive(p);
    }
}

/// Nearest-hit resolution is sound and minimal: when the fold finds no
/// winner, no primitive is hit; when it finds one, that primitive is hit
/// and its exact ray parameter is no later than that of every hit
/// primitive in range.
pub proof fn lemma_best_hit_minimal(prims: Seq<Primitive>, ray: Ray, n: int)
    requires
        0 <= n <= prims.len(),
    ensures
        best_hit_upto(prims, ray, n) is None ==> forall|j: int|
            0 <= j < n ==> !prim_hits(#[trigger] prims[j], ray),
        best_hit_upto(prims, ray, n) matches Some(b) ==> {
            &&& 0 <= b < n
            &&& prim_hits(prims[b], ray)
            &&& forall|j: int|
                0 <= j < n && prim_hits(#[trigger] prims[j], ray) ==> hit_no_later(
                    prims[b],
                    prims[j],
                    ray,
                )
        },
    decreases n,
{
    if n > 0 {
        lemma_best_hit_minimal(prims, ray, n - 1);
        let rest = best_hit_upto(prims, ray, n - 1);
        let cur = prims[n - 1];
        if prim_hits(cur, ray) {
            match rest {
                None => {
                },
                Some(j0) => {
                    let old_best = prims[j0];
                    if hit_earlier(cur, old_best, ray) {
                        assert forall|j: int| 0 <= j < n && prim_hits(#[trigger] prims[j], ray)
                            implies hit_no_later(cur, prims[j], ray) by {
                            if j < n - 1 {
                                lemma_rational_le_trans(
                                    crate::shape::primitive::prim_t_num(cur, ray),
                                    crate::shape::primitive::prim_t_den(cur, ray),
                                    crate::shape::primitive::prim_t_num(old_best, ray),
                                    crate::shape::primitive::prim_t_den(old_best, ray),
                                    crate::shape::primitive::prim_t_num(prims[j], ray),
                                    crate::shape::primitive::prim_t_den(prims[j], ray),
                                );
                            }
                        }
                    } else {
                        assert(hit_no_later(old_best, cur, ray));
                    }
                },
            }
        }
    }
}

} // verus!
