//! The unordered aggregate of objects: linear closest-hit search.

use vstd::prelude::*;

use crate::common::T_MAX;
use crate::hittable::{
    h_cand_n, h_cand_ok, h_cand_t, h_wf, rec_is_first, rec_matches, HitRecord, Hittable,
};
use crate::ray::{wf_ray, Ray};

verus! {

/// An aggregate of objects, itself intersectable by the same contract.
pub struct HittableList {
    pub objects: Vec<Hittable>,
}

/// Every object in the list has valid geometry.
pub open spec fn wf_list(objs: Seq<Hittable>) -> bool {
    forall|i: int| 0 <= i < objs.len() ==> h_wf(#[trigger] objs[i])
}

/// The record reports candidate `k` of object `i`, and every valid
/// candidate of an earlier object (and every earlier candidate of the
/// same object) lies strictly later along the ray: the first object in
/// insertion order wins exact ties, as the shrinking strictly-less scan
/// guarantees.
pub open spec fn rec_is_first_of(
    objs: Seq<Hittable>,
    r: Ray,
    t_min: int,
    t_max: int,
    i: int,
    k: int,
    rec: HitRecord,
) -> bool {
    &&& 0 <= i < objs.len()
    &&& rec_is_first(objs[i], r, t_min, t_max, k, rec)
    &&& forall|j: int, l: int|
        0 <= j < i && 0 <= l < h_cand_n(objs[j]) && #[trigger] h_cand_ok(objs[j], r, l) && t_min
            < h_cand_t(objs[j], r, l) < t_max ==> (rec.t as int) < h_cand_t(objs[j], r, l)
}

/// The aggregate's closest-hit contract: a hit is a real candidate of
/// some object, no valid candidate of any object lies strictly earlier
/// inside the interval (and on exact ties the earliest object and
/// candidate in order wins), and a miss means no object has a valid
/// candidate inside the interval at all.
pub open spec fn list_hit_post(
    objs: Seq<Hittable>,
    r: Ray,
    t_min: int,
    t_max: int,
    res: Option<HitRecord>,
) -> bool {
    match res {
        Some(rec) => {
            &&& t_min < rec.t as int
            &&& (rec.t as int) < t_max
            &&& exists|i: int, k: int|
                #[trigger] h_cand_ok(objs[i], r, k) && rec_is_first_of(
                    objs,
                    r,
                    t_min,
                    t_max,
                    i,
                    k,
                    rec,
                )
            &&& forall|i: int, k: int|
                0 <= i < objs.len() && 0 <= k < h_cand_n(objs[i]) && #[trigger] h_cand_ok(
                    objs[i],
                    r,
                    k,
                ) && t_min < h_cand_t(objs[i], r, k) < t_max ==> rec.t as int <= h_cand_t(
                    objs[i],
                    r,
                    k,
                )
        },
        None => forall|i: int, k: int|
            0 <= i < objs.len() && 0 <= k < h_cand_n(objs[i]) && #[trigger] h_cand_ok(objs[i], r, k)
                ==> !(t_min < h_cand_t(objs[i], r, k) < t_max),
    }
}

impl HittableList {
    /// An empty aggregate.
    pub fn new() -> (r: HittableList)
        ensures
            r.objects@.len() == 0,
    {
        HittableList { objects: Vec::new() }
    }

    /// Append an object to the aggregate.
    pub fn add(&mut self, object: Hittable)
        ensures
            final (self).objects@ == old(self).objects@.push(object),
    {
        self.objects.push(object);
    }

    /// Move every object of `other` to the end of this aggregate (used
    /// to splice a composite's faces into a scene).
    pub fn append(&mut self, other: HittableList)
        ensures
            final (self).objects@ == old(self).objects@ + other.objects@,
    {
        let mut o = other;
        self.objects.append(&mut o.objects);
    }

    /// Intersect the ray with every object, keeping the closest hit: a
    /// linear scan against an ever-tighter upper bound, so the first
    /// object in insertion order wins exact ties.
    pub fn hit(&self, r: &Ray, t_min: i128, t_max: i128) -> (res: Option<HitRecord>)
        requires
            wf_list(self.objects@),
            wf_ray(*r),
            -T_MAX <= t_min,
            t_max <= T_MAX,
        ensures
            list_hit_post(self.objects@, *r, t_min as int, t_max as int, res),
    {
        let ghost objs = self.objects@;
        let mut best: Option<HitRecord> = None;
        let mut closest: i128 = t_max;
        let mut i: usize = 0;
        while i < self.objects.len()
            invariant
                objs == self.objects@,
                wf_list(objs),
                wf_ray(*r),
                -T_MAX <= t_min,
                t_max <= T_MAX,
                i <= objs.len(),
                closest <= t_max,
                t_min < closest || best is None,
                match best {
                    Some(rec) => {
                        &&& rec.t == closest
                        &&& t_min < rec.t < t_max
                        &&& exists|j: int, k: int|
                            #[trigger] h_cand_ok(objs[j], *r, k) && j < i && rec_is_first_of(
                                objs,
                                *r,
                                t_min as int,
                                t_max as int,
                                j,
                                k,
                                rec,
                            )
                        &&& forall|j: int, k: int|
                            0 <= j < i && 0 <= k < h_cand_n(objs[j]) && #[trigger] h_cand_ok(
                                objs[j],
                                *r,
                                k,
                            ) && (t_min as int) < h_cand_t(objs[j], *r, k) && h_cand_t(
                                objs[j],
                                *r,
                                k,
                            ) < t_max as int ==> rec.t as int <= h_cand_t(objs[j], *r, k)
                    },
                    None => closest == t_max && forall|j: int, k: int|
                        0 <= j < i && 0 <= k < h_cand_n(objs[j]) && #[trigger] h_cand_ok(
                            objs[j],
                            *r,
                            k,
                        ) ==> !((t_min as int) < h_cand_t(objs[j], *r, k) && h_cand_t(
                            objs[j],
                            *r,
                            k,
                        ) < t_max as int),
                },
            decreases objs.len() - i,
        {
            let obj = self.objects[i];
            assert(h_wf(objs[i as int]));
            let res_i = obj.hit(r, t_min, closest);
            match res_i {
                Some(rec) => {
                    proof {
                        let ghost old_best = best;
                        let k0 = choose|k: int|
                            #[trigger] h_cand_ok(objs[i as int], *r, k) && rec_is_first(
                                objs[i as int],
                                *r,
                                t_min as int,
                                closest as int,
                                k,
                                rec,
                            );
                        assert forall|l: int|
                            0 <= l < k0 && #[trigger] h_cand_ok(objs[i as int], *r, l) && (
                            t_min as int) < h_cand_t(objs[i as int], *r, l) && h_cand_t(
                            objs[i as int],
                            *r,
                            l,
                        ) < t_max as int implies (rec.t as int) < h_cand_t(objs[i as int], *r, l) by {
                            if h_cand_t(objs[i as int], *r, l) < closest as int {
                            } else {
                                assert(rec.t < closest);
                            }
                        }
                        assert forall|j: int, l: int|
                            0 <= j < i as int && 0 <= l < h_cand_n(objs[j]) && #[trigger] h_cand_ok(
                                objs[j],
                                *r,
                                l,
                            ) && (t_min as int) < h_cand_t(objs[j], *r, l) && h_cand_t(
                            objs[j],
                            *r,
                            l,
                        ) < t_max as int implies (rec.t as int) < h_cand_t(objs[j], *r, l) by {
                            assert(old_best is Some ==> old_best->Some_0.t == closest);
                        }
                        assert(rec_is_first_of(objs, *r, t_min as int, t_max as int, i as int, k0,
                            rec));
                        assert forall|j: int, k: int|
                            0 <= j < i as int + 1 && 0 <= k < h_cand_n(objs[j])
                                && #[trigger] h_cand_ok(objs[j], *r, k) && (t_min as int) < h_cand_t(
                                objs[j],
                                *r,
                                k,
                            ) && h_cand_t(objs[j], *r, k) < t_max as int implies rec.t as int
                            <= h_cand_t(objs[j], *r, k) by {
                            if j < i as int {
                                assert(old_best is Some);
                            } else {
                                if h_cand_t(objs[j], *r, k) < closest as int {
                                } else {
                                    assert(rec.t < closest);
                                }
                            }
                        }
                    }
                    best = Some(rec);
                    closest = rec.t;
                },
                None => {
                    proof {
                        if best is Some {
                            let rec = best->Some_0;
                            assert forall|j: int, k: int|
                                0 <= j < i as int + 1 && 0 <= k < h_cand_n(objs[j])
                                    && #[trigger] h_cand_ok(objs[j], *r, k) && (t_min as int)
                                    < h_cand_t(objs[j], *r, k) && h_cand_t(objs[j], *r, k)
                                    < t_max as int implies rec.t as int <= h_cand_t(
                                objs[j],
                                *r,
                                k,
                            ) by {
                                if j == i as int {
                                    assert(!((t_min as int) < h_cand_t(objs[j], *r, k) && h_cand_t(
                                        objs[j],
                                        *r,
                                        k,
                                    ) < closest as int));
                                }
                            }
                        }
                    }
                },
            }
            i = i + 1;
        }
        best
    }
}

} // verus!
