//! A finite cylinder (curved lateral tube plus two flat caps) and the
//! flat disk primitive the caps mirror.

use vstd::prelude::*;

use crate::common::{
    abs_i, div_trunc, isqrt_u128, lemma_abs_mul_le, lemma_sqrt_exists, lemma_tdiv_abs_le,
    lemma_tdiv_mono, mul_big, sqrt_floor, tdiv, COORD_MAX, DIR_MAX, FP_ONE, T_MAX,
};
use crate::hittable::{hit_post, in_world, h_cand_n, h_cand_ok, h_cand_t, rec_is_first,
    rec_matches, HitRecord, Hittable};
use crate::material::{wf_material, Material};
use crate::ray::{g_at, wf_ray, Ray};
use crate::vec3::{
    dot, fits3, gadd, gdot, glen2, gneg, gscale, gsub, gunit, lemma_dot_bound, lemma_len2_nonneg,
    unit_vector, Point3, Vec3, GV,
};

verus! {

/// A flat circular patch: center, normal, radius and material.
#[derive(Clone, Copy, PartialEq, Eq, Structural, Debug)]
pub struct Disk {
    pub center: Point3,
    pub normal: Vec3,
    pub radius: i128,
    pub mat: Material,
}

/// A finite cylinder: base-cap center, unit axis, radius, height and
/// material.
#[derive(Clone, Copy, PartialEq, Eq, Structural, Debug)]
pub struct Cylinder {
    pub base_center: Point3,
    pub axis: Vec3,
    pub radius: i128,
    pub height: i128,
    pub mat: Material,
}

/// Validity of a disk's stored geometry.
pub open spec fn wf_disk(d: Disk) -> bool {
    &&& fits3(d.center.gv(), COORD_MAX as int)
    &&& fits3(d.normal.gv(), FP_ONE as int)
    &&& 1 <= d.radius <= COORD_MAX
    &&& wf_material(d.mat)
}

/// Validity of a cylinder's stored geometry.
pub open spec fn wf_cylinder(c: Cylinder) -> bool {
    &&& fits3(c.base_center.gv(), COORD_MAX as int)
    &&& fits3(c.axis.gv(), FP_ONE as int)
    &&& 1 <= c.radius <= COORD_MAX
    &&& 1 <= c.height <= COORD_MAX
    &&& wf_material(c.mat)
}

/// Raw alignment of the ray direction with the disk's normal.
pub open spec fn dk_denom(d: Disk, r: Ray) -> int {
    gdot(r.dir.gv(), d.normal.gv())
}

/// The disk's plane-intersection parameter.
pub open spec fn dk_cand_t(d: Disk, r: Ray) -> int {
    tdiv(gdot(gsub(d.center.gv(), r.orig.gv()), d.normal.gv()) * FP_ONE as int, dk_denom(d, r))
}

/// The disk candidate's hit point.
pub open spec fn dk_p(d: Disk, r: Ray) -> GV {
    g_at(r.orig.gv(), r.dir.gv(), dk_cand_t(d, r))
}

/// The disk candidate is a real surface crossing: non-parallel ray, hit
/// point in the coordinate range, squared center distance strictly
/// below the squared radius.
pub open spec fn dk_cand_ok(d: Disk, r: Ray) -> bool {
    &&& dk_denom(d, r) != 0
    &&& fits3(dk_p(d, r), COORD_MAX as int)
    &&& glen2(gsub(dk_p(d, r), d.center.gv())) < d.radius as int * d.radius as int
}

/// The disk's outward normal, pre-flipped against the ray.
pub open spec fn dk_outward(d: Disk, r: Ray) -> GV {
    if dk_denom(d, r) < 0 {
        d.normal.gv()
    } else {
        gneg(d.normal.gv())
    }
}

/// Fixed-point alignment of the ray direction with the cylinder axis.
pub open spec fn cy_ad(c: Cylinder, r: Ray) -> int {
    tdiv(gdot(r.dir.gv(), c.axis.gv()), FP_ONE as int)
}

/// Direction component perpendicular to the axis.
pub open spec fn cy_dperp(c: Cylinder, r: Ray) -> GV {
    gsub(r.dir.gv(), gscale(c.axis.gv(), cy_ad(c, r)))
}

/// Fixed-point alignment of the origin offset with the axis.
pub open spec fn cy_ao(c: Cylinder, r: Ray) -> int {
    tdiv(gdot(gsub(r.orig.gv(), c.base_center.gv()), c.axis.gv()), FP_ONE as int)
}

/// Origin-offset component perpendicular to the axis.
pub open spec fn cy_ocperp(c: Cylinder, r: Ray) -> GV {
    gsub(gsub(r.orig.gv(), c.base_center.gv()), gscale(c.axis.gv(), cy_ao(c, r)))
}

/// The perpendicular components stay within the numeric guards the tube
/// solver assumes (true of genuine geometry; a defensive range check).
pub open spec fn cy_guard(c: Cylinder, r: Ray) -> bool {
    fits3(cy_dperp(c, r), DIR_MAX as int + 4) && fits3(cy_ocperp(c, r), 2 * COORD_MAX as int + 4)
}

/// Tube quadratic coefficient `a` (raw).
pub open spec fn cy_a(c: Cylinder, r: Ray) -> int {
    glen2(cy_dperp(c, r))
}

/// Tube quadratic coefficient `half_b` (raw).
pub open spec fn cy_hb(c: Cylinder, r: Ray) -> int {
    gdot(cy_dperp(c, r), cy_ocperp(c, r))
}

/// Tube quadratic coefficient `c` (raw).
pub open spec fn cy_cc(c: Cylinder, r: Ray) -> int {
    glen2(cy_ocperp(c, r)) - c.radius as int * c.radius as int
}

/// The tube discriminant.
pub open spec fn cy_disc(c: Cylinder, r: Ray) -> int {
    cy_hb(c, r) * cy_hb(c, r) - cy_a(c, r) * cy_cc(c, r)
}

/// The center of cap `k` (2 is the base cap, 3 the top cap).
pub open spec fn cy_cap_center(c: Cylinder, k: int) -> GV {
    if k == 2 {
        gadd(c.base_center.gv(), gscale(c.axis.gv(), 0))
    } else {
        gadd(c.base_center.gv(), gscale(c.axis.gv(), c.height as int))
    }
}

/// The parameter of candidate `k`: tube roots for `k < 2`, cap plane
/// intersections for `k >= 2`.
pub open spec fn cy_cand_t(c: Cylinder, r: Ray, k: int) -> int {
    if k < 2 {
        let sd = sqrt_floor(cy_disc(c, r));
        let num = if k == 0 {
            -cy_hb(c, r) - sd
        } else {
            -cy_hb(c, r) + sd
        };
        tdiv(num * FP_ONE as int, cy_a(c, r))
    } else {
        tdiv(
            gdot(gsub(cy_cap_center(c, k), r.orig.gv()), c.axis.gv()) * FP_ONE as int,
            gdot(r.dir.gv(), c.axis.gv()),
        )
    }
}

/// The hit point of candidate `k`.
pub open spec fn cy_p(c: Cylinder, r: Ray, k: int) -> GV {
    g_at(r.orig.gv(), r.dir.gv(), cy_cand_t(c, r, k))
}

/// The axial coordinate of a tube candidate's hit point.
pub open spec fn cy_vcoord(c: Cylinder, r: Ray, k: int) -> int {
    tdiv(gdot(gsub(cy_p(c, r, k), c.base_center.gv()), c.axis.gv()), FP_ONE as int)
}

/// The radial offset of a tube candidate's hit point from the axis.
pub open spec fn cy_axis_off(c: Cylinder, r: Ray, k: int) -> GV {
    gsub(gsub(cy_p(c, r, k), c.base_center.gv()), gscale(c.axis.gv(), cy_vcoord(c, r, k)))
}

/// Candidate `k` is a real surface crossing of the cylinder.
pub open spec fn cy_cand_ok(c: Cylinder, r: Ray, k: int) -> bool {
    if k < 2 {
        &&& cy_guard(c, r)
        &&& cy_a(c, r) >= 1
        &&& cy_disc(c, r) >= 0
        &&& 0 <= cy_vcoord(c, r, k) <= c.height as int
        &&& fits3(cy_p(c, r, k), COORD_MAX as int)
        &&& glen2(cy_axis_off(c, r, k)) >= 1
    } else {
        &&& gdot(r.dir.gv(), c.axis.gv()) != 0
        &&& fits3(cy_p(c, r, k), COORD_MAX as int)
        &&& glen2(gsub(cy_p(c, r, k), cy_cap_center(c, k))) <= c.radius as int * c.radius as int
    }
}

/// The outward normal of candidate `k`: radially outward on the tube,
/// along the axis on the caps (the base cap keeps the axis direction,
/// as the face-orientation bookkeeping flips it against the ray).
pub open spec fn cy_outward(c: Cylinder, r: Ray, k: int) -> GV {
    if k < 2 {
        gunit(cy_axis_off(c, r, k))
    } else if k == 2 {
        c.axis.gv()
    } else {
        gneg(c.axis.gv())
    }
}

impl Disk {
    /// A disk with the given center, (unit) normal, radius and material.
    pub fn new(center: Point3, normal: Vec3, radius: i128, mat: Material) -> (res: Disk)
        requires
            fits3(center.gv(), COORD_MAX as int),
            fits3(normal.gv(), FP_ONE as int),
            1 <= radius <= COORD_MAX,
            wf_material(mat),
        ensures
            res.center == center,
            res.normal == normal,
            res.radius == radius,
            res.mat == mat,
            wf_disk(res),
    {
        Disk { center, normal, radius, mat }
    }

    /// A disk facing the viewer (normal along +z).
    pub fn vertical(center: Point3, radius: i128, mat: Material) -> (res: Disk)
        requires
            fits3(center.gv(), COORD_MAX as int),
            1 <= radius <= COORD_MAX,
            wf_material(mat),
        ensures
            res.center == center,
            res.normal == (Vec3 { x: 0, y: 0, z: FP_ONE }),
            res.radius == radius,
            res.mat == mat,
            wf_disk(res),
    {
        Disk::new(center, Vec3 { x: 0, y: 0, z: FP_ONE }, radius, mat)
    }

    /// A disk facing up (normal along +y).
    pub fn horizontal(center: Point3, radius: i128, mat: Material) -> (res: Disk)
        requires
            fits3(center.gv(), COORD_MAX as int),
            1 <= radius <= COORD_MAX,
            wf_material(mat),
        ensures
            res.center == center,
            res.normal == (Vec3 { x: 0, y: FP_ONE, z: 0 }),
            res.radius == radius,
            res.mat == mat,
            wf_disk(res),
    {
        Disk::new(center, Vec3 { x: 0, y: FP_ONE, z: 0 }, radius, mat)
    }

    /// Intersect the ray with the disk within `(t_min, t_max)`: plane
    /// intersection bounded by a circular region.
    pub fn hit(&self, r: &Ray, t_min: i128, t_max: i128) -> (res: Option<HitRecord>)
        requires
            wf_disk(*self),
            wf_ray(*r),
            -T_MAX <= t_min,
            t_max <= T_MAX,
        ensures
            hit_post(Hittable::Disk(*self), *r, t_min as int, t_max as int, res),
    {
        let ghost o = Hittable::Disk(*self);
        let denom = dot(r.dir, self.normal);
        if denom == 0 {
            return None;
        }
        let c2o = self.center.sub(r.orig);
        let nray = dot(c2o, self.normal);
        proof {
            lemma_dot_bound(c2o.gv(), self.normal.gv(), 8589934592, FP_ONE as int);
            lemma_dot_bound(r.dir.gv(), self.normal.gv(), DIR_MAX as int, FP_ONE as int);
            lemma_abs_mul_le(nray as int, FP_ONE as int, 1688849860263936int, FP_ONE as int);
        }
        let t = div_trunc(mul_big(nray, FP_ONE), denom);
        assert(t as int == dk_cand_t(*self, *r));
        if t <= t_min || t >= t_max {
            return None;
        }
        let p = r.at(t);
        if !in_world(p) {
            assert(!h_cand_ok(o, *r, 0));
            return None;
        }
        let off = p.sub(self.center);
        let l2 = off.length_squared();
        proof {
            lemma_abs_mul_le(self.radius as int, self.radius as int, COORD_MAX as int,
                COORD_MAX as int);
        }
        let rr = mul_big(self.radius, self.radius);
        if l2 >= rr {
            assert(!h_cand_ok(o, *r, 0));
            return None;
        }
        let outward = if denom < 0 {
            self.normal
        } else {
            self.normal.neg()
        };
        assert(outward.gv() == dk_outward(*self, *r));
        let mut rec = HitRecord {
            p,
            normal: outward,
            t,
            front_face: true,
            mat: self.mat,
        };
        rec.set_face_normal(r, outward);
        assert(h_cand_ok(o, *r, 0) && rec_matches(o, *r, 0, rec));
        assert(rec_is_first(o, *r, t_min as int, t_max as int, 0, rec));
        Some(rec)
    }
}

impl Cylinder {
    /// A cylinder with the given base center, axis (normalized here),
    /// radius, height and material.
    pub fn new(base_center: Point3, axis: Vec3, radius: i128, height: i128, material: Material)
        -> (res: Cylinder)
        requires
            fits3(base_center.gv(), COORD_MAX as int),
            fits3(axis.gv(), COORD_MAX as int),
            glen2(axis.gv()) >= 1,
            1 <= radius <= COORD_MAX,
            1 <= height <= COORD_MAX,
            wf_material(material),
        ensures
            res.base_center == base_center,
            res.axis.gv() == gunit(axis.gv()),
            res.radius == radius,
            res.height == height,
            res.mat == material,
            wf_cylinder(res),
    {
        Cylinder {
            base_center,
            axis: unit_vector(axis),
            radius,
            height,
            mat: material,
        }
    }

    /// Intersect the ray with the cylinder within `(t_min, t_max)`: the
    /// lateral tube's quadratic plus the two cap disks, all against one
    /// shrinking closest-hit bound.
    pub fn hit(&self, r: &Ray, t_min: i128, t_max: i128) -> (res: Option<HitRecord>)
        requires
            wf_cylinder(*self),
            wf_ray(*r),
            -T_MAX <= t_min,
            t_max <= T_MAX,
        ensures
            hit_post(Hittable::Cylinder(*self), *r, t_min as int, t_max as int, res),
    {
        let ghost o = Hittable::Cylinder(*self);
        let mut best: Option<HitRecord> = None;
        let mut closest: i128 = t_max;

        // Perpendicular decomposition for the tube quadratic.
        let ad_raw = dot(r.dir, self.axis);
        proof {
            lemma_dot_bound(r.dir.gv(), self.axis.gv(), DIR_MAX as int, FP_ONE as int);
            lemma_tdiv_abs_le(gdot(r.dir.gv(), self.axis.gv()), FP_ONE as int,
                3 * DIR_MAX as int);
        }
        let ad = div_trunc(ad_raw, FP_ONE);
        proof {
            lemma_scale_bound(self.axis.gv(), ad as int, 3 * DIR_MAX as int);
        }
        let dperp = r.dir.sub(self.axis.scale(ad));
        let oc = r.orig.sub(self.base_center);
        let ao_raw = dot(oc, self.axis);
        proof {
            lemma_dot_bound(oc.gv(), self.axis.gv(), 8589934592, FP_ONE as int);
            lemma_tdiv_abs_le(gdot(oc.gv(), self.axis.gv()), FP_ONE as int, 3 * 8589934592int);
        }
        let ao = div_trunc(ao_raw, FP_ONE);
        proof {
            lemma_scale_bound(self.axis.gv(), ao as int, 3 * 8589934592int);
        }
        let ocperp = oc.sub(self.axis.scale(ao));

        let guard = -134217732 <= dperp.x && dperp.x <= 134217732 && -134217732 <= dperp.y
            && dperp.y <= 134217732 && -134217732 <= dperp.z && dperp.z <= 134217732
            && -8589934596 <= ocperp.x && ocperp.x <= 8589934596 && -8589934596 <= ocperp.y
            && ocperp.y <= 8589934596 && -8589934596 <= ocperp.z && ocperp.z <= 8589934596;
        assert(guard == cy_guard(*self, *r));
        if guard {
            let a = dot(dperp, dperp);
            proof {
                lemma_len2_nonneg(dperp.gv());
            }
            if a >= 1 {
                let hb = dot(dperp, ocperp);
                let cl2 = dot(ocperp, ocperp);
                proof {
                    lemma_dot_bound(dperp.gv(), ocperp.gv(), 134217732, 8589934596);
                    lemma_dot_bound(dperp.gv(), dperp.gv(), 134217732, 134217732);
                    lemma_dot_bound(ocperp.gv(), ocperp.gv(), 8589934596, 8589934596);
                    lemma_abs_mul_le(self.radius as int, self.radius as int, COORD_MAX as int,
                        COORD_MAX as int);
                }
                let rr = mul_big(self.radius, self.radius);
                let cc = cl2 - rr;
                proof {
                    lemma_abs_mul_le(hb as int, hb as int, 3458764618510368816int,
                        3458764618510368816int);
                    lemma_abs_mul_le(a as int, cc as int, 54043198749671472int,
                        239807673164382601264int);
                }
                let disc = mul_big(hb, hb) - mul_big(a, cc);
                if disc >= 0 {
                    let sdu = isqrt_u128(disc as u128);
                    proof {
                        if sdu as int > 5000000000000000000 {
                            assert(sdu as int * sdu as int
                                > 25000000000000000000000000000000000000int) by (nonlinear_arith)
                                requires
                                    sdu as int > 5000000000000000000,
                            ;
                        }
                        lemma_sqrt_exists(disc as int);
                    }
                    let sd = sdu as i128;
                    proof {
                        lemma_abs_mul_le(-(hb as int) - sd as int, FP_ONE as int,
                            8458764618510368816int, FP_ONE as int);
                        lemma_abs_mul_le(-(hb as int) + sd as int, FP_ONE as int,
                            8458764618510368816int, FP_ONE as int);
                    }
                    let num0 = mul_big(-hb - sd, FP_ONE);
                    let num1 = mul_big(-hb + sd, FP_ONE);
                    let t0 = div_trunc(num0, a);
                    let t1 = div_trunc(num1, a);
                    proof {
                        lemma_tdiv_mono(num0 as int, num1 as int, a as int);
                    }
                    assert(t0 as int == cy_cand_t(*self, *r, 0));
                    assert(t1 as int == cy_cand_t(*self, *r, 1));

                    if t_min < t0 && t0 < closest {
                        match self.tube_candidate(r, t0, Ghost(0int)) {
                            Some(rec) => {
                                assert(h_cand_ok(o, *r, 0));
                                assert(rec_is_first(o, *r, t_min as int, t_max as int, 0, rec));
                                best = Some(rec);
                                closest = t0;
                            },
                            None => {},
                        }
                    }
                    if t_min < t1 && t1 < closest {
                        match self.tube_candidate(r, t1, Ghost(1int)) {
                            Some(rec) => {
                                assert(h_cand_ok(o, *r, 1));
                                proof {
                                    assert forall|l: int|
                                        0 <= l < 1 && #[trigger] h_cand_ok(o, *r, l) && (
                                        t_min as int) < h_cand_t(o, *r, l) && h_cand_t(o, *r, l)
                                            < t_max as int implies (rec.t as int) < h_cand_t(
                                        o,
                                        *r,
                                        l,
                                    ) by {
                                        if t_min < t0 && t0 < closest {
                                        } else {
                                            assert(closest <= t_max);
                                        }
                                    }
                                }
                                assert(rec_is_first(o, *r, t_min as int, t_max as int, 1, rec));
                                best = Some(rec);
                                closest = t1;
                            },
                            None => {},
                        }
                    }
                }
            }
        }
        proof {
            if best is Some {
                let rec = best->Some_0;
                assert(rec.t == closest && t_min < closest && closest < t_max);
                assert(exists|j: int|
                    0 <= j < 4 && #[trigger] h_cand_ok(o, *r, j) && rec_matches(o, *r, j, rec));
                assert forall|j: int|
                    0 <= j < 2 && #[trigger] h_cand_ok(o, *r, j) && (t_min as int) < h_cand_t(
                        o,
                        *r,
                        j,
                    ) && h_cand_t(o, *r, j) < t_max as int implies rec.t as int <= h_cand_t(
                    o,
                    *r,
                    j,
                ) by {
                    assert(cy_cand_ok(*self, *r, j));
                }
            } else {
                assert(closest == t_max);
                assert forall|j: int| 0 <= j < 2 && #[trigger] h_cand_ok(o, *r, j) implies !(
                (t_min as int) < h_cand_t(o, *r, j) && h_cand_t(o, *r, j) < t_max as int) by {
                    assert(cy_cand_ok(*self, *r, j));
                }
            }
        }
        let ghost mid_best = best;
        let ghost mid_closest = closest;

        // Cap disks.
        if ad_raw != 0 {
            proof {
                lemma_scale_bound(self.axis.gv(), 0, COORD_MAX as int);
                lemma_scale_bound(self.axis.gv(), self.height as int, COORD_MAX as int);
            }
            let cap0 = self.base_center.add(self.axis.scale(0));
            let cap1 = self.base_center.add(self.axis.scale(self.height));
            proof {
                lemma_dot_bound(gsub(cap0.gv(), r.orig.gv()), self.axis.gv(),
                    3 * COORD_MAX as int, FP_ONE as int);
                lemma_dot_bound(gsub(cap1.gv(), r.orig.gv()), self.axis.gv(),
                    3 * COORD_MAX as int, FP_ONE as int);
            }
            let n0 = dot(cap0.sub(r.orig), self.axis);
            let n1 = dot(cap1.sub(r.orig), self.axis);
            proof {
                lemma_abs_mul_le(n0 as int, FP_ONE as int, 2533274790395904int, FP_ONE as int);
                lemma_abs_mul_le(n1 as int, FP_ONE as int, 2533274790395904int, FP_ONE as int);
            }
            let tc0 = div_trunc(mul_big(n0, FP_ONE), ad_raw);
            let tc1 = div_trunc(mul_big(n1, FP_ONE), ad_raw);
            assert(tc0 as int == cy_cand_t(*self, *r, 2));
            assert(tc1 as int == cy_cand_t(*self, *r, 3));

            if t_min < tc0 && tc0 < closest {
                match self.cap_candidate(r, tc0, cap0, false, Ghost(2int)) {
                    Some(rec) => {
                        assert(h_cand_ok(o, *r, 2));
                        proof {
                            assert forall|l: int|
                                0 <= l < 2 && #[trigger] h_cand_ok(o, *r, l) && (t_min as int)
                                    < h_cand_t(o, *r, l) && h_cand_t(o, *r, l)
                                    < t_max as int implies (rec.t as int) < h_cand_t(o, *r, l) by {
                                assert(cy_cand_ok(*self, *r, l));
                                assert(closest <= mid_closest);
                            }
                        }
                        assert(rec_is_first(o, *r, t_min as int, t_max as int, 2, rec));
                        best = Some(rec);
                        closest = tc0;
                    },
                    None => {},
                }
            }
            if t_min < tc1 && tc1 < closest {
                match self.cap_candidate(r, tc1, cap1, true, Ghost(3int)) {
                    Some(rec) => {
                        assert(h_cand_ok(o, *r, 3));
                        proof {
                            assert forall|l: int|
                                0 <= l < 3 && #[trigger] h_cand_ok(o, *r, l) && (t_min as int)
                                    < h_cand_t(o, *r, l) && h_cand_t(o, *r, l)
                                    < t_max as int implies (rec.t as int) < h_cand_t(o, *r, l) by {
                                assert(cy_cand_ok(*self, *r, l));
                                assert(closest <= mid_closest);
                            }
                        }
                        assert(rec_is_first(o, *r, t_min as int, t_max as int, 3, rec));
                        best = Some(rec);
                        closest = tc1;
                    },
                    None => {},
                }
            }
        }
        proof {
            if best is Some {
                let rec = best->Some_0;
                assert(rec.t == closest && t_min < closest && closest < t_max);
                assert forall|j: int|
                    0 <= j < 4 && #[trigger] h_cand_ok(o, *r, j) && (t_min as int) < h_cand_t(
                        o,
                        *r,
                        j,
                    ) && h_cand_t(o, *r, j) < t_max as int implies rec.t as int <= h_cand_t(
                    o,
                    *r,
                    j,
                ) by {
                    assert(cy_cand_ok(*self, *r, j));
                    assert(closest <= mid_closest);
                }
            } else {
                assert forall|j: int| 0 <= j < 4 && #[trigger] h_cand_ok(o, *r, j) implies !(
                (t_min as int) < h_cand_t(o, *r, j) && h_cand_t(o, *r, j) < t_max as int) by {
                    assert(cy_cand_ok(*self, *r, j));
                }
            }
        }
        best
    }

    /// Test one tube root: axial containment, coordinate range, and the
    /// radial normal; builds the record when the crossing is real.
    fn tube_candidate(&self, r: &Ray, t: i128, Ghost(k): Ghost<int>) -> (res: Option<HitRecord>)
        requires
            wf_cylinder(*self),
            wf_ray(*r),
            0 <= k < 2,
            cy_guard(*self, *r),
            cy_a(*self, *r) >= 1,
            cy_disc(*self, *r) >= 0,
            t as int == cy_cand_t(*self, *r, k),
            abs_i(t as int) <= T_MAX,
        ensures
            match res {
                Some(rec) => cy_cand_ok(*self, *r, k) && rec_matches(
                    Hittable::Cylinder(*self),
                    *r,
                    k,
                    rec,
                ),
                None => !cy_cand_ok(*self, *r, k),
            },
    {
        let ghost o = Hittable::Cylinder(*self);
        let p = r.at(t);
        if !in_world(p) {
            return None;
        }
        let pb = p.sub(self.base_center);
        let v_raw = dot(pb, self.axis);
        proof {
            lemma_dot_bound(pb.gv(), self.axis.gv(), 2 * COORD_MAX as int, FP_ONE as int);
            lemma_tdiv_abs_le(gdot(pb.gv(), self.axis.gv()), FP_ONE as int,
                6 * COORD_MAX as int);
        }
        let v = div_trunc(v_raw, FP_ONE);
        assert(v as int == cy_vcoord(*self, *r, k));
        if v < 0 || v > self.height {
            return None;
        }
        proof {
            lemma_scale_bound(self.axis.gv(), v as int, COORD_MAX as int);
        }
        let axis_off = pb.sub(self.axis.scale(v));
        let l2 = axis_off.length_squared();
        if l2 < 1 {
            return None;
        }
        let outward = unit_vector(axis_off);
        let mut rec = HitRecord {
            p,
            normal: outward,
            t,
            front_face: true,
            mat: self.mat,
        };
        rec.set_face_normal(r, outward);
        assert(cy_cand_ok(*self, *r, k) && rec_matches(o, *r, k, rec));
        Some(rec)
    }

    /// Test one cap: coordinate range and the circular containment;
    /// builds the record when the crossing is real.
    fn cap_candidate(&self, r: &Ray, t: i128, cap_center: Point3, top: bool, Ghost(k): Ghost<int>)
        -> (res: Option<HitRecord>)
        requires
            wf_cylinder(*self),
            wf_ray(*r),
            k == 2 || k == 3,
            top == (k == 3),
            gdot(r.dir.gv(), self.axis.gv()) != 0,
            t as int == cy_cand_t(*self, *r, k),
            abs_i(t as int) <= T_MAX,
            cap_center.gv() == cy_cap_center(*self, k),
            fits3(cap_center.gv(), 2 * COORD_MAX as int),
        ensures
            match res {
                Some(rec) => cy_cand_ok(*self, *r, k) && rec_matches(
                    Hittable::Cylinder(*self),
                    *r,
                    k,
                    rec,
                ),
                None => !cy_cand_ok(*self, *r, k),
            },
    {
        let ghost o = Hittable::Cylinder(*self);
        let p = r.at(t);
        if !in_world(p) {
            return None;
        }
        let off = p.sub(cap_center);
        let l2 = off.length_squared();
        proof {
            lemma_abs_mul_le(self.radius as int, self.radius as int, COORD_MAX as int,
                COORD_MAX as int);
        }
        let rr = mul_big(self.radius, self.radius);
        if l2 > rr {
            return None;
        }
        let outward = if top {
            self.axis.neg()
        } else {
            self.axis
        };
        assert(outward.gv() == cy_outward(*self, *r, k));
        let mut rec = HitRecord {
            p,
            normal: outward,
            t,
            front_face: true,
            mat: self.mat,
        };
        rec.set_face_normal(r, outward);
        assert(cy_cand_ok(*self, *r, k) && rec_matches(o, *r, k, rec));
        Some(rec)
    }
}

/// Fixed-point scaling of a unit-bounded vector by a bounded factor
/// keeps each component within the factor bound.
pub proof fn lemma_scale_bound(a: GV, k: int, x: int)
    requires
        fits3(a, FP_ONE as int),
        abs_i(k) <= x,
        0 <= x,
    ensures
        fits3(gscale(a, k), x),
{
    assert(abs_i(a.x * k) <= x * FP_ONE as int && abs_i(a.y * k) <= x * FP_ONE as int && abs_i(
        a.z * k,
    ) <= x * FP_ONE as int) by (nonlinear_arith)
        requires
            fits3(a, FP_ONE as int),
            abs_i(k) <= x,
            0 <= x,
            FP_ONE == 65536i128,
    ;
    lemma_tdiv_abs_le(a.x * k, FP_ONE as int, x);
    lemma_tdiv_abs_le(a.y * k, FP_ONE as int, x);
    lemma_tdiv_abs_le(a.z * k, FP_ONE as int, x);
}

} // verus!
