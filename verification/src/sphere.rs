//! Sphere intersection via the half-b quadratic.

use vstd::prelude::*;

use crate::common::{
    abs_i, div_trunc, isqrt_u128, lemma_abs_mul_le, lemma_sqrt_exists, lemma_tdiv_mono,
    mul_big, sqrt_floor, tdiv, COORD_MAX, DIR_MAX, FP_ONE, T_MAX,
};
use crate::hittable::{hit_post, in_world, h_cand_n, h_cand_ok, h_cand_t, rec_is_first,
    rec_matches, HitRecord, Hittable};
use crate::material::{wf_material, Material};
use crate::ray::{g_at, wf_ray, Ray};
use crate::vec3::{
    dot, fits3, gdot, glen2, gsub, gunit, lemma_dot_bound, lemma_len2_nonneg, unit_vector, Point3,
    Vec3, GV,
};

verus! {

/// A sphere: center, radius and material.
#[derive(Clone, Copy, PartialEq, Eq, Structural, Debug)]
pub struct Sphere {
    pub center: Point3,
    pub radius: i128,
    pub mat: Material,
}

/// Validity of a sphere's stored geometry.
pub open spec fn wf_sphere(s: Sphere) -> bool {
    &&& fits3(s.center.gv(), COORD_MAX as int)
    &&& 1 <= s.radius <= COORD_MAX
    &&& wf_material(s.mat)
}

/// Origin-to-center offset.
pub open spec fn sph_oc(s: Sphere, r: Ray) -> GV {
    gsub(r.orig.gv(), s.center.gv())
}

/// Quadratic coefficient `a = dot(D, D)` (raw).
pub open spec fn sph_a(r: Ray) -> int {
    glen2(r.dir.gv())
}

/// Quadratic coefficient `half_b = dot(O - C, D)` (raw).
pub open spec fn sph_hb(s: Sphere, r: Ray) -> int {
    gdot(sph_oc(s, r), r.dir.gv())
}

/// Quadratic coefficient `c = |O - C|^2 - r^2` (raw).
pub open spec fn sph_c(s: Sphere, r: Ray) -> int {
    glen2(sph_oc(s, r)) - s.radius as int * s.radius as int
}

/// The discriminant `half_b^2 - a*c`.
pub open spec fn sph_disc(s: Sphere, r: Ray) -> int {
    sph_hb(s, r) * sph_hb(s, r) - sph_a(r) * sph_c(s, r)
}

/// Candidate root `k` (0 takes the smaller root, 1 the larger), as the
/// executable code computes it: `(-half_b ± sqrt(disc)) / a`, scaled to
/// a fixed-point ray parameter.
pub open spec fn sph_cand_t(s: Sphere, r: Ray, k: int) -> int {
    let sd = sqrt_floor(sph_disc(s, r));
    let num = if k == 0 {
        -sph_hb(s, r) - sd
    } else {
        -sph_hb(s, r) + sd
    };
    tdiv(num * FP_ONE as int, sph_a(r))
}

/// The hit point of candidate `k`.
pub open spec fn sph_p(s: Sphere, r: Ray, k: int) -> GV {
    g_at(r.orig.gv(), r.dir.gv(), sph_cand_t(s, r, k))
}

/// Candidate `k` is a real surface crossing: the quadratic has real
/// roots, and the hit point is inside the coordinate range and distinct
/// from the center (so the outward normal is defined).
pub open spec fn sph_cand_ok(s: Sphere, r: Ray, k: int) -> bool {
    &&& sph_a(r) >= 1
    &&& sph_disc(s, r) >= 0
    &&& fits3(sph_p(s, r, k), COORD_MAX as int)
    &&& glen2(gsub(sph_p(s, r, k), s.center.gv())) >= 1
}

/// The outward normal at candidate `k`: the unit vector from the center
/// to the hit point.
pub open spec fn sph_outward(s: Sphere, r: Ray, k: int) -> GV {
    gunit(gsub(sph_p(s, r, k), s.center.gv()))
}

/// One component of a ray point, squared and expanded.
proof fn lemma_point_sq(x: int, t: int, y: int)
    ensures
        (x + t * y) * (x + t * y) == x * x + 2 * t * (x * y) + (t * t) * (y * y),
{
    let b = t * y;
    assert((x + b) * (x + b) == x * x + 2 * (x * b) + b * b) by (nonlinear_arith);
    assert(2 * (x * b) == 2 * t * (x * y)) by (nonlinear_arith)
        requires
            b == t * y,
    ;
    assert(b * b == (t * t) * (y * y)) by (nonlinear_arith)
        requires
            b == t * y,
    ;
}

/// In exact arithmetic every root of the half-b quadratic lies on the
/// sphere: if `t` solves `a*t^2 + 2*half_b*t + c == 0` for a ray offset
/// `oc = O - C` and direction `d`, then the point `O + t*d` is at
/// squared distance `radius^2` from the center. The executable root
/// finder computes this `t` up to fixed-point truncation, and the
/// outward normal it stores is the unit vector of `p - C`, whose
/// components keep the sign of `p - C`, so the normal points away from
/// the center.
pub proof fn lemma_root_on_sphere(oc: GV, d: GV, radius: int, t: int)
    requires
        gdot(d, d) * (t * t) + 2 * gdot(oc, d) * t + (glen2(oc) - radius * radius) == 0,
    ensures
        glen2(GV { x: oc.x + t * d.x, y: oc.y + t * d.y, z: oc.z + t * d.z }) == radius * radius,
{
    lemma_point_sq(oc.x, t, d.x);
    lemma_point_sq(oc.y, t, d.y);
    lemma_point_sq(oc.z, t, d.z);
    assert(2 * t * (oc.x * d.x) + 2 * t * (oc.y * d.y) + 2 * t * (oc.z * d.z) == 2 * gdot(oc, d)
        * t) by (nonlinear_arith);
    assert((t * t) * (d.x * d.x) + (t * t) * (d.y * d.y) + (t * t) * (d.z * d.z) == gdot(d, d) * (
    t * t)) by (nonlinear_arith);
}

impl Sphere {
    /// A sphere with the given center, radius and material.
    pub fn new(center: Point3, r: i128, m: Material) -> (res: Sphere)
        requires
            fits3(center.gv(), COORD_MAX as int),
            1 <= r <= COORD_MAX,
            wf_material(m),
        ensures
            res.center == center,
            res.radius == r,
            res.mat == m,
            wf_sphere(res),
    {
        Sphere { center, radius: r, mat: m }
    }

    /// Intersect the ray with the sphere within `(t_min, t_max)`: solve
    /// the half-b quadratic and take the smaller admissible root first.
    pub fn hit(&self, r: &Ray, t_min: i128, t_max: i128) -> (res: Option<HitRecord>)
        requires
            wf_sphere(*self),
            wf_ray(*r),
            -T_MAX <= t_min,
            t_max <= T_MAX,
        ensures
            hit_post(Hittable::Sphere(*self), *r, t_min as int, t_max as int, res),
    {
        let ghost o = Hittable::Sphere(*self);
        let oc = r.orig.sub(self.center);
        let a = dot(r.dir, r.dir);
        proof {
            lemma_len2_nonneg(r.dir.gv());
        }
        if a < 1 {
            // A degenerate (zero) direction intersects nothing.
            assert(forall|k: int| 0 <= k < h_cand_n(o) ==> !(#[trigger] h_cand_ok(o, *r, k)));
            return None;
        }
        let half_b = dot(oc, r.dir);
        let c2 = dot(oc, oc);
        proof {
            lemma_dot_bound(oc.gv(), r.dir.gv(), 8589934592, DIR_MAX as int);
            lemma_dot_bound(oc.gv(), oc.gv(), 8589934592, 8589934592);
            lemma_dot_bound(r.dir.gv(), r.dir.gv(), DIR_MAX as int, DIR_MAX as int);
            lemma_abs_mul_le(self.radius as int, self.radius as int, COORD_MAX as int,
                COORD_MAX as int);
        }
        let rr = mul_big(self.radius, self.radius);
        let c = c2 - rr;
        proof {
            lemma_abs_mul_le(half_b as int, half_b as int, 3458764513820540928,
                3458764513820540928);
            lemma_abs_mul_le(a as int, c as int, 54043195528445952, 239807672958224171008);
        }
        let disc = mul_big(half_b, half_b) - mul_big(a, c);
        if disc < 0 {
            assert(forall|k: int| 0 <= k < h_cand_n(o) ==> !(#[trigger] h_cand_ok(o, *r, k)));
            return None;
        }
        let sdu = isqrt_u128(disc as u128);
        proof {
            if sdu as int > 5000000000000000000 {
                assert(sdu as int * sdu as int > 25000000000000000000000000000000000000int)
                    by (nonlinear_arith)
                    requires
                        sdu as int > 5000000000000000000,
                ;
            }
            lemma_sqrt_exists(disc as int);
        }
        let sd = sdu as i128;
        assert(sd as int == sqrt_floor(sph_disc(*self, *r)));
        proof {
            lemma_abs_mul_le(-(half_b as int) - sd as int, FP_ONE as int, 8458764513820540928,
                FP_ONE as int);
            lemma_abs_mul_le(-(half_b as int) + sd as int, FP_ONE as int, 8458764513820540928,
                FP_ONE as int);
        }
        let num0 = mul_big(-half_b - sd, FP_ONE);
        let num1 = mul_big(-half_b + sd, FP_ONE);
        let t0 = div_trunc(num0, a);
        let t1 = div_trunc(num1, a);
        proof {
            lemma_tdiv_mono(num0 as int, num1 as int, a as int);
        }
        assert(t0 as int == sph_cand_t(*self, *r, 0));
        assert(t1 as int == sph_cand_t(*self, *r, 1));
        assert(t0 <= t1);

        let mut best: Option<HitRecord> = None;
        let mut closest: i128 = t_max;
        if t_min < t0 && t0 < closest {
            let p = r.at(t0);
            if in_world(p) {
                let pc = p.sub(self.center);
                let l2 = pc.length_squared();
                if l2 >= 1 {
                    let outward = unit_vector(pc);
                    let mut rec = HitRecord {
                        p,
                        normal: outward,
                        t: t0,
                        front_face: true,
                        mat: self.mat,
                    };
                    rec.set_face_normal(r, outward);
                    assert(h_cand_ok(o, *r, 0));
                    assert(rec_is_first(o, *r, t_min as int, t_max as int, 0, rec));
                    best = Some(rec);
                    closest = t0;
                } else {
                    assert(!h_cand_ok(o, *r, 0));
                }
            } else {
                assert(!h_cand_ok(o, *r, 0));
            }
        }
        if best.is_none() && t_min < t1 && t1 < closest {
            let p = r.at(t1);
            if in_world(p) {
                let pc = p.sub(self.center);
                let l2 = pc.length_squared();
                if l2 >= 1 {
                    let outward = unit_vector(pc);
                    let mut rec = HitRecord {
                        p,
                        normal: outward,
                        t: t1,
                        front_face: true,
                        mat: self.mat,
                    };
                    rec.set_face_normal(r, outward);
                    assert(h_cand_ok(o, *r, 1));
                    assert(rec_matches(o, *r, 1, rec));
                    assert forall|l: int|
                        0 <= l < 1 && #[trigger] h_cand_ok(o, *r, l) && (t_min as int) < h_cand_t(
                            o,
                            *r,
                            l,
                        ) && h_cand_t(o, *r, l) < t_max as int implies (rec.t as int) < h_cand_t(
                        o,
                        *r,
                        l,
                    ) by {
                        assert(!(t_min < t0 && t0 < t_max) || !h_cand_ok(o, *r, 0));
                    }
                    assert(rec_is_first(o, *r, t_min as int, t_max as int, 1, rec));
                    best = Some(rec);
                    closest = t1;
                } else {
                    assert(!h_cand_ok(o, *r, 1));
                }
            } else {
                assert(!h_cand_ok(o, *r, 1));
            }
        }
        proof {
            if best is Some {
                let rec = best->Some_0;
                assert forall|k: int|
                    0 <= k < h_cand_n(o) && #[trigger] h_cand_ok(o, *r, k) && (t_min as int)
                        < (h_cand_t(o, *r, k)) && h_cand_t(o, *r, k) < t_max as int implies
                    rec.t as int <= h_cand_t(o, *r, k) by {
                    assert(t0 <= t1);
                }
            } else {
                assert forall|k: int|
                    0 <= k < h_cand_n(o) && #[trigger] h_cand_ok(o, *r, k) implies !((t_min as int)
                    < (h_cand_t(o, *r, k)) && h_cand_t(o, *r, k) < t_max as int) by {
                    if k == 0 {
                        assert(!(t_min < t0 && t0 < t_max) || !h_cand_ok(o, *r, 0));
                    } else {
                        assert(!(t_min < t1 && t1 < t_max) || !h_cand_ok(o, *r, 1));
                    }
                }
            }
        }
        best
    }
}

} // verus!
