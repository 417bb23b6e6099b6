//! An oriented finite square: a plane patch bounded by in-plane axes.

use vstd::prelude::*;

use crate::common::{
    abs_i, div_trunc, lemma_abs_mul_le, mul_big, tdiv, COORD_MAX, DIR_MAX,
    FP_ONE, T_MAX,
};
use crate::hittable::{hit_post, in_world, h_cand_ok, rec_is_first, rec_matches, HitRecord,
    Hittable};
use crate::material::{wf_material, Material};
use crate::ray::{g_at, wf_ray, Ray};
use crate::vec3::{
    cross, dot, fits3, gcross, gdot, glen2, gsub, gunit, lemma_dot_bound, unit_vector, Point3,
    Vec3, GV,
};

verus! {

/// A square patch: center, unit normal, derived in-plane axes, side
/// length and material.
#[derive(Clone, Copy, PartialEq, Eq, Structural, Debug)]
pub struct Square {
    pub center: Point3,
    pub normal: Vec3,
    pub u_axis: Vec3,
    pub v_axis: Vec3,
    pub size: i128,
    pub mat: Material,
}

/// Validity of a square's stored geometry.
pub open spec fn wf_square(q: Square) -> bool {
    &&& fits3(q.center.gv(), COORD_MAX as int)
    &&& fits3(q.normal.gv(), FP_ONE as int)
    &&& fits3(q.u_axis.gv(), FP_ONE as int)
    &&& fits3(q.v_axis.gv(), 2 * FP_ONE as int)
    &&& 0 <= q.size <= COORD_MAX
    &&& wf_material(q.mat)
}

/// The reference vector used to derive the in-plane axes: the axis most
/// different from the unit normal.
pub open spec fn sq_temp(un: GV) -> GV {
    if abs_i(un.x) > 58982 {
        GV { x: 0, y: FP_ONE as int, z: 0 }
    } else {
        GV { x: FP_ONE as int, y: 0, z: 0 }
    }
}

/// The first in-plane axis: the normalized cross product of the unit
/// normal and the reference vector (a fixed fallback in the degenerate
/// case where that cross product vanishes).
pub open spec fn sq_u_axis(un: GV) -> GV {
    let c = gcross(un, sq_temp(un));
    if glen2(c) >= 1 {
        gunit(c)
    } else {
        GV { x: 0, y: 0, z: FP_ONE as int }
    }
}

/// Raw alignment of the ray direction with the square's normal.
pub open spec fn sq_denom(q: Square, r: Ray) -> int {
    gdot(r.dir.gv(), q.normal.gv())
}

/// The plane-intersection parameter.
pub open spec fn sq_cand_t(q: Square, r: Ray) -> int {
    tdiv(gdot(gsub(q.center.gv(), r.orig.gv()), q.normal.gv()) * FP_ONE as int, sq_denom(q, r))
}

/// The hit point of the single candidate.
pub open spec fn sq_p(q: Square, r: Ray) -> GV {
    g_at(r.orig.gv(), r.dir.gv(), sq_cand_t(q, r))
}

/// In-plane coordinate of the hit point along an axis.
pub open spec fn sq_coord(q: Square, r: Ray, axis: GV) -> int {
    tdiv(gdot(gsub(sq_p(q, r), q.center.gv()), axis), FP_ONE as int)
}

/// The candidate is a real surface crossing: the ray is not parallel to
/// the plane, the hit point is inside the coordinate range, and both
/// in-plane coordinates are within half the side length.
pub open spec fn sq_cand_ok(q: Square, r: Ray) -> bool {
    &&& sq_denom(q, r) != 0
    &&& fits3(sq_p(q, r), COORD_MAX as int)
    &&& abs_i(sq_coord(q, r, q.u_axis.gv())) <= tdiv(q.size as int, 2)
    &&& abs_i(sq_coord(q, r, q.v_axis.gv())) <= tdiv(q.size as int, 2)
}

/// The outward normal: the stored unit normal.
pub open spec fn sq_outward(q: Square, r: Ray) -> GV {
    q.normal.gv()
}

impl Square {
    /// A square at `center` with the given (not necessarily unit) normal
    /// and side length; the in-plane axes are derived from the normal.
    pub fn new(center: Point3, normal: Vec3, size: i128, material: Material) -> (res: Square)
        requires
            fits3(center.gv(), COORD_MAX as int),
            fits3(normal.gv(), COORD_MAX as int),
            glen2(normal.gv()) >= 1,
            0 <= size <= COORD_MAX,
            wf_material(material),
        ensures
            res.center == center,
            res.normal.gv() == gunit(normal.gv()),
            res.u_axis.gv() == sq_u_axis(gunit(normal.gv())),
            res.v_axis.gv() == gcross(res.normal.gv(), res.u_axis.gv()),
            res.size == size,
            res.mat == material,
            wf_square(res),
    {
        let unit_normal = unit_vector(normal);
        let temp = if unit_normal.x > 58982 || unit_normal.x < -58982 {
            Vec3 { x: 0, y: FP_ONE, z: 0 }
        } else {
            Vec3 { x: FP_ONE, y: 0, z: 0 }
        };
        let c = cross(unit_normal, temp);
        proof {
            lemma_cross_small(unit_normal.gv(), temp.gv());
        }
        let l2 = c.length_squared();
        let u_axis = if l2 >= 1 {
            unit_vector(c)
        } else {
            Vec3 { x: 0, y: 0, z: FP_ONE }
        };
        let v_axis = cross(unit_normal, u_axis);
        proof {
            lemma_cross_small(unit_normal.gv(), u_axis.gv());
        }
        Square { center, normal: unit_normal, u_axis, v_axis, size, mat: material }
    }

    /// A horizontal square (normal pointing up).
    pub fn horizontal(center: Point3, size: i128, material: Material) -> (res: Square)
        requires
            fits3(center.gv(), COORD_MAX as int),
            0 <= size <= COORD_MAX,
            wf_material(material),
        ensures
            res.center == center,
            res.normal.gv() == gunit(GV { x: 0, y: FP_ONE as int, z: 0 }),
            res.u_axis.gv() == sq_u_axis(gunit(GV { x: 0, y: FP_ONE as int, z: 0 })),
            res.v_axis.gv() == gcross(res.normal.gv(), res.u_axis.gv()),
            res.size == size,
            res.mat == material,
            wf_square(res),
    {
        let n = Vec3 { x: 0, y: FP_ONE, z: 0 };
        proof {
            assert(glen2(GV { x: 0, y: 65536 as int, z: 0 }) >= 1) by (nonlinear_arith);
            assert(n.gv() == GV { x: 0, y: 65536 as int, z: 0 });
        }
        Square::new(center, n, size, material)
    }

    /// A vertical square (normal pointing toward the viewer).
    pub fn vertical(center: Point3, size: i128, material: Material) -> (res: Square)
        requires
            fits3(center.gv(), COORD_MAX as int),
            0 <= size <= COORD_MAX,
            wf_material(material),
        ensures
            res.center == center,
            res.normal.gv() == gunit(GV { x: 0, y: 0, z: FP_ONE as int }),
            res.u_axis.gv() == sq_u_axis(gunit(GV { x: 0, y: 0, z: FP_ONE as int })),
            res.v_axis.gv() == gcross(res.normal.gv(), res.u_axis.gv()),
            res.size == size,
            res.mat == material,
            wf_square(res),
    {
        let n = Vec3 { x: 0, y: 0, z: FP_ONE };
        proof {
            assert(glen2(GV { x: 0, y: 0, z: 65536 as int }) >= 1) by (nonlinear_arith);
            assert(n.gv() == GV { x: 0, y: 0, z: 65536 as int });
        }
        Square::new(center, n, size, material)
    }

    /// Intersect the ray with the square within `(t_min, t_max)`: plane
    /// intersection followed by the in-plane containment test.
    pub fn hit(&self, r: &Ray, t_min: i128, t_max: i128) -> (res: Option<HitRecord>)
        requires
            wf_square(*self),
            wf_ray(*r),
            -T_MAX <= t_min,
            t_max <= T_MAX,
        ensures
            hit_post(Hittable::Square(*self), *r, t_min as int, t_max as int, res),
    {
        let ghost o = Hittable::Square(*self);
        let denom = dot(r.dir, self.normal);
        if denom == 0 {
            return None;
        }
        let c2o = self.center.sub(r.orig);
        let nray = dot(c2o, self.normal);
        proof {
            lemma_dot_bound(c2o.gv(), self.normal.gv(), 8589934592, FP_ONE as int);
            lemma_dot_bound(r.dir.gv(), self.normal.gv(), DIR_MAX as int, FP_ONE as int);
            lemma_abs_mul_le(nray as int, FP_ONE as int, 1688849860263936int, FP_ONE as int);
        }
        let t = div_trunc(mul_big(nray, FP_ONE), denom);
        assert(t as int == sq_cand_t(*self, *r));
        if t <= t_min || t >= t_max {
            return None;
        }
        let p = r.at(t);
        if !in_world(p) {
            assert(!h_cand_ok(o, *r, 0));
            return None;
        }
        let c2h = p.sub(self.center);
        proof {
            lemma_dot_bound(c2h.gv(), self.u_axis.gv(), 8589934592, FP_ONE as int);
            lemma_dot_bound(c2h.gv(), self.v_axis.gv(), 8589934592, 2 * FP_ONE as int);
        }
        let u_coord = div_trunc(dot(c2h, self.u_axis), FP_ONE);
        let v_coord = div_trunc(dot(c2h, self.v_axis), FP_ONE);
        assert(u_coord as int == sq_coord(*self, *r, self.u_axis.gv()));
        assert(v_coord as int == sq_coord(*self, *r, self.v_axis.gv()));
        let half_size = div_trunc(self.size, 2);
        if u_coord > half_size || u_coord < -half_size || v_coord > half_size || v_coord
            < -half_size {
            assert(!h_cand_ok(o, *r, 0));
            return None;
        }
        let mut rec = HitRecord {
            p,
            normal: self.normal,
            t,
            front_face: true,
            mat: self.mat,
        };
        rec.set_face_normal(r, self.normal);
        assert(h_cand_ok(o, *r, 0) && rec_matches(o, *r, 0, rec));
        assert(rec_is_first(o, *r, t_min as int, t_max as int, 0, rec));
        Some(rec)
    }
}

/// A cross product of vectors bounded by `FP_ONE` has components bounded
/// by `2 * FP_ONE`.
pub proof fn lemma_cross_small(a: GV, b: GV)
    requires
        fits3(a, FP_ONE as int),
        fits3(b, FP_ONE as int),
    ensures
        fits3(gcross(a, b), 2 * FP_ONE as int),
{
    assert(abs_i(a.y * b.z - a.z * b.y) <= 2 * FP_ONE as int * FP_ONE as int && abs_i(
        a.z * b.x - a.x * b.z,
    ) <= 2 * FP_ONE as int * FP_ONE as int && abs_i(a.x * b.y - a.y * b.x) <= 2 * FP_ONE as int
        * FP_ONE as int) by (nonlinear_arith)
        requires
            fits3(a, FP_ONE as int),
            fits3(b, FP_ONE as int),
    ;
    crate::common::lemma_tdiv_abs_le(a.y * b.z - a.z * b.y, FP_ONE as int, 2 * FP_ONE as int);
    crate::common::lemma_tdiv_abs_le(a.z * b.x - a.x * b.z, FP_ONE as int, 2 * FP_ONE as int);
    crate::common::lemma_tdiv_abs_le(a.x * b.y - a.y * b.x, FP_ONE as int, 2 * FP_ONE as int);
}

} // verus!
