//! The intersection record, the closed set of intersectable objects, and
//! the common contract of every intersection test.
//!
//! Each primitive exposes a small set of candidate hits for a given ray:
//! parameter values with a validity condition and an outward normal.
//! Every `hit` function returns the earliest valid candidate strictly
//! inside `(t_min, t_max)`, which is what the aggregate's closest-hit
//! scan builds on.

use vstd::prelude::*;

use crate::common::{COORD_MAX, FP_ONE, T_MAX};
use crate::material::Material;
use crate::ray::{g_at, wf_ray, Ray};
use crate::shapes::cylinder::{
    cy_cand_ok, cy_cand_t, cy_outward, dk_cand_ok, dk_cand_t, dk_outward, wf_cylinder, wf_disk,
    Cylinder, Disk,
};
use crate::shapes::square::{sq_cand_ok, sq_cand_t, sq_outward, wf_square, Square};
use crate::sphere::{sph_cand_ok, sph_cand_t, sph_outward, wf_sphere, Sphere};
use crate::vec3::{dot, fits3, gdot, gneg, Point3, Vec3, GV};

verus! {

/// The result of a successful intersection: hit point, oriented surface
/// normal, ray parameter, face orientation, and the surface material.
#[derive(Clone, Copy, PartialEq, Eq, Structural, Debug)]
pub struct HitRecord {
    pub p: Point3,
    pub normal: Vec3,
    pub t: i128,
    pub front_face: bool,
    pub mat: Material,
}

/// The hit lies on the geometrically outward face: the incoming ray runs
/// against the outward normal.
pub open spec fn gfront(dir: GV, outward: GV) -> bool {
    gdot(dir, outward) < 0
}

/// The stored normal: the outward normal if the front face was struck,
/// its negation otherwise, so it always points against the incoming ray.
pub open spec fn goriented(dir: GV, outward: GV) -> GV {
    if gfront(dir, outward) {
        outward
    } else {
        gneg(outward)
    }
}

impl HitRecord {
    /// Store the face orientation: `front_face` holds exactly when the
    /// ray direction runs against `outward_normal`, and the stored
    /// normal is flipped so that it opposes the ray.
    pub fn set_face_normal(&mut self, r: &Ray, outward_normal: Vec3)
        requires
            fits3(r.dir.gv(), crate::common::PROD_MAX as int),
            fits3(outward_normal.gv(), crate::common::PROD_MAX as int),
        ensures
            final (self).front_face == gfront(r.dir.gv(), outward_normal.gv()),
            final (self).normal.gv() == goriented(r.dir.gv(), outward_normal.gv()),
            final (self).p == old(self).p,
            final (self).t == old(self).t,
            final (self).mat == old(self).mat,
    {
        let d = dot(r.dir, outward_normal);
        self.front_face = d < 0;
        if self.front_face {
            self.normal = outward_normal;
        } else {
            self.normal = outward_normal.neg();
        }
    }
}

/// Whether every component of `v` is inside the coordinate range.
pub fn in_world(v: Vec3) -> (r: bool)
    ensures
        r == fits3(v.gv(), COORD_MAX as int),
{
    -COORD_MAX <= v.x && v.x <= COORD_MAX && -COORD_MAX <= v.y && v.y <= COORD_MAX && -COORD_MAX
        <= v.z && v.z <= COORD_MAX
}

/// An intersectable object: the closed set of primitives.
#[derive(Clone, Copy, PartialEq, Eq, Structural, Debug)]
pub enum Hittable {
    Sphere(Sphere),
    Square(Square),
    Disk(Disk),
    Cylinder(Cylinder),
}

/// Validity of an object's stored geometry.
pub open spec fn h_wf(o: Hittable) -> bool {
    match o {
        Hittable::Sphere(s) => wf_sphere(s),
        Hittable::Square(q) => wf_square(q),
        Hittable::Disk(d) => wf_disk(d),
        Hittable::Cylinder(c) => wf_cylinder(c),
    }
}

/// The object's material.
pub open spec fn h_mat(o: Hittable) -> Material {
    match o {
        Hittable::Sphere(s) => s.mat,
        Hittable::Square(q) => q.mat,
        Hittable::Disk(d) => d.mat,
        Hittable::Cylinder(c) => c.mat,
    }
}

/// How many candidate hits the object offers for a ray.
pub open spec fn h_cand_n(o: Hittable) -> int {
    match o {
        Hittable::Sphere(_) => 2,
        Hittable::Square(_) => 1,
        Hittable::Disk(_) => 1,
        Hittable::Cylinder(_) => 4,
    }
}

/// The ray parameter of candidate `k`.
pub open spec fn h_cand_t(o: Hittable, r: Ray, k: int) -> int {
    match o {
        Hittable::Sphere(s) => sph_cand_t(s, r, k),
        Hittable::Square(q) => sq_cand_t(q, r),
        Hittable::Disk(d) => dk_cand_t(d, r),
        Hittable::Cylinder(c) => cy_cand_t(c, r, k),
    }
}

/// Whether candidate `k` is a real surface crossing (discriminant,
/// containment and coordinate-range conditions).
pub open spec fn h_cand_ok(o: Hittable, r: Ray, k: int) -> bool {
    match o {
        Hittable::Sphere(s) => sph_cand_ok(s, r, k),
        Hittable::Square(q) => sq_cand_ok(q, r),
        Hittable::Disk(d) => dk_cand_ok(d, r),
        Hittable::Cylinder(c) => cy_cand_ok(c, r, k),
    }
}

/// The outward normal at candidate `k`.
pub open spec fn h_outward(o: Hittable, r: Ray, k: int) -> GV {
    match o {
        Hittable::Sphere(s) => sph_outward(s, r, k),
        Hittable::Square(q) => sq_outward(q, r),
        Hittable::Disk(d) => dk_outward(d, r),
        Hittable::Cylinder(c) => cy_outward(c, r, k),
    }
}

/// The record `rec` reports candidate `k` of object `o`: parameter,
/// point, orientation, material and range bounds all agree.
pub open spec fn rec_matches(o: Hittable, r: Ray, k: int, rec: HitRecord) -> bool {
    &&& rec.t as int == h_cand_t(o, r, k)
    &&& rec.p.gv() == g_at(r.orig.gv(), r.dir.gv(), rec.t as int)
    &&& rec.front_face == gfront(r.dir.gv(), h_outward(o, r, k))
    &&& rec.normal.gv() == goriented(r.dir.gv(), h_outward(o, r, k))
    &&& rec.mat == h_mat(o)
    &&& fits3(rec.p.gv(), COORD_MAX as int)
    &&& fits3(rec.normal.gv(), FP_ONE as int)
}

/// The record reports candidate `k`, and every earlier candidate that is
/// valid inside the interval lies strictly later along the ray — so on
/// exact ties the candidate of least index wins, deterministically.
pub open spec fn rec_is_first(
    o: Hittable,
    r: Ray,
    t_min: int,
    t_max: int,
    k: int,
    rec: HitRecord,
) -> bool {
    &&& 0 <= k < h_cand_n(o)
    &&& h_cand_ok(o, r, k)
    &&& rec_matches(o, r, k, rec)
    &&& forall|l: int|
        0 <= l < k && #[trigger] h_cand_ok(o, r, l) && t_min < h_cand_t(o, r, l) < t_max
            ==> (rec.t as int) < h_cand_t(o, r, l)
}

/// The contract of every intersection test: a hit is the earliest valid
/// candidate strictly inside `(t_min, t_max)` — the first in candidate
/// order on exact ties — and a miss means no valid candidate lies
/// inside.
pub open spec fn hit_post(
    o: Hittable,
    r: Ray,
    t_min: int,
    t_max: int,
    res: Option<HitRecord>,
) -> bool {
    match res {
        Some(rec) => {
            &&& t_min < rec.t as int
            &&& (rec.t as int) < t_max
            &&& exists|k: int| #[trigger] h_cand_ok(o, r, k) && rec_is_first(o, r, t_min, t_max, k, rec)
            &&& forall|k: int|
                0 <= k < h_cand_n(o) && #[trigger] h_cand_ok(o, r, k) && t_min < h_cand_t(o, r, k)
                    < t_max ==> rec.t as int <= h_cand_t(o, r, k)
        },
        None => forall|k: int|
            0 <= k < h_cand_n(o) && #[trigger] h_cand_ok(o, r, k) ==> !(t_min < h_cand_t(o, r, k)
                < t_max),
    }
}

impl Hittable {
    /// Intersect the ray with this object within `(t_min, t_max)`.
    pub fn hit(&self, r: &Ray, t_min: i128, t_max: i128) -> (res: Option<HitRecord>)
        requires
            h_wf(*self),
            wf_ray(*r),
            -T_MAX <= t_min,
            t_max <= T_MAX,
        ensures
            hit_post(*self, *r, t_min as int, t_max as int, res),
    {
        match self {
            Hittable::Sphere(s) => s.hit(r, t_min, t_max),
            Hittable::Square(q) => q.hit(r, t_min, t_max),
            Hittable::Disk(d) => d.hit(r, t_min, t_max),
            Hittable::Cylinder(c) => c.hit(r, t_min, t_max),
        }
    }
}

} // verus!
