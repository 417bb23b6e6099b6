//! Parametric rays: an origin point and a direction vector.

use vstd::prelude::*;

use crate::common::{abs_i, lemma_tdiv_abs_le, COORD_MAX, DIR_MAX, FP_ONE, T_MAX};
use crate::vec3::{fits3, gadd, gscale, Point3, Vec3, GV};

verus! {

/// A ray `origin + t * direction`, immutable once constructed.
#[derive(Clone, Copy, PartialEq, Eq, Structural, Debug)]
pub struct Ray {
    pub orig: Point3,
    pub dir: Vec3,
}

/// The point reached at parameter `t`, in exact fixed-point arithmetic.
pub open spec fn g_at(orig: GV, dir: GV, t: int) -> GV {
    gadd(orig, gscale(dir, t))
}

/// A ray whose origin is inside the coordinate range and whose direction
/// components are within the direction range.
pub open spec fn wf_ray(r: Ray) -> bool {
    fits3(r.orig.gv(), COORD_MAX as int) && fits3(r.dir.gv(), DIR_MAX as int)
}

impl Ray {
    /// Build a ray.
    pub fn new(origin: Point3, direction: Vec3) -> (r: Ray)
        ensures
            r.orig == origin,
            r.dir == direction,
    {
        Ray { orig: origin, dir: direction }
    }

    /// The ray origin.
    pub fn origin(&self) -> (r: Point3)
        ensures
            r == self.orig,
    {
        self.orig
    }

    /// The ray direction.
    pub fn direction(&self) -> (r: Vec3)
        ensures
            r == self.dir,
    {
        self.dir
    }

    /// The point at parameter `t`: `origin + t * direction`, truncated
    /// per component. Each component of the result is bounded by
    /// `COORD_MAX + T_MAX * DIR_MAX / FP_ONE`.
    pub fn at(&self, t: i128) -> (p: Point3)
        requires
            wf_ray(*self),
            abs_i(t as int) <= T_MAX,
        ensures
            p.gv() == g_at(self.orig.gv(), self.dir.gv(), t as int),
            fits3(p.gv(), COORD_MAX as int + T_MAX as int * DIR_MAX as int / FP_ONE as int),
    {
        proof {
            let d = self.dir.gv();
            assert(abs_i(d.x * t) <= (T_MAX as int * DIR_MAX as int / FP_ONE as int) * FP_ONE as int
                && abs_i(d.y * t) <= (T_MAX as int * DIR_MAX as int / FP_ONE as int) * FP_ONE as int
                && abs_i(d.z * t) <= (T_MAX as int * DIR_MAX as int / FP_ONE as int)
                * FP_ONE as int) by (nonlinear_arith)
                requires
                    fits3(d, DIR_MAX as int),
                    abs_i(t as int) <= T_MAX as int,
                    T_MAX == 281474976710656i128,
                    DIR_MAX == 134217728i128,
                    FP_ONE == 65536i128,
            ;
            lemma_tdiv_abs_le(
                d.x * t,
                FP_ONE as int,
                T_MAX as int * DIR_MAX as int / FP_ONE as int,
            );
            lemma_tdiv_abs_le(
                d.y * t,
                FP_ONE as int,
                T_MAX as int * DIR_MAX as int / FP_ONE as int,
            );
            lemma_tdiv_abs_le(
                d.z * t,
                FP_ONE as int,
                T_MAX as int * DIR_MAX as int / FP_ONE as int,
            );
        }
        let step = self.dir.scale(t);
        self.orig.add(step)
    }
}

} // verus!
