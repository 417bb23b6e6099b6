//! The camera: an orthonormal basis, a focal-plane rectangle and a thin
//! lens for depth of field.

use vstd::prelude::*;

use crate::common::{
    abs_i, div_trunc, lemma_div_nonneg, lemma_tdiv_abs_le, mul_fp, tdiv, Sampler,
    COORD_MAX, DIR_MAX, FP_ONE, PROD_MAX,
};
use crate::ray::{wf_ray, Ray};
use crate::vec3::{
    cross, fits3, gadd, gcross, glen2, gneg, gscale, gsub, gunit, lemma_scale_fits,
    random_in_unit_disk, unit_vector, Point3, Vec3, GV,
};

verus! {

/// A fixed camera: eye position, viewport geometry relative to the eye,
/// the orthonormal basis and the lens radius.
#[derive(Clone, Copy, PartialEq, Eq, Structural, Debug)]
pub struct Camera {
    pub origin: Point3,
    pub lower_left_rel: Vec3,
    pub horizontal: Vec3,
    pub vertical: Vec3,
    pub u: Vec3,
    pub v: Vec3,
    pub w: Vec3,
    pub lens_radius: i128,
}

/// Validity of a camera's stored geometry: every generated ray stays
/// inside the numeric ranges the intersection tests accept.
pub open spec fn wf_camera(c: Camera) -> bool {
    &&& fits3(c.origin.gv(), COORD_MAX as int - 2097152)
    &&& fits3(c.lower_left_rel.gv(), 33554432)
    &&& fits3(c.horizontal.gv(), 16777216)
    &&& fits3(c.vertical.gv(), 8388608)
    &&& fits3(c.u.gv(), FP_ONE as int)
    &&& fits3(c.v.gv(), 2 * FP_ONE as int)
    &&& fits3(c.w.gv(), FP_ONE as int)
    &&& 0 <= c.lens_radius <= 524288
}

impl Camera {
    /// Build a camera. `half_tan` is the tangent of half the vertical
    /// field of view (fixed point), so the viewport height is
    /// `2 * half_tan * focus_dist`. Construction is rejected (fail
    /// fast) exactly when the look direction degenerates to zero or the
    /// up reference is parallel to it, which would poison every
    /// generated ray.
    pub fn new(
        lookfrom: Point3,
        lookat: Point3,
        vup: Vec3,
        half_tan: i128,
        aspect_ratio: i128,
        aperture: i128,
        focus_dist: i128,
    ) -> (res: Option<Camera>)
        requires
            fits3(lookfrom.gv(), COORD_MAX as int - 2097152),
            fits3(lookat.gv(), COORD_MAX as int),
            fits3(vup.gv(), COORD_MAX as int),
            0 < half_tan <= 1048576,
            0 < aspect_ratio <= 262144,
            0 <= aperture <= 1048576,
            1 <= focus_dist <= 8388608,
            half_tan * focus_dist <= 68719476736,
        ensures
            res is None <==> (glen2(gsub(lookfrom.gv(), lookat.gv())) < 1 || glen2(
                gcross(vup.gv(), gunit(gsub(lookfrom.gv(), lookat.gv()))),
            ) < 1),
            res matches Some(cam) ==> {
                let vh = 2 * tdiv(half_tan as int * focus_dist as int, FP_ONE as int);
                let vw = tdiv(vh * aspect_ratio as int, FP_ONE as int);
                &&& wf_camera(cam)
                &&& cam.origin == lookfrom
                &&& cam.w.gv() == gunit(gsub(lookfrom.gv(), lookat.gv()))
                &&& cam.u.gv() == gunit(gcross(vup.gv(), cam.w.gv()))
                &&& cam.v.gv() == gcross(cam.w.gv(), cam.u.gv())
                &&& cam.horizontal.gv() == gscale(cam.u.gv(), vw)
                &&& cam.vertical.gv() == gscale(cam.v.gv(), vh)
                &&& cam.lower_left_rel.gv() == gsub(
                    gsub(
                        gneg(gscale(cam.u.gv(), tdiv(vw, 2))),
                        gscale(cam.v.gv(), tdiv(vh, 2)),
                    ),
                    gscale(cam.w.gv(), focus_dist as int),
                )
                &&& cam.lens_radius as int == tdiv(aperture as int, 2)
            },
    {
        let look = lookfrom.sub(lookat);
        let ll2 = look.length_squared();
        if ll2 < 1 {
            return None;
        }
        let w = unit_vector(look);
        proof {
            crate::vec3::lemma_cross_bound(vup.gv(), gunit(look.gv()), COORD_MAX as int,
                FP_ONE as int, 2 * COORD_MAX as int);
        }
        let cuw = cross(vup, w);
        let cl2 = cuw.length_squared();
        if cl2 < 1 {
            return None;
        }
        let u = unit_vector(cuw);
        let v = cross(w, u);
        proof {
            crate::shapes::square::lemma_cross_small(w.gv(), u.gv());
        }

        let viewport_height = 2 * mul_fp(half_tan, focus_dist);
        proof {
            lemma_tdiv_abs_le(half_tan as int * focus_dist as int, FP_ONE as int, 1048576int);
            lemma_div_nonneg(half_tan as int * focus_dist as int, FP_ONE as int);
        }
        let viewport_width = mul_fp(viewport_height, aspect_ratio);
        proof {
            crate::common::lemma_abs_mul_le(viewport_height as int, aspect_ratio as int,
                2097152int, 262144int);
            lemma_tdiv_abs_le(viewport_height as int * aspect_ratio as int, FP_ONE as int,
                8388608int);
        }
        proof {
            lemma_scale_fits(u.gv(), viewport_width as int, FP_ONE as int, 8388608int);
            lemma_scale_fits(v.gv(), viewport_height as int, 2 * FP_ONE as int, 4194304int);
            lemma_scale_fits(w.gv(), focus_dist as int, FP_ONE as int, 8388608int);
        }
        let horizontal = u.scale(viewport_width);
        let vertical = v.scale(viewport_height);
        let fw = w.scale(focus_dist);
        proof {
            lemma_scale_fits(u.gv(), tdiv(viewport_width as int, 2), FP_ONE as int, 8388608int);
            lemma_tdiv_abs_le(viewport_width as int, 2, 4194304int);
            lemma_tdiv_abs_le(viewport_height as int, 2, 1048576int);
            lemma_scale_fits(v.gv(), tdiv(viewport_height as int, 2), 2 * FP_ONE as int,
                2097152int);
        }
        let hh = u.scale(div_trunc(viewport_width, 2));
        let hv = v.scale(div_trunc(viewport_height, 2));
        let lower_left_rel = hh.neg().sub(hv).sub(fw);
        proof {
            lemma_tdiv_abs_le(aperture as int, 2, 524288int);
            lemma_div_nonneg(aperture as int, 2);
        }
        let lens_radius = div_trunc(aperture, 2);
        Some(
            Camera {
                origin: lookfrom,
                lower_left_rel,
                horizontal,
                vertical,
                u,
                v,
                w,
                lens_radius,
            },
        )
    }

    /// The ray through normalized screen coordinates `(s, t)`: a point
    /// is drawn in the unit disk and scaled to the lens radius, the ray
    /// origin is the eye offset by that lens sample in the `(u, v)`
    /// plane, and the direction aims at the focal-plane point for
    /// `(s, t)` minus the offset. The result stays within the numeric
    /// ranges the intersection tests accept.
    #[verifier::rlimit(60)]
    pub fn get_ray(&self, s: i128, t: i128, sampler: &mut Sampler) -> (r: Ray)
        requires
            wf_camera(*self),
            0 <= s <= 2 * FP_ONE,
            0 <= t <= 2 * FP_ONE,
        ensures
            wf_ray(r),
            exists|d: GV|
                {
                    let rd = gscale(d, self.lens_radius as int);
                    let off = gadd(gscale(self.u.gv(), rd.x), gscale(self.v.gv(), rd.y));
                    &&& fits3(d, FP_ONE as int)
                    &&& d.z == 0
                    &&& #[trigger] glen2(d) < FP_ONE as int * FP_ONE as int
                    &&& r.orig.gv() == gadd(self.origin.gv(), off)
                    &&& r.dir.gv() == gsub(
                        gadd(
                            gadd(
                                self.lower_left_rel.gv(),
                                gscale(self.horizontal.gv(), s as int),
                            ),
                            gscale(self.vertical.gv(), t as int),
                        ),
                        off,
                    )
                },
    {
        let rd_raw = random_in_unit_disk(sampler);
        proof {
            lemma_scale_fits(rd_raw.gv(), self.lens_radius as int, FP_ONE as int, 524288int);
        }
        let rd = rd_raw.scale(self.lens_radius);
        proof {
            lemma_scale_fits(self.u.gv(), rd.gv().x, FP_ONE as int, 524288int);
            lemma_scale_fits(self.v.gv(), rd.gv().y, 2 * FP_ONE as int, 1048576int);
        }
        let offset = self.u.scale(rd.x).add(self.v.scale(rd.y));
        let origin = self.origin.add(offset);
        proof {
            crate::common::lemma_abs_mul_le(self.horizontal.gv().x, s as int, 16777216int,
                131072int);
            crate::common::lemma_abs_mul_le(self.vertical.gv().x, t as int, 8388608int,
                131072int);
            assert(abs_i(s as int) * 16777216int <= 33554432int * FP_ONE as int);
            assert(abs_i(t as int) * 8388608int <= 16777216int * FP_ONE as int);
            lemma_scale_fits(self.horizontal.gv(), s as int, 16777216int, 33554432int);
            lemma_scale_fits(self.vertical.gv(), t as int, 8388608int, 16777216int);
        }
        let sh = self.horizontal.scale(s);
        let tv = self.vertical.scale(t);
        let dir = self.lower_left_rel.add(sh).add(tv).sub(offset);
        proof {
            let d = rd_raw.gv();
            let grd = gscale(d, self.lens_radius as int);
            let off = gadd(gscale(self.u.gv(), grd.x), gscale(self.v.gv(), grd.y));
            assert(glen2(d) < FP_ONE as int * FP_ONE as int);
            assert(origin.gv() == gadd(self.origin.gv(), off));
            assert(dir.gv() == gsub(
                gadd(
                    gadd(self.lower_left_rel.gv(), gscale(self.horizontal.gv(), s as int)),
                    gscale(self.vertical.gv(), t as int),
                ),
                off,
            ));
        }
        Ray { orig: origin, dir }
    }
}

} // verus!
