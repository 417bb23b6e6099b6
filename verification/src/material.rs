//! Surface materials: diffuse, reflective and refractive scattering.

use vstd::prelude::*;

use crate::common::{
    abs_i, div_fp, div_trunc, isqrt_u128, lemma_abs_mul_le, lemma_div_le, lemma_div_nonneg,
    lemma_sqrt_exists, lemma_sqrt_unique, lemma_tdiv_abs_le, mul_big, sqrt_floor, tdiv, Sampler,
    COORD_MAX, FP_ONE, PROD_MAX,
};
use crate::hittable::HitRecord;
use crate::ray::{wf_ray, Ray};
use crate::vec3::{
    dot, fits3, gadd, gdot, glen2, gneg, greflect, gscale, gunit, random_in_unit_sphere,
    random_unit_vector, refract, reflect, unit_vector, Color, Vec3, GV,
};

verus! {

/// A color whose components all lie in `[0, 1]` (fixed point).
pub open spec fn wf_color(c: GV) -> bool {
    0 <= c.x <= FP_ONE as int && 0 <= c.y <= FP_ONE as int && 0 <= c.z <= FP_ONE as int
}

/// An ideal diffuse surface.
#[derive(Clone, Copy, PartialEq, Eq, Structural, Debug)]
pub struct Lambertian {
    pub albedo: Color,
}

/// A specular surface with a fuzz parameter in `[0, 1]`.
#[derive(Clone, Copy, PartialEq, Eq, Structural, Debug)]
pub struct Metal {
    pub albedo: Color,
    pub fuzz: i128,
}

/// A clear refractive surface described by its index of refraction.
#[derive(Clone, Copy, PartialEq, Eq, Structural, Debug)]
pub struct Dielectric {
    pub ir: i128,
}

/// A surface material: one of the closed set of scattering laws.
#[derive(Clone, Copy, PartialEq, Eq, Structural, Debug)]
pub enum Material {
    Lambertian(Lambertian),
    Metal(Metal),
    Dielectric(Dielectric),
}

/// Validity of a material's fixed parameters.
pub open spec fn wf_material(m: Material) -> bool {
    match m {
        Material::Lambertian(l) => wf_color(l.albedo.gv()),
        Material::Metal(mt) => wf_color(mt.albedo.gv()) && 0 <= mt.fuzz <= FP_ONE,
        Material::Dielectric(d) => FP_ONE <= d.ir <= 1048576,
    }
}

/// The refraction ratio a dielectric uses: the inverse index when the
/// ray enters at the front face, the index itself when it exits.
pub open spec fn diel_ratio(d: Dielectric, front: bool) -> int {
    if front {
        tdiv(4294967296, d.ir as int)
    } else {
        d.ir as int
    }
}

/// The cosine of the incidence angle, clamped to one from above.
pub open spec fn diel_cos(uv: GV, n: GV) -> int {
    let c = tdiv(gdot(gneg(uv), n), FP_ONE as int);
    if c > FP_ONE as int {
        FP_ONE as int
    } else {
        c
    }
}

/// The sine of the incidence angle, from `sqrt(1 - cos^2)` with a
/// negative radicand clamped to zero.
pub open spec fn diel_sin(uv: GV, n: GV) -> int {
    let c = diel_cos(uv, n);
    let s2 = FP_ONE as int - tdiv(c * c, FP_ONE as int);
    sqrt_floor(
        (if s2 >= 0 {
            s2
        } else {
            0
        }) * FP_ONE as int,
    )
}

/// Total internal reflection holds for this dielectric, incoming ray
/// and hit: `ratio * sin_theta > 1`, so Snell's law has no solution and
/// the ray must reflect.
pub open spec fn dielectric_tir(d: Dielectric, r_in: Ray, rec: HitRecord) -> bool {
    let uv = gunit(r_in.dir.gv());
    let n = rec.normal.gv();
    tdiv(diel_ratio(d, rec.front_face) * diel_sin(uv, n), FP_ONE as int) > FP_ONE as int
}

/// The diffuse scatter law: the direction is the surface normal plus
/// the drawn unit-sphere vector, falling back to the normal itself when
/// the sum degenerates to zero.
pub open spec fn lambertian_dir(normal: GV, u: GV) -> GV {
    if gadd(normal, u) == (GV { x: 0, y: 0, z: 0 }) {
        normal
    } else {
        gadd(normal, u)
    }
}

/// The fuzzed specular direction: the mirrored unit incoming direction
/// plus `fuzz` times a point of the unit sphere.
pub open spec fn metal_dir(r_in: Ray, rec: HitRecord, fuzz: int, sp: GV) -> GV {
    gadd(greflect(gunit(r_in.dir.gv()), rec.normal.gv()), gscale(sp, fuzz))
}

/// What `scatter` promises, by material kind.
pub open spec fn scatter_post(
    m: Material,
    r_in: Ray,
    rec: HitRecord,
    res: Option<(Color, Ray)>,
) -> bool {
    match m {
        Material::Lambertian(l) => (res matches Some(pair) && pair.0 == l.albedo && pair.1.orig
            == rec.p && fits3(pair.1.dir.gv(), 2 * FP_ONE as int) && (exists|u: GV|
            #[trigger] fits3(u, FP_ONE as int) && pair.1.dir.gv() == lambertian_dir(
                rec.normal.gv(),
                u,
            )) && (rec.normal.gv() != (GV { x: 0, y: 0, z: 0 }) ==> pair.1.dir.gv() != (GV {
            x: 0,
            y: 0,
            z: 0,
        }))),
        Material::Metal(mt) => (match res {
            Some(pair) => pair.0 == mt.albedo && pair.1.orig == rec.p && gdot(
                pair.1.dir.gv(),
                rec.normal.gv(),
            ) > 0 && fits3(pair.1.dir.gv(), 8 * FP_ONE as int) && (exists|sp: GV|
                #[trigger] fits3(sp, FP_ONE as int) && glen2(sp) < FP_ONE as int * FP_ONE as int
                    && pair.1.dir.gv() == metal_dir(r_in, rec, mt.fuzz as int, sp)) && (mt.fuzz == 0
                ==> pair.1.dir.gv() == greflect(gunit(r_in.dir.gv()), rec.normal.gv())),
            None => exists|sp: GV|
                #[trigger] fits3(sp, FP_ONE as int) && glen2(sp) < FP_ONE as int * FP_ONE as int
                    && gdot(metal_dir(r_in, rec, mt.fuzz as int, sp), rec.normal.gv()) <= 0,
        }),
        Material::Dielectric(d) => (res matches Some(pair) && pair.0.gv() == (GV {
            x: FP_ONE as int,
            y: FP_ONE as int,
            z: FP_ONE as int,
        }) && pair.1.orig == rec.p && fits3(pair.1.dir.gv(), 16777216) && (dielectric_tir(
            d,
            r_in,
            rec,
        ) ==> pair.1.dir.gv() == greflect(gunit(r_in.dir.gv()), rec.normal.gv()))),
    }
}

impl Material {
    /// Scatter an incoming ray at a hit: produce the attenuation color
    /// and the outgoing ray, or report absorption.
    ///
    /// A Lambertian surface always scatters diffusely; a metal scatters
    /// the mirrored ray (with fuzz) only while it still leaves the
    /// surface; a clear dielectric always scatters, reflecting whenever
    /// total internal reflection makes refraction impossible and
    /// otherwise choosing between reflection and refraction by the
    /// Schlick approximation.
    pub fn scatter(&self, r_in: &Ray, rec: &HitRecord, s: &mut Sampler) -> (res: Option<
        (Color, Ray),
    >)
        requires
            wf_material(*self),
            fits3(rec.normal.gv(), FP_ONE as int),
            fits3(rec.p.gv(), COORD_MAX as int),
            fits3(r_in.dir.gv(), 134217728),
            glen2(r_in.dir.gv()) >= 1,
        ensures
            scatter_post(*self, *r_in, *rec, res),
    {
        match self {
            Material::Lambertian(l) => {
                let rv = random_unit_vector(s);
                let mut scatter_direction = rec.normal.add(rv);
                if scatter_direction.near_zero() {
                    scatter_direction = rec.normal;
                }
                proof {
                    let u = rv.gv();
                    assert(fits3(u, FP_ONE as int) && scatter_direction.gv() == lambertian_dir(
                        rec.normal.gv(),
                        u,
                    ));
                }
                Some((l.albedo, Ray { orig: rec.p, dir: scatter_direction }))
            },
            Material::Metal(m) => {
                let unit_in = unit_vector(r_in.dir);
                let reflected = reflect(unit_in, rec.normal);
                proof {
                    lemma_reflect_small(gunit(r_in.dir.gv()), rec.normal.gv());
                }
                let rv = random_in_unit_sphere(s);
                proof {
                    crate::vec3::lemma_scale_fits(rv.gv(), m.fuzz as int, FP_ONE as int,
                        FP_ONE as int);
                }
                let fuzzed = rv.scale(m.fuzz);
                let dir = reflected.add(fuzzed);
                proof {
                    if m.fuzz == 0 {
                        assert(rv.gv().x * 0 == 0 && rv.gv().y * 0 == 0 && rv.gv().z * 0 == 0)
                            by (nonlinear_arith);
                        lemma_div_nonneg(0, 65536);
                        lemma_div_le(0, 65536, 0);
                        assert(tdiv(0, FP_ONE as int) == 0);
                        assert(fuzzed.gv() == (GV { x: 0, y: 0, z: 0 }));
                        assert(dir.gv() == greflect(gunit(r_in.dir.gv()), rec.normal.gv()));
                    }
                }
                let d = dot(dir, rec.normal);
                proof {
                    let sp = rv.gv();
                    assert(fits3(sp, FP_ONE as int) && glen2(sp) < FP_ONE as int * FP_ONE as int
                        && dir.gv() == metal_dir(*r_in, *rec, m.fuzz as int, sp));
                }
                if d > 0 {
                    Some((m.albedo, Ray { orig: rec.p, dir }))
                } else {
                    None
                }
            },
            Material::Dielectric(dl) => {
                let refraction_ratio = if rec.front_face {
                    div_trunc(4294967296, dl.ir)
                } else {
                    dl.ir
                };
                proof {
                    lemma_div_le(4294967296, dl.ir as int, 65536);
                    lemma_div_nonneg(4294967296, dl.ir as int);
                }
                let unit_in = unit_vector(r_in.dir);
                let craw = dot(unit_in.neg(), rec.normal);
                proof {
                    crate::vec3::lemma_dot_bound(gneg(gunit(r_in.dir.gv())), rec.normal.gv(),
                        FP_ONE as int, FP_ONE as int);
                    lemma_tdiv_abs_le(gdot(gneg(gunit(r_in.dir.gv())), rec.normal.gv()),
                        FP_ONE as int, 3 * FP_ONE as int);
                }
                let c = div_trunc(craw, FP_ONE);
                let cos_theta = if c > FP_ONE {
                    FP_ONE
                } else {
                    c
                };
                proof {
                    lemma_abs_mul_le(cos_theta as int, cos_theta as int, 3 * FP_ONE as int,
                        3 * FP_ONE as int);
                    lemma_tdiv_abs_le(cos_theta as int * cos_theta as int, FP_ONE as int,
                        9 * FP_ONE as int);
                }
                proof {
                    assert(cos_theta as int * cos_theta as int >= 0) by (nonlinear_arith);
                    lemma_div_nonneg(cos_theta as int * cos_theta as int, FP_ONE as int);
                }
                let c2 = div_trunc(mul_big(cos_theta, cos_theta), FP_ONE);
                let s2 = FP_ONE - c2;
                let s2c = if s2 < 0 {
                    0
                } else {
                    s2
                };
                let sin_raw = isqrt_u128((s2c * FP_ONE) as u128);
                proof {
                    if sin_raw as int > 65536 {
                        assert(sin_raw as int * sin_raw as int > 4294967296int)
                            by (nonlinear_arith)
                            requires
                                sin_raw as int > 65536,
                        ;
                    }
                    lemma_sqrt_exists((s2c * FP_ONE) as int);
                }
                let sin_theta = sin_raw as i128;
                proof {
                    lemma_abs_mul_le(refraction_ratio as int, sin_theta as int, 1048576, 65536);
                }
                let cannot_refract = div_trunc(refraction_ratio * sin_theta, FP_ONE) > FP_ONE;
                assert(cannot_refract == dielectric_tir(*dl, *r_in, *rec));
                let white = Vec3 { x: FP_ONE, y: FP_ONE, z: FP_ONE };
                if cannot_refract {
                    let dir = reflect(unit_in, rec.normal);
                    proof {
                        lemma_reflect_small(gunit(r_in.dir.gv()), rec.normal.gv());
                    }
                    return Some((white, Ray { orig: rec.p, dir }));
                }
                let r0 = div_fp(FP_ONE - refraction_ratio, FP_ONE + refraction_ratio);
                proof {
                    lemma_tdiv_abs_le((FP_ONE - refraction_ratio) as int * FP_ONE as int,
                        (FP_ONE + refraction_ratio) as int, FP_ONE as int);
                    lemma_abs_mul_le(r0 as int, r0 as int, FP_ONE as int, FP_ONE as int);
                    lemma_tdiv_abs_le(r0 as int * r0 as int, FP_ONE as int, FP_ONE as int);
                }
                let r0sq = div_trunc(mul_big(r0, r0), FP_ONE);
                let omc = FP_ONE - cos_theta;
                proof {
                    lemma_abs_mul_le(omc as int, omc as int, 4 * FP_ONE as int, 4 * FP_ONE as int);
                    lemma_tdiv_abs_le(omc as int * omc as int, FP_ONE as int, 16 * FP_ONE as int);
                }
                let omc2 = div_trunc(mul_big(omc, omc), FP_ONE);
                proof {
                    lemma_abs_mul_le(omc2 as int, omc2 as int, 16 * FP_ONE as int,
                        16 * FP_ONE as int);
                    lemma_tdiv_abs_le(omc2 as int * omc2 as int, FP_ONE as int,
                        256 * FP_ONE as int);
                }
                let omc4 = div_trunc(mul_big(omc2, omc2), FP_ONE);
                proof {
                    lemma_abs_mul_le(omc4 as int, omc as int, 256 * FP_ONE as int,
                        4 * FP_ONE as int);
                    lemma_tdiv_abs_le(omc4 as int * omc as int, FP_ONE as int,
                        1024 * FP_ONE as int);
                }
                let omc5 = div_trunc(mul_big(omc4, omc), FP_ONE);
                proof {
                    lemma_abs_mul_le((FP_ONE - r0sq) as int, omc5 as int, 2 * FP_ONE as int,
                        1024 * FP_ONE as int);
                    lemma_tdiv_abs_le((FP_ONE - r0sq) as int * omc5 as int, FP_ONE as int,
                        2048 * FP_ONE as int);
                }
                let reflectance = r0sq + div_trunc(mul_big(FP_ONE - r0sq, omc5), FP_ONE);
                let draw = s.next_unit();
                let dir = if draw < reflectance {
                    let d = reflect(unit_in, rec.normal);
                    proof {
                        lemma_reflect_small(gunit(r_in.dir.gv()), rec.normal.gv());
                    }
                    d
                } else {
                    refract(unit_in, rec.normal, refraction_ratio)
                };
                Some((white, Ray { orig: rec.p, dir }))
            },
        }
    }
}

/// The fixed-point reflection of unit-bounded vectors has components
/// within seven units.
pub proof fn lemma_reflect_small(v: GV, n: GV)
    requires
        fits3(v, FP_ONE as int),
        fits3(n, FP_ONE as int),
    ensures
        fits3(greflect(v, n), 7 * FP_ONE as int),
{
    crate::vec3::lemma_dot_bound(v, n, FP_ONE as int, FP_ONE as int);
    lemma_tdiv_abs_le(gdot(v, n), FP_ONE as int, 3 * FP_ONE as int);
    let d = tdiv(gdot(v, n), FP_ONE as int);
    crate::vec3::lemma_scale_fits(n, 2 * d, FP_ONE as int, 6 * FP_ONE as int);
}

impl Lambertian {
    /// A diffuse material with the given albedo.
    pub fn new(a: Color) -> (r: Lambertian)
        requires
            wf_color(a.gv()),
        ensures
            r.albedo == a,
            wf_material(Material::Lambertian(r)),
    {
        Lambertian { albedo: a }
    }
}

impl Metal {
    /// A specular material with the given albedo; a fuzz above one is
    /// clamped down to one.
    pub fn new(a: Color, f: i128) -> (r: Metal)
        requires
            wf_color(a.gv()),
            0 <= f,
        ensures
            r.albedo == a,
            r.fuzz == (if f < FP_ONE { f } else { FP_ONE }),
            wf_material(Material::Metal(r)),
    {
        Metal { albedo: a, fuzz: if f < FP_ONE { f } else { FP_ONE } }
    }
}

impl Dielectric {
    /// A refractive material with the given index of refraction (at
    /// least one).
    pub fn new(ir: i128) -> (r: Dielectric)
        requires
            FP_ONE <= ir <= 1048576,
        ensures
            r.ir == ir,
            wf_material(Material::Dielectric(r)),
    {
        Dielectric { ir }
    }
}

} // verus!
