//! An offline path-tracing renderer over fixed-point arithmetic.
//!
//! Geometry, materials, camera and the recursive integrator all work on
//! scaled 64.16 fixed-point scalars held in `i128`, so every
//! intersection and shading computation carries an exact arithmetic
//! contract. The only outside dependence is the pseudo-random sample
//! source behind [`common::Sampler`].

pub mod camera;
pub mod color;
pub mod common;
pub mod hittable;
pub mod hittable_list;
pub mod material;
pub mod ray;
pub mod shapes;
pub mod sphere;
pub mod vec3;

use vstd::prelude::*;

use crate::camera::{wf_camera, Camera};
use crate::common::{
    div_trunc, lemma_div_le, lemma_div_nonneg, tdiv, Sampler, FP_ONE, T_EPS, T_MAX,
};
use crate::color::tonemap;
use crate::hittable::{h_cand_n, h_cand_ok, h_cand_t, h_mat, h_wf, rec_matches, Hittable};
use crate::hittable_list::{wf_list, HittableList};
use crate::material::{wf_color, wf_material, Lambertian, Material, Metal};
use crate::ray::{wf_ray, Ray};
use crate::shapes::cube::cube_faces;
use crate::shapes::cylinder::Cylinder;
use crate::shapes::square::Square;
use crate::shapes::Cube;
use crate::sphere::Sphere;
use crate::vec3::{
    fits3, gadd, glen2, gmul, gscale, gunit, lemma_unit_axis, unit_vector, Color, Point3, Vec3, GV,
};

verus! {

/// The background gradient for a unit ray direction: white blended into
/// sky blue by `0.5 * (y + 1)`.
pub open spec fn gbackground(ud: GV) -> GV {
    let t = tdiv(ud.y + FP_ONE as int, 2);
    gadd(
        gscale(GV { x: FP_ONE as int, y: FP_ONE as int, z: FP_ONE as int }, FP_ONE as int - t),
        gscale(GV { x: 32768, y: 45875, z: 65536 }, t),
    )
}

/// No object of the scene has a valid candidate hit inside the
/// integrator's interval for this ray.
pub open spec fn scene_miss(objs: Seq<Hittable>, r: Ray) -> bool {
    forall|i: int, k: int|
        0 <= i < objs.len() && 0 <= k < h_cand_n(objs[i]) && #[trigger] h_cand_ok(objs[i], r, k)
            ==> !((T_EPS as int) < h_cand_t(objs[i], r, k) && h_cand_t(objs[i], r, k) < T_MAX as int)
}

/// A fixed-point product of two colors in `[0, 1]` stays in `[0, 1]`.
proof fn lemma_color_mul(a: GV, b: GV)
    requires
        wf_color(a),
        wf_color(b),
    ensures
        wf_color(gmul(a, b)),
{
    assert(0 <= a.x * b.x <= 65536int * 65536int && 0 <= a.y * b.y <= 65536int * 65536int && 0
        <= a.z * b.z <= 65536int * 65536int) by (nonlinear_arith)
        requires
            wf_color(a),
            wf_color(b),
    ;
    lemma_div_nonneg(a.x * b.x, 65536);
    lemma_div_le(a.x * b.x, 65536, 65536);
    lemma_div_nonneg(a.y * b.y, 65536);
    lemma_div_le(a.y * b.y, 65536, 65536);
    lemma_div_nonneg(a.z * b.z, 65536);
    lemma_div_le(a.z * b.z, 65536, 65536);
}

/// A fixed-point product with black is black.
proof fn lemma_gmul_black(a: GV)
    ensures
        gmul(a, GV { x: 0, y: 0, z: 0 }) == (GV { x: 0, y: 0, z: 0 }),
{
    assert(a.x * 0 == 0 && a.y * 0 == 0 && a.z * 0 == 0) by (nonlinear_arith);
    assert(tdiv(0int, 65536int) == 0);
}

/// The background gradient of a unit direction: white at the bottom of
/// the sky blending linearly into blue at the top.
pub fn background_color(unit_direction: Vec3) -> (c: Color)
    requires
        fits3(unit_direction.gv(), FP_ONE as int),
    ensures
        c.gv() == gbackground(unit_direction.gv()),
        wf_color(c.gv()),
{
    proof {
        lemma_div_nonneg(unit_direction.y as int + FP_ONE as int, 2);
        lemma_div_le(unit_direction.y as int + FP_ONE as int, 2, FP_ONE as int);
    }
    let t = div_trunc(unit_direction.y + FP_ONE, 2);
    let white = Vec3 { x: FP_ONE, y: FP_ONE, z: FP_ONE };
    let blue = Vec3 { x: 32768, y: 45875, z: 65536 };
    proof {
        vstd::arithmetic::div_mod::lemma_div_multiples_vanish(
            FP_ONE as int - t as int,
            FP_ONE as int,
        );
        assert(0 <= 32768 * t as int <= t as int * 65536int && 0 <= 45875 * t as int <= t as int
            * 65536int && 0 <= 65536 * t as int <= t as int * 65536int) by (nonlinear_arith)
            requires
                0 <= t as int <= 65536int,
        ;
        lemma_div_le(32768 * t as int, 65536, t as int);
        lemma_div_le(45875 * t as int, 65536, t as int);
        lemma_div_le(65536 * t as int, 65536, t as int);
        lemma_div_nonneg(32768 * t as int, 65536);
        lemma_div_nonneg(45875 * t as int, 65536);
        lemma_div_nonneg(65536 * t as int, 65536);
    }
    white.scale(FP_ONE - t).add(blue.scale(t))
}

/// The recursive radiance estimator. A zero bounce budget yields black;
/// a miss yields the background gradient exactly; a hit scatters at the
/// struck material and recurses with the attenuation applied. The
/// result is always a color in `[0, 1]` per channel.
pub fn ray_color(r: &Ray, world: &HittableList, depth: u32, s: &mut Sampler) -> (c: Color)
    requires
        wf_list(world.objects@),
        wf_ray(*r),
    ensures
        wf_color(c.gv()),
        depth == 0 ==> c.gv() == (GV { x: 0, y: 0, z: 0 }),
        depth > 0 && glen2(r.dir.gv()) >= 1 && scene_miss(world.objects@, *r) ==> c.gv()
            == gbackground(gunit(r.dir.gv())),
        depth == 1 && glen2(r.dir.gv()) >= 1 && !scene_miss(world.objects@, *r) ==> c.gv() == (GV {
            x: 0,
            y: 0,
            z: 0,
        }),
    decreases depth,
{
    let black = Vec3 { x: 0, y: 0, z: 0 };
    if depth == 0 {
        return black;
    }
    let dl2 = r.dir.length_squared();
    if dl2 < 1 {
        // A ray too short to orient carries no light.
        return black;
    }
    let ghost objs = world.objects@;
    match world.hit(r, T_EPS, T_MAX) {
        Some(rec) => {
            proof {
                let (i, k) = choose|i: int, k: int|
                    0 <= i < objs.len() && 0 <= k < h_cand_n(objs[i]) && #[trigger] h_cand_ok(
                        objs[i],
                        *r,
                        k,
                    ) && rec_matches(objs[i], *r, k, rec);
                assert(h_wf(objs[i]));
                assert(rec.mat == h_mat(objs[i]));
                assert(wf_material(rec.mat));
                assert(!scene_miss(objs, *r));
            }
            match rec.mat.scatter(r, &rec, s) {
                Some((attenuation, scattered)) => {
                    proof {
                        assert(fits3(scattered.dir.gv(), 134217728) && wf_color(
                            attenuation.gv(),
                        )) by {
                            if rec.mat is Lambertian {
                            } else if rec.mat is Metal {
                            } else {
                            }
                        }
                    }
                    let bounce = ray_color(&scattered, world, depth - 1, s);
                    proof {
                        lemma_color_mul(attenuation.gv(), bounce.gv());
                        if depth == 1 {
                            lemma_gmul_black(attenuation.gv());
                        }
                    }
                    attenuation.mul(bounce)
                },
                None => black,
            }
        },
        None => {
            let ud = unit_vector(r.dir);
            background_color(ud)
        },
    }
}

/// The pixel is the tonemap of some accumulated per-sample color sum
/// whose channels lie in `[0, samples * FP_ONE]`.
pub open spec fn pixel_tonemapped(px: (u8, u8, u8), spp: int) -> bool {
    exists|c: GV|
        {
            &&& 0 <= c.x <= spp * FP_ONE as int
            &&& 0 <= c.y <= spp * FP_ONE as int
            &&& 0 <= c.z <= spp * FP_ONE as int
            &&& px.0 as int == #[trigger] tonemap(c.x, spp)
            &&& px.1 as int == tonemap(c.y, spp)
            &&& px.2 as int == tonemap(c.z, spp)
        }
}

/// Every pixel of the raster is a tonemapped accumulated sample sum.
pub open spec fn raster_ok(pixels: Seq<(u8, u8, u8)>, spp: int) -> bool {
    forall|p: int| 0 <= p < pixels.len() ==> pixel_tonemapped(#[trigger] pixels[p], spp)
}

/// Render the scene through the camera into a top-to-bottom,
/// left-to-right raster of tonemapped byte triples: each pixel averages
/// `samples_per_pixel` integrator samples and is tonemapped by
/// [`color::write_color`]'s contract.
pub fn render(
    world: &HittableList,
    cam: &Camera,
    image_width: u32,
    image_height: u32,
    samples_per_pixel: u32,
    max_depth: u32,
    sampler: &mut Sampler,
) -> (pixels: Vec<(u8, u8, u8)>)
    requires
        wf_list(world.objects@),
        wf_camera(*cam),
        2 <= image_width <= 8192,
        2 <= image_height <= 8192,
        1 <= samples_per_pixel <= 65536,
    ensures
        pixels@.len() == image_height * image_width,
        raster_ok(pixels@, samples_per_pixel as int),
{
    let mut out: Vec<(u8, u8, u8)> = Vec::new();
    let mut jj: u32 = 0;
    while jj < image_height
        invariant
            wf_list(world.objects@),
            wf_camera(*cam),
            2 <= image_width <= 8192,
            2 <= image_height <= 8192,
            1 <= samples_per_pixel <= 65536,
            jj <= image_height,
            out@.len() == jj * image_width,
            raster_ok(out@, samples_per_pixel as int),
        decreases image_height - jj,
    {
        let j = image_height - 1 - jj;
        let mut i: u32 = 0;
        while i < image_width
            invariant
                wf_list(world.objects@),
                wf_camera(*cam),
                2 <= image_width <= 8192,
                2 <= image_height <= 8192,
                1 <= samples_per_pixel <= 65536,
                jj < image_height,
                j == image_height - 1 - jj,
                i <= image_width,
                out@.len() == jj * image_width + i,
                raster_ok(out@, samples_per_pixel as int),
            decreases image_width - i,
        {
            let mut pixel_color = Vec3 { x: 0, y: 0, z: 0 };
            let mut sct: u32 = 0;
            while sct < samples_per_pixel
                invariant
                    wf_list(world.objects@),
                    wf_camera(*cam),
                    2 <= image_width <= 8192,
                    2 <= image_height <= 8192,
                    1 <= samples_per_pixel <= 65536,
                    jj < image_height,
                    j == image_height - 1 - jj,
                    i < image_width,
                    sct <= samples_per_pixel,
                    0 <= pixel_color.x <= sct * FP_ONE,
                    0 <= pixel_color.y <= sct * FP_ONE,
                    0 <= pixel_color.z <= sct * FP_ONE,
                decreases samples_per_pixel - sct,
            {
                let ru = sampler.next_unit();
                let rv = sampler.next_unit();
                let su = screen_coord(i, image_width, ru);
                let sv = screen_coord(j, image_height, rv);
                let ray = cam.get_ray(su, sv, sampler);
                let c = ray_color(&ray, world, max_depth, sampler);
                pixel_color = pixel_color.add(c);
                sct = sct + 1;
            }
            let rgb = crate::color::write_color(pixel_color, samples_per_pixel);
            out.push(rgb);
            proof {
                let c = pixel_color.gv();
                assert(rgb.0 as int == tonemap(c.x, samples_per_pixel as int));
                assert(rgb.1 as int == tonemap(c.y, samples_per_pixel as int));
                assert(rgb.2 as int == tonemap(c.z, samples_per_pixel as int));
                assert(pixel_tonemapped(rgb, samples_per_pixel as int));
                assert forall|p: int| 0 <= p < out@.len() implies pixel_tonemapped(
                    #[trigger] out@[p],
                    samples_per_pixel as int,
                ) by {
                    if p < out@.len() - 1 {
                        assert(out@[p] == out@.subrange(0, out@.len() - 1)[p]);
                    }
                }
            }
            i = i + 1;
        }
        proof {
            assert((jj + 1) * image_width == jj * image_width + image_width)
                by (nonlinear_arith);
        }
        jj = jj + 1;
    }
    out
}

/// The normalized screen coordinate of pixel index `idx` out of `count`,
/// jittered by a random fixed-point fraction `rnd`; at most two, since
/// the jitter can push the last pixel slightly past one.
fn screen_coord(idx: u32, count: u32, rnd: i128) -> (s: i128)
    requires
        2 <= count <= 8192,
        idx < count,
        0 <= rnd < FP_ONE,
    ensures
        0 <= s <= 2 * FP_ONE,
{
    let ui = idx as i128 * FP_ONE + rnd;
    let denom = (count as i128 - 1) * FP_ONE;
    proof {
        assert(ui * FP_ONE as int <= (2 * FP_ONE as int) * ((count as int - 1) * FP_ONE as int))
            by (nonlinear_arith)
            requires
                0 <= ui,
                ui <= count as int * FP_ONE as int - 1,
                2 <= count as int <= 8192,
                FP_ONE == 65536i128,
        ;
        assert(0 <= ui * FP_ONE as int) by (nonlinear_arith)
            requires
                0 <= ui,
        ;
        lemma_div_le(
            ui as int * FP_ONE as int,
            (count as int - 1) * FP_ONE as int,
            2 * FP_ONE as int,
        );
        lemma_div_nonneg(ui as int * FP_ONE as int, (count as int - 1) * FP_ONE as int);
    }
    div_trunc(ui * FP_ONE, denom)
}

/// Every scene built below is well-formed and ready to render.
pub open spec fn scene_ok(w: HittableList) -> bool {
    wf_list(w.objects@)
}

/// The gray diffuse ground plane all demonstration scenes share: a
/// horizontal square of side 1000 at the origin.
pub open spec fn is_ground(h: Hittable, albedo: GV) -> bool {
    &&& h matches Hittable::Square(q)
    &&& q.center.gv() == (GV { x: 0, y: 0, z: 0 })
    &&& q.normal.gv() == (GV { x: 0, y: 65536, z: 0 })
    &&& q.size == 65536000
    &&& q.mat matches Material::Lambertian(l) && l.albedo.gv() == albedo
}

/// The full demonstration scene's contents, in insertion order: the
/// gray ground, a teal metal sphere at (0,1,1), the six faces of a teal
/// metal box from (-4.5,0,0) to (-2.5,2,2), and a yellow-green diffuse
/// cylinder of radius 0.8 and height 2 based at (3.5,0,1).
pub open spec fn demo_scene(objs: Seq<Hittable>) -> bool {
    &&& objs.len() == 9
    &&& is_ground(objs[0], GV { x: 32768, y: 32768, z: 32768 })
    &&& (objs[1] matches Hittable::Sphere(sp) && sp.center.gv() == (GV {
        x: 0,
        y: 65536,
        z: 65536,
    }) && sp.radius == 65536 && (sp.mat matches Material::Metal(mt) && mt.albedo.gv() == (GV {
        x: 13107,
        y: 45875,
        z: 45875,
    }) && mt.fuzz == 6554))
    &&& cube_faces(
        objs.subrange(2, 8),
        GV { x: -294912, y: 0, z: 0 },
        GV { x: -163840, y: 131072, z: 131072 },
        131072,
        131072,
        131072,
        Material::Metal(Metal { albedo: Vec3 { x: 13107, y: 45875, z: 45875 }, fuzz: 6554 }),
    )
    &&& (objs[8] matches Hittable::Cylinder(cy) && cy.base_center.gv() == (GV {
        x: 229376,
        y: 0,
        z: 65536,
    }) && cy.axis.gv() == (GV { x: 0, y: 65536, z: 0 }) && cy.radius == 52429 && cy.height
        == 131072 && (cy.mat matches Material::Lambertian(l) && l.albedo.gv() == (GV {
        x: 52429,
        y: 65536,
        z: 13107,
    })))
}

/// The demonstration scene: gray diffuse ground, a teal metal sphere, a
/// teal metal box and a yellow-green diffuse cylinder.
pub fn random_scene() -> (w: HittableList)
    ensures
        scene_ok(w),
        demo_scene(w.objects@),
{
    let mut world = HittableList::new();

    let ground_material = Material::Lambertian(
        Lambertian::new(Vec3 { x: 32768, y: 32768, z: 32768 }),
    );
    world.add(
        Hittable::Square(Square::horizontal(Vec3 { x: 0, y: 0, z: 0 }, 65536000, ground_material)),
    );

    let sphere_material = Material::Metal(Metal::new(Vec3 { x: 13107, y: 45875, z: 45875 }, 6554));
    world.add(
        Hittable::Sphere(Sphere::new(Vec3 { x: 0, y: 65536, z: 65536 }, 65536, sphere_material)),
    );

    let cube_material = Material::Metal(Metal::new(Vec3 { x: 13107, y: 45875, z: 45875 }, 6554));
    let cube = Cube::new(
        Vec3 { x: -294912, y: 0, z: 0 },
        Vec3 { x: -163840, y: 131072, z: 131072 },
        cube_material,
    );
    world.append(cube.sides);

    let cylinder_material = Material::Lambertian(
        Lambertian::new(Vec3 { x: 52429, y: 65536, z: 13107 }),
    );
    let cylinder = Cylinder::new(
        Vec3 { x: 229376, y: 0, z: 65536 },
        Vec3 { x: 0, y: 65536, z: 0 },
        52429,
        131072,
        cylinder_material,
    );
    proof {
        assert(glen2(GV { x: 0, y: 65536, z: 0 }) >= 1) by (nonlinear_arith);
    }
    world.add(Hittable::Cylinder(cylinder));

    proof {
        lemma_unit_axis();
        assert(world.objects@.subrange(2, 8) =~= cube.sides.objects@);
    }
    world
}

/// A scene with the diffuse ground and one red metal sphere.
pub fn scene_sphere() -> (w: HittableList)
    ensures
        scene_ok(w),
        w.objects@.len() == 2,
        is_ground(w.objects@[0], GV { x: 32768, y: 32768, z: 32768 }),
        w.objects@[1] matches Hittable::Sphere(sp) && sp.center.gv() == (GV {
            x: 0,
            y: 65536,
            z: 0,
        }) && sp.radius == 65536 && (sp.mat matches Material::Metal(mt) && mt.albedo.gv() == (GV {
            x: 52429,
            y: 13107,
            z: 13107,
        }) && mt.fuzz == 6554),
{
    let mut world = HittableList::new();
    let ground_material = Material::Lambertian(
        Lambertian::new(Vec3 { x: 32768, y: 32768, z: 32768 }),
    );
    world.add(
        Hittable::Square(Square::horizontal(Vec3 { x: 0, y: 0, z: 0 }, 65536000, ground_material)),
    );
    let sphere_material = Material::Metal(Metal::new(Vec3 { x: 52429, y: 13107, z: 13107 }, 6554));
    world.add(
        Hittable::Sphere(Sphere::new(Vec3 { x: 0, y: 65536, z: 0 }, 65536, sphere_material)),
    );
    proof {
        lemma_unit_axis();
    }
    world
}

/// A scene with a brown diffuse ground and a dim metal box.
pub fn scene_plane_cube() -> (w: HittableList)
    ensures
        scene_ok(w),
        w.objects@.len() == 7,
        is_ground(w.objects@[0], GV { x: 26214, y: 9830, z: 3277 }),
        cube_faces(
            w.objects@.subrange(1, 7),
            GV { x: -65536, y: 0, z: -65536 },
            GV { x: 65536, y: 131072, z: 65536 },
            131072,
            131072,
            131072,
            Material::Metal(Metal { albedo: Vec3 { x: 6554, y: 13107, z: 13107 }, fuzz: 13107 }),
        ),
{
    let mut world = HittableList::new();
    let ground_material = Material::Lambertian(
        Lambertian::new(Vec3 { x: 26214, y: 9830, z: 3277 }),
    );
    world.add(
        Hittable::Square(Square::horizontal(Vec3 { x: 0, y: 0, z: 0 }, 65536000, ground_material)),
    );
    let cube_material = Material::Metal(Metal::new(Vec3 { x: 6554, y: 13107, z: 13107 }, 13107));
    let cube = Cube::new(
        Vec3 { x: -65536, y: 0, z: -65536 },
        Vec3 { x: 65536, y: 131072, z: 65536 },
        cube_material,
    );
    world.append(cube.sides);
    proof {
        lemma_unit_axis();
        assert(world.objects@.subrange(1, 7) =~= cube.sides.objects@);
    }
    world
}

/// The full demonstration scene (ground, sphere, box, cylinder).
pub fn scene_all_objects() -> (w: HittableList)
    ensures
        scene_ok(w),
        demo_scene(w.objects@),
{
    random_scene()
}

/// The full demonstration scene with the side camera placement: the
/// world together with its eye and look-at points.
pub fn scene_all_objects_alt_camera() -> (r: (HittableList, Point3, Point3))
    ensures
        scene_ok(r.0),
        demo_scene(r.0.objects@),
        r.1.gv() == (GV { x: 0, y: 327680, z: 655360 }),
        r.2.gv() == (GV { x: 0, y: 65536, z: 65536 }),
{
    let world = scene_all_objects();
    let lookfrom = Vec3 { x: 0, y: 327680, z: 655360 };
    let lookat = Vec3 { x: 0, y: 65536, z: 65536 };
    (world, lookfrom, lookat)
}

} // verus!
