use raytracer::common::{clamp, Sampler, FP_ONE, T_EPS, T_MAX};
use raytracer::hittable::Hittable;
use raytracer::hittable_list::HittableList;
use raytracer::material::{Dielectric, Lambertian, Material, Metal};
use raytracer::ray::Ray;
use raytracer::shapes::cylinder::{Cylinder, Disk};
use raytracer::shapes::square::Square;
use raytracer::shapes::Cube;
use raytracer::sphere::Sphere;
use raytracer::vec3::{dot, reflect, refract, unit_vector, Vec3};

const S: i128 = FP_ONE;

fn gray() -> Material {
    Material::Lambertian(Lambertian::new(Vec3::new(S / 2, S / 2, S / 2)))
}

#[test]
fn test_reflect_preserves_length() {
    // Reflecting (3, -4, 0) about the up normal flips the y component
    // exactly, so the squared length is preserved.
    let v = Vec3::new(3 * S, -4 * S, 0);
    let n = Vec3::new(0, S, 0);
    let r = reflect(v, n);
    assert_eq!(r, Vec3::new(3 * S, 4 * S, 0));
    assert_eq!(dot(r, r), dot(v, v));
}

#[test]
fn test_sphere_hit_on_surface() {
    // A ray aimed straight at the center hits the surface exactly one
    // radius short of the center, with the normal pointing back at the
    // ray origin (away from the center).
    let sp = Sphere::new(Vec3::new(0, 0, -3 * S), S, gray());
    let ray = Ray::new(Vec3::new(0, 0, 0), Vec3::new(0, 0, -S));
    let rec = Hittable::Sphere(sp).hit(&ray, T_EPS, T_MAX).expect("hit");
    assert_eq!(rec.t, 2 * S);
    assert_eq!(rec.p, Vec3::new(0, 0, -2 * S));
    let off = rec.p.sub(Vec3::new(0, 0, -3 * S));
    assert_eq!(dot(off, off), S * S);
    assert_eq!(rec.normal, Vec3::new(0, 0, S));
    assert!(rec.front_face);
}

#[test]
fn test_sphere_miss() {
    let sp = Sphere::new(Vec3::new(0, 0, -3 * S), S, gray());
    let ray = Ray::new(Vec3::new(0, 0, 0), Vec3::new(0, S, 0));
    assert!(Hittable::Sphere(sp).hit(&ray, T_EPS, T_MAX).is_none());
}

#[test]
fn test_square_center_hit() {
    // A square of side 2 centered at the origin facing up: a ray from
    // three units above aimed at the exact center hits at t equal to
    // the vertical distance.
    let sq = Square::new(Vec3::new(0, 0, 0), Vec3::new(0, S, 0), 2 * S, gray());
    let ray = Ray::new(Vec3::new(0, 3 * S, 0), Vec3::new(0, -S, 0));
    let rec = Hittable::Square(sq).hit(&ray, T_EPS, T_MAX).expect("hit");
    assert_eq!(rec.t, 3 * S);
    assert_eq!(rec.p, Vec3::new(0, 0, 0));
    assert_eq!(rec.normal, Vec3::new(0, S, 0));
}

#[test]
fn test_square_offset_miss() {
    // Aimed just past half the side length, the ray misses.
    let sq = Square::new(Vec3::new(0, 0, 0), Vec3::new(0, S, 0), 2 * S, gray());
    let ray = Ray::new(Vec3::new(S + 655, 3 * S, 0), Vec3::new(0, -S, 0));
    assert!(Hittable::Square(sq).hit(&ray, T_EPS, T_MAX).is_none());
}

#[test]
fn test_disk_hit_and_miss() {
    let dk = Disk::new(Vec3::new(0, 0, -2 * S), Vec3::new(0, 0, S), S, gray());
    let ray = Ray::new(Vec3::new(0, 0, 0), Vec3::new(0, 0, -S));
    let rec = Hittable::Disk(dk).hit(&ray, T_EPS, T_MAX).expect("hit");
    assert_eq!(rec.t, 2 * S);
    assert_eq!(rec.normal, Vec3::new(0, 0, S));
    // Outside the radius the same plane is missed.
    let far = Ray::new(Vec3::new(2 * S, 0, 0), Vec3::new(0, 0, -S));
    assert!(Hittable::Disk(dk).hit(&far, T_EPS, T_MAX).is_none());
}

#[test]
fn test_cylinder_tube_hit() {
    let cy = Cylinder::new(
        Vec3::new(0, -S, -3 * S),
        Vec3::new(0, S, 0),
        S,
        2 * S,
        gray(),
    );
    let ray = Ray::new(Vec3::new(0, 0, 0), Vec3::new(0, 0, -S));
    let rec = Hittable::Cylinder(cy).hit(&ray, T_EPS, T_MAX).expect("hit");
    assert_eq!(rec.t, 2 * S);
    assert_eq!(rec.p, Vec3::new(0, 0, -2 * S));
    assert_eq!(rec.normal, Vec3::new(0, 0, S));
}

#[test]
fn test_cylinder_cap_hit() {
    // Looking straight down the axis the ray strikes the top cap.
    let cy = Cylinder::new(
        Vec3::new(0, -3 * S, 0),
        Vec3::new(0, S, 0),
        S,
        2 * S,
        gray(),
    );
    let ray = Ray::new(Vec3::new(0, 0, 0), Vec3::new(0, -S, 0));
    let rec = Hittable::Cylinder(cy).hit(&ray, T_EPS, T_MAX).expect("hit");
    assert_eq!(rec.t, S);
    assert_eq!(rec.p, Vec3::new(0, -S, 0));
}

#[test]
fn test_cube_front_face_hit() {
    let cube = Cube::new(
        Vec3::new(-S, -S, -4 * S),
        Vec3::new(S, S, -2 * S),
        gray(),
    );
    let ray = Ray::new(Vec3::new(0, 0, 0), Vec3::new(0, 0, -S));
    let rec = cube.hit(&ray, T_EPS, T_MAX).expect("hit");
    assert_eq!(rec.t, 2 * S);
    assert_eq!(rec.normal, Vec3::new(0, 0, S));
}

#[test]
fn test_closest_hit_wins_in_any_order() {
    // Two spheres along the ray: whichever insertion order, the
    // aggregate reports the nearer intersection.
    let near = Hittable::Sphere(Sphere::new(Vec3::new(0, 0, -3 * S), S, gray()));
    let far = Hittable::Sphere(Sphere::new(Vec3::new(0, 0, -6 * S), S, gray()));
    let ray = Ray::new(Vec3::new(0, 0, 0), Vec3::new(0, 0, -S));

    let mut a = HittableList::new();
    a.add(near);
    a.add(far);
    let ra = a.hit(&ray, T_EPS, T_MAX).expect("hit");
    assert_eq!(ra.t, 2 * S);

    let mut b = HittableList::new();
    b.add(far);
    b.add(near);
    let rb = b.hit(&ray, T_EPS, T_MAX).expect("hit");
    assert_eq!(rb.t, 2 * S);
    assert_eq!(ra.p, rb.p);
}

#[test]
fn test_first_object_wins_exact_ties() {
    // Two coincident squares: both are hit at exactly the same t, and
    // the record carries the material of whichever was inserted first.
    let mat_a = gray();
    let mat_b = Material::Metal(Metal::new(Vec3::new(S, 0, 0), 0));
    let sq_a = Hittable::Square(Square::horizontal(Vec3::new(0, 0, 0), 4 * S, mat_a));
    let sq_b = Hittable::Square(Square::horizontal(Vec3::new(0, 0, 0), 4 * S, mat_b));
    let ray = Ray::new(Vec3::new(0, 3 * S, 0), Vec3::new(0, -S, 0));

    let mut first_a = HittableList::new();
    first_a.add(sq_a);
    first_a.add(sq_b);
    let ra = first_a.hit(&ray, T_EPS, T_MAX).expect("hit");
    assert_eq!(ra.t, 3 * S);
    assert_eq!(ra.mat, mat_a);

    let mut first_b = HittableList::new();
    first_b.add(sq_b);
    first_b.add(sq_a);
    let rb = first_b.hit(&ray, T_EPS, T_MAX).expect("hit");
    assert_eq!(rb.t, 3 * S);
    assert_eq!(rb.mat, mat_b);
}

#[test]
fn test_metal_mirror_reflection() {
    // With zero fuzz the scattered direction is exactly the mirrored
    // unit incoming direction.
    let m = Material::Metal(Metal::new(Vec3::new(S / 2, S / 2, S / 2), 0));
    let rec = raytracer::hittable::HitRecord {
        p: Vec3::new(0, 0, 0),
        normal: Vec3::new(0, S, 0),
        t: S,
        front_face: true,
        mat: m,
    };
    let r_in = Ray::new(Vec3::new(-S, S, 0), Vec3::new(S, -S, 0));
    let mut s = Sampler::new(11);
    let (att, scattered) = m.scatter(&r_in, &rec, &mut s).expect("scatters");
    assert_eq!(att, Vec3::new(S / 2, S / 2, S / 2));
    let expected = reflect(unit_vector(Vec3::new(S, -S, 0)), Vec3::new(0, S, 0));
    assert_eq!(scattered.dir, expected);
    assert!(dot(scattered.dir, rec.normal) > 0);
}

#[test]
fn test_metal_absorbs_inward_reflection() {
    // A ray leaving along the normal mirrors to point into the surface
    // and is absorbed.
    let m = Material::Metal(Metal::new(Vec3::new(S / 2, S / 2, S / 2), 0));
    let rec = raytracer::hittable::HitRecord {
        p: Vec3::new(0, 0, 0),
        normal: Vec3::new(0, S, 0),
        t: S,
        front_face: true,
        mat: m,
    };
    let r_in = Ray::new(Vec3::new(0, -S, 0), Vec3::new(0, S, 0));
    let mut s = Sampler::new(11);
    assert!(m.scatter(&r_in, &rec, &mut s).is_none());
}

#[test]
fn test_dielectric_total_internal_reflection() {
    // Inside a glass sphere (index 1.5) at near-grazing incidence
    // Snell's law has no solution, so the scatter always resolves to
    // the exact reflection, whatever the random draw.
    let d = Material::Dielectric(Dielectric::new(98304));
    let rec = raytracer::hittable::HitRecord {
        p: Vec3::new(0, 0, 0),
        normal: Vec3::new(0, S, 0),
        t: S,
        front_face: false,
        mat: d,
    };
    let dir = Vec3::new(S, -655, 0);
    let r_in = Ray::new(Vec3::new(-S, 655, 0), dir);
    let expected = reflect(unit_vector(dir), Vec3::new(0, S, 0));
    for seed in 0..8u64 {
        let mut s = Sampler::new(seed);
        let (att, scattered) = d.scatter(&r_in, &rec, &mut s).expect("scatters");
        assert_eq!(att, Vec3::new(S, S, S));
        assert_eq!(scattered.dir, expected);
    }
}

#[test]
fn test_refract_straight_through() {
    // At normal incidence with matched indices the ray passes straight
    // through.
    let out = refract(Vec3::new(0, 0, -S), Vec3::new(0, 0, S), S);
    assert_eq!(out, Vec3::new(0, 0, -S));
}

#[test]
fn test_lambertian_always_scatters() {
    let m = gray();
    let rec = raytracer::hittable::HitRecord {
        p: Vec3::new(S, 0, 0),
        normal: Vec3::new(0, S, 0),
        t: S,
        front_face: true,
        mat: m,
    };
    let r_in = Ray::new(Vec3::new(S, S, 0), Vec3::new(0, -S, 0));
    let mut s = Sampler::new(3);
    let (att, scattered) = m.scatter(&r_in, &rec, &mut s).expect("always scatters");
    assert_eq!(att, Vec3::new(S / 2, S / 2, S / 2));
    assert_eq!(scattered.orig, Vec3::new(S, 0, 0));
}

#[test]
fn test_clamp_bounds() {
    assert_eq!(clamp(5, 0, 3), 3);
    assert_eq!(clamp(-5, 0, 3), 0);
    assert_eq!(clamp(2, 0, 3), 2);
}

#[test]
fn test_sampler_ranges() {
    let mut s = Sampler::new(1);
    for _ in 0..32 {
        let u = s.next_unit();
        assert!(0 <= u && u < S);
        let r = s.next_range(-S, S);
        assert!(-S <= r && r < S);
    }
}
