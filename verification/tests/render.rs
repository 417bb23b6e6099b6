use raytracer::background_color;
use raytracer::camera::Camera;
use raytracer::color::write_color;
use raytracer::common::{Sampler, FP_ONE};
use raytracer::hittable::Hittable;
use raytracer::hittable_list::HittableList;
use raytracer::material::{Lambertian, Material};
use raytracer::ray::Ray;
use raytracer::ray_color;
use raytracer::render;
use raytracer::scene_all_objects;
use raytracer::scene_all_objects_alt_camera;
use raytracer::scene_plane_cube;
use raytracer::scene_sphere;
use raytracer::sphere::Sphere;
use raytracer::vec3::{unit_vector, Vec3};

const S: i128 = FP_ONE;

fn single_sphere_world() -> HittableList {
    // The single-sphere scene: center (0,0,-1), radius one half,
    // Lambertian albedo one half.
    let mat = Material::Lambertian(Lambertian::new(Vec3::new(S / 2, S / 2, S / 2)));
    let mut world = HittableList::new();
    world.add(Hittable::Sphere(Sphere::new(Vec3::new(0, 0, -S), S / 2, mat)));
    world
}

#[test]
fn test_center_ray_darker_than_background() {
    // With a bounce budget of one, a ray that strikes the sphere
    // scatters once and then runs out of budget: black, strictly
    // darker than any background pixel.
    let world = single_sphere_world();
    let mut s = Sampler::new(5);
    let center = Ray::new(Vec3::new(0, 0, 0), Vec3::new(0, 0, -S));
    let hit_color = ray_color(&center, &world, 1, &mut s);
    assert_eq!(hit_color, Vec3::new(0, 0, 0));

    let corner_dir = Vec3::new(S, S, -S);
    let corner = Ray::new(Vec3::new(0, 0, 0), corner_dir);
    let corner_color = ray_color(&corner, &world, 1, &mut s);
    assert!(corner_color.x > hit_color.x);
    assert!(corner_color.y > hit_color.y);
    assert!(corner_color.z > hit_color.z);
}

#[test]
fn test_miss_reproduces_background_gradient() {
    // A ray that misses everything returns exactly the white-to-blue
    // gradient of its unit direction.
    let world = single_sphere_world();
    let mut s = Sampler::new(5);
    let corner_dir = Vec3::new(S, S, -S);
    let corner = Ray::new(Vec3::new(0, 0, 0), corner_dir);
    let got = ray_color(&corner, &world, 4, &mut s);
    assert_eq!(got, background_color(unit_vector(corner_dir)));

    // Straight up blends all the way to sky blue; straight down stays
    // white.
    let up = Ray::new(Vec3::new(0, 0, 0), Vec3::new(0, S, 0));
    assert_eq!(ray_color(&up, &world, 4, &mut s), Vec3::new(32768, 45875, 65536));
    let down = Ray::new(Vec3::new(0, 0, 0), Vec3::new(0, -S, 0));
    assert_eq!(ray_color(&down, &world, 4, &mut s), Vec3::new(S, S, S));
}

fn test_camera() -> Camera {
    Camera::new(
        Vec3::new(0, 0, 0),
        Vec3::new(0, 0, -S),
        Vec3::new(0, S, 0),
        S,     // tangent of half a 90-degree field of view
        S,     // square aspect
        0,     // pinhole
        S,     // focus at unit distance
    )
    .expect("camera")
}

#[test]
fn test_render_dimensions_and_raster_length() {
    let world = single_sphere_world();
    let cam = test_camera();
    let mut s = Sampler::new(9);
    let pixels = render(&world, &cam, 4, 3, 2, 2, &mut s);
    assert_eq!(pixels.len(), 12);
}

#[test]
fn test_render_deterministic_with_fixed_seed() {
    // Rendering the same scene, camera and seed twice is bit-identical.
    let world = single_sphere_world();
    let cam = test_camera();
    let mut s1 = Sampler::new(42);
    let a = render(&world, &cam, 4, 4, 2, 3, &mut s1);
    let mut s2 = Sampler::new(42);
    let b = render(&world, &cam, 4, 4, 2, 3, &mut s2);
    assert_eq!(a, b);
}

#[test]
fn test_camera_rejects_degenerate_look_direction() {
    let eye = Vec3::new(0, S, 0);
    let cam = Camera::new(eye, eye, Vec3::new(0, S, 0), S, S, 0, S);
    assert!(cam.is_none());
}

#[test]
fn test_camera_rejects_parallel_up() {
    let cam = Camera::new(
        Vec3::new(0, 0, 0),
        Vec3::new(0, -S, 0),
        Vec3::new(0, S, 0),
        S,
        S,
        0,
        S,
    );
    assert!(cam.is_none());
}

#[test]
fn test_write_color_exact_values() {
    // Full channel clamps to 0.999 and quantizes to 255; a quarter
    // gamma-corrects to one half (127 after quantization); zero stays
    // zero.
    let rgb = write_color(Vec3::new(S, S / 4, 0), 1);
    assert_eq!(rgb, (255, 127, 0));
}

#[test]
fn test_write_color_averages_samples() {
    // Two samples summing to one full intensity average to one half,
    // whose square root is about 0.7071.
    let rgb = write_color(Vec3::new(S, S, S), 2);
    let expected = ((46340 * 255999i128) / 65536000) as u8;
    assert_eq!(rgb, (expected, expected, expected));
}

#[test]
fn test_scenes_build() {
    assert_eq!(scene_sphere().objects.len(), 2);
    assert_eq!(scene_plane_cube().objects.len(), 7);
    assert_eq!(scene_all_objects().objects.len(), 9);
    let (world, lookfrom, lookat) = scene_all_objects_alt_camera();
    assert_eq!(world.objects.len(), 9);
    assert_eq!(lookfrom, Vec3::new(0, 5 * S, 10 * S));
    assert_eq!(lookat, Vec3::new(0, S, S));
}
