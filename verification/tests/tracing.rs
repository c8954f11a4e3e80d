//! Intersection, scattering, radiance, camera validation, pixel
//! encoding, and a small end-to-end render.

use rand::SeedableRng;

use raytracer::camera::Camera;
use raytracer::color::{ray_color, Color};
use raytracer::material::Material;
use raytracer::objects::{Object, ObjectList, Sphere};
use raytracer::point::Point;
use raytracer::ray::{Ray, T_FAR};
use raytracer::render::render;
use raytracer::vec3::{FreeVec3, UnitVec3};
use raytracer::SCALE;

fn rng(seed: u64) -> rand::rngs::StdRng {
    rand::rngs::StdRng::seed_from_u64(seed)
}

fn unit(x: i64, y: i64, z: i64) -> UnitVec3 {
    FreeVec3::new(x, y, z).to_unit()
}

fn grey() -> Material {
    Material::Lambertian(Color::new(500_000_000, 500_000_000, 500_000_000))
}

fn raw_len_sq(x: i64, y: i64, z: i64) -> i128 {
    (x as i128) * (x as i128) + (y as i128) * (y as i128) + (z as i128) * (z as i128)
}

/// Every produced unit vector has squared length within tolerance of one.
#[test]
fn unit_vector_invariant() {
    let one_sq = (SCALE as i128) * (SCALE as i128);
    let tol = 32 * (SCALE as i128);
    let mut r = rng(11);
    for _ in 0..200 {
        let u = UnitVec3::random_unit_vector(&mut r);
        let q = raw_len_sq(u.x(), u.y(), u.z());
        assert!((one_sq - q).abs() <= tol);
    }
    let v = unit(3 * SCALE, -4 * SCALE, 12 * SCALE);
    let q = raw_len_sq(v.x(), v.y(), v.z());
    assert!((one_sq - q).abs() <= tol);
}

/// A sampled disk point lies strictly inside the unit disk.
#[test]
fn unit_disk_sample() {
    let mut r = rng(12);
    for _ in 0..200 {
        let d = FreeVec3::random_in_unit_disk(&mut r);
        assert_eq!(d.z, 0);
        assert!(raw_len_sq(d.x, d.y, 0) < (SCALE as i128) * (SCALE as i128));
    }
}

/// A head-on ray against a sphere yields exactly one accepted hit at
/// t = 0.5 with the outward normal (0, 0, 1).
#[test]
fn sphere_intersection_determinism() {
    let ray = Ray::new(&Point::new(0, 0, 0), &unit(0, 0, -SCALE));
    let sphere = Sphere::new(Point::new(0, 0, -SCALE), SCALE / 2, grey());
    let hit = sphere.hit(&ray, 0, T_FAR).expect("head-on ray must hit");
    assert_eq!(hit.t, SCALE / 2);
    assert_eq!(hit.p, Point::new(0, 0, -SCALE / 2));
    assert_eq!((hit.normal.x(), hit.normal.y(), hit.normal.z()), (0, 0, SCALE));
    assert!(hit.front_face);
}

/// A sphere of zero or negative radius never intersects.
#[test]
fn degenerate_sphere_never_hits() {
    let ray = Ray::new(&Point::new(0, 0, 0), &unit(0, 0, -SCALE));
    let sphere = Sphere::new(Point::new(0, 0, -SCALE), 0, grey());
    assert!(sphere.hit(&ray, 0, T_FAR).is_none());
    let inverted = Sphere::new(Point::new(0, 0, -SCALE), -SCALE / 2, grey());
    assert!(inverted.hit(&ray, 0, T_FAR).is_none());
}

/// Of two overlapping spheres along one ray, the list returns the hit
/// with the smaller t.
#[test]
fn nearest_hit_selection() {
    let ray = Ray::new(&Point::new(0, 0, 0), &unit(0, 0, -SCALE));
    let far = Sphere::new(Point::new(0, 0, -2 * SCALE), SCALE / 2, grey());
    let near = Sphere::new(
        Point::new(0, 0, -SCALE),
        SCALE / 4,
        Material::Dielectric(1_500_000_000),
    );
    let mut world = ObjectList::new();
    world.add(Object::Sphere(far));
    world.add(Object::Sphere(near));
    let hit = world.hit(&ray, 0, T_FAR).expect("both spheres lie on the ray");
    assert_eq!(hit.t, 750_000_000);
    assert_eq!(hit.material, Material::Dielectric(1_500_000_000));

    let far_alone = far.hit(&ray, 0, T_FAR).expect("far sphere lies on the ray");
    assert_eq!(far_alone.t, 1_500_000_000);
    assert!(hit.t < far_alone.t);
}

/// A zero-fuzz metal sphere hit head-on reflects to exactly the mirror
/// direction v - 2 (v . n) n.
#[test]
fn metal_mirror_reflection() {
    let albedo = Color::new(800_000_000, 700_000_000, 600_000_000);
    let ray = Ray::new(&Point::new(0, 0, 0), &unit(0, 0, -SCALE));
    let sphere = Sphere::new(
        Point::new(0, 0, -SCALE),
        SCALE / 2,
        Material::Metal { color: albedo, fuzziness: 0 },
    );
    let hit = sphere.hit(&ray, 0, T_FAR).expect("head-on ray must hit");
    let mut r = rng(13);
    let (attenuation, scattered) =
        raytracer::material::scatter(&ray, &hit, &mut r).expect("mirror reflection scatters");
    assert_eq!(attenuation, albedo);
    assert_eq!(scattered.origin, Point::new(0, 0, -SCALE / 2));
    assert_eq!(
        (scattered.direction.x(), scattered.direction.y(), scattered.direction.z()),
        (0, 0, SCALE)
    );
}

/// Dielectric attenuation is always pure white, whichever branch is
/// taken.
#[test]
fn dielectric_energy_conservation() {
    let ray = Ray::new(&Point::new(0, 0, 0), &unit(0, 0, -SCALE));
    let sphere = Sphere::new(
        Point::new(0, 0, -SCALE),
        SCALE / 2,
        Material::Dielectric(1_500_000_000),
    );
    let hit = sphere.hit(&ray, 0, T_FAR).expect("head-on ray must hit");
    let mut r = rng(14);
    let mut reflected = 0;
    let mut refracted = 0;
    for _ in 0..200 {
        let (attenuation, scattered) =
            raytracer::material::scatter(&ray, &hit, &mut r).expect("glass never absorbs");
        assert_eq!(attenuation, Color::new(SCALE, SCALE, SCALE));
        // Head on, the refracted ray passes straight through and the
        // reflected ray bounces straight back, both exactly.
        assert_eq!((scattered.direction.x(), scattered.direction.y()), (0, 0));
        match scattered.direction.z() {
            z if z == SCALE => reflected += 1,
            z if z == -SCALE => refracted += 1,
            z => panic!("unexpected scatter direction {z}"),
        }
    }
    // Schlick reflectance at normal incidence for index 1.5 is four
    // percent, so both branches occur over two hundred draws.
    assert!(refracted > reflected);
    assert!(reflected + refracted == 200);
}

/// An exhausted depth budget yields black for any ray and world.
#[test]
fn depth_cutoff() {
    let mut world = ObjectList::new();
    world.add(Object::Sphere(Sphere::new(Point::new(0, 0, -SCALE), SCALE / 2, grey())));
    let mut r = rng(15);
    let ray = Ray::new(&Point::new(0, 0, 0), &unit(0, 0, -SCALE));
    let c = ray_color(&ray, &world, 0, &mut r);
    assert_eq!(c, Color::new(0, 0, 0));
    let up = Ray::new(&Point::new(0, 0, 0), &unit(0, SCALE, 0));
    assert_eq!(ray_color(&up, &world, -3, &mut r), Color::new(0, 0, 0));
}

/// The background gradient is white straight down and sky blue straight
/// up.
#[test]
fn background_gradient_boundary() {
    let world = ObjectList::new();
    let mut r = rng(16);
    let down = Ray::new(&Point::new(0, 0, 0), &unit(0, -SCALE, 0));
    assert_eq!(ray_color(&down, &world, 50, &mut r), Color::new(SCALE, SCALE, SCALE));
    let up = Ray::new(&Point::new(0, 0, 0), &unit(0, SCALE, 0));
    assert_eq!(
        ray_color(&up, &world, 50, &mut r),
        Color::new(500_000_000, 700_000_000, SCALE)
    );
}

/// A linear component of exactly one with one sample encodes to byte
/// 255, never 256; a zero component encodes to 0; a quarter encodes
/// through the square root to half of the clamped range.
#[test]
fn pixel_encoding_boundary() {
    assert_eq!(Color::new(SCALE, SCALE, SCALE).write(1), (255, 255, 255));
    assert_eq!(Color::new(0, 0, 0).write(1), (0, 0, 0));
    assert_eq!(Color::new(250_000_000, 0, SCALE).write(1), (128, 0, 255));
    // Four accumulated samples of one average back to one.
    assert_eq!(Color::new(4 * SCALE, 4 * SCALE, 4 * SCALE).write(4), (255, 255, 255));
}

/// Malformed camera parameters are rejected at construction; sound ones
/// are accepted.
#[test]
fn camera_validation() {
    let lookfrom = Point::new(0, 0, 0);
    let lookat = FreeVec3::new(0, 0, -SCALE);
    let vup = FreeVec3::new(0, SCALE, 0);
    assert!(Camera::new(lookfrom, lookat, vup, SCALE, 500_000_000, 0, SCALE).is_some());
    // Zero or negative field of view.
    assert!(Camera::new(lookfrom, lookat, vup, 0, 500_000_000, 0, SCALE).is_none());
    assert!(Camera::new(lookfrom, lookat, vup, -SCALE, 500_000_000, 0, SCALE).is_none());
    // Nonpositive aspect ratio or focus distance.
    assert!(Camera::new(lookfrom, lookat, vup, SCALE, 0, 0, SCALE).is_none());
    assert!(Camera::new(lookfrom, lookat, vup, SCALE, 500_000_000, 0, 0).is_none());
    // Negative aperture.
    assert!(Camera::new(lookfrom, lookat, vup, SCALE, 500_000_000, -1, SCALE).is_none());
    // Degenerate look direction.
    assert!(Camera::new(lookfrom, FreeVec3::new(0, 0, 0), vup, SCALE, 500_000_000, 0, SCALE)
        .is_none());
    // Up vector parallel to the look direction.
    assert!(Camera::new(lookfrom, lookat, FreeVec3::new(0, 0, SCALE), SCALE, 500_000_000, 0,
        SCALE).is_none());
}

/// With a closed aperture the generated rays leave exactly the camera
/// origin, whatever the lens sampler draws.
#[test]
fn pinhole_camera_ray_origin() {
    let lookfrom = Point::new(3 * SCALE, 2 * SCALE, SCALE);
    let camera = Camera::new(
        lookfrom,
        FreeVec3::new(0, 0, 0),
        FreeVec3::new(0, SCALE, 0),
        SCALE,
        2 * SCALE,
        0,
        10 * SCALE,
    )
    .expect("camera parameters are sound");
    let mut r = rng(17);
    for _ in 0..20 {
        let ray = camera.ray(SCALE / 2, SCALE / 2, &mut r);
        assert_eq!(ray.origin, lookfrom);
    }
}

/// One diffuse sphere over a diffuse ground, rendered at one column by
/// two rows with one sample and depth one: the buffer has the expected
/// shape, the run is deterministic for a fixed seed, the top pixel
/// shades toward sky blue, and a zero depth budget blacks it all out.
#[test]
fn end_to_end_scene() {
    let mut world = ObjectList::new();
    world.add(Object::Sphere(Sphere::new(Point::new(0, 0, -SCALE), SCALE / 2, grey())));
    world.add(Object::Sphere(Sphere::new(
        Point::new(0, -100_500_000_000, -SCALE),
        100 * SCALE,
        grey(),
    )));
    let camera = Camera::new(
        Point::new(0, 0, 0),
        FreeVec3::new(0, 0, -SCALE),
        FreeVec3::new(0, SCALE, 0),
        SCALE,
        500_000_000,
        0,
        SCALE,
    )
    .expect("camera parameters are sound");
    let seed: u64 = 7;
    let frame = render(&world, &camera, 1, 2, 1, 1, seed);
    assert_eq!(frame.len(), 6);
    // Deterministic for a fixed seed.
    assert_eq!(frame, render(&world, &camera, 1, 2, 1, 1, seed));
    // The top pixel is background: the gradient keeps red below green
    // below blue.
    assert!(frame[0] <= frame[1] && frame[1] <= frame[2]);
    assert!(frame[2] > 0);
    // A zero depth budget yields an all-black image.
    let black = render(&world, &camera, 1, 2, 1, 0, seed);
    assert_eq!(black, vec![0u8; 6]);
}
