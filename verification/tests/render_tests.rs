use tinytracer::render::{background, pixel_ray_direction, render, vec_to_rgb};
use tinytracer::scene::{Light, Material, Sphere};
use tinytracer::vec3::Vec3;

// tan(fov/2) for the reference field of view of 60 degrees.
const TAN_30_DEG: i64 = 577_350;

#[test]
fn channel_clamp_and_scale() {
    // 1.4 clamps to 1.0 -> 255; -0.2 clamps to 0.0 -> 0; 0.5 -> 127.
    let rgb = vec_to_rgb(Vec3::new(1_400_000, -200_000, 500_000));
    assert_eq!(rgb, (255, 0, 127));
    let exact = vec_to_rgb(Vec3::new(1_000_000, 0, 800_000));
    assert_eq!(exact, (255, 0, 204));
}

#[test]
fn background_gradient_values() {
    let corner = background(0, 0, 256, 256);
    assert_eq!((corner.x, corner.y, corner.z), (0, 0, 0));
    let mid = background(128, 64, 256, 256);
    // (64/256, 128/256, 192/512) == (0.25, 0.5, 0.375)
    assert_eq!((mid.x, mid.y, mid.z), (250_000, 500_000, 375_000));
}

#[test]
fn camera_direction_is_unit_and_exact() {
    // Center-symmetric 2x2 image with tan(fov/2) = 1: the first pixel's
    // projection vector is (-0.5, 0.5, -1), normalized.
    let d = pixel_ray_direction(0, 0, 2, 2, 1_000_000);
    assert_eq!((d.x, d.y, d.z), (-408_248, 408_248, -816_497));
    // Mirror pixel gets the mirrored direction.
    let m = pixel_ray_direction(1, 1, 2, 2, 1_000_000);
    assert_eq!((m.x, m.y, m.z), (408_248, -408_248, -816_497));
}

#[test]
fn background_determinism_at_origin_pixel() {
    // No spheres: every pixel is background; at (0, 0) of a 256x256 frame
    // the gradient is (0, 0, 0), so the first byte triple is (0, 0, 0).
    let pixels = render(&Vec::new(), &Vec::new(), 256, 256, TAN_30_DEG);
    assert_eq!(pixels.len(), 3 * 256 * 256);
    assert_eq!(&pixels[0..3], &[0, 0, 0]);
    // Center pixel: (128/256, 128/256, 256/512) == (0.5, 0.5, 0.5).
    let n = 3 * (128 * 256 + 128);
    assert_eq!(&pixels[n..n + 3], &[127, 127, 127]);
}

#[test]
fn render_hit_fills_material_color() {
    // A sphere centered at the camera origin is hit by every ray with
    // miss-distance zero, so every pixel shows the bare material color.
    let material = Material::new(Vec3::new(500_000, 800_000, 300_000));
    let spheres = vec![Sphere::new(Vec3::zeros(), 1_000_000, material)];
    let lights = vec![Light::new(Vec3::new(-20_000_000, 20_000_000, 20_000_000), 200_000)];
    let pixels = render(&spheres, &lights, 2, 2, 1_000_000);
    assert_eq!(pixels.len(), 12);
    for p in 0..4 {
        assert_eq!(&pixels[3 * p..3 * p + 3], &[127, 204, 76]);
    }
}

#[test]
fn rendering_twice_is_byte_identical() {
    let material = Material::new(Vec3::new(1_000_000, 500_000, 500_000));
    let spheres = vec![
        Sphere::new(Vec3::new(2_000_000, 1_000_000, -16_000_000), 5_000_000, material),
        Sphere::new(Vec3::new(-3_000_000, 0, -16_000_000), 2_000_000, material),
    ];
    let lights = vec![Light::new(Vec3::new(-20_000_000, 20_000_000, 20_000_000), 200_000)];
    let first = render(&spheres, &lights, 32, 32, TAN_30_DEG);
    let second = render(&spheres, &lights, 32, 32, TAN_30_DEG);
    assert_eq!(first.len(), 3 * 32 * 32);
    assert_eq!(first, second);
}
