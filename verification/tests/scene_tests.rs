use tinytracer::scene::{
    cast_ray, scene_intersect, Intersection, Light, Material, Sphere, MAX_VIEW_DISTANCE,
};
use tinytracer::vec3::Vec3;

fn red() -> Material {
    Material::new(Vec3::new(1_000_000, 500_000, 500_000))
}

fn chartreuse() -> Material {
    Material::new(Vec3::new(500_000, 800_000, 300_000))
}

// A ray straight down the negative z axis, used by most scene tests.
fn forward() -> Vec3 {
    Vec3::new(0, 0, -1_000_000)
}

#[test]
fn hit_at_exact_radius_boundary() {
    // Sphere center 3.0 units off the line: miss-distance is exactly 3.0.
    let sphere = Sphere::new(Vec3::new(0, 3_000_000, -10_000_000), 3_000_000, red());
    let hit = sphere.ray_intersect(Vec3::zeros(), forward());
    let hit = hit.expect("distance equal to the radius must count as a hit");
    assert_eq!(hit.distance, 3_000_000);
    assert_eq!((hit.point.x, hit.point.y, hit.point.z), (0, 0, -10_000_000));
    assert_eq!(hit.material, red());
}

#[test]
fn miss_just_outside_radius() {
    // Same geometry, radius one step smaller: no hit.
    let sphere = Sphere::new(Vec3::new(0, 3_000_000, -10_000_000), 2_999_999, red());
    assert!(sphere.ray_intersect(Vec3::zeros(), forward()).is_none());
}

#[test]
fn hit_behind_origin_registers() {
    // The closest approach lies behind the ray origin: the line test still
    // reports a hit, a preserved trait of this renderer.
    let sphere = Sphere::new(Vec3::new(0, 1_000_000, 10_000_000), 2_000_000, red());
    let hit = sphere.ray_intersect(Vec3::zeros(), forward());
    let hit = hit.expect("a sphere behind the origin still meets the line test");
    assert_eq!(hit.distance, 1_000_000);
    assert_eq!((hit.point.x, hit.point.y, hit.point.z), (0, 0, 10_000_000));
}

#[test]
fn nearest_hit_wins() {
    // Miss-distances 5.0 and 10.0 along the same ray: the 5.0 sphere's
    // material must be reported, in either list order.
    let near = Sphere::new(Vec3::new(0, 5_000_000, -10_000_000), 6_000_000, red());
    let far = Sphere::new(Vec3::new(0, 10_000_000, -10_000_000), 11_000_000, chartreuse());
    for spheres in [vec![near, far], vec![far, near]] {
        let hit = scene_intersect(Vec3::zeros(), forward(), &spheres);
        let hit = hit.expect("both spheres intersect the ray");
        assert_eq!(hit.distance, 5_000_000);
        assert_eq!(hit.material, red());
    }
}

#[test]
fn equal_distances_keep_first_seen() {
    // Two spheres at the same miss-distance: the earlier one in the list
    // is retained, the stable scan order breaking the tie.
    let a = Sphere::new(Vec3::new(0, 5_000_000, -10_000_000), 6_000_000, red());
    let b = Sphere::new(Vec3::new(0, -5_000_000, -20_000_000), 6_000_000, chartreuse());
    let hit = scene_intersect(Vec3::zeros(), forward(), &vec![a, b]);
    assert_eq!(hit.expect("both spheres hit").material, red());
    let hit = scene_intersect(Vec3::zeros(), forward(), &vec![b, a]);
    assert_eq!(hit.expect("both spheres hit").material, chartreuse());
}

#[test]
fn cutoff_at_max_view_distance() {
    // A geometric hit at exactly 1000.0 is reported as no hit.
    let at_cutoff = Sphere::new(Vec3::new(0, 1_000_000_000, -10_000_000), 2_000_000_000, red());
    assert!(scene_intersect(Vec3::zeros(), forward(), &vec![at_cutoff]).is_none());
    // Inside the cutoff is still a hit; squaring and rooting the offset
    // rounds the miss-distance down by one more step.
    let inside = Sphere::new(Vec3::new(0, 999_999_999, -10_000_000), 2_000_000_000, red());
    let hit = scene_intersect(Vec3::zeros(), forward(), &vec![inside]);
    assert_eq!(hit.expect("inside the view distance").distance, 999_999_998);
    assert_eq!(MAX_VIEW_DISTANCE, 1_000_000_000);
}

#[test]
fn empty_scene_reports_no_hit() {
    assert!(scene_intersect(Vec3::zeros(), forward(), &Vec::new()).is_none());
}

#[test]
fn diffuse_contribution_exact() {
    // Hit at (0, 0, -10) with miss-distance 5.0; light at the origin, ten
    // units from the hit point, intensity 0.02: contribution 0.02 * 5 = 0.1.
    let light = Light::new(Vec3::zeros(), 20_000);
    let hit = Intersection::new(Vec3::new(0, 0, -10_000_000), 5_000_000, red());
    assert_eq!(light.diffuse_for_intersection(&hit), 100_000);
}

#[test]
fn light_at_hit_point_contributes_nothing() {
    let light = Light::new(Vec3::new(0, 0, -10_000_000), 20_000);
    let hit = Intersection::new(Vec3::new(0, 0, -10_000_000), 5_000_000, red());
    assert_eq!(light.diffuse_for_intersection(&hit), 0);
}

#[test]
fn zero_intensity_contributes_nothing() {
    let light = Light::new(Vec3::zeros(), 0);
    let hit = Intersection::new(Vec3::new(0, 0, -10_000_000), 5_000_000, red());
    assert_eq!(light.diffuse_for_intersection(&hit), 0);
}

#[test]
fn diffuse_adds_uniformly_to_all_channels() {
    // Two lights contributing 0.1 each add 0.2 to every material channel.
    let sphere = Sphere::new(Vec3::new(0, 5_000_000, -10_000_000), 6_000_000, chartreuse());
    let lights = vec![
        Light::new(Vec3::zeros(), 20_000),
        Light::new(Vec3::zeros(), 20_000),
    ];
    let color = cast_ray(Vec3::zeros(), forward(), &vec![sphere], &lights);
    let color = color.expect("the sphere is hit");
    assert_eq!((color.x, color.y, color.z), (700_000, 1_000_000, 500_000));
}

#[test]
fn cast_ray_background_when_nothing_hit() {
    let lights = vec![Light::new(Vec3::zeros(), 20_000)];
    assert!(cast_ray(Vec3::zeros(), forward(), &Vec::new(), &lights).is_none());
}

#[test]
fn accessors_return_fields() {
    let light = Light::new(Vec3::new(1, 2, 3), 42);
    let p = light.pos();
    assert_eq!((p.x, p.y, p.z), (1, 2, 3));
    let m = red();
    let d = m.diffuse();
    assert_eq!((d.x, d.y, d.z), (1_000_000, 500_000, 500_000));
}
