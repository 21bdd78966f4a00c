//! Scene objects and per-ray evaluation.
//!
//! A scene is a list of [`Sphere`]s and a list of [`Light`]s. For one ray,
//! [`Sphere::ray_intersect`] tests the ray's line against one sphere,
//! [`scene_intersect`] keeps the nearest hit within the view distance, and
//! [`cast_ray`] shades that hit by summing every light's diffuse
//! contribution and adding it uniformly to the material color.
//!
//! The intersection test is a closest-approach test on the infinite line
//! through the ray origin, and a hit's `distance` is the perpendicular
//! miss-distance from the line to the sphere center, not the distance to
//! the surface. Both are deliberate traits of this renderer's model and
//! are preserved exactly by the contracts below.

use crate::fixed::{
    fmul, fp_mul, is_sqrt_floor, lemma_sqrt_floor_exists, lemma_tdiv_bound, SCALE,
};
use crate::vec3::{
    bounded3, lemma_mul_mag_bound, lemma_sdot_bound, lemma_sdot_self_nonneg, lemma_square_bound,
    sdot, sminus, snorm, splus, sscale, sunit, Vec3,
};
use vstd::arithmetic::div_mod::*;
use vstd::arithmetic::mul::*;
use vstd::prelude::*;

verus! {

/// Largest component magnitude allowed for scene geometry: centers, light
/// positions, radii, intensities and material colors. Fifty thousand whole
/// units leaves every intermediate of the pipeline inside an `i64`.
pub const COORD_MAX: i64 = 50_000_000_000;

/// A hit whose `distance` reaches this bound is treated as no hit: one
/// thousand whole units, the fixed maximum view distance.
pub const MAX_VIEW_DISTANCE: i64 = 1_000_000_000;

/// Largest number of lights one shading pass accepts.
pub const LIGHTS_MAX: usize = 1000;

/// A point light: a position and a scalar intensity.
#[derive(Clone, Copy, Debug, PartialEq)]
pub struct Light {
    pub position: Vec3,
    pub intensity: i64,
}

/// A diffuse surface material: one RGB reflectance color.
#[derive(Clone, Copy, Debug, PartialEq)]
pub struct Material {
    pub diffuse_color: Vec3,
}

/// A sphere: a center, a positive radius and its material.
#[derive(Clone, Copy, Debug)]
pub struct Sphere {
    pub center: Vec3,
    pub radius: i64,
    pub material: Material,
}

/// The record of one ray-sphere hit: the closest point of the ray's line
/// to the sphere center, the perpendicular miss-distance, and a copy of
/// the sphere's material.
#[derive(Clone, Copy, Debug)]
pub struct Intersection {
    pub point: Vec3,
    pub distance: i64,
    pub material: Material,
}

impl Material {
    /// The color components stay within the scene coordinate bound.
    pub open spec fn wf(self) -> bool {
        bounded3(self.diffuse_color@, COORD_MAX as int)
    }

    /// Builds a material from its diffuse reflectance color.
    pub fn new(diffuse_color: Vec3) -> (r: Material)
        requires
            bounded3(diffuse_color@, COORD_MAX as int),
        ensures
            r.diffuse_color == diffuse_color,
            r.wf(),
    {
        Material { diffuse_color }
    }

    /// The diffuse reflectance color.
    pub fn diffuse(&self) -> (r: Vec3)
        ensures
            r == self.diffuse_color,
    {
        self.diffuse_color
    }
}

impl Light {
    /// Position and intensity stay within the scene coordinate bound, and
    /// the intensity is non-negative: no light contributes negatively.
    pub open spec fn wf(self) -> bool {
        bounded3(self.position@, COORD_MAX as int) && 0 <= self.intensity <= COORD_MAX
    }

    /// Builds a light from its position and intensity.
    pub fn new(position: Vec3, intensity: i64) -> (r: Light)
        requires
            bounded3(position@, COORD_MAX as int),
            0 <= intensity <= COORD_MAX,
        ensures
            r.position == position,
            r.intensity == intensity,
            r.wf(),
    {
        Light { position, intensity }
    }

    /// The light's position.
    pub fn pos(&self) -> (r: Vec3)
        ensures
            r == self.position,
    {
        self.position
    }

    /// This light's diffuse contribution to a hit: its intensity times the
    /// length of the unit direction toward the light scaled by the hit's
    /// miss-distance, clamped at zero from below. A light that coincides
    /// with the hit point has no defined direction and contributes nothing.
    pub fn diffuse_for_intersection(&self, intersection: &Intersection) -> (r: i64)
        requires
            self.wf(),
            bounded3(intersection.point@, 1_300_000_000_000),
            0 <= intersection.distance <= MAX_VIEW_DISTANCE,
        ensures
            r == diffuse_contribution(
                *self,
                intersection.point@,
                intersection.distance as int,
            ),
            0 <= r <= 200_000_000_000_000,
    {
        let to_light: Vec3 = self.pos().minus(intersection.point);
        proof {
            lemma_square_bound(to_light.x as int, 1_350_000_000_000);
            lemma_square_bound(to_light.y as int, 1_350_000_000_000);
            lemma_square_bound(to_light.z as int, 1_350_000_000_000);
        }
        let n: i64 = to_light.norm();
        if n == 0 {
            0
        } else {
            let direction: Vec3 = to_light.normalize();
            proof {
                lemma_mul_mag_bound(
                    direction.x as int,
                    intersection.distance as int,
                    2_000_000,
                    1_000_000_000,
                );
                lemma_mul_mag_bound(
                    direction.y as int,
                    intersection.distance as int,
                    2_000_000,
                    1_000_000_000,
                );
                lemma_mul_mag_bound(
                    direction.z as int,
                    intersection.distance as int,
                    2_000_000,
                    1_000_000_000,
                );
            }
            let scaled: Vec3 = direction.scale(intersection.distance);
            proof {
                lemma_tdiv_bound(
                    (direction.x as int) * (intersection.distance as int),
                    SCALE as int,
                    2_000_000_000_000_000,
                );
                lemma_tdiv_bound(
                    (direction.y as int) * (intersection.distance as int),
                    SCALE as int,
                    2_000_000_000_000_000,
                );
                lemma_tdiv_bound(
                    (direction.z as int) * (intersection.distance as int),
                    SCALE as int,
                    2_000_000_000_000_000,
                );
                lemma_square_bound(scaled.x as int, 2_000_000_000);
                lemma_square_bound(scaled.y as int, 2_000_000_000);
                lemma_square_bound(scaled.z as int, 2_000_000_000);
            }
            let m: i64 = scaled.norm();
            proof {
                let q = sdot(scaled@, scaled@);
                lemma_sdot_bound(scaled@, scaled@, 2_000_000_000, 2_000_000_000);
                lemma_sdot_self_nonneg(scaled@);
                lemma_sqrt_floor_exists((q * (SCALE as int)) as nat);
                assert(m <= 3_500_000_000) by (nonlinear_arith)
                    requires
                        is_sqrt_floor(m as int, q * (SCALE as int)),
                        0 <= q <= 12_000_000_000_000,
                ;
                lemma_mul_mag_bound(self.intensity as int, m as int, COORD_MAX as int, 3_500_000_000);
            }
            let positive_part: i64 = if m > 0 {
                m
            } else {
                0
            };
            let r: i64 = fp_mul(self.intensity, positive_part);
            proof {
                lemma_mul_nonnegative(self.intensity as int, positive_part as int);
                lemma_tdiv_bound(
                    (self.intensity as int) * (positive_part as int),
                    SCALE as int,
                    175_000_000_000_000_000_000,
                );
            }
            r
        }
    }
}

/// Specification of one light's diffuse contribution to a hit at `point`
/// with miss-distance `dist` (see [`Light::diffuse_for_intersection`]).
pub open spec fn diffuse_contribution(l: Light, point: (int, int, int), dist: int) -> int {
    let to_light = sminus(l.position@, point);
    if snorm(to_light) == 0 {
        0
    } else {
        let m = snorm(sscale(sunit(to_light), dist));
        fmul(
            l.intensity as int,
            if 0 < m {
                m
            } else {
                0
            },
        )
    }
}

/// Sum of the diffuse contributions of a list of lights, in list order.
pub open spec fn diffuse_total(lights: Seq<Light>, point: (int, int, int), dist: int) -> int
    decreases lights.len(),
{
    if lights.len() == 0 {
        0
    } else {
        diffuse_total(lights.drop_last(), point, dist) + diffuse_contribution(
            lights.last(),
            point,
            dist,
        )
    }
}

impl Sphere {
    /// Geometry stays within the scene coordinate bound and the radius is
    /// positive.
    pub open spec fn wf(self) -> bool {
        bounded3(self.center@, COORD_MAX as int) && 0 < self.radius <= COORD_MAX
            && self.material.wf()
    }

    /// Builds a sphere from its center, radius and material.
    pub fn new(center: Vec3, radius: i64, material: Material) -> (r: Sphere)
        requires
            bounded3(center@, COORD_MAX as int),
            0 < radius <= COORD_MAX,
            material.wf(),
        ensures
            r.center == center,
            r.radius == radius,
            r.material == material,
            r.wf(),
    {
        Sphere { center, radius, material }
    }

    /// Tests the ray's line against this sphere by the closest-approach
    /// test: the line hits exactly when its perpendicular miss-distance to
    /// the center is at most the radius. The returned record carries the
    /// closest point and that miss-distance. The sign of the projection is
    /// not constrained, so a sphere behind the ray origin can register.
    pub fn ray_intersect(&self, origin: Vec3, direction: Vec3) -> (r: Option<Intersection>)
        requires
            self.wf(),
            bounded3(origin@, COORD_MAX as int),
            bounded3(direction@, 1_400_000_000_000),
            1 <= snorm(direction@),
        ensures
            match r {
                Some(h) => sphere_hit(*self, origin@, direction@) && h.distance
                    == ray_miss_distance(*self, origin@, direction@) && h.point@
                    == ray_closest_point(*self, origin@, direction@) && h.material == self.material
                    && 0 <= h.distance <= 3_100_000_000_000 && bounded3(h.point@, 1_300_000_000_000),
                None => !sphere_hit(*self, origin@, direction@),
            },
    {
        let dir_normalized: Vec3 = direction.normalize();
        let start_to_center: Vec3 = self.center.minus(origin);
        proof {
            lemma_mul_mag_bound(
                start_to_center.x as int,
                dir_normalized.x as int,
                100_000_000_000,
                2_000_000,
            );
            lemma_mul_mag_bound(
                start_to_center.y as int,
                dir_normalized.y as int,
                100_000_000_000,
                2_000_000,
            );
            lemma_mul_mag_bound(
                start_to_center.z as int,
                dir_normalized.z as int,
                100_000_000_000,
                2_000_000,
            );
        }
        let projection: i64 = start_to_center.dot(dir_normalized);
        proof {
            lemma_sdot_bound(start_to_center@, dir_normalized@, 100_000_000_000, 2_000_000);
            lemma_mul_mag_bound(
                dir_normalized.x as int,
                projection as int,
                2_000_000,
                600_000_000_000,
            );
            lemma_mul_mag_bound(
                dir_normalized.y as int,
                projection as int,
                2_000_000,
                600_000_000_000,
            );
            lemma_mul_mag_bound(
                dir_normalized.z as int,
                projection as int,
                2_000_000,
                600_000_000_000,
            );
        }
        let step: Vec3 = dir_normalized.scale(projection);
        proof {
            lemma_tdiv_bound(
                (dir_normalized.x as int) * (projection as int),
                SCALE as int,
                1_200_000_000_000_000_000,
            );
            lemma_tdiv_bound(
                (dir_normalized.y as int) * (projection as int),
                SCALE as int,
                1_200_000_000_000_000_000,
            );
            lemma_tdiv_bound(
                (dir_normalized.z as int) * (projection as int),
                SCALE as int,
                1_200_000_000_000_000_000,
            );
        }
        let closest_point: Vec3 = origin.plus(step);
        let offset: Vec3 = closest_point.minus(self.center);
        proof {
            lemma_square_bound(offset.x as int, 1_300_000_000_000);
            lemma_square_bound(offset.y as int, 1_300_000_000_000);
            lemma_square_bound(offset.z as int, 1_300_000_000_000);
        }
        let distance: i64 = offset.norm();
        if distance <= self.radius {
            Some(Intersection::new(closest_point, distance, self.material))
        } else {
            None
        }
    }
}

impl Intersection {
    /// Builds a hit record from its closest point, miss-distance and the
    /// hit object's material.
    pub fn new(point: Vec3, distance: i64, material: Material) -> (r: Intersection)
        ensures
            r.point == point,
            r.distance == distance,
            r.material == material,
    {
        Intersection { point, distance, material }
    }
}

/// The closest point of the ray's line to the sphere center: the origin
/// plus the unit direction scaled by the projection of the center offset.
pub open spec fn ray_closest_point(s: Sphere, origin: (int, int, int), dir: (int, int, int)) -> (
    int,
    int,
    int,
) {
    let d = sunit(dir);
    let stc = sminus(s.center@, origin);
    let proj = sdot(stc, d);
    splus(origin, sscale(d, proj))
}

/// The perpendicular miss-distance from the ray's line to the sphere
/// center: the length of the offset from the closest point to the center.
pub open spec fn ray_miss_distance(s: Sphere, origin: (int, int, int), dir: (int, int, int)) -> int {
    snorm(sminus(ray_closest_point(s, origin, dir), s.center@))
}

/// The ray's line passes within the sphere's radius of its center.
pub open spec fn sphere_hit(s: Sphere, origin: (int, int, int), dir: (int, int, int)) -> bool {
    ray_miss_distance(s, origin, dir) <= s.radius
}

/// The index of the sphere a left-to-right nearest-hit scan retains: a new
/// hit replaces the current one only when strictly nearer, so the earliest
/// of equally near spheres wins.
pub open spec fn nearest_index(spheres: Seq<Sphere>, o: (int, int, int), d: (int, int, int)) -> Option<
    int,
>
    decreases spheres.len(),
{
    if spheres.len() == 0 {
        None
    } else {
        let prev = nearest_index(spheres.drop_last(), o, d);
        let j = spheres.len() - 1;
        if sphere_hit(spheres[j], o, d) {
            match prev {
                Some(p) => if ray_miss_distance(spheres[j], o, d) < ray_miss_distance(
                    spheres[p],
                    o,
                    d,
                ) {
                    Some(j)
                } else {
                    Some(p)
                },
                None => Some(j),
            }
        } else {
            prev
        }
    }
}

/// The sphere the whole scene query reports: the nearest hit, and only if
/// its miss-distance is strictly inside the maximum view distance.
pub open spec fn scene_hit_index(spheres: Seq<Sphere>, o: (int, int, int), d: (int, int, int)) -> Option<
    int,
>
{
    match nearest_index(spheres, o, d) {
        Some(j) => if ray_miss_distance(spheres[j], o, d) < MAX_VIEW_DISTANCE as int {
            Some(j)
        } else {
            None
        },
        None => None,
    }
}

/// The retained sphere hits, and no hit sphere is strictly nearer; when
/// none is retained, no sphere hits at all.
pub proof fn lemma_nearest_index_minimal(
    spheres: Seq<Sphere>,
    o: (int, int, int),
    d: (int, int, int),
)
    ensures
        match nearest_index(spheres, o, d) {
            Some(j) => 0 <= j < spheres.len() && sphere_hit(spheres[j], o, d) && forall|k: int|
                0 <= k < spheres.len() && sphere_hit(#[trigger] spheres[k], o, d)
                    ==> ray_miss_distance(spheres[j], o, d) <= ray_miss_distance(spheres[k], o, d),
            None => forall|k: int|
                0 <= k < spheres.len() ==> !sphere_hit(#[trigger] spheres[k], o, d),
        },
    decreases spheres.len(),
{
    if spheres.len() > 0 {
        let prefix = spheres.drop_last();
        lemma_nearest_index_minimal(prefix, o, d);
        assert(forall|k: int| 0 <= k < prefix.len() ==> #[trigger] prefix[k] == spheres[k]);
        let j = spheres.len() - 1;
        match nearest_index(spheres, o, d) {
            Some(w) => {
                assert(0 <= w < spheres.len() && sphere_hit(spheres[w], o, d));
                assert forall|k: int|
                    0 <= k < spheres.len() && sphere_hit(#[trigger] spheres[k], o, d) implies ray_miss_distance(
                    spheres[w],
                    o,
                    d,
                ) <= ray_miss_distance(spheres[k], o, d) by {
                    if k < j {
                        assert(spheres[k] == prefix[k]);
                        match nearest_index(prefix, o, d) {
                            Some(p) => {
                                assert(ray_miss_distance(prefix[p], o, d) <= ray_miss_distance(
                                    prefix[k],
                                    o,
                                    d,
                                ));
                            },
                            None => {
                                assert(!sphere_hit(prefix[k], o, d));
                            },
                        }
                    }
                }
            },
            None => {
                assert forall|k: int| 0 <= k < spheres.len() implies !sphere_hit(
                    #[trigger] spheres[k],
                    o,
                    d,
                ) by {
                    if k < j {
                        assert(spheres[k] == prefix[k]);
                    }
                }
            },
        }
    }
}

/// Tests every sphere and keeps the hit with the smallest miss-distance,
/// the earliest sphere winning ties; the result is reported only when that
/// distance is strictly below the maximum view distance.
pub fn scene_intersect(origin: Vec3, direction: Vec3, spheres: &Vec<Sphere>) -> (r: Option<
    Intersection,
>)
    requires
        bounded3(origin@, COORD_MAX as int),
        bounded3(direction@, 1_400_000_000_000),
        1 <= snorm(direction@),
        forall|k: int| 0 <= k < spheres@.len() ==> (#[trigger] spheres@[k]).wf(),
    ensures
        match scene_hit_index(spheres@, origin@, direction@) {
            Some(j) => r matches Some(h) && 0 <= j < spheres@.len() && h.distance
                == ray_miss_distance(spheres@[j], origin@, direction@) && h.point@
                == ray_closest_point(spheres@[j], origin@, direction@) && h.material
                == spheres@[j].material && 0 <= h.distance < MAX_VIEW_DISTANCE && bounded3(
                h.point@,
                1_300_000_000_000,
            ),
            None => r is None,
        },
{
    let mut nearest: Option<Intersection> = None;
    let mut k: usize = 0;
    while k < spheres.len()
        invariant
            0 <= k <= spheres@.len(),
            bounded3(origin@, COORD_MAX as int),
            bounded3(direction@, 1_400_000_000_000),
            1 <= snorm(direction@),
            forall|i: int| 0 <= i < spheres@.len() ==> (#[trigger] spheres@[i]).wf(),
            match nearest_index(spheres@.take(k as int), origin@, direction@) {
                Some(j) => nearest matches Some(h) && 0 <= j < k && h.distance
                    == ray_miss_distance(spheres@[j], origin@, direction@) && h.point@
                    == ray_closest_point(spheres@[j], origin@, direction@) && h.material
                    == spheres@[j].material && 0 <= h.distance <= 3_100_000_000_000 && bounded3(
                    h.point@,
                    1_300_000_000_000,
                ),
                None => nearest is None,
            },
        decreases spheres@.len() - k,
    {
        let sphere: Sphere = spheres[k];
        let ghost prefix = spheres@.take(k as int);
        match sphere.ray_intersect(origin, direction) {
            Some(intersection) => {
                nearest = match nearest {
                    Some(near) => if intersection.distance < near.distance {
                        Some(intersection)
                    } else {
                        Some(near)
                    },
                    None => Some(intersection),
                };
            },
            None => {},
        }
        k = k + 1;
        proof {
            assert(spheres@.take(k as int).drop_last() =~= prefix);
            assert(spheres@.take(k as int).last() == spheres@[k - 1]);
        }
    }
    proof {
        assert(spheres@.take(spheres@.len() as int) =~= spheres@);
    }
    match nearest {
        Some(intersection) => if intersection.distance < MAX_VIEW_DISTANCE {
            Some(intersection)
        } else {
            None
        },
        None => None,
    }
}

/// The color one ray produces: the hit sphere's material color with the
/// summed diffuse intensity added uniformly to all three channels, or
/// nothing when no sphere is hit within the view distance.
pub open spec fn cast_ray_color(
    spheres: Seq<Sphere>,
    lights: Seq<Light>,
    o: (int, int, int),
    d: (int, int, int),
) -> Option<(int, int, int)> {
    match scene_hit_index(spheres, o, d) {
        Some(j) => {
            let dist = ray_miss_distance(spheres[j], o, d);
            let p = ray_closest_point(spheres[j], o, d);
            let t = diffuse_total(lights, p, dist);
            Some(splus(spheres[j].material.diffuse_color@, (t, t, t)))
        },
        None => None,
    }
}

/// Casts one ray: finds the nearest in-range hit and shades it by adding
/// every light's diffuse contribution, uniformly, to the material color.
pub fn cast_ray(origin: Vec3, direction: Vec3, spheres: &Vec<Sphere>, lights: &Vec<Light>) -> (r:
    Option<Vec3>)
    requires
        bounded3(origin@, COORD_MAX as int),
        bounded3(direction@, 1_400_000_000_000),
        1 <= snorm(direction@),
        forall|k: int| 0 <= k < spheres@.len() ==> (#[trigger] spheres@[k]).wf(),
        forall|k: int| 0 <= k < lights@.len() ==> (#[trigger] lights@[k]).wf(),
        lights@.len() <= LIGHTS_MAX,
    ensures
        match cast_ray_color(spheres@, lights@, origin@, direction@) {
            Some(c) => r matches Some(v) && v@ == c,
            None => r is None,
        },
{
    let intersection: Intersection = match scene_intersect(origin, direction, spheres) {
        Some(intersection) => intersection,
        None => {
            return None;
        },
    };
    proof {
        assert(scene_hit_index(spheres@, origin@, direction@) is Some);
        let j = scene_hit_index(spheres@, origin@, direction@)->Some_0;
        assert(spheres@[j].wf());
        assert(bounded3(intersection.material.diffuse_color@, COORD_MAX as int));
    }
    let mut diffuse_intensity: i64 = 0;
    let mut k: usize = 0;
    while k < lights.len()
        invariant
            0 <= k <= lights@.len(),
            lights@.len() <= LIGHTS_MAX,
            forall|i: int| 0 <= i < lights@.len() ==> (#[trigger] lights@[i]).wf(),
            bounded3(intersection.point@, 1_300_000_000_000),
            0 <= intersection.distance < MAX_VIEW_DISTANCE,
            diffuse_intensity == diffuse_total(
                lights@.take(k as int),
                intersection.point@,
                intersection.distance as int,
            ),
            0 <= diffuse_intensity <= (k as int) * 200_000_000_000_000,
        decreases lights@.len() - k,
    {
        let light: Light = lights[k];
        let ghost prefix = lights@.take(k as int);
        let contribution: i64 = light.diffuse_for_intersection(&intersection);
        diffuse_intensity = diffuse_intensity + contribution;
        k = k + 1;
        proof {
            assert(lights@.take(k as int).drop_last() =~= prefix);
            assert(lights@.take(k as int).last() == lights@[k - 1]);
        }
    }
    proof {
        assert(lights@.take(lights@.len() as int) =~= lights@);
    }
    Some(intersection.material.diffuse().plus(Vec3::repeat(diffuse_intensity)))
}

} // verus!
