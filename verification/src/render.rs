//! Camera ray generation and the frame driver.
//!
//! The camera sits at the origin and looks down the negative z axis. For a
//! pixel `(i, j)` of a `width` by `height` image the camera produces a unit
//! direction from the pinhole projection
//! `x = (2*(i+0.5)/width - 1) * tan(fov/2) * (width/height)` and
//! `y = -(2*(j+0.5)/height - 1) * tan(fov/2)`, with z fixed at minus one.
//! The field of view enters as the fixed-point tangent of its half angle.
//!
//! [`render`] walks the pixels in row-major order, casts one ray each,
//! converts the shaded or background color to a byte triple, and returns
//! the flat RGB buffer. Its contract pins every byte of the result, so
//! rendering the same scene twice gives byte-identical buffers.

use crate::fixed::{
    fdiv, fmul, fp_div, fp_mul, is_sqrt_floor, lemma_sqrt_floor_exists, lemma_tdiv_bound,
    sqrt_floor, SCALE,
};
use crate::scene::{cast_ray, cast_ray_color, Light, Sphere, LIGHTS_MAX};
use crate::vec3::{
    bounded3, lemma_mul_mag_bound, lemma_sdot_self_nonneg, lemma_square_bound, sdot, snorm, sunit,
    Vec3,
};
use vstd::arithmetic::div_mod::*;
use vstd::arithmetic::mul::*;
use vstd::prelude::*;

verus! {

/// Largest image side length the driver accepts.
pub const SIDE_MAX: u32 = 4096;

/// Largest fixed-point tangent of the half field of view the camera
/// accepts: sixteen whole units, reached only as the angle nears a
/// straight angle.
pub const TAN_HALF_FOV_MAX: i64 = 16_000_000;

/// The camera direction for pixel `(i, j)`: the pinhole projection vector
/// `(x, y, -1)` scaled to unit length.
pub open spec fn camera_dir(w: int, h: int, t: int, i: int, j: int) -> (int, int, int) {
    let s = SCALE as int;
    let a = fdiv((2 * i + 1 - w) * s, w * s);
    let b = fdiv((2 * j + 1 - h) * s, h * s);
    let aspect = fdiv(w * s, h * s);
    let x = fmul(fmul(a, t), aspect);
    let y = -fmul(b, t);
    sunit((x, y, -s))
}

/// A projection vector with z fixed at minus one and moderate x and y has
/// a positive length, and so does the unit vector made from it.
proof fn lemma_camera_norms(x: int, y: int)
    requires
        -260_000_000 <= x <= 260_000_000,
        -16_000_000 <= y <= 16_000_000,
    ensures
        1 <= snorm((x, y, -(SCALE as int))),
        1 <= snorm(sunit((x, y, -(SCALE as int)))),
{
    let s = SCALE as int;
    let v = (x, y, -s);
    let q = sdot(v, v);
    lemma_square_bound(x, 260_000_000);
    lemma_square_bound(y, 16_000_000);
    lemma_div_pos_is_pos(x * x, s);
    lemma_div_pos_is_pos(y * y, s);
    lemma_div_is_ordered(x * x, 67_600_000_000_000_000, s);
    lemma_div_is_ordered(y * y, 256_000_000_000_000, s);
    assert((-s) * (-s) == s * s) by (nonlinear_arith);
    lemma_div_multiples_vanish(s, s);
    assert(fmul(-s, -s) == s);
    assert(1_000_000 <= q <= 67_857_000_000);
    lemma_sdot_self_nonneg(v);
    let qs = q * s;
    assert(1_000_000_000_000 <= qs <= 67_857_000_000_000_000) by (nonlinear_arith)
        requires
            1_000_000 <= q <= 67_857_000_000,
            s == 1_000_000,
            qs == q * s,
    ;
    lemma_sqrt_floor_exists(qs as nat);
    let n = sqrt_floor(qs);
    assert(is_sqrt_floor(n, qs));
    assert(n == snorm(v));
    assert(1_000_000 <= n <= 270_000_000) by (nonlinear_arith)
        requires
            is_sqrt_floor(n, qs),
            1_000_000_000_000 <= qs <= 67_857_000_000_000_000,
    ;
    // The z component of the unit vector keeps a sizable magnitude.
    let zu = fdiv(-s, n);
    assert((-s) * s == -(s * s)) by (nonlinear_arith);
    assert(zu == -((s * s) / n));
    lemma_div_pos_is_pos(s * s, n);
    lemma_div_is_ordered_by_denominator(s * s, n, 270_000_000);
    assert((s * s) / 270_000_000 == 3703);
    lemma_div_is_ordered_by_denominator(s * s, 1_000_000, n);
    assert(3703 <= (s * s) / n <= 1_000_000);
    let u = sunit(v);
    assert(u.2 == zu);
    let qu = sdot(u, u);
    lemma_square_bound(u.0, if u.0 < 0 { -u.0 } else { u.0 });
    lemma_square_bound(u.1, if u.1 < 0 { -u.1 } else { u.1 });
    lemma_div_pos_is_pos(u.0 * u.0, s);
    lemma_div_pos_is_pos(u.1 * u.1, s);
    assert(3703 * 3703 <= zu * zu) by (nonlinear_arith)
        requires
            3703 <= -zu <= 1_000_000,
    ;
    lemma_div_is_ordered(3703int * 3703, zu * zu, s);
    assert(zu * zu >= 0) by (nonlinear_arith);
    assert(fmul(zu, zu) >= 13);
    assert(qu >= 13);
    lemma_sdot_self_nonneg(u);
    let qus = qu * s;
    assert(13_000_000 <= qus) by (nonlinear_arith)
        requires
            13 <= qu,
            s == 1_000_000,
            qus == qu * s,
    ;
    lemma_sqrt_floor_exists(qus as nat);
    let nu = sqrt_floor(qus);
    assert(is_sqrt_floor(nu, qus));
    assert(1 <= nu) by (nonlinear_arith)
        requires
            is_sqrt_floor(nu, qus),
            13_000_000 <= qus,
    ;
    assert(nu == snorm(u));
}

/// Maps a pixel coordinate to the camera's unit ray direction for it.
pub fn pixel_ray_direction(i: u32, j: u32, width: u32, height: u32, tan_half_fov: i64) -> (r: Vec3)
    requires
        i < width,
        j < height,
        width <= SIDE_MAX,
        height <= SIDE_MAX,
        width <= 16 * height,
        1 <= tan_half_fov <= TAN_HALF_FOV_MAX,
    ensures
        r@ == camera_dir(width as int, height as int, tan_half_fov as int, i as int, j as int),
        bounded3(r@, 2 * (SCALE as int)),
        1 <= snorm(r@),
{
    let s = SCALE;
    let wide: i64 = width as i64;
    let high: i64 = height as i64;
    let nx: i64 = 2 * (i as i64) + 1 - wide;
    let ny: i64 = 2 * (j as i64) + 1 - high;
    let a: i64 = fp_div(nx * s, wide * s);
    let b: i64 = fp_div(ny * s, high * s);
    let aspect: i64 = fp_div(wide * s, high * s);
    proof {
        let si = SCALE as int;
        // |a| and |b| stay within one whole unit, the aspect within 16.
        lemma_mul_mag_bound(nx as int, si * si, wide - 1, si * si);
        lemma_tdiv_bound((nx as int) * si * si, wide * si, (wide - 1) * si * si);
        assert((nx as int) * si * si == ((nx as int) * si) * si) by (nonlinear_arith);
        assert((wide - 1) * si * si <= (wide as int) * si * si) by (nonlinear_arith)
            requires
                1 <= wide,
                si == 1_000_000,
        ;
        lemma_div_is_ordered((wide - 1) * si * si, (wide as int) * si * si, wide * si);
        assert((wide as int) * si * si == (wide * si) * si) by (nonlinear_arith);
        lemma_div_multiples_vanish(si, wide * si);
        assert(((wide * si) * si) / (wide * si) == si);
        assert(-si <= a <= si);
        lemma_mul_mag_bound(ny as int, si * si, high - 1, si * si);
        lemma_tdiv_bound((ny as int) * si * si, high * si, (high - 1) * si * si);
        assert((ny as int) * si * si == ((ny as int) * si) * si) by (nonlinear_arith);
        assert((high - 1) * si * si <= (high as int) * si * si) by (nonlinear_arith)
            requires
                1 <= high,
                si == 1_000_000,
        ;
        lemma_div_is_ordered((high - 1) * si * si, (high as int) * si * si, high * si);
        assert((high as int) * si * si == (high * si) * si) by (nonlinear_arith);
        lemma_div_multiples_vanish(si, high * si);
        assert(-si <= b <= si);
        lemma_div_pos_is_pos((wide as int) * si * si, high * si);
        assert((wide as int) * si * si <= (16 * high) * si * si) by (nonlinear_arith)
            requires
                wide <= 16 * high,
                si == 1_000_000,
        ;
        lemma_div_is_ordered((wide as int) * si * si, (16 * high) * si * si, high * si);
        assert((16 * high) * si * si == (high * si) * (16 * si)) by (nonlinear_arith);
        lemma_div_multiples_vanish(16 * si, high * si);
        assert(0 <= aspect <= 16 * si);
        lemma_mul_mag_bound(a as int, tan_half_fov as int, si, 16 * si);
        lemma_mul_mag_bound(b as int, tan_half_fov as int, si, 16 * si);
    }
    let xt: i64 = fp_mul(a, tan_half_fov);
    let yt: i64 = fp_mul(b, tan_half_fov);
    proof {
        let si = SCALE as int;
        lemma_tdiv_bound((a as int) * (tan_half_fov as int), si, 16_000_000_000_000);
        lemma_tdiv_bound((b as int) * (tan_half_fov as int), si, 16_000_000_000_000);
        lemma_mul_mag_bound(xt as int, aspect as int, 16_000_000, 16_000_000);
    }
    let x: i64 = fp_mul(xt, aspect);
    let y: i64 = -yt;
    proof {
        lemma_tdiv_bound((xt as int) * (aspect as int), SCALE as int, 256_000_000_000_000);
        lemma_camera_norms(x as int, y as int);
    }
    let direction: Vec3 = Vec3::new(x, y, -s);
    direction.normalize()
}

/// A color channel clamped to the unit interval.
pub open spec fn clamp01(c: int) -> int {
    if c < 0 {
        0
    } else if c > SCALE as int {
        SCALE as int
    } else {
        c
    }
}

/// A color channel as an output byte: clamped to the unit interval, scaled
/// by 255 and truncated.
pub open spec fn channel_byte(c: int) -> int {
    (255 * clamp01(c)) / (SCALE as int)
}

/// One channel converted to its output byte.
fn channel_to_byte(c: i64) -> (r: u8)
    ensures
        r == channel_byte(c as int),
{
    let clamped: i64 = if c < 0 {
        0
    } else if c > SCALE {
        SCALE
    } else {
        c
    };
    let wide: u64 = (255u64 * (clamped as u64)) / 1_000_000u64;
    proof {
        lemma_div_pos_is_pos(255 * (clamped as int), SCALE as int);
        lemma_div_is_ordered(255 * (clamped as int), 255_000_000, SCALE as int);
    }
    wide as u8
}

/// Converts a color to its byte triple, channel by channel.
pub fn vec_to_rgb(v: Vec3) -> (r: (u8, u8, u8))
    ensures
        r.0 == channel_byte(v@.0),
        r.1 == channel_byte(v@.1),
        r.2 == channel_byte(v@.2),
{
    (channel_to_byte(v.x), channel_to_byte(v.y), channel_to_byte(v.z))
}

/// The deterministic background color for pixel `(i, j)`: the gradient
/// `(j/height, i/width, (i+j)/(height+width))`.
pub open spec fn background_color(w: int, h: int, i: int, j: int) -> (int, int, int) {
    let s = SCALE as int;
    (fdiv(j * s, h * s), fdiv(i * s, w * s), fdiv((i + j) * s, (h + w) * s))
}

/// Builds the background color for a pixel whose ray hits nothing.
pub fn background(i: u32, j: u32, width: u32, height: u32) -> (r: Vec3)
    requires
        i < width,
        j < height,
        width <= SIDE_MAX,
        height <= SIDE_MAX,
    ensures
        r@ == background_color(width as int, height as int, i as int, j as int),
{
    let s = SCALE;
    let red: i64 = fp_div((j as i64) * s, (height as i64) * s);
    let green: i64 = fp_div((i as i64) * s, (width as i64) * s);
    let blue: i64 = fp_div(((i as i64) + (j as i64)) * s, ((height as i64) + (width as i64)) * s);
    Vec3::new(red, green, blue)
}

/// The color of pixel `(i, j)`: the shaded nearest hit of its camera ray,
/// or the background gradient when the ray hits nothing in range.
pub open spec fn pixel_color(
    spheres: Seq<Sphere>,
    lights: Seq<Light>,
    w: int,
    h: int,
    t: int,
    i: int,
    j: int,
) -> (int, int, int) {
    let d = camera_dir(w, h, t, i, j);
    match cast_ray_color(spheres, lights, (0, 0, 0), d) {
        Some(c) => c,
        None => background_color(w, h, i, j),
    }
}

/// The byte triple of pixel `(i, j)`.
pub open spec fn pixel_bytes(
    spheres: Seq<Sphere>,
    lights: Seq<Light>,
    w: int,
    h: int,
    t: int,
    i: int,
    j: int,
) -> (int, int, int) {
    let c = pixel_color(spheres, lights, w, h, t, i, j);
    (channel_byte(c.0), channel_byte(c.1), channel_byte(c.2))
}

/// The byte at flat index `n` of the row-major RGB buffer.
pub open spec fn frame_byte(
    spheres: Seq<Sphere>,
    lights: Seq<Light>,
    w: int,
    h: int,
    t: int,
    n: int,
) -> u8 {
    let j = n / (3 * w);
    let rem = n % (3 * w);
    let i = rem / 3;
    let c = rem % 3;
    let trip = pixel_bytes(spheres, lights, w, h, t, i, j);
    (if c == 0 {
        trip.0
    } else if c == 1 {
        trip.1
    } else {
        trip.2
    }) as u8
}

/// The whole frame: `3 * w * h` bytes, three per pixel, row-major.
pub open spec fn frame_bytes(
    spheres: Seq<Sphere>,
    lights: Seq<Light>,
    w: int,
    h: int,
    t: int,
) -> Seq<u8> {
    Seq::new((3 * w * h) as nat, |n: int| frame_byte(spheres, lights, w, h, t, n))
}

/// Flat index `3 * (j * w + i) + c` decomposes back into row `j`, column
/// `i` and channel `c`.
proof fn lemma_frame_index(w: int, i: int, j: int, c: int)
    requires
        1 <= w,
        0 <= i < w,
        0 <= j,
        0 <= c < 3,
    ensures
        (3 * (j * w + i) + c) / (3 * w) == j,
        ((3 * (j * w + i) + c) % (3 * w)) / 3 == i,
        ((3 * (j * w + i) + c) % (3 * w)) % 3 == c,
{
    let n = 3 * (j * w + i) + c;
    assert(3 * (j * w + i) + c == j * (3 * w) + (3 * i + c)) by (nonlinear_arith);
    assert(0 <= 3 * i + c < 3 * w);
    lemma_fundamental_div_mod_converse(n, 3 * w, j, 3 * i + c);
    lemma_fundamental_div_mod_converse(3 * i + c, 3, i, c);
}

/// Renders one frame: for every pixel in row-major order, generates the
/// camera ray, finds and shades the nearest hit or falls back to the
/// background gradient, and appends the clamped byte triple. The result is
/// exactly [`frame_bytes`], a function of the scene, the dimensions and
/// the field of view alone.
pub fn render(
    spheres: &Vec<Sphere>,
    lights: &Vec<Light>,
    width: u32,
    height: u32,
    tan_half_fov: i64,
) -> (pixels: Vec<u8>)
    requires
        1 <= width <= SIDE_MAX,
        1 <= height <= SIDE_MAX,
        width <= 16 * height,
        1 <= tan_half_fov <= TAN_HALF_FOV_MAX,
        forall|k: int| 0 <= k < spheres@.len() ==> (#[trigger] spheres@[k]).wf(),
        forall|k: int| 0 <= k < lights@.len() ==> (#[trigger] lights@[k]).wf(),
        lights@.len() <= LIGHTS_MAX,
    ensures
        pixels@ == frame_bytes(
            spheres@,
            lights@,
            width as int,
            height as int,
            tan_half_fov as int,
        ),
{
    let ghost w = width as int;
    let ghost h = height as int;
    let ghost t = tan_half_fov as int;
    let mut pixels: Vec<u8> = Vec::new();
    let mut j: u32 = 0;
    while j < height
        invariant
            0 <= j <= height,
            1 <= width <= SIDE_MAX,
            1 <= height <= SIDE_MAX,
            width <= 16 * height,
            1 <= tan_half_fov <= TAN_HALF_FOV_MAX,
            forall|k: int| 0 <= k < spheres@.len() ==> (#[trigger] spheres@[k]).wf(),
            forall|k: int| 0 <= k < lights@.len() ==> (#[trigger] lights@[k]).wf(),
            lights@.len() <= LIGHTS_MAX,
            w == width as int && h == height as int && t == tan_half_fov as int,
            pixels@.len() == 3 * ((j as int) * w),
            forall|n: int|
                0 <= n < pixels@.len() ==> pixels@[n] == frame_byte(spheres@, lights@, w, h, t, n),
        decreases height - j,
    {
        let mut i: u32 = 0;
        while i < width
            invariant
                0 <= i <= width,
                0 <= j < height,
                1 <= width <= SIDE_MAX,
                1 <= height <= SIDE_MAX,
                width <= 16 * height,
                1 <= tan_half_fov <= TAN_HALF_FOV_MAX,
                forall|k: int| 0 <= k < spheres@.len() ==> (#[trigger] spheres@[k]).wf(),
                forall|k: int| 0 <= k < lights@.len() ==> (#[trigger] lights@[k]).wf(),
                lights@.len() <= LIGHTS_MAX,
                w == width as int && h == height as int && t == tan_half_fov as int,
                pixels@.len() == 3 * ((j as int) * w + i as int),
                forall|n: int|
                    0 <= n < pixels@.len() ==> pixels@[n] == frame_byte(
                        spheres@,
                        lights@,
                        w,
                        h,
                        t,
                        n,
                    ),
            decreases width - i,
        {
            let direction: Vec3 = pixel_ray_direction(i, j, width, height, tan_half_fov);
            let color: Vec3 = match cast_ray(Vec3::zeros(), direction, spheres, lights) {
                Some(shaded) => shaded,
                None => background(i, j, width, height),
            };
            let rgb: (u8, u8, u8) = vec_to_rgb(color);
            proof {
                lemma_frame_index(w, i as int, j as int, 0);
                lemma_frame_index(w, i as int, j as int, 1);
                lemma_frame_index(w, i as int, j as int, 2);
                assert(3 * ((j as int) * w + i as int + 1) <= 3 * ((h - 1) * w + w))
                    by (nonlinear_arith)
                    requires
                        0 <= i < w,
                        0 <= j < h,
                ;
                assert(3 * ((h - 1) * w + w) == 3 * w * h) by (nonlinear_arith);
            }
            pixels.push(rgb.0);
            pixels.push(rgb.1);
            pixels.push(rgb.2);
            i = i + 1;
        }
        proof {
            assert(3 * ((j as int) * w + w) == 3 * (((j as int) + 1) * w)) by (nonlinear_arith);
        }
        j = j + 1;
    }
    proof {
        assert(3 * ((h as int) * w) == 3 * w * h) by (nonlinear_arith);
        assert(pixels@ =~= frame_bytes(spheres@, lights@, w, h, t));
    }
    pixels
}

/// Rendering is deterministic: two byte buffers produced from the same
/// scene, dimensions and field of view are byte-identical. [`render`]
/// guarantees that its result is [`frame_bytes`], a pure function of these
/// inputs, so any two runs agree.
pub proof fn lemma_render_deterministic(
    first: Seq<u8>,
    second: Seq<u8>,
    spheres: Seq<Sphere>,
    lights: Seq<Light>,
    w: int,
    h: int,
    t: int,
)
    requires
        first == frame_bytes(spheres, lights, w, h, t),
        second == frame_bytes(spheres, lights, w, h, t),
    ensures
        first == second,
{
}

} // verus!

