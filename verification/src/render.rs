//! Per-pixel entry points.
//!
//! A pixel index is mapped to a view direction through the scene's screen
//! basis, the ray is traced and shaded, and the fixed-point color is
//! clamped to [0, 1] and quantized to 8 bits per channel.  Every pixel is a
//! pure function of the immutable scene and its own index, so a driver may
//! evaluate pixels in any order or in parallel and write each result at
//! its own slot.

use vstd::prelude::*;
use crate::fixed::{fxs_mul, fxs_min, fxs_max, fx_mul, fx_min, fx_max, lemma_div_abs_bound, lemma_div_bounds};
use crate::vec3::{Vec3, vs_maxabs};
use crate::scene::{Scene, scene_wf, spec_normalize3};
use crate::march::{march, spec_march};

verus! {

/// The view direction of a pixel: the screen offsets are
/// `((x / width) - 0.5) * 0.8` and `(0.5 - (y / height)) * 0.6`, applied
/// along the screen basis and normalized.
pub open spec fn spec_pixel_dir(s: Scene, x: int, y: int) -> (int, int, int) {
    let rx = (x * 65536) / (s.width as int);
    let ry = (y * 65536) / (s.height as int);
    let xo = fxs_mul(rx - 32768, 52429);
    let yo = fxs_mul(32768 - ry, 39322);
    spec_normalize3(
        s.direction.x + fxs_mul(s.screen_y.x as int, yo) + fxs_mul(s.screen_x.x as int, xo),
        s.direction.y + fxs_mul(s.screen_y.y as int, yo) + fxs_mul(s.screen_x.y as int, xo),
        s.direction.z + fxs_mul(s.screen_y.z as int, yo) + fxs_mul(s.screen_x.z as int, xo),
    )
}

/// Compute a pixel's view direction.
pub fn pixel_dir(scene: &Scene, x: u32, y: u32) -> (d: Vec3)
    requires
        scene_wf(*scene),
        x < scene.width,
        y < scene.height,
    ensures
        d.x == spec_pixel_dir(*scene, x as int, y as int).0,
        d.y == spec_pixel_dir(*scene, x as int, y as int).1,
        d.z == spec_pixel_dir(*scene, x as int, y as int).2,
        vs_maxabs(d) <= 65536,
{
    let rx = (((x as u64) * 65536) / (scene.width as u64)) as i64;
    let ry = (((y as u64) * 65536) / (scene.height as u64)) as i64;
    proof {
        lemma_div_bounds(x as int * 65536, scene.width as int);
        lemma_div_bounds(y as int * 65536, scene.height as int);
        // x < width keeps the ratio under ONE
        vstd::arithmetic::div_mod::lemma_div_is_ordered(
            x as int * 65536, scene.width as int * 65536 - 1, scene.width as int,
        );
        crate::fixed::lemma_div_abs_bound(
            scene.width as int * 65536 - 1, scene.width as int, 65536,
        );
        vstd::arithmetic::div_mod::lemma_div_is_ordered(
            y as int * 65536, scene.height as int * 65536 - 1, scene.height as int,
        );
        crate::fixed::lemma_div_abs_bound(
            scene.height as int * 65536 - 1, scene.height as int, 65536,
        );
        lemma_div_abs_bound((rx - 32768) * 52429, 65536, 52429);
        lemma_div_abs_bound((32768 - ry) * 39322, 65536, 39322);
    }
    let xo = fx_mul(rx - 32768, 52429);
    let yo = fx_mul(32768 - ry, 39322);
    proof {
        crate::vec3::lemma_mul_abs_le(scene.screen_y.x as int, yo as int, 131072, 65536);
        crate::vec3::lemma_mul_abs_le(scene.screen_y.y as int, yo as int, 131072, 65536);
        crate::vec3::lemma_mul_abs_le(scene.screen_y.z as int, yo as int, 131072, 65536);
        crate::vec3::lemma_mul_abs_le(scene.screen_x.x as int, xo as int, 131072, 65536);
        crate::vec3::lemma_mul_abs_le(scene.screen_x.y as int, xo as int, 131072, 65536);
        crate::vec3::lemma_mul_abs_le(scene.screen_x.z as int, xo as int, 131072, 65536);
        lemma_div_abs_bound(scene.screen_y.x as int * yo as int, 65536, 131072);
        lemma_div_abs_bound(scene.screen_y.y as int * yo as int, 65536, 131072);
        lemma_div_abs_bound(scene.screen_y.z as int * yo as int, 65536, 131072);
        lemma_div_abs_bound(scene.screen_x.x as int * xo as int, 65536, 131072);
        lemma_div_abs_bound(scene.screen_x.y as int * xo as int, 65536, 131072);
        lemma_div_abs_bound(scene.screen_x.z as int * xo as int, 65536, 131072);
    }
    let v = scene.direction.add(scene.screen_y.scale(yo)).add(scene.screen_x.scale(xo));
    let l = v.length();
    if l == 0 {
        Vec3::new(0, 65536, 0)
    } else {
        v.normalize()
    }
}

/// Clamp a fixed-point channel to [0, 1] and quantize it to 8 bits,
/// rounding to the nearest step.
pub open spec fn spec_quantize(c: int) -> int {
    let cc = fxs_max(0, fxs_min(c, 65536));
    (255 * cc + 32768) / 65536
}

pub fn quantize_channel(c: i64) -> (q: u8)
    ensures
        q == spec_quantize(c as int),
{
    let cc = fx_max(0, fx_min(c, 65536));
    let q = ((255 * (cc as u64) + 32768) / 65536) as u8;
    proof {
        lemma_div_bounds(255 * cc as int + 32768, 65536);
        vstd::arithmetic::div_mod::lemma_div_is_ordered(255 * cc as int + 32768, 16744448, 65536);
        vstd::arithmetic::div_mod::lemma_fundamental_div_mod_converse_div(
            16744448, 65536, 255, 32768,
        );
    }
    q
}

/// A rendered pixel: the traced and shaded color of the pixel's ray,
/// quantized per channel.
pub open spec fn spec_render_pixel(s: Scene, x: int, y: int) -> (int, int, int) {
    let d = spec_pixel_dir(s, x, y);
    let c = spec_march(s, d.0, d.1, d.2);
    (spec_quantize(c.0), spec_quantize(c.1), spec_quantize(c.2))
}

/// Render one pixel of the scene.
pub fn render_pixel(scene: &Scene, x: u32, y: u32) -> (rgb: (u8, u8, u8))
    requires
        scene_wf(*scene),
        x < scene.width,
        y < scene.height,
    ensures
        rgb.0 == spec_render_pixel(*scene, x as int, y as int).0,
        rgb.1 == spec_render_pixel(*scene, x as int, y as int).1,
        rgb.2 == spec_render_pixel(*scene, x as int, y as int).2,
{
    let d = pixel_dir(scene, x, y);
    let c = march(scene, &d);
    (quantize_channel(c.0), quantize_channel(c.1), quantize_channel(c.2))
}

} // verus!
