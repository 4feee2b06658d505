//! A sphere-tracing (raymarching) renderer core over signed distance fields.
//!
//! All geometry is evaluated in fixed-point arithmetic: a scalar is an `i64`
//! holding the value scaled by 2^16, and every operation is pinned to an
//! exact integer specification.  The modules build on each other: `fixed`
//! holds the scalar arithmetic (square root, smooth blends, exponential,
//! trigonometry, logarithms), `vec3` the vector algebra, `sdf` the
//! distance-field primitives from the plane up to the fractal bulb,
//! `scene` the scene catalog and camera setup, `march` the sphere-tracing
//! loop with normal estimation and lighting, and `render` the per-pixel
//! entry points.

pub mod fixed;
pub mod vec3;
pub mod sdf;
pub mod scene;
pub mod march;
pub mod render;
