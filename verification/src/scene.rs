//! Scene catalog, camera derivation and scene construction.
//!
//! A scene bundles a composite distance field chosen from a closed catalog,
//! a lighting function, the camera frame and the marching parameters.  Names
//! select catalog entries; unrecognized names silently fall back to the
//! default entry (a deliberate ergonomic choice, not an error).

use vstd::prelude::*;
use crate::fixed::{
    fxs_div, fxs_min, fxs_max, fxs_abs, fx_min, fx_max, fx_abs,
};
use crate::vec3::{Vec3, vs_maxabs, spec_len3};
use crate::sdf::{
    spec_sphere_sdf, spec_plane_sdf, spec_torus_sdf, spec_random_sphere_grid,
    spec_sphere_fbm, sphere_sdf, plane_sdf, torus_sdf, random_sphere_grid, sphere_fbm_sdf,
};

verus! {

/// Largest coordinate magnitude at which a composite scene field may be
/// evaluated; the marcher stays well inside it.
pub const SCENE_MAX: i64 = 12000 * 65536;

/// The closed catalog of composite scene fields.
#[derive(Clone, Copy, Debug, PartialEq, Eq, Structural)]
pub enum SceneKind {
    Example,
    Torus,
    Mandlebulb,
    Gyroid,
    SphereGrid,
    Fbm,
}

/// The closed catalog of auxiliary shading fields, evaluated only at the
/// ray's end point.
#[derive(Clone, Copy, Debug, PartialEq, Eq, Structural)]
pub enum AuxKind {
    MandlebulbIter,
}

/// The closed catalog of lighting functions.
#[derive(Clone, Copy, Debug, PartialEq, Eq, Structural)]
pub enum LightingKind {
    Simple,
    Simple2,
}

/// Default scene: the fixed sphere resting on the ground plane.
pub open spec fn spec_example_scene_sdf(x: int, y: int, z: int) -> int {
    fxs_min(spec_sphere_sdf(x, y, z), spec_plane_sdf(x, y, z, 0, 65536, 0, 0))
}

pub fn example_scene_sdf(p: Vec3) -> (r: i64)
    requires
        vs_maxabs(p) <= SCENE_MAX,
    ensures
        r == spec_example_scene_sdf(p.x as int, p.y as int, p.z as int),
        fxs_abs(r as int) <= 8 * vs_maxabs(p) + 67108864,
{
    fx_min(sphere_sdf(p), plane_sdf(p, Vec3::new(0, 65536, 0), 0))
}

/// The torus floating above the ground plane, with the fixed sphere.
pub open spec fn spec_torus_scene_sdf(x: int, y: int, z: int) -> int {
    fxs_min(
        fxs_min(
            spec_torus_sdf(x, y - 163840, z, 98304, 26214),
            spec_plane_sdf(x, y, z, 0, 65536, 0, 0),
        ),
        spec_sphere_sdf(x, y, z),
    )
}

pub fn torus_scene_sdf(p: Vec3) -> (r: i64)
    requires
        vs_maxabs(p) <= SCENE_MAX,
    ensures
        r == spec_torus_scene_sdf(p.x as int, p.y as int, p.z as int),
        fxs_abs(r as int) <= 8 * vs_maxabs(p) + 67108864,
{
    let t = torus_sdf(p.sub(Vec3::new(0, 163840, 0)), 98304, 26214);
    let pl = plane_sdf(p, Vec3::new(0, 65536, 0), 0);
    let s = sphere_sdf(p);
    fx_min(fx_min(t, pl), s)
}

/// The fractal bulb, alone: 100 iterations, bailout 10, power 4.
pub open spec fn spec_mandlebulb_scene_sdf(x: int, y: int, z: int) -> int {
    crate::sdf::spec_mandlebulb_sdf(x, y, z, 100, 655360, 262144)
}

pub fn mandlebulb_scene_sdf(p: Vec3) -> (r: i64)
    requires
        vs_maxabs(p) <= SCENE_MAX,
    ensures
        r == spec_mandlebulb_scene_sdf(p.x as int, p.y as int, p.z as int),
        fxs_abs(r as int) <= 8 * vs_maxabs(p) + 67108864,
{
    crate::sdf::mandlebulb_sdf(p, 100, 655360, 262144)
}

/// The fractal bulb's iteration fraction, the auxiliary shading channel.
pub open spec fn spec_mandlebulb_scene_sdf_iter(x: int, y: int, z: int) -> int {
    crate::sdf::spec_mandlebulb_iter(x, y, z, 100, 655360, 262144)
}

pub fn mandlebulb_scene_sdf_iter(p: Vec3) -> (r: i64)
    requires
        vs_maxabs(p) <= SCENE_MAX,
    ensures
        r == spec_mandlebulb_scene_sdf_iter(p.x as int, p.y as int, p.z as int),
        0 <= r <= 65536,
{
    crate::sdf::mandlebulb_sdf_iter(p, 100, 655360, 262144)
}

/// The auxiliary field of a catalog entry.
pub open spec fn spec_aux_sdf(kind: AuxKind, x: int, y: int, z: int) -> int {
    match kind {
        AuxKind::MandlebulbIter => spec_mandlebulb_scene_sdf_iter(x, y, z),
    }
}

pub fn aux_sdf(kind: AuxKind, p: Vec3) -> (r: i64)
    requires
        vs_maxabs(p) <= SCENE_MAX,
    ensures
        r == spec_aux_sdf(kind, p.x as int, p.y as int, p.z as int),
        0 <= r <= 65536,
{
    match kind {
        AuxKind::MandlebulbIter => mandlebulb_scene_sdf_iter(p),
    }
}

/// The gyroid lattice clipped by a tilted plane.
pub open spec fn spec_gyroid_scene_sdf(x: int, y: int, z: int) -> int {
    fxs_max(
        crate::sdf::spec_gyroid_sdf(x, y, z, 327680, 98304),
        spec_plane_sdf(x, y, z, 32768, 32768, -32768, -262144),
    )
}

pub fn gyroid_scene_sdf(p: Vec3) -> (r: i64)
    requires
        vs_maxabs(p) <= SCENE_MAX,
    ensures
        r == spec_gyroid_scene_sdf(p.x as int, p.y as int, p.z as int),
        fxs_abs(r as int) <= 8 * vs_maxabs(p) + 67108864,
{
    let g = crate::sdf::gyroid_sdf(p, 327680, 98304);
    let pl = plane_sdf(p, Vec3::new(32768, 32768, -32768), -262144);
    fx_max(g, pl)
}

/// The stochastic sphere grid clipped against the ground plane.
pub open spec fn spec_sphere_grid_scene_sdf(x: int, y: int, z: int) -> int {
    fxs_max(spec_random_sphere_grid(x, y, z), spec_plane_sdf(x, y, z, 0, 65536, 0, 0))
}

pub fn sphere_grid_scene_sdf(p: Vec3) -> (r: i64)
    requires
        vs_maxabs(p) <= SCENE_MAX,
    ensures
        r == spec_sphere_grid_scene_sdf(p.x as int, p.y as int, p.z as int),
        fxs_abs(r as int) <= 8 * vs_maxabs(p) + 67108864,
{
    fx_max(random_sphere_grid(p), plane_sdf(p, Vec3::new(0, 65536, 0), 0))
}

/// The fractal-noise sphere field seeded with the ground plane, clipped
/// against that same plane.
pub open spec fn spec_fbm_scene_sdf(x: int, y: int, z: int) -> int {
    let pl = spec_plane_sdf(x, y, z, 0, 65536, 0, 0);
    fxs_max(spec_sphere_fbm(x, y, z, pl), pl)
}

pub fn fbm_scene_sdf(p: Vec3) -> (r: i64)
    requires
        vs_maxabs(p) <= SCENE_MAX,
    ensures
        r == spec_fbm_scene_sdf(p.x as int, p.y as int, p.z as int),
        fxs_abs(r as int) <= 8 * vs_maxabs(p) + 67108864,
{
    let pl = plane_sdf(p, Vec3::new(0, 65536, 0), 0);
    fx_max(sphere_fbm_sdf(p, pl), pl)
}

/// The composite field of a catalog entry.
#[verifier::opaque]
pub open spec fn spec_scene_sdf(kind: SceneKind, x: int, y: int, z: int) -> int {
    match kind {
        SceneKind::Example => spec_example_scene_sdf(x, y, z),
        SceneKind::Torus => spec_torus_scene_sdf(x, y, z),
        SceneKind::Mandlebulb => spec_mandlebulb_scene_sdf(x, y, z),
        SceneKind::Gyroid => spec_gyroid_scene_sdf(x, y, z),
        SceneKind::SphereGrid => spec_sphere_grid_scene_sdf(x, y, z),
        SceneKind::Fbm => spec_fbm_scene_sdf(x, y, z),
    }
}

/// Evaluate the chosen scene field at a point.  The distance is pinned to
/// the specification field and bounded linearly in the point's magnitude,
/// which is what lets the marching loop stay in range.
pub fn scene_sdf(kind: SceneKind, p: Vec3) -> (r: i64)
    requires
        vs_maxabs(p) <= SCENE_MAX,
    ensures
        r == spec_scene_sdf(kind, p.x as int, p.y as int, p.z as int),
        fxs_abs(r as int) <= 8 * vs_maxabs(p) + 67108864,
{
    proof {
        reveal(spec_scene_sdf);
    }
    match kind {
        SceneKind::Example => example_scene_sdf(p),
        SceneKind::Torus => torus_scene_sdf(p),
        SceneKind::Mandlebulb => mandlebulb_scene_sdf(p),
        SceneKind::Gyroid => gyroid_scene_sdf(p),
        SceneKind::SphereGrid => sphere_grid_scene_sdf(p),
        SceneKind::Fbm => fbm_scene_sdf(p),
    }
}

/// The union of two solids is the pointwise minimum of their distance
/// fields; the default scene is literally that union of the sphere and the
/// ground plane.
pub proof fn lemma_union_is_min(x: int, y: int, z: int)
    ensures
        spec_example_scene_sdf(x, y, z) == fxs_min(
            spec_sphere_sdf(x, y, z),
            spec_plane_sdf(x, y, z, 0, 65536, 0, 0),
        ),
{
}

/// Scene selection by name: the named entries of the catalog, every other
/// name falling back to the default entry.
pub open spec fn spec_scene_kind_of(s: Seq<char>) -> SceneKind {
    if s == "torus"@ {
        SceneKind::Torus
    } else if s == "mandlebulb"@ {
        SceneKind::Mandlebulb
    } else if s == "gyroid"@ {
        SceneKind::Gyroid
    } else if s == "sphere_grid"@ {
        SceneKind::SphereGrid
    } else if s == "fbm"@ {
        SceneKind::Fbm
    } else {
        SceneKind::Example
    }
}

pub fn scene_kind_of_name(name: &str) -> (k: SceneKind)
    ensures
        k == spec_scene_kind_of(name@),
{
    let n = name.to_owned();
    if n == "torus".to_owned() {
        SceneKind::Torus
    } else if n == "mandlebulb".to_owned() {
        SceneKind::Mandlebulb
    } else if n == "gyroid".to_owned() {
        SceneKind::Gyroid
    } else if n == "sphere_grid".to_owned() {
        SceneKind::SphereGrid
    } else if n == "fbm".to_owned() {
        SceneKind::Fbm
    } else {
        SceneKind::Example
    }
}

/// Lighting selection by name, falling back to the first implementation.
pub open spec fn spec_lighting_kind_of(s: Seq<char>) -> LightingKind {
    if s == "lighting2"@ {
        LightingKind::Simple2
    } else {
        LightingKind::Simple
    }
}

pub fn lighting_kind_of_name(name: &str) -> (k: LightingKind)
    ensures
        k == spec_lighting_kind_of(name@),
{
    let n = name.to_owned();
    if n == "lighting2".to_owned() {
        LightingKind::Simple2
    } else {
        LightingKind::Simple
    }
}

/// Scene description as the configuration layer hands it over: catalog
/// names, output size, and the camera's position and aim.
pub struct SceneDescription {
    pub sdf: String,
    pub width: u32,
    pub height: u32,
    pub camera_pos: Vec3,
    pub look_at: Vec3,
    pub lighting: String,
}

impl Default for SceneDescription {
    /// The documented defaults: a 640x480 view of the default scene from
    /// (0.5, 0.5, -2) toward the origin.
    fn default() -> (r: SceneDescription)
        ensures
            r.sdf@ == "default"@,
            r.lighting@ == "default"@,
            r.width == 640,
            r.height == 480,
            r.camera_pos.x == 32768 && r.camera_pos.y == 32768 && r.camera_pos.z == -131072,
            r.look_at.x == 0 && r.look_at.y == 0 && r.look_at.z == 0,
    {
        SceneDescription {
            sdf: "default".to_owned(),
            width: 640,
            height: 480,
            camera_pos: Vec3 { x: 32768, y: 32768, z: -131072 },
            look_at: Vec3 { x: 0, y: 0, z: 0 },
            lighting: "default".to_owned(),
        }
    }
}

/// Everything the marcher needs, fixed for the whole render: the chosen
/// fields, the camera frame, and the marching parameters.
pub struct Scene {
    pub sdf: SceneKind,
    pub lighting_fn: LightingKind,
    pub width: u32,
    pub height: u32,
    pub start: Vec3,
    pub direction: Vec3,
    pub screen_x: Vec3,
    pub screen_y: Vec3,
    pub max_steps: u32,
    pub max_dist: i64,
    pub epsilon: i64,
    pub extra_sdf: Option<AuxKind>,
}

/// Well-formedness of a scene: positive marching parameters within the
/// fixed-point budget, the camera near the origin, and unit-scale frame
/// vectors.
pub open spec fn scene_wf(s: Scene) -> bool {
    &&& 0 < s.epsilon <= 65536
    &&& 0 < s.max_dist <= 16711680
    &&& 0 < s.max_steps <= 1000
    &&& s.width > 0
    &&& s.height > 0
    &&& vs_maxabs(s.start) <= 4194304
    &&& vs_maxabs(s.direction) <= 131072
    &&& vs_maxabs(s.screen_x) <= 131072
    &&& vs_maxabs(s.screen_y) <= 131072
}

/// Cross product of two scalar triples, floor-rescaled, mirroring
/// `Vec3::cross`.
pub open spec fn spec_cross3(
    ax: int, ay: int, az: int, bx: int, by: int, bz: int,
) -> (int, int, int) {
    ((ay * bz - az * by) / 65536, (az * bx - ax * bz) / 65536, (ax * by - ay * bx) / 65536)
}

/// Normalization of a scalar triple, with a fixed axis as the fallback for
/// the zero vector.
pub open spec fn spec_normalize3(x: int, y: int, z: int) -> (int, int, int) {
    let l = spec_len3(x, y, z);
    if l <= 0 {
        (0, 65536, 0)
    } else {
        (fxs_div(x, l), fxs_div(y, l), fxs_div(z, l))
    }
}

/// The view direction: the normalized aim from the camera to the look-at
/// point, or the positive z axis if the two coincide.
pub open spec fn spec_camera_dir(cam: Vec3, look: Vec3) -> (int, int, int) {
    let dx = look.x - cam.x;
    let dy = look.y - cam.y;
    let dz = look.z - cam.z;
    let l = spec_len3(dx, dy, dz);
    if l <= 0 {
        (0, 0, 65536)
    } else {
        (fxs_div(dx, l), fxs_div(dy, l), fxs_div(dz, l))
    }
}

/// The screen basis derived from the view direction.  The world axis to
/// cross against follows the dominant component, so the cross product never
/// degenerates near the vertical; a unit-length result of the second cross
/// is renormalized the same way.
pub open spec fn spec_screen_xy(dx: int, dy: int, dz: int) -> ((int, int, int), (int, int, int)) {
    if fxs_abs(dy) > fxs_abs(dx) {
        let sy = spec_normalize3(
            spec_cross3(dx, dy, dz, -65536, 0, 0).0,
            spec_cross3(dx, dy, dz, -65536, 0, 0).1,
            spec_cross3(dx, dy, dz, -65536, 0, 0).2,
        );
        let sx = spec_normalize3(
            spec_cross3(dx, dy, dz, sy.0, sy.1, sy.2).0,
            spec_cross3(dx, dy, dz, sy.0, sy.1, sy.2).1,
            spec_cross3(dx, dy, dz, sy.0, sy.1, sy.2).2,
        );
        (sx, sy)
    } else {
        let sx = spec_normalize3(
            spec_cross3(dx, dy, dz, 0, -65536, 0).0,
            spec_cross3(dx, dy, dz, 0, -65536, 0).1,
            spec_cross3(dx, dy, dz, 0, -65536, 0).2,
        );
        let sy = spec_normalize3(
            spec_cross3(dx, dy, dz, sx.0, sx.1, sx.2).0,
            spec_cross3(dx, dy, dz, sx.0, sx.1, sx.2).1,
            spec_cross3(dx, dy, dz, sx.0, sx.1, sx.2).2,
        );
        (sx, sy)
    }
}

/// Normalize a vector, falling back to a fixed axis for the zero vector.
fn normalize_or_axis(v: Vec3) -> (r: Vec3)
    requires
        vs_maxabs(v) <= 0x40_0000_0000,
    ensures
        r.x == spec_normalize3(v.x as int, v.y as int, v.z as int).0,
        r.y == spec_normalize3(v.x as int, v.y as int, v.z as int).1,
        r.z == spec_normalize3(v.x as int, v.y as int, v.z as int).2,
        vs_maxabs(r) <= 65536,
{
    let l = v.length();
    if l == 0 {
        Vec3::new(0, 65536, 0)
    } else {
        v.normalize()
    }
}

/// Build a scene from its description: select the fields by name, derive
/// the camera frame, fix the marching parameters (100 steps, maximum
/// distance 255, epsilon 0.001), and attach the fractal iteration fraction
/// as the auxiliary shading field.
pub fn build_scene(description: SceneDescription) -> (s: Scene)
    requires
        vs_maxabs(description.camera_pos) <= 4194304,
        vs_maxabs(description.look_at) <= 4194304,
        description.width > 0,
        description.height > 0,
    ensures
        scene_wf(s),
        s.sdf == spec_scene_kind_of(description.sdf@),
        s.lighting_fn == spec_lighting_kind_of(description.lighting@),
        s.width == description.width,
        s.height == description.height,
        s.start == description.camera_pos,
        s.direction.x == spec_camera_dir(description.camera_pos, description.look_at).0,
        s.direction.y == spec_camera_dir(description.camera_pos, description.look_at).1,
        s.direction.z == spec_camera_dir(description.camera_pos, description.look_at).2,
        ({
            let d = spec_camera_dir(description.camera_pos, description.look_at);
            let xy = spec_screen_xy(d.0, d.1, d.2);
            s.screen_x.x == xy.0.0 && s.screen_x.y == xy.0.1 && s.screen_x.z == xy.0.2
                && s.screen_y.x == xy.1.0 && s.screen_y.y == xy.1.1 && s.screen_y.z == xy.1.2
        }),
        s.max_steps == 100,
        s.max_dist == 16711680,
        s.epsilon == 66,
        s.extra_sdf == Some(AuxKind::MandlebulbIter),
{
    let diff = description.look_at.sub(description.camera_pos);
    let l = diff.length();
    let direction = if l == 0 {
        Vec3::new(0, 0, 65536)
    } else {
        diff.normalize()
    };
    let screen_x;
    let screen_y;
    if fx_abs(direction.y) > fx_abs(direction.x) {
        let c1 = direction.cross(&Vec3::new(-65536, 0, 0));
        proof {
            crate::vec3::lemma_cross_unit_bound(direction, Vec3 { x: -65536i64, y: 0, z: 0 });
        }
        screen_y = normalize_or_axis(c1);
        let c2 = direction.cross(&screen_y);
        proof {
            crate::vec3::lemma_cross_unit_bound(direction, screen_y);
        }
        screen_x = normalize_or_axis(c2);
    } else {
        let c1 = direction.cross(&Vec3::new(0, -65536, 0));
        proof {
            crate::vec3::lemma_cross_unit_bound(direction, Vec3 { x: 0, y: -65536i64, z: 0 });
        }
        screen_x = normalize_or_axis(c1);
        let c2 = direction.cross(&screen_x);
        proof {
            crate::vec3::lemma_cross_unit_bound(direction, screen_x);
        }
        screen_y = normalize_or_axis(c2);
    }
    Scene {
        sdf: scene_kind_of_name(description.sdf.as_str()),
        lighting_fn: lighting_kind_of_name(description.lighting.as_str()),
        width: description.width,
        height: description.height,
        start: description.camera_pos,
        direction,
        screen_x,
        screen_y,
        max_steps: 100,
        max_dist: 16711680,
        epsilon: 66,
        extra_sdf: Some(AuxKind::MandlebulbIter),
    }
}

} // verus!
