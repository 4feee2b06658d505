//! The sphere-tracing engine.
//!
//! A ray is walked through a scene's distance field: each step advances by
//! the field value at the current point, until the ray either escapes past
//! the scene's maximum distance, converges below epsilon (a hit), or
//! exhausts the step budget.  A one-sided finite-difference gradient at the
//! end point feeds the lighting function.  The whole pipeline is pinned to
//! a recursive specification of the loop.

use vstd::prelude::*;
use crate::fixed::{
    fxs_mul, fxs_div, fxs_min, fxs_abs, sqrt_floor, spec_fx_exp, fx_min, fx_abs, fx_div, fx_mul, fx_exp,
    lemma_div_abs_bound, lemma_div_bounds, lemma_div_exact, lemma_sqrt_floor_square,
};
use crate::vec3::{Vec3, vs_maxabs, spec_len3, lemma_mul_abs_le};
use crate::scene::{
    Scene, SceneKind, AuxKind, LightingKind, scene_wf, scene_sdf, spec_scene_sdf,
    aux_sdf, spec_aux_sdf,
};

verus! {

/// Everything the lighting function sees for one pixel: the ray's end
/// point, the estimated normal, the normalized travel distance, the final
/// field value, the ambient term, the auxiliary field value (`ONE` when no
/// auxiliary field is configured) and the normalized step count.
#[derive(Clone, Copy)]
pub struct LightingInfo {
    pub end_pos: Vec3,
    pub normal: Vec3,
    pub ray_dist: i64,
    pub obj_dist: i64,
    pub light: i64,
    pub extra: i64,
    pub steps: i64,
}

/// First lighting model: red fades with travel distance, green counts
/// steps, blue passes the auxiliary value through.
pub open spec fn spec_simple_lighting(ray_dist: int, steps: int, extra: int) -> (int, int, int) {
    (65536 - fxs_min(ray_dist, 65536), steps, extra)
}

pub fn simple_lighting(info: LightingInfo) -> (c: (i64, i64, i64))
    requires
        -0x40_0000_0000_0000 <= info.ray_dist <= 0x40_0000_0000_0000,
    ensures
        c.0 == spec_simple_lighting(info.ray_dist as int, info.steps as int, info.extra as int).0,
        c.1 == spec_simple_lighting(info.ray_dist as int, info.steps as int, info.extra as int).1,
        c.2 == spec_simple_lighting(info.ray_dist as int, info.steps as int, info.extra as int).2,
{
    (65536 - fx_min(info.ray_dist, 65536), info.steps, info.extra)
}

/// The argument `2 / -obj` handed to the exponential falloff; the
/// degenerate `obj == 0` maps to a large negative argument, so the
/// exponential underflows to zero just as it would below an unbounded
/// negative argument.
pub open spec fn spec_exp_arg(obj: int) -> int {
    if obj > 0 {
        -fxs_div(131072, obj)
    } else if obj < 0 {
        fxs_div(131072, -obj)
    } else {
        -2147483648
    }
}

fn exp_arg(obj: i64) -> (q: i64)
    requires
        -0x10_0000_0000 <= obj <= 0x10_0000_0000,
    ensures
        q == spec_exp_arg(obj as int),
        -0x2_0000_0000_0000 <= q <= 0x2_0000_0000_0000,
{
    proof {
        lemma_div_bounds(131072int * 65536, 1);
    }
    if obj > 0 {
        let t = fx_div(131072, obj);
        proof {
            lemma_div_abs_bound(131072int * 65536, obj as int, 131072int * 65536);
        }
        -t
    } else if obj < 0 {
        let t = fx_div(131072, -obj);
        proof {
            lemma_div_abs_bound(131072int * 65536, -obj as int, 131072int * 65536);
        }
        t
    } else {
        -2147483648
    }
}

/// Second lighting model: same red and green, blue an exponential falloff
/// of the final field value scaled by the ambient term.
pub open spec fn spec_simple_lighting_2(
    ray_dist: int, steps: int, obj: int, light: int,
) -> (int, int, int) {
    (
        65536 - fxs_min(ray_dist, 65536),
        steps,
        fxs_mul(65536 - spec_fx_exp(spec_exp_arg(obj)), light),
    )
}

pub fn simple_lighting_2(info: LightingInfo) -> (c: (i64, i64, i64))
    requires
        -0x40_0000_0000_0000 <= info.ray_dist <= 0x40_0000_0000_0000,
        -0x10_0000_0000 <= info.obj_dist <= 0x10_0000_0000,
        0 <= info.light <= 65536,
    ensures
        c.0 == spec_simple_lighting_2(
            info.ray_dist as int, info.steps as int, info.obj_dist as int, info.light as int,
        ).0,
        c.1 == spec_simple_lighting_2(
            info.ray_dist as int, info.steps as int, info.obj_dist as int, info.light as int,
        ).1,
        c.2 == spec_simple_lighting_2(
            info.ray_dist as int, info.steps as int, info.obj_dist as int, info.light as int,
        ).2,
{
    let q = exp_arg(info.obj_dist);
    let e = fx_exp(q);
    proof {
        lemma_mul_abs_le(65536 - e as int, info.light as int, 0x8000_0001_0000, 65536);
        lemma_div_abs_bound((65536 - e as int) * info.light as int, 65536, 0x8000_0001_0000);
    }
    let b = fx_mul(65536 - e, info.light);
    (65536 - fx_min(info.ray_dist, 65536), info.steps, b)
}

/// Normalize a gradient, mapping the degenerate zero gradient to the zero
/// vector (the quantized stand-in for the undefined direction).
pub open spec fn spec_normal3(x: int, y: int, z: int) -> (int, int, int) {
    let l = spec_len3(x, y, z);
    if l <= 0 {
        (0, 0, 0)
    } else {
        (fxs_div(x, l), fxs_div(y, l), fxs_div(z, l))
    }
}

/// Turn four field samples (center and three backward offsets) into a unit
/// normal.  This is also the seam for drivers that march fields of their
/// own: they sample, the library normalizes.
pub fn normal_from_samples(s0: i64, sx: i64, sy: i64, sz: i64) -> (n: Vec3)
    requires
        -0x10_0000_0000 <= s0 <= 0x10_0000_0000,
        -0x10_0000_0000 <= sx <= 0x10_0000_0000,
        -0x10_0000_0000 <= sy <= 0x10_0000_0000,
        -0x10_0000_0000 <= sz <= 0x10_0000_0000,
    ensures
        n.x == spec_normal3(s0 - sx as int, s0 - sy as int, s0 - sz as int).0,
        n.y == spec_normal3(s0 - sx as int, s0 - sy as int, s0 - sz as int).1,
        n.z == spec_normal3(s0 - sx as int, s0 - sy as int, s0 - sz as int).2,
        vs_maxabs(n) <= 65536,
{
    let v = Vec3::new(s0 - sx, s0 - sy, s0 - sz);
    let l = v.length();
    if l == 0 {
        Vec3::new(0, 0, 0)
    } else {
        v.normalize()
    }
}

/// One-sided forward-difference normal at a point, with a fixed offset of
/// 0.001: cheaper than the symmetric estimator at twice the error, the
/// deliberate default trade-off.
pub open spec fn spec_calc_normal(kind: SceneKind, x: int, y: int, z: int) -> (int, int, int) {
    let s0 = spec_scene_sdf(kind, x, y, z);
    spec_normal3(
        s0 - spec_scene_sdf(kind, x - 66, y, z),
        s0 - spec_scene_sdf(kind, x, y - 66, z),
        s0 - spec_scene_sdf(kind, x, y, z - 66),
    )
}

pub fn calc_normal_eff(kind: SceneKind, p: Vec3) -> (n: Vec3)
    requires
        vs_maxabs(p) <= 786431934,
    ensures
        n.x == spec_calc_normal(kind, p.x as int, p.y as int, p.z as int).0,
        n.y == spec_calc_normal(kind, p.x as int, p.y as int, p.z as int).1,
        n.z == spec_calc_normal(kind, p.x as int, p.y as int, p.z as int).2,
        vs_maxabs(n) <= 65536,
{
    let s0 = scene_sdf(kind, p);
    let sx = scene_sdf(kind, p.sub(Vec3::new(66, 0, 0)));
    let sy = scene_sdf(kind, p.sub(Vec3::new(0, 66, 0)));
    let sz = scene_sdf(kind, p.sub(Vec3::new(0, 0, 66)));
    normal_from_samples(s0, sx, sy, sz)
}

/// Symmetric central-difference normal: twice the field evaluations of the
/// one-sided estimator for half the error, an acceptable alternative
/// strategy.
pub open spec fn spec_calc_normal_central(kind: SceneKind, x: int, y: int, z: int) -> (
    int,
    int,
    int,
) {
    spec_normal3(
        spec_scene_sdf(kind, x + 66, y, z) - spec_scene_sdf(kind, x - 66, y, z),
        spec_scene_sdf(kind, x, y + 66, z) - spec_scene_sdf(kind, x, y - 66, z),
        spec_scene_sdf(kind, x, y, z + 66) - spec_scene_sdf(kind, x, y, z - 66),
    )
}

#[verifier::rlimit(100)]
pub fn calc_normal(kind: SceneKind, p: Vec3) -> (n: Vec3)
    requires
        vs_maxabs(p) <= 786431934,
    ensures
        n.x == spec_calc_normal_central(kind, p.x as int, p.y as int, p.z as int).0,
        n.y == spec_calc_normal_central(kind, p.x as int, p.y as int, p.z as int).1,
        n.z == spec_calc_normal_central(kind, p.x as int, p.y as int, p.z as int).2,
        vs_maxabs(n) <= 65536,
{
    let ax = scene_sdf(kind, p.add(Vec3::new(66, 0, 0)));
    let bx = scene_sdf(kind, p.sub(Vec3::new(66, 0, 0)));
    let ay = scene_sdf(kind, p.add(Vec3::new(0, 66, 0)));
    let by = scene_sdf(kind, p.sub(Vec3::new(0, 66, 0)));
    let az = scene_sdf(kind, p.add(Vec3::new(0, 0, 66)));
    let bz = scene_sdf(kind, p.sub(Vec3::new(0, 0, 66)));
    let v = Vec3::new(ax - bx, ay - by, az - bz);
    let l = v.length();
    if l == 0 {
        Vec3::new(0, 0, 0)
    } else {
        v.normalize()
    }
}

/// The point reached after traveling `t` along the ray.
pub open spec fn spec_point_at(
    sx: int, sy: int, sz: int, dx: int, dy: int, dz: int, t: int,
) -> (int, int, int) {
    (sx + fxs_mul(dx, t), sy + fxs_mul(dy, t), sz + fxs_mul(dz, t))
}

/// The chosen scene field as a function of scalar coordinates.
pub open spec fn spec_scene_fn(kind: SceneKind) -> spec_fn(int, int, int) -> int {
    |x: int, y: int, z: int| spec_scene_sdf(kind, x, y, z)
}

/// The marching loop, one recursion per iteration: advance by the last
/// field value, sample the field, and stop on escape past `max_dist` or
/// convergence below `eps`; if the budget runs out the step count reports
/// `max_steps`, and callers read a miss off the traveled distance.
pub open spec fn spec_march_loop(
    f: spec_fn(int, int, int) -> int,
    sx: int, sy: int, sz: int,
    dx: int, dy: int, dz: int,
    max_steps: int, max_dist: int, eps: int,
    i: int, dist: int, radius: int,
) -> (int, int, int)
    decreases max_steps - i,
{
    if i >= max_steps {
        (dist, radius, max_steps)
    } else {
        let d2 = dist + radius;
        let p = spec_point_at(sx, sy, sz, dx, dy, dz, d2);
        let r2 = f(p.0, p.1, p.2);
        if d2 > max_dist || r2 < eps {
            (d2, r2, i)
        } else {
            spec_march_loop(f, sx, sy, sz, dx, dy, dz, max_steps, max_dist, eps, i + 1, d2, r2)
        }
    }
}

/// The marching loop's result for a scene and a view direction.
pub open spec fn spec_march_result(s: Scene, dx: int, dy: int, dz: int) -> (int, int, int) {
    spec_march_loop(
        spec_scene_fn(s.sdf),
        s.start.x as int, s.start.y as int, s.start.z as int,
        dx, dy, dz,
        s.max_steps as int, s.max_dist as int, s.epsilon as int,
        1, 0, 0,
    )
}

/// What one traced ray produced: the end point, the traveled distance, the
/// final field value, and the step count.
pub struct MarchResult {
    pub end_pos: Vec3,
    pub dist: i64,
    pub radius: i64,
    pub steps: u32,
}

/// Trace one ray through the scene's field.  The returned triple is exactly
/// the specification loop's result, and one of the three terminations
/// holds: the ray escaped (`dist > max_dist`), the field converged
/// (`radius < epsilon`), or the budget was spent (`steps == max_steps`).
#[verifier::loop_isolation(false)]
#[verifier::rlimit(100)]
pub fn march_ray(scene: &Scene, view_dir: &Vec3) -> (r: MarchResult)
    requires
        scene_wf(*scene),
        vs_maxabs(*view_dir) <= 131072,
    ensures
        r.dist == spec_march_result(*scene, view_dir.x as int, view_dir.y as int, view_dir.z as int).0,
        r.radius == spec_march_result(*scene, view_dir.x as int, view_dir.y as int, view_dir.z as int).1,
        r.steps == spec_march_result(*scene, view_dir.x as int, view_dir.y as int, view_dir.z as int).2,
        r.end_pos.x == spec_point_at(
            scene.start.x as int, scene.start.y as int, scene.start.z as int,
            view_dir.x as int, view_dir.y as int, view_dir.z as int, r.dist as int,
        ).0,
        r.end_pos.y == spec_point_at(
            scene.start.x as int, scene.start.y as int, scene.start.z as int,
            view_dir.x as int, view_dir.y as int, view_dir.z as int, r.dist as int,
        ).1,
        r.end_pos.z == spec_point_at(
            scene.start.x as int, scene.start.y as int, scene.start.z as int,
            view_dir.x as int, view_dir.y as int, view_dir.z as int, r.dist as int,
        ).2,
        0 <= r.dist <= 384761856,
        fxs_abs(r.radius as int) <= 6256852992,
        vs_maxabs(r.end_pos) <= 773718016,
        1 <= r.steps <= scene.max_steps,
        r.dist > scene.max_dist || r.radius < scene.epsilon || r.steps == scene.max_steps,
{
    let ghost f = spec_scene_fn(scene.sdf);
    let mut dist: i64 = 0;
    let mut radius: i64 = 0;
    let mut steps: u32 = scene.max_steps;
    let mut i: u32 = 1;
    let mut hit = false;
    while i < scene.max_steps && !hit
        invariant
            1 <= i <= scene.max_steps,
            !hit ==> steps == scene.max_steps,
            !hit ==> 0 <= dist <= scene.max_dist,
            !hit ==> 0 <= radius <= 368050176,
            !hit ==> spec_march_loop(
                f,
                scene.start.x as int, scene.start.y as int, scene.start.z as int,
                view_dir.x as int, view_dir.y as int, view_dir.z as int,
                scene.max_steps as int, scene.max_dist as int, scene.epsilon as int,
                i as int, dist as int, radius as int,
            ) == spec_march_result(*scene, view_dir.x as int, view_dir.y as int, view_dir.z as int),
            hit ==> dist == spec_march_result(*scene, view_dir.x as int, view_dir.y as int, view_dir.z as int).0,
            hit ==> radius == spec_march_result(*scene, view_dir.x as int, view_dir.y as int, view_dir.z as int).1,
            hit ==> steps == spec_march_result(*scene, view_dir.x as int, view_dir.y as int, view_dir.z as int).2,
            hit ==> (dist > scene.max_dist || radius < scene.epsilon),
            hit ==> 0 <= dist <= 384761856,
            hit ==> fxs_abs(radius as int) <= 6256852992,
            hit ==> 1 <= steps <= scene.max_steps,
        decreases scene.max_steps - i + (if hit { 0int } else { 1int }),
    {
        let d2 = dist + radius;
        proof {
            lemma_mul_abs_le(view_dir.x as int, d2 as int, 131072, d2 as int);
            lemma_mul_abs_le(view_dir.y as int, d2 as int, 131072, d2 as int);
            lemma_mul_abs_le(view_dir.z as int, d2 as int, 131072, d2 as int);
            assert(131072 * d2 as int == 65536 * (2 * d2 as int));
            lemma_div_abs_bound(view_dir.x as int * d2 as int, 65536, 2 * d2 as int);
            lemma_div_abs_bound(view_dir.y as int * d2 as int, 65536, 2 * d2 as int);
            lemma_div_abs_bound(view_dir.z as int * d2 as int, 65536, 2 * d2 as int);
        }
        let p = scene.start.add(view_dir.scale(d2));
        let r2 = scene_sdf(scene.sdf, p);
        proof {
            assert(f(p.x as int, p.y as int, p.z as int) == spec_scene_sdf(
                scene.sdf, p.x as int, p.y as int, p.z as int,
            ));
        }
        dist = d2;
        radius = r2;
        if dist > scene.max_dist || radius < scene.epsilon {
            steps = i;
            hit = true;
        } else {
            i = i + 1;
        }
    }
    proof {
        if !hit {
            // budget spent: the specification loop at i == max_steps
            // returns the state unchanged with steps == max_steps
            assert(i == scene.max_steps);
        }
    }
    let d = dist;
    proof {
        lemma_mul_abs_le(view_dir.x as int, d as int, 131072, d as int);
        lemma_mul_abs_le(view_dir.y as int, d as int, 131072, d as int);
        lemma_mul_abs_le(view_dir.z as int, d as int, 131072, d as int);
        assert(131072 * d as int == 65536 * (2 * d as int));
        lemma_div_abs_bound(view_dir.x as int * d as int, 65536, 2 * d as int);
        lemma_div_abs_bound(view_dir.y as int * d as int, 65536, 2 * d as int);
        lemma_div_abs_bound(view_dir.z as int * d as int, 65536, 2 * d as int);
    }
    let end_pos = scene.start.add(view_dir.scale(d));
    MarchResult { end_pos, dist, radius, steps }
}

/// Shading of one traced ray: the lighting inputs assembled from the march
/// outcome and dispatched to the scene's lighting function.
pub open spec fn spec_shade(
    s: Scene, ex: int, ey: int, ez: int, dist: int, radius: int, steps: int, extra: int,
) -> (int, int, int) {
    let n = spec_calc_normal(s.sdf, ex, ey, ez);
    let light = fxs_abs(n.0 + n.1 + n.2) / 3;
    let ray_dist = fxs_div(dist, s.max_dist as int);
    let steps_frac = (steps * 65536) / (s.max_steps as int);
    match s.lighting_fn {
        LightingKind::Simple => spec_simple_lighting(ray_dist, steps_frac, extra),
        LightingKind::Simple2 => spec_simple_lighting_2(ray_dist, steps_frac, radius, light),
    }
}

pub fn shade(
    scene: &Scene, end_pos: Vec3, dist: i64, radius: i64, steps: u32, extra: i64,
) -> (c: (i64, i64, i64))
    requires
        scene_wf(*scene),
        vs_maxabs(end_pos) <= 786431934,
        0 <= dist <= 0x40_0000_0000,
        -0x10_0000_0000 <= radius <= 0x10_0000_0000,
        1 <= steps <= scene.max_steps,
        -0x10_0000_0000 <= extra <= 0x10_0000_0000,
    ensures
        c.0 == spec_shade(
            *scene, end_pos.x as int, end_pos.y as int, end_pos.z as int,
            dist as int, radius as int, steps as int, extra as int,
        ).0,
        c.1 == spec_shade(
            *scene, end_pos.x as int, end_pos.y as int, end_pos.z as int,
            dist as int, radius as int, steps as int, extra as int,
        ).1,
        c.2 == spec_shade(
            *scene, end_pos.x as int, end_pos.y as int, end_pos.z as int,
            dist as int, radius as int, steps as int, extra as int,
        ).2,
{
    let normal = calc_normal_eff(scene.sdf, end_pos);
    let light = ((fx_abs(normal.x + normal.y + normal.z) as u64) / 3) as i64;
    let ray_dist = fx_div(dist, scene.max_dist);
    proof {
        lemma_div_bounds(dist as int * 65536, scene.max_dist as int);
    }
    let steps_frac = (((steps as u64) * 65536) / (scene.max_steps as u64)) as i64;
    let info = LightingInfo {
        end_pos,
        normal,
        ray_dist,
        obj_dist: radius,
        light,
        extra,
        steps: steps_frac,
    };
    match scene.lighting_fn {
        LightingKind::Simple => simple_lighting(info),
        LightingKind::Simple2 => simple_lighting_2(info),
    }
}

/// The full per-ray pipeline as a specification: march, auxiliary field at
/// the end point (`ONE` when none is configured), normal, lighting.
pub open spec fn spec_march(s: Scene, dx: int, dy: int, dz: int) -> (int, int, int) {
    let t = spec_march_result(s, dx, dy, dz);
    let ep = spec_point_at(
        s.start.x as int, s.start.y as int, s.start.z as int, dx, dy, dz, t.0,
    );
    let extra = match s.extra_sdf {
        Some(k) => spec_aux_sdf(k, ep.0, ep.1, ep.2),
        None => 65536,
    };
    spec_shade(s, ep.0, ep.1, ep.2, t.0, t.1, t.2, extra)
}

/// Trace one ray and shade it: the color triple of the whole pipeline, in
/// fixed point, roughly in [0, 1] per channel (callers clamp before
/// quantizing).
pub fn march(scene: &Scene, view_dir: &Vec3) -> (c: (i64, i64, i64))
    requires
        scene_wf(*scene),
        vs_maxabs(*view_dir) <= 131072,
    ensures
        c.0 == spec_march(*scene, view_dir.x as int, view_dir.y as int, view_dir.z as int).0,
        c.1 == spec_march(*scene, view_dir.x as int, view_dir.y as int, view_dir.z as int).1,
        c.2 == spec_march(*scene, view_dir.x as int, view_dir.y as int, view_dir.z as int).2,
{
    let mr = march_ray(scene, view_dir);
    let extra = match scene.extra_sdf {
        Some(k) => aux_sdf(k, mr.end_pos),
        None => 65536,
    };
    shade(scene, mr.end_pos, mr.dist, mr.radius, mr.steps, extra)
}

/// Progress and termination of the marching loop over any field bounded
/// between `delta` and `cap`: the traveled distance grows by at least
/// `delta` per counted step, the final field value is at least `delta`,
/// and a loop that stops before the budget did so by escaping or
/// converging.
pub proof fn lemma_march_loop_progress(
    f: spec_fn(int, int, int) -> int,
    sx: int, sy: int, sz: int,
    dx: int, dy: int, dz: int,
    max_steps: int, max_dist: int, eps: int, delta: int, cap: int,
    i: int, dist: int, radius: int,
)
    requires
        forall|x: int, y: int, z: int| delta <= #[trigger] f(x, y, z) <= cap,
        0 < eps <= delta <= cap,
        1 <= i,
        0 <= radius <= cap,
    ensures
        ({
            let r = spec_march_loop(
                f, sx, sy, sz, dx, dy, dz, max_steps, max_dist, eps, i, dist, radius,
            );
            r.0 >= dist + radius + (r.2 - i) * delta - cap - delta
            && (i < max_steps ==> r.1 >= delta)
            && (r.2 < max_steps ==> (r.0 > max_dist || r.1 < eps))
            && (i <= max_steps ==> i <= r.2 <= max_steps)
        }),
    decreases max_steps - i,
{
    let r = spec_march_loop(f, sx, sy, sz, dx, dy, dz, max_steps, max_dist, eps, i, dist, radius);
    if i >= max_steps {
        assert(r == (dist, radius, max_steps));
        assert((r.2 - i) * delta <= 0) by (nonlinear_arith)
            requires
                r.2 - i <= 0,
                delta > 0,
        ;
        assert(r.0 >= dist + radius + (r.2 - i) * delta - cap - delta);
    } else {
        let d2 = dist + radius;
        let p = spec_point_at(sx, sy, sz, dx, dy, dz, d2);
        let r2 = f(p.0, p.1, p.2);
        assert(delta <= r2 <= cap);
        if d2 > max_dist || r2 < eps {
            assert(r == (d2, r2, i));
            assert((r.2 - i) * delta == 0) by (nonlinear_arith)
                requires
                    r.2 == i,
            ;
            assert(r.0 >= dist + radius + (r.2 - i) * delta - cap - delta);
        } else {
            lemma_march_loop_progress(
                f, sx, sy, sz, dx, dy, dz, max_steps, max_dist, eps, delta, cap,
                i + 1, d2, r2,
            );
            let rs = spec_march_loop(
                f, sx, sy, sz, dx, dy, dz, max_steps, max_dist, eps, i + 1, d2, r2,
            );
            assert(r == rs);
            assert((rs.2 - (i + 1)) * delta == (rs.2 - i) * delta - delta) by (nonlinear_arith);
            assert(rs.0 >= d2 + r2 + (rs.2 - (i + 1)) * delta - cap - delta);
            assert(r.0 >= dist + radius + (r.2 - i) * delta - cap - delta);
            if i + 1 < max_steps {
                assert(r.1 >= delta);
            } else {
                assert(rs == (d2, r2, max_steps));
                assert(r.1 >= delta);
            }
        }
    }
}

/// A ray aimed away from all geometry: when the field is everywhere at
/// least `delta` (no surface within reach of `eps`) and the step budget
/// suffices, the march reports the miss with a traveled distance beyond
/// `max_dist`, never a converged hit.
pub proof fn lemma_march_miss(
    f: spec_fn(int, int, int) -> int,
    sx: int, sy: int, sz: int,
    dx: int, dy: int, dz: int,
    max_steps: int, max_dist: int, eps: int, delta: int, cap: int,
)
    requires
        forall|x: int, y: int, z: int| delta <= #[trigger] f(x, y, z) <= cap,
        0 < eps <= delta <= cap,
        2 <= max_steps,
        0 <= max_dist,
        (max_steps - 2) * delta > max_dist + cap,
    ensures
        ({
            let r = spec_march_loop(
                f, sx, sy, sz, dx, dy, dz, max_steps, max_dist, eps, 1, 0, 0,
            );
            r.0 > max_dist && r.1 >= eps
        }),
{
    lemma_march_loop_progress(
        f, sx, sy, sz, dx, dy, dz, max_steps, max_dist, eps, delta, cap, 1, 0, 0,
    );
    let r = spec_march_loop(f, sx, sy, sz, dx, dy, dz, max_steps, max_dist, eps, 1, 0, 0);
    if r.2 == max_steps {
        assert((r.2 - 1) * delta == (max_steps - 2) * delta + delta) by (nonlinear_arith)
            requires
                r.2 == max_steps,
        ;
    }
}

/// An exact sphere as a field of its own, for reasoning about the tracer
/// against closed-form geometry.
pub open spec fn spec_sphere_at(cx: int, cy: int, cz: int, rad: int) -> spec_fn(int, int, int) -> int {
    |x: int, y: int, z: int| spec_len3(x - cx, y - cy, z - cz) - rad
}

/// Sphere tracing against an exact sphere dead ahead: a ray cast along the
/// positive z axis at a sphere of radius `rad` centered `dd` away reaches
/// the surface in two steps, with the traveled distance exactly
/// `dd - rad` (well within epsilon) and far below any step budget.
pub proof fn lemma_march_sphere_exact(
    sx: int, sy: int, sz: int, dd: int, rad: int, max_steps: int, max_dist: int, eps: int,
)
    requires
        0 < eps,
        0 <= rad,
        eps <= dd - rad,
        dd - rad <= max_dist,
        3 <= max_steps,
    ensures
        ({
            let r = spec_march_loop(
                spec_sphere_at(sx, sy, sz + dd, rad),
                sx, sy, sz, 0, 0, 65536,
                max_steps, max_dist, eps, 1, 0, 0,
            );
            r.0 == dd - rad && r.1 == 0 && r.2 == 2
        }),
{
    reveal_with_fuel(spec_march_loop, 3);
    let f = spec_sphere_at(sx, sy, sz + dd, rad);
    crate::fixed::lemma_div_exact(0, 65536, 0);
    assert(fxs_mul(0, 0) == 0);
    assert(fxs_mul(0, dd - rad) == 0) by {
        assert(0 * (dd - rad) == 0) by (nonlinear_arith);
    }
    vstd::arithmetic::div_mod::lemma_div_multiples_vanish(0, 65536);
    vstd::arithmetic::div_mod::lemma_div_multiples_vanish(dd - rad, 65536);
    assert(fxs_mul(65536, dd - rad) == dd - rad);
    // the field at the start point and at the two-step point
    assert((sz + 0) - (sz + dd) == -dd);
    assert((-dd) * (-dd) == dd * dd) by (nonlinear_arith);
    lemma_sqrt_floor_square(dd);
    assert(f(sx, sy, sz) == dd - rad) by {
        assert(spec_len3(sx - sx, sy - sy, sz - (sz + dd)) == sqrt_floor(
            0 * 0 + 0 * 0 + (-dd) * (-dd),
        ));
        assert(0 * 0 == 0) by (nonlinear_arith);
    }
    assert((-rad) * (-rad) == rad * rad) by (nonlinear_arith);
    lemma_sqrt_floor_square(rad);
    assert(f(sx, sy, sz + (dd - rad)) == 0) by {
        assert(spec_len3(sx - sx, sy - sy, sz + (dd - rad) - (sz + dd)) == sqrt_floor(
            0 * 0 + 0 * 0 + (-rad) * (-rad),
        ));
        assert(0 * 0 == 0) by (nonlinear_arith);
    }
}

} // verus!
