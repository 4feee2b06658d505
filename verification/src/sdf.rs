//! Signed-distance-field primitives.
//!
//! Each primitive is a pure function of a point (plus fixed parameters)
//! returning a signed fixed-point distance; negative values lie inside the
//! solid.  The specification functions mirror the fixed-point arithmetic
//! exactly, over unbounded integers.

use vstd::prelude::*;
use crate::fixed::{
    fxs_mul, fxs_div, fxs_min, fxs_abs, fxs_floor, fxs_fract, sqrt_floor,
    fxs_smooth_min, fxs_smooth_max, fx_mul, fx_div, fx_floor, fx_fract, fx_min,
    floor_div, isqrt, smooth_min, smooth_max,
    lemma_sqrt_floor_props, lemma_sqrt_floor_le, lemma_div_abs_bound, lemma_div_exact,
    lemma_smooth_min_le,
};
use crate::vec3::{Vec3, vs_maxabs, lemma_mul_abs_le};

verus! {

/// Largest coordinate magnitude the hash grid accepts.
pub const COORD_MAX: i64 = 16384 * 65536;

/// Half-range into which the fractal-noise octave transform wraps each
/// coordinate, one grid cell inside `COORD_MAX`.
pub const WRAP_MAX: i64 = 16383 * 65536;

/// The fixed scene sphere sits at (0, 0, 3) with radius 2.
pub open spec fn spec_sphere_sdf(x: int, y: int, z: int) -> int {
    sqrt_floor(x * x + y * y + (z - 196608) * (z - 196608)) - 131072
}

/// Signed distance to the fixed sphere centered at (0, 0, 3) with radius 2:
/// the length of the offset from the center, minus the radius.
pub fn sphere_sdf(p: Vec3) -> (r: i64)
    requires
        vs_maxabs(p) <= WRAP_MAX,
    ensures
        r == spec_sphere_sdf(p.x as int, p.y as int, p.z as int),
        -131072 <= r,
        r <= 2 * vs_maxabs(p) + 262144,
{
    let d = p.sub(Vec3::new(0, 0, 196608));
    let len = d.length();
    len - 131072
}

/// Signed distance to the plane with the given normal and offset:
/// `dot(p, normal) - offset`.  The normal is a caller contract (unit-length
/// for exactness) and the contract bounds only its components.
pub open spec fn spec_plane_sdf(
    x: int, y: int, z: int, nx: int, ny: int, nz: int, dist: int,
) -> int {
    (x * nx + y * ny + z * nz) / 65536 - dist
}

pub fn plane_sdf(p: Vec3, plane: Vec3, dist: i64) -> (r: i64)
    requires
        vs_maxabs(p) <= WRAP_MAX,
        vs_maxabs(plane) <= 131072,
        -0x100_0000_0000 <= dist <= 0x100_0000_0000,
    ensures
        r == spec_plane_sdf(
            p.x as int, p.y as int, p.z as int,
            plane.x as int, plane.y as int, plane.z as int, dist as int,
        ),
        fxs_abs(r as int) <= 6 * vs_maxabs(p) + fxs_abs(dist as int) + 1,
{
    let d = p.dot(&plane);
    proof {
        let raw = p.x as int * plane.x as int + p.y as int * plane.y as int
            + p.z as int * plane.z as int;
        let m = vs_maxabs(p);
        lemma_mul_abs_le(p.x as int, plane.x as int, m, 131072);
        lemma_mul_abs_le(p.y as int, plane.y as int, m, 131072);
        lemma_mul_abs_le(p.z as int, plane.z as int, m, 131072);
        // |raw| <= 3 * m * 131072 == 65536 * (6 * m)
        assert(3 * (m * 131072) == 65536 * (6 * m)) by (nonlinear_arith);
        lemma_div_abs_bound(raw, 65536, 6 * m);
    }
    d - dist
}

/// Signed distance to the origin-centered torus whose ring of radius `dia`
/// lies in the XZ plane, with tube radius `thickness`.
pub open spec fn spec_torus_sdf(x: int, y: int, z: int, dia: int, th: int) -> int {
    let q = sqrt_floor(x * x + z * z) - dia;
    sqrt_floor(q * q + y * y) - th
}

pub fn torus_sdf(p: Vec3, dia: i64, thickness: i64) -> (r: i64)
    requires
        vs_maxabs(p) <= 0x40_0000_0000,
        0 <= dia <= 0x100_0000_0000,
        0 <= thickness <= 0x100_0000_0000,
    ensures
        r == spec_torus_sdf(p.x as int, p.y as int, p.z as int, dia as int, thickness as int),
        -thickness <= r,
        r <= 4 * vs_maxabs(p) + 2 * dia,
{
    let m: Ghost<int> = Ghost(vs_maxabs(p));
    proof {
        lemma_mul_abs_le(p.x as int, p.x as int, m@, m@);
        lemma_mul_abs_le(p.z as int, p.z as int, m@, m@);
        assert(0 <= p.x as int * p.x as int) by (nonlinear_arith);
        assert(0 <= p.z as int * p.z as int) by (nonlinear_arith);
        assert(m@ * m@ <= 0x40_0000_0000 * 0x40_0000_0000) by (nonlinear_arith)
            requires
                0 <= m@ <= 0x40_0000_0000,
        ;
        assert((p.x as int * p.x as int + p.z as int * p.z as int) < ((2 * m@ + 1) * (2 * m@
            + 1))) by (nonlinear_arith)
            requires
                0 <= p.x as int * p.x as int <= m@ * m@,
                0 <= p.z as int * p.z as int <= m@ * m@,
                0 <= m@,
        ;
    }
    let sq1 = (p.x as i128) * (p.x as i128) + (p.z as i128) * (p.z as i128);
    let s1 = isqrt(sq1 as u128);
    proof {
        lemma_sqrt_floor_le(sq1 as int, 2 * m@);
    }
    let q = (s1 as i64) - dia;
    proof {
        assert(fxs_abs(q as int) <= 2 * m@ + dia);
        lemma_mul_abs_le(q as int, q as int, 2 * m@ + dia, 2 * m@ + dia);
        lemma_mul_abs_le(p.y as int, p.y as int, m@, m@);
        assert(0 <= q as int * q as int) by (nonlinear_arith);
        assert(0 <= p.y as int * p.y as int) by (nonlinear_arith);
        let c = 2 * m@ + dia;
        assert(c * c <= 0x180_0000_0000 * 0x180_0000_0000) by (nonlinear_arith)
            requires
                0 <= c <= 0x180_0000_0000,
        ;
        assert((q as int * q as int + p.y as int * p.y as int) < ((2 * c + 1) * (2 * c + 1)))
            by (nonlinear_arith)
            requires
                0 <= q as int * q as int <= c * c,
                0 <= p.y as int * p.y as int <= m@ * m@,
                0 <= m@ <= c,
        ;
    }
    let sq2 = (q as i128) * (q as i128) + (p.y as i128) * (p.y as i128);
    let s2 = isqrt(sq2 as u128);
    proof {
        lemma_sqrt_floor_le(sq2 as int, 2 * (2 * m@ + dia));
        lemma_sqrt_floor_props(sq2 as int);
    }
    (s2 as i64) - thickness
}

/// The sign of a `sqrt_floor(n) - r` distance against the squared ground
/// truth: strictly negative exactly when `n` is inside the square of `r`,
/// nonpositive whenever `n` is at most that square, and nonpositive only
/// when `n` is within one rounding unit of it.
pub proof fn lemma_sqrt_floor_sign(n: int, r: int)
    requires
        n >= 0,
        r >= 0,
    ensures
        (sqrt_floor(n) - r < 0) <==> (n < r * r),
        n <= r * r ==> sqrt_floor(n) - r <= 0,
        sqrt_floor(n) - r <= 0 ==> n < (r + 1) * (r + 1),
{
    lemma_sqrt_floor_props(n);
    let s = sqrt_floor(n);
    if s < r {
        assert(n < r * r) by (nonlinear_arith)
            requires
                n < (s + 1) * (s + 1),
                s + 1 <= r,
                0 <= s,
        ;
    }
    if n < r * r {
        if s >= r {
            assert(r * r <= s * s) by (nonlinear_arith)
                requires
                    0 <= r <= s,
            ;
        }
    }
    if n <= r * r {
        if s > r {
            assert(n < s * s) by (nonlinear_arith)
                requires
                    n <= r * r,
                    0 <= r < s,
            ;
        }
    }
    if s <= r {
        assert(n < (r + 1) * (r + 1)) by (nonlinear_arith)
            requires
                n < (s + 1) * (s + 1),
                s <= r,
                0 <= s,
        ;
    }
}

/// Containment for the fixed sphere: strictly inside exactly when the
/// squared offset from the center is below the squared radius; points on or
/// inside the ball always report a nonpositive distance, and a nonpositive
/// distance puts the point within one rounding unit of the ball.
pub proof fn lemma_sphere_sdf_sign(x: int, y: int, z: int)
    ensures
        (spec_sphere_sdf(x, y, z) < 0) <==> (x * x + y * y + (z - 196608) * (z - 196608)
            < 131072 * 131072),
        x * x + y * y + (z - 196608) * (z - 196608) <= 131072 * 131072
            ==> spec_sphere_sdf(x, y, z) <= 0,
        spec_sphere_sdf(x, y, z) <= 0 ==> x * x + y * y + (z - 196608) * (z - 196608)
            < 131073 * 131073,
{
    let n = x * x + y * y + (z - 196608) * (z - 196608);
    assert(x * x >= 0 && y * y >= 0 && (z - 196608) * (z - 196608) >= 0) by (nonlinear_arith);
    lemma_sqrt_floor_sign(n, 131072);
}

/// Containment for the torus: the distance is nonpositive exactly when the
/// squared offset from the ring circle reaches the squared tube radius, up
/// to one rounding unit.
pub proof fn lemma_torus_sdf_sign(x: int, y: int, z: int, dia: int, th: int)
    requires
        th >= 0,
    ensures
        ({
            let q = sqrt_floor(x * x + z * z) - dia;
            ((spec_torus_sdf(x, y, z, dia, th) < 0) <==> (q * q + y * y < th * th))
            && (q * q + y * y <= th * th ==> spec_torus_sdf(x, y, z, dia, th) <= 0)
            && (spec_torus_sdf(x, y, z, dia, th) <= 0 ==> q * q + y * y < (th + 1) * (th + 1))
        }),
{
    let q = sqrt_floor(x * x + z * z) - dia;
    let n = q * q + y * y;
    assert(q * q >= 0 && y * y >= 0) by (nonlinear_arith);
    lemma_sqrt_floor_sign(n, th);
}

/// Containment for the plane: the distance is nonpositive exactly when the
/// raw (unscaled) projection stays below the offset plus one rounding unit,
/// and strictly negative exactly when it is strictly below the offset.
pub proof fn lemma_plane_sdf_sign(
    x: int, y: int, z: int, nx: int, ny: int, nz: int, dist: int,
)
    ensures
        (spec_plane_sdf(x, y, z, nx, ny, nz, dist) < 0) <==> (x * nx + y * ny + z * nz
            < dist * 65536),
        (spec_plane_sdf(x, y, z, nx, ny, nz, dist) <= 0) <==> (x * nx + y * ny + z * nz
            < (dist + 1) * 65536),
{
    let raw = x * nx + y * ny + z * nz;
    let d = raw / 65536;
    vstd::arithmetic::div_mod::lemma_fundamental_div_mod(raw, 65536);
    if raw < dist * 65536 {
        assert((dist * 65536 - 1) / 65536 == dist - 1) by {
            assert(dist * 65536 - 1 == 65536 * (dist - 1) + 65535) by (nonlinear_arith);
            vstd::arithmetic::div_mod::lemma_fundamental_div_mod_converse_div(
                dist * 65536 - 1, 65536, dist - 1, 65535,
            );
        }
        vstd::arithmetic::div_mod::lemma_div_is_ordered(raw, dist * 65536 - 1, 65536);
    }
    if d < dist {
        if raw >= dist * 65536 {
            assert(dist * 65536 == 65536 * dist) by (nonlinear_arith);
            lemma_div_exact(dist * 65536, 65536, dist);
            vstd::arithmetic::div_mod::lemma_div_is_ordered(dist * 65536, raw, 65536);
        }
    }
    if raw < (dist + 1) * 65536 {
        assert(((dist + 1) * 65536 - 1) / 65536 == dist) by {
            assert((dist + 1) * 65536 - 1 == 65536 * dist + 65535) by (nonlinear_arith);
            vstd::arithmetic::div_mod::lemma_fundamental_div_mod_converse_div(
                (dist + 1) * 65536 - 1, 65536, dist, 65535,
            );
        }
        vstd::arithmetic::div_mod::lemma_div_is_ordered(raw, (dist + 1) * 65536 - 1, 65536);
    }
    if d <= dist {
        if raw >= (dist + 1) * 65536 {
            assert((dist + 1) * 65536 == 65536 * (dist + 1)) by (nonlinear_arith);
            lemma_div_exact((dist + 1) * 65536, 65536, dist + 1);
            vstd::arithmetic::div_mod::lemma_div_is_ordered((dist + 1) * 65536, raw, 65536);
        }
    }
}

/// The per-cell hash: `h = x*37476.1393 + y*668.265263 + z`, then
/// `t = fract(h) * 1274.64 * (floor(h) / 6177.1)`, and finally
/// `fract(t) * 0.5`, all in fixed point.  The constants are the fixed-point
/// roundings of the decimal ones; the hash is deliberate nonsense, a cheap
/// deterministic scatter, not a general-purpose hash.
#[verifier::opaque]
pub open spec fn spec_simple_hash(x: int, y: int, z: int) -> int {
    let h = fxs_mul(x, 2456036265) + fxs_mul(y, 43795432) + z;
    let t = fxs_mul(fxs_mul(fxs_fract(h), 83534807), fxs_div(fxs_floor(h), 404822426));
    fxs_mul(fxs_fract(t), 32768)
}

/// Hash a grid point to a scalar in (-0.5, 0.5); nonnegative for
/// nonnegative grid coordinates.
pub fn simple_hash(grid: Vec3) -> (r: i64)
    requires
        vs_maxabs(grid) <= COORD_MAX,
    ensures
        r == spec_simple_hash(grid.x as int, grid.y as int, grid.z as int),
        -32768 <= r <= 32768,
{
    proof {
        reveal(spec_simple_hash);
    }
    let hx = fx_mul(grid.x, 2456036265);
    let hy = fx_mul(grid.y, 43795432);
    proof {
        lemma_div_abs_bound(grid.x as int * 2456036265, 65536, 45_000_000_000_000);
        lemma_div_abs_bound(grid.y as int * 43795432, 65536, 800_000_000_000);
    }
    let h = hx + hy + grid.z;
    let fr = fx_fract(h);
    let fl = fx_floor(h);
    let t1 = fx_mul(fr, 83534807);
    proof {
        lemma_div_abs_bound(fr as int * 83534807, 65536, 83534807);
    }
    let t2 = fx_div(fl, 404822426);
    proof {
        lemma_div_abs_bound(fl as int * 65536, 404822426, 8_000_000_000);
        lemma_mul_abs_le(t1 as int, t2 as int, 83534807, 8_000_000_000);
    }
    let t = fx_mul(t1, t2);
    proof {
        lemma_div_abs_bound(t1 as int * t2 as int, 65536, 20_000_000_000_000);
    }
    let fr2 = fx_fract(t);
    let r = fx_mul(fr2, 32768);
    proof {
        lemma_div_abs_bound(fr2 as int * 32768, 65536, 32768);
    }
    r
}

/// One candidate sphere of the random grid: the distance from the
/// fractional offset to the given cell corner, minus half the hash of the
/// corner's own grid coordinate as the radius.
#[verifier::opaque]
pub open spec fn spec_grid_sphere(
    gx: int, gy: int, gz: int, fx: int, fy: int, fz: int, cx: int, cy: int, cz: int,
) -> int {
    sqrt_floor((fx - cx) * (fx - cx) + (fy - cy) * (fy - cy) + (fz - cz) * (fz - cz))
        - fxs_mul(32768, spec_simple_hash(gx + cx, gy + cy, gz + cz))
}

pub fn grid_sphere(grid: Vec3, frac: Vec3, corner: Vec3) -> (r: i64)
    requires
        fxs_abs(grid.x + corner.x as int) <= COORD_MAX,
        fxs_abs(grid.y + corner.y as int) <= COORD_MAX,
        fxs_abs(grid.z + corner.z as int) <= COORD_MAX,
        vs_maxabs(frac) <= 65536,
        corner.x == 0 || corner.x == 65536,
        corner.y == 0 || corner.y == 65536,
        corner.z == 0 || corner.z == 65536,
    ensures
        r == spec_grid_sphere(
            grid.x as int, grid.y as int, grid.z as int,
            frac.x as int, frac.y as int, frac.z as int,
            corner.x as int, corner.y as int, corner.z as int,
        ),
        -16384 <= r <= 300000,
{
    proof {
        reveal(spec_grid_sphere);
    }
    let cell = grid.add(corner);
    let h = simple_hash(cell);
    let radius = fx_mul(32768, h);
    proof {
        lemma_div_abs_bound(32768 * h as int, 65536, 16384);
    }
    let d = frac.sub(corner);
    let len = d.length();
    len - radius
}

/// A deterministic pseudo-random sphere per unit grid cell: the point is
/// split into its integer cell and fractional offset, each of the 8 cell
/// corners contributes a sphere whose radius is hashed from that corner's
/// own grid coordinate, and the closest one wins.
#[verifier::opaque]
pub open spec fn spec_random_sphere_grid(x: int, y: int, z: int) -> int {
    let gx = fxs_floor(x);
    let gy = fxs_floor(y);
    let gz = fxs_floor(z);
    let fx = fxs_fract(x);
    let fy = fxs_fract(y);
    let fz = fxs_fract(z);
    fxs_min(
        fxs_min(
            fxs_min(
                spec_grid_sphere(gx, gy, gz, fx, fy, fz, 0, 0, 0),
                spec_grid_sphere(gx, gy, gz, fx, fy, fz, 0, 0, 65536),
            ),
            fxs_min(
                spec_grid_sphere(gx, gy, gz, fx, fy, fz, 0, 65536, 0),
                spec_grid_sphere(gx, gy, gz, fx, fy, fz, 0, 65536, 65536),
            ),
        ),
        fxs_min(
            fxs_min(
                spec_grid_sphere(gx, gy, gz, fx, fy, fz, 65536, 0, 0),
                spec_grid_sphere(gx, gy, gz, fx, fy, fz, 65536, 0, 65536),
            ),
            fxs_min(
                spec_grid_sphere(gx, gy, gz, fx, fy, fz, 65536, 65536, 0),
                spec_grid_sphere(gx, gy, gz, fx, fy, fz, 65536, 65536, 65536),
            ),
        ),
    )
}

pub fn random_sphere_grid(p: Vec3) -> (r: i64)
    requires
        vs_maxabs(p) <= WRAP_MAX,
    ensures
        r == spec_random_sphere_grid(p.x as int, p.y as int, p.z as int),
        -16384 <= r <= 300000,
{
    proof {
        reveal(spec_random_sphere_grid);
    }
    let grid = Vec3::new(fx_floor(p.x), fx_floor(p.y), fx_floor(p.z));
    let frac = Vec3::new(fx_fract(p.x), fx_fract(p.y), fx_fract(p.z));
    let a = fx_min(
        grid_sphere(grid, frac, Vec3::new(0, 0, 0)),
        grid_sphere(grid, frac, Vec3::new(0, 0, 65536)),
    );
    let b = fx_min(
        grid_sphere(grid, frac, Vec3::new(0, 65536, 0)),
        grid_sphere(grid, frac, Vec3::new(0, 65536, 65536)),
    );
    let c = fx_min(
        grid_sphere(grid, frac, Vec3::new(65536, 0, 0)),
        grid_sphere(grid, frac, Vec3::new(65536, 0, 65536)),
    );
    let d = fx_min(
        grid_sphere(grid, frac, Vec3::new(65536, 65536, 0)),
        grid_sphere(grid, frac, Vec3::new(65536, 65536, 65536)),
    );
    fx_min(fx_min(a, b), fx_min(c, d))
}

/// The stochastic grid is a pure function of the queried point: equal
/// points always hash to equal radii and distances, however often and from
/// however many workers the field is evaluated.
pub proof fn lemma_random_sphere_grid_deterministic(p: Vec3, q: Vec3)
    requires
        p.x == q.x,
        p.y == q.y,
        p.z == q.z,
    ensures
        spec_random_sphere_grid(p.x as int, p.y as int, p.z as int)
            == spec_random_sphere_grid(q.x as int, q.y as int, q.z as int),
{
}

/// Wrap a scalar into `[-WRAP_MAX, WRAP_MAX)`.  The octave transform of the
/// fractal-noise field grows coordinates quadratically; this centered
/// remainder keeps them in the hash grid's domain while preserving the
/// cell-local structure.
pub open spec fn spec_wrap(c: int) -> int {
    (c + 1073676288) % 2147352576 - 1073676288
}

pub fn wrap_coord(c: i64) -> (r: i64)
    requires
        -0x1000_0000_0000_0000 <= c <= 0x1000_0000_0000_0000,
    ensures
        r == spec_wrap(c as int),
        -1073676288 <= r < 1073676288,
{
    let m = c + 1073676288;
    let q = floor_div(m as i128, 2147352576);
    proof {
        lemma_div_abs_bound(m as int, 2147352576, 600_000_000);
        vstd::arithmetic::div_mod::lemma_fundamental_div_mod(m as int, 2147352576);
        vstd::arithmetic::div_mod::lemma_mod_bound(m as int, 2147352576);
    }
    let rem = m - (q as i64) * 2147352576;
    rem - 1073676288
}

/// One octave of the fractal-noise accumulation: evaluate the sphere grid
/// at the octave's amplitude, fold it into the running distance with a
/// smooth-max then a smooth-min (blend radius `0.3 * scale`), and shear,
/// rotate and wrap the point for the next octave.
#[verifier::opaque]
pub open spec fn spec_fbm_d(x: int, y: int, z: int, d: int, scale: int) -> int {
    let n = fxs_mul(scale, spec_random_sphere_grid(x, y, z));
    let k = fxs_mul(19661, scale);
    let n1 = fxs_smooth_max(n, d - fxs_mul(6554, scale), k);
    fxs_smooth_min(n1, d, k)
}

#[verifier::opaque]
pub open spec fn spec_fbm_px(x: int, y: int, z: int) -> int {
    spec_wrap(fxs_mul(fxs_mul(104858, y) + fxs_mul(78643, z), x))
}

#[verifier::opaque]
pub open spec fn spec_fbm_py(x: int, y: int, z: int) -> int {
    spec_wrap(fxs_mul(fxs_mul(-104858, x) + fxs_mul(47186, y) - fxs_mul(62915, z), y))
}

#[verifier::opaque]
pub open spec fn spec_fbm_pz(x: int, y: int, z: int) -> int {
    spec_wrap(fxs_mul(fxs_mul(-78643, x) - fxs_mul(62915, y) - fxs_mul(83886, z), z))
}

fn fbm_step(p: Vec3, d: i64, scale: i64) -> (r: (Vec3, i64))
    requires
        vs_maxabs(p) <= WRAP_MAX,
        8192 <= scale <= 65536,
        -0x200_0000_0000 <= d <= 0x200_0000_0000,
    ensures
        r.1 == spec_fbm_d(p.x as int, p.y as int, p.z as int, d as int, scale as int),
        r.0.x == spec_fbm_px(p.x as int, p.y as int, p.z as int),
        r.0.y == spec_fbm_py(p.x as int, p.y as int, p.z as int),
        r.0.z == spec_fbm_pz(p.x as int, p.y as int, p.z as int),
        vs_maxabs(r.0) <= WRAP_MAX,
        fxs_abs(r.1 as int) <= fxs_abs(d as int) + 320000,
{
    proof {
        reveal(spec_fbm_d);
        reveal(spec_fbm_px);
        reveal(spec_fbm_py);
        reveal(spec_fbm_pz);
    }
    let g = random_sphere_grid(p);
    proof {
        assert(fxs_abs(scale as int * g as int) <= 65536 * 300000) by (nonlinear_arith)
            requires
                0 < scale <= 65536,
                -300000 <= g <= 300000,
        ;
        lemma_div_abs_bound(scale as int * g as int, 65536, 300000);
    }
    let n = fx_mul(scale, g);
    let k = fx_mul(19661, scale);
    proof {
        vstd::arithmetic::div_mod::lemma_div_is_ordered(161062912, 19661 * scale as int, 65536);
        vstd::arithmetic::div_mod::lemma_fundamental_div_mod_converse_div(
            161062912, 65536, 2457, 40960,
        );
        vstd::arithmetic::div_mod::lemma_div_is_ordered(19661 * scale as int, 19661int * 65536, 65536);
        lemma_div_exact(19661int * 65536, 65536, 19661);
    }
    let off = fx_mul(6554, scale);
    proof {
        lemma_div_abs_bound(6554 * scale as int, 65536, 6554);
        vstd::arithmetic::div_mod::lemma_div_pos_is_pos(6554 * scale as int, 65536);
    }
    let n1 = smooth_max(n, d - off, k);
    proof {
        // upper slack of the smooth blends: at most k/4 <= 5000 each
        lemma_smooth_min_le(-n as int, -(d - off) as int, k as int);
        vstd::arithmetic::div_mod::lemma_div_is_ordered(k as int, 20000, 4);
        lemma_div_exact(20000, 4, 5000);
    }
    let d2 = smooth_min(n1, d, k);
    proof {
        lemma_smooth_min_le(n1 as int, d as int, k as int);
    }
    let t_yx = fx_mul(104858, p.y);
    let t_zx = fx_mul(78643, p.z);
    let t_xy = fx_mul(-104858, p.x);
    let t_yy = fx_mul(47186, p.y);
    let t_zy = fx_mul(62915, p.z);
    let t_xz = fx_mul(-78643, p.x);
    let t_yz = fx_mul(62915, p.y);
    let t_zz = fx_mul(83886, p.z);
    proof {
        lemma_div_abs_bound(104858 * p.y as int, 65536, 1_800_000_000);
        lemma_div_abs_bound(78643 * p.z as int, 65536, 1_800_000_000);
        lemma_div_abs_bound(-104858 * p.x as int, 65536, 1_800_000_000);
        lemma_div_abs_bound(47186 * p.y as int, 65536, 1_800_000_000);
        lemma_div_abs_bound(62915 * p.z as int, 65536, 1_800_000_000);
        lemma_div_abs_bound(-78643 * p.x as int, 65536, 1_800_000_000);
        lemma_div_abs_bound(62915 * p.y as int, 65536, 1_800_000_000);
        lemma_div_abs_bound(83886 * p.z as int, 65536, 1_800_000_000);
    }
    let mx = t_yx + t_zx;
    let my = t_xy + t_yy - t_zy;
    let mz = t_xz - t_yz - t_zz;
    proof {
        lemma_mul_abs_le(mx as int, p.x as int, 5_400_000_000, 1_073_676_288);
        lemma_mul_abs_le(my as int, p.y as int, 5_400_000_000, 1_073_676_288);
        lemma_mul_abs_le(mz as int, p.z as int, 5_400_000_000, 1_073_676_288);
        lemma_div_abs_bound(mx as int * p.x as int, 65536, 100_000_000_000_000);
        lemma_div_abs_bound(my as int * p.y as int, 65536, 100_000_000_000_000);
        lemma_div_abs_bound(mz as int * p.z as int, 65536, 100_000_000_000_000);
    }
    let tx = fx_mul(mx, p.x);
    let ty = fx_mul(my, p.y);
    let tz = fx_mul(mz, p.z);
    let p2 = Vec3::new(wrap_coord(tx), wrap_coord(ty), wrap_coord(tz));
    (p2, d2)
}

/// Four-octave fractal-noise accumulation seeded with the distance `d`:
/// each octave folds the sphere grid into the running distance and halves
/// the amplitude.  This is an additive fractal construction for visual
/// plausibility, not an exact distance field.
#[verifier::opaque]
pub open spec fn spec_sphere_fbm(x: int, y: int, z: int, d: int) -> int {
    let d1 = spec_fbm_d(x, y, z, d, 65536);
    let x1 = spec_fbm_px(x, y, z);
    let y1 = spec_fbm_py(x, y, z);
    let z1 = spec_fbm_pz(x, y, z);
    let d2 = spec_fbm_d(x1, y1, z1, d1, 32768);
    let x2 = spec_fbm_px(x1, y1, z1);
    let y2 = spec_fbm_py(x1, y1, z1);
    let z2 = spec_fbm_pz(x1, y1, z1);
    let d3 = spec_fbm_d(x2, y2, z2, d2, 16384);
    let x3 = spec_fbm_px(x2, y2, z2);
    let y3 = spec_fbm_py(x2, y2, z2);
    let z3 = spec_fbm_pz(x2, y2, z2);
    spec_fbm_d(x3, y3, z3, d3, 8192)
}

pub fn sphere_fbm_sdf(p: Vec3, d: i64) -> (r: i64)
    requires
        vs_maxabs(p) <= WRAP_MAX,
        -0x100_0000_0000 <= d <= 0x100_0000_0000,
    ensures
        r == spec_sphere_fbm(p.x as int, p.y as int, p.z as int, d as int),
        fxs_abs(r as int) <= fxs_abs(d as int) + 1280000,
{
    proof {
        reveal(spec_sphere_fbm);
    }
    let (p1, d1) = fbm_step(p, d, 65536);
    let (p2, d2) = fbm_step(p1, d1, 32768);
    let (p3, d3) = fbm_step(p2, d2, 16384);
    let (p4, d4) = fbm_step(p3, d3, 8192);
    let _ = p4;
    d4
}

/// The periodic gyroid surface: `|dot(sin(p*scale), cos(p*scale) - bias)|
/// / scale`, remapped by the fixed affine `(v - 0.2) * 0.8`.  The cosine
/// vector's components are taken in rotated order (z, x, y), and the remap
/// is a step-size heuristic, not an exact distance.
#[verifier::opaque]
pub open spec fn spec_gyroid_sdf(x: int, y: int, z: int, scale: int, bias: int) -> int {
    let px = fxs_mul(x, scale);
    let py = fxs_mul(y, scale);
    let pz = fxs_mul(z, scale);
    let sx = crate::fixed::spec_fx_sin(px);
    let sy = crate::fixed::spec_fx_sin(py);
    let sz = crate::fixed::spec_fx_sin(pz);
    let cx = crate::fixed::spec_fx_cos(pz) - bias;
    let cy = crate::fixed::spec_fx_cos(px) - bias;
    let cz = crate::fixed::spec_fx_cos(py) - bias;
    let d = (sx * cx + sy * cy + sz * cz) / 65536;
    fxs_mul(fxs_div(fxs_abs(d), scale) - 13107, 52429)
}

pub fn gyroid_sdf(p: Vec3, scale: i64, bias: i64) -> (r: i64)
    requires
        vs_maxabs(p) <= 0x40_0000_0000,
        1 <= scale <= 1048576,
        -262144 <= bias <= 262144,
    ensures
        r == spec_gyroid_sdf(p.x as int, p.y as int, p.z as int, scale as int, bias as int),
        65536 <= scale ==> -1500000 <= r <= 1500000,
{
    proof {
        reveal(spec_gyroid_sdf);
        lemma_mul_abs_le(p.x as int, scale as int, 0x40_0000_0000, 1048576);
        lemma_mul_abs_le(p.y as int, scale as int, 0x40_0000_0000, 1048576);
        lemma_mul_abs_le(p.z as int, scale as int, 0x40_0000_0000, 1048576);
        lemma_div_abs_bound(p.x as int * scale as int, 65536, 0x400_0000_0000);
        lemma_div_abs_bound(p.y as int * scale as int, 65536, 0x400_0000_0000);
        lemma_div_abs_bound(p.z as int * scale as int, 65536, 0x400_0000_0000);
    }
    let px = fx_mul(p.x, scale);
    let py = fx_mul(p.y, scale);
    let pz = fx_mul(p.z, scale);
    let sv = Vec3::new(crate::fixed::fx_sin(px), crate::fixed::fx_sin(py), crate::fixed::fx_sin(pz));
    let cv = Vec3::new(
        crate::fixed::fx_cos(pz) - bias,
        crate::fixed::fx_cos(px) - bias,
        crate::fixed::fx_cos(py) - bias,
    );
    let d = sv.dot(&cv);
    proof {
        lemma_mul_abs_le(sv.x as int, cv.x as int, 103000, 365144);
        lemma_mul_abs_le(sv.y as int, cv.y as int, 103000, 365144);
        lemma_mul_abs_le(sv.z as int, cv.z as int, 103000, 365144);
        lemma_div_abs_bound(
            sv.x as int * cv.x as int + sv.y as int * cv.y as int + sv.z as int * cv.z as int,
            65536,
            1_800_000,
        );
    }
    let a = crate::fixed::fx_abs(d);
    let q = fx_div(a, scale);
    proof {
        crate::fixed::lemma_div_bounds(a as int * 65536, scale as int);
        lemma_mul_abs_le(q as int - 13107, 52429, 0x1C_0000_0000_0000, 52429);
        lemma_div_abs_bound((q as int - 13107) * 52429, 65536, 0x17_0000_0000_0000);
        if scale >= 65536 {
            // dividing by at least ONE keeps the quotient at most the dividend
            vstd::arithmetic::div_mod::lemma_div_is_ordered_by_denominator(
                a as int * 65536, 65536, scale as int,
            );
            lemma_div_exact(a as int * 65536, 65536, a as int);
            lemma_mul_abs_le(q as int - 13107, 52429, 1_813_107, 52429);
            lemma_div_abs_bound((q as int - 13107) * 52429, 65536, 1_450_583);
        }
    }
    fx_mul(q - 13107, 52429)
}

/// One escape-time iteration state for the fractal bulb, written as a
/// recursion: while the orbit magnitude stays within the bailout, the point
/// is taken to spherical coordinates, its modulus raised to `power` and its
/// angles multiplied by `power`, the original point added back, and the
/// running derivative updated as `r^(power-1) * power * dr + 1`, saturated
/// well below the integer range (in floating point the derivative would
/// grow toward infinity instead).  Returns the final modulus, derivative
/// and step count.
#[verifier::opaque]
pub open spec fn spec_bulb_loop(
    px: int, py: int, pz: int,
    zx: int, zy: int, zz: int,
    dr: int, r_last: int,
    i: int, iterations: int, bailout: int, power: int,
) -> (int, int, int)
    decreases iterations - i,
{
    if i >= iterations {
        (r_last, dr, iterations)
    } else {
        let r = crate::vec3::spec_len3(zx, zy, zz);
        if r > bailout {
            (r, dr, i)
        } else {
            let theta = if r == 0 { 0 } else { crate::fixed::spec_fx_acos(fxs_div(zz, r)) };
            let phi = crate::fixed::spec_fx_atan2(zy, zx);
            let dr2 = fxs_min(
                fxs_mul(fxs_mul(crate::fixed::spec_fx_powf(r, power - 65536), power), dr),
                0x400_0000_0000,
            ) + 65536;
            let zr = crate::fixed::spec_fx_powf(r, power);
            let theta2 = fxs_mul(theta, power);
            let phi2 = fxs_mul(phi, power);
            let nzx = fxs_mul(zr, fxs_mul(
                crate::fixed::spec_fx_sin(theta2),
                crate::fixed::spec_fx_cos(phi2),
            )) + px;
            let nzy = fxs_mul(zr, fxs_mul(
                crate::fixed::spec_fx_sin(phi2),
                crate::fixed::spec_fx_sin(theta2),
            )) + py;
            let nzz = fxs_mul(zr, crate::fixed::spec_fx_cos(theta2)) + pz;
            spec_bulb_loop(px, py, pz, nzx, nzy, nzz, dr2, r, i + 1, iterations, bailout, power)
        }
    }
}

/// The escape-time loop, executed; the workhorse of both bulb variants.
#[verifier::loop_isolation(false)]
#[verifier::rlimit(100)]
fn mandlebulb_core(p: Vec3, iterations: u32, bailout: i64, power: i64) -> (t: (i64, i64, u32))
    requires
        vs_maxabs(p) <= 0x4000_0000,
        1 <= iterations <= 1000,
        0 < bailout <= 655360,
        131072 <= power <= 262144,
    ensures
        t.0 == spec_bulb_loop(
            p.x as int, p.y as int, p.z as int, p.x as int, p.y as int, p.z as int,
            65536, 0, 1, iterations as int, bailout as int, power as int,
        ).0,
        t.1 == spec_bulb_loop(
            p.x as int, p.y as int, p.z as int, p.x as int, p.y as int, p.z as int,
            65536, 0, 1, iterations as int, bailout as int, power as int,
        ).1,
        t.2 == spec_bulb_loop(
            p.x as int, p.y as int, p.z as int, p.x as int, p.y as int, p.z as int,
            65536, 0, 1, iterations as int, bailout as int, power as int,
        ).2,
        0 <= t.0 <= 0x20_0000_0000,
        65536 <= t.1 <= 0x400_0000_0000 + 65536,
        1 <= t.2 <= iterations,
{
    proof {
        reveal(spec_bulb_loop);
    }
    let ghost full = spec_bulb_loop(
        p.x as int, p.y as int, p.z as int, p.x as int, p.y as int, p.z as int,
        65536, 0, 1, iterations as int, bailout as int, power as int,
    );
    let mut zx = p.x;
    let mut zy = p.y;
    let mut zz = p.z;
    let mut dr: i64 = 65536;
    let mut r_last: i64 = 0;
    let mut steps: u32 = iterations;
    let mut i: u32 = 1;
    let mut done = false;
    while i < iterations && !done
        invariant
            1 <= i <= iterations,
            -0x10_0000_0000 <= zx <= 0x10_0000_0000,
            -0x10_0000_0000 <= zy <= 0x10_0000_0000,
            -0x10_0000_0000 <= zz <= 0x10_0000_0000,
            65536 <= dr <= 0x400_0000_0000 + 65536,
            0 <= r_last <= 0x20_0000_0000,
            !done ==> steps == iterations,
            !done ==> spec_bulb_loop(
                p.x as int, p.y as int, p.z as int, zx as int, zy as int, zz as int,
                dr as int, r_last as int, i as int, iterations as int, bailout as int,
                power as int,
            ) == full,
            done ==> r_last == full.0 && dr == full.1 && steps == full.2,
            done ==> 1 <= steps <= iterations,
        decreases iterations - i + (if done { 0int } else { 1int }),
    {
        proof {
            reveal(spec_bulb_loop);
        }
        let zv = Vec3::new(zx, zy, zz);
        let r = zv.length();
        if r > bailout {
            steps = i;
            r_last = r;
            done = true;
        } else {
            let theta: i64;
            if r == 0 {
                theta = 0;
            } else {
                proof {
                    crate::vec3::lemma_normalize_comp_bound(zz as int, r as int);
                }
                theta = crate::fixed::fx_acos(fx_div(zz, r));
            }
            let phi = crate::fixed::fx_atan2(zy, zx);
            proof {
                if r >= 1 {
                    crate::fixed::lemma_spec_fx_log2_range(r as int);
                    crate::fixed::lemma_floor_log2_props(r as int);
                    vstd::arithmetic::power2::lemma2_to64();
                    let lk = crate::fixed::floor_log2(r as int);
                    if lk >= 20 {
                        if lk > 20 {
                            vstd::arithmetic::power2::lemma_pow2_strictly_increases(20, lk as nat);
                        }
                        assert(false);
                    }
                    assert(crate::fixed::spec_fx_log2(r as int) <= 262143);
                    assert((power - 65536) * crate::fixed::spec_fx_log2(r as int) <= 196608
                        * 262143) by (nonlinear_arith)
                        requires
                            0 <= power - 65536 <= 196608,
                            crate::fixed::spec_fx_log2(r as int) <= 262143,
                    ;
                    assert(power * crate::fixed::spec_fx_log2(r as int) <= 262144 * 262143)
                        by (nonlinear_arith)
                        requires
                            0 <= power <= 262144,
                            crate::fixed::spec_fx_log2(r as int) <= 262143,
                    ;
                    vstd::arithmetic::div_mod::lemma_div_is_ordered(
                        (power - 65536) as int * crate::fixed::spec_fx_log2(r as int),
                        196608int * 262143,
                        65536,
                    );
                    lemma_div_exact(196608int * 262144, 65536, 786432);
                    vstd::arithmetic::div_mod::lemma_div_is_ordered(
                        196608int * 262143, 196608int * 262144, 65536,
                    );
                    vstd::arithmetic::div_mod::lemma_div_is_ordered(
                        power as int * crate::fixed::spec_fx_log2(r as int),
                        262144int * 262143,
                        65536,
                    );
                    lemma_div_exact(262144int * 262144, 65536, 1048576);
                    vstd::arithmetic::div_mod::lemma_div_is_ordered(
                        262144int * 262143, 262144int * 262144, 65536,
                    );
                }
            }
            let rp = crate::fixed::fx_powf(r, power - 65536);
            proof {
                lemma_mul_abs_le(rp as int, power as int, 0x2_0000_0000, 262144);
                lemma_div_abs_bound(rp as int * power as int, 65536, 0x8_0000_0000);
                assert(rp as int * power as int >= 0) by (nonlinear_arith)
                    requires
                        rp >= 0,
                        power >= 0,
                ;
                vstd::arithmetic::div_mod::lemma_div_pos_is_pos(rp as int * power as int, 65536);
            }
            let a = fx_mul(rp, power);
            proof {
                lemma_mul_abs_le(a as int, dr as int, 0x8_0000_0000, 0x400_0001_0000);
                lemma_div_abs_bound(a as int * dr as int, 65536, 0x2000_0080_0000_0000);
                assert(a as int * dr as int >= 0) by (nonlinear_arith)
                    requires
                        a >= 0,
                        dr >= 0,
                ;
                vstd::arithmetic::div_mod::lemma_div_pos_is_pos(a as int * dr as int, 65536);
            }
            let b = fx_mul(a, dr);
            let dr2 = fx_min(b, 0x400_0000_0000) + 65536;
            let zr = crate::fixed::fx_powf(r, power);
            proof {
                lemma_mul_abs_le(theta as int, power as int, 205887, 262144);
                lemma_div_abs_bound(theta as int * power as int, 65536, 823552);
                lemma_mul_abs_le(phi as int, power as int, 205887, 262144);
                lemma_div_abs_bound(phi as int * power as int, 65536, 823552);
            }
            let theta2 = fx_mul(theta, power);
            let phi2 = fx_mul(phi, power);
            let st = crate::fixed::fx_sin(theta2);
            let ct = crate::fixed::fx_cos(theta2);
            let sp = crate::fixed::fx_sin(phi2);
            let cp = crate::fixed::fx_cos(phi2);
            proof {
                lemma_mul_abs_le(st as int, cp as int, 103000, 103000);
                lemma_div_abs_bound(st as int * cp as int, 65536, 161900);
                lemma_mul_abs_le(sp as int, st as int, 103000, 103000);
                lemma_div_abs_bound(sp as int * st as int, 65536, 161900);
            }
            let m1 = fx_mul(st, cp);
            let m2 = fx_mul(sp, st);
            proof {
                lemma_mul_abs_le(zr as int, m1 as int, 0x2_0000_0000, 161900);
                lemma_div_abs_bound(zr as int * m1 as int, 65536, 0x5_0000_0000);
                lemma_mul_abs_le(zr as int, m2 as int, 0x2_0000_0000, 161900);
                lemma_div_abs_bound(zr as int * m2 as int, 65536, 0x5_0000_0000);
                lemma_mul_abs_le(zr as int, ct as int, 0x2_0000_0000, 161900);
                lemma_div_abs_bound(zr as int * ct as int, 65536, 0x5_0000_0000);
            }
            let nzx = fx_mul(zr, m1) + p.x;
            let nzy = fx_mul(zr, m2) + p.y;
            let nzz = fx_mul(zr, ct) + p.z;
            r_last = r;
            zx = nzx;
            zy = nzy;
            zz = nzz;
            dr = dr2;
            i = i + 1;
        }
    }
    proof {
        reveal(spec_bulb_loop);
    }
    (r_last, dr, steps)
}

/// The fractal distance estimator `0.5 * ln(r) * r / dr` from the
/// escape-time loop, saturated at 1024 units, far beyond the marcher's
/// reach.  An orbit stuck at the origin reports 0, the stand-in for the
/// undefined logarithm.
///
/// The parameter ranges are the fixed-point overflow budget, not a
/// mathematical restriction: with powers up to 4 and bailouts up to 10,
/// the orbit's modulus stays below 2^20 units and every intermediate of
/// the modulus power, the derivative and the estimator fits the 64-bit
/// range.  Larger powers would square that headroom away.
#[verifier::opaque]
pub open spec fn spec_mandlebulb_sdf(
    x: int, y: int, z: int, iterations: int, bailout: int, power: int,
) -> int {
    let t = spec_bulb_loop(x, y, z, x, y, z, 65536, 0, 1, iterations, bailout, power);
    if t.0 <= 0 {
        0
    } else {
        fxs_min(
            fxs_div(fxs_mul(fxs_mul(32768, crate::fixed::spec_fx_ln(t.0)), t.0), t.1),
            67108863,
        )
    }
}

pub fn mandlebulb_sdf(p: Vec3, iterations: u32, bailout: i64, power: i64) -> (r: i64)
    requires
        vs_maxabs(p) <= 0x4000_0000,
        1 <= iterations <= 1000,
        0 < bailout <= 655360,
        131072 <= power <= 262144,
    ensures
        r == spec_mandlebulb_sdf(
            p.x as int, p.y as int, p.z as int, iterations as int, bailout as int, power as int,
        ),
        -400000 <= r <= 67108863,
{
    proof {
        reveal(spec_mandlebulb_sdf);
    }
    let t = mandlebulb_core(p, iterations, bailout, power);
    let rr = t.0;
    let dr = t.1;
    if rr <= 0 {
        return 0;
    }
    let lnr = crate::fixed::fx_ln(rr);
    proof {
        lemma_div_abs_bound(32768 * lnr as int, 65536, 1015808);
        // the logarithm is nonnegative from one unit upward
        crate::fixed::lemma_spec_fx_log2_range(rr as int);
        crate::fixed::lemma_floor_log2_props(rr as int);
        vstd::arithmetic::power2::lemma2_to64();
        if rr >= 65536 {
            if crate::fixed::floor_log2(rr as int) < 16 {
                vstd::arithmetic::power2::lemma_pow2_strictly_increases(
                    crate::fixed::floor_log2(rr as int) as nat, 16,
                );
            }
            assert(crate::fixed::spec_fx_log2(rr as int) >= 0);
            assert(crate::fixed::spec_fx_log2(rr as int) * 45426 >= 0) by (nonlinear_arith)
                requires
                    crate::fixed::spec_fx_log2(rr as int) >= 0,
            ;
            vstd::arithmetic::div_mod::lemma_div_pos_is_pos(
                crate::fixed::spec_fx_log2(rr as int) * 45426, 65536,
            );
        }
    }
    let m1 = fx_mul(32768, lnr);
    proof {
        lemma_mul_abs_le(m1 as int, rr as int, 1015808, 0x20_0000_0000);
        lemma_div_abs_bound(m1 as int * rr as int, 65536, 0x400_0000_0000);
        if m1 >= 0 {
            assert(m1 as int * rr as int >= 0) by (nonlinear_arith)
                requires
                    m1 >= 0,
                    rr >= 0,
            ;
            vstd::arithmetic::div_mod::lemma_div_pos_is_pos(m1 as int * rr as int, 65536);
        } else {
            // rr below one unit: the negative product stays small
            assert(m1 as int * rr as int >= -(363409 * 65535)) by (nonlinear_arith)
                requires
                    -363409 <= m1 < 0,
                    0 <= rr < 65536,
            ;
            vstd::arithmetic::div_mod::lemma_div_is_ordered(
                -(363409int * 65535), m1 as int * rr as int, 65536,
            );
            vstd::arithmetic::div_mod::lemma_div_is_ordered(
                -(363409int * 65536), -(363409int * 65535), 65536,
            );
            assert(-(363409int * 65536) == 65536 * (-363409)) by (nonlinear_arith);
            lemma_div_exact(65536 * (-363409int), 65536, -363409);
        }
    }
    let m2 = fx_mul(m1, rr);
    proof {
        if m2 <= 0 {
            crate::fixed::lemma_div_le_denominator_neg(m2 as int * 65536, 65536, dr as int);
            lemma_div_exact(m2 as int * 65536, 65536, m2 as int);
        } else {
            assert(m2 as int * 65536 >= 0) by (nonlinear_arith)
                requires
                    m2 >= 0,
            ;
            vstd::arithmetic::div_mod::lemma_div_pos_is_pos(m2 as int * 65536, dr as int);
        }
    }
    let d = fx_div(m2, dr);
    fx_min(d, 67108863)
}

/// The iteration-fraction variant: the step count over the budget, a pure
/// shading signal rather than a distance.  The parameter ranges are the
/// same fixed-point overflow budget as the distance estimator's.
#[verifier::opaque]
pub open spec fn spec_mandlebulb_iter(
    x: int, y: int, z: int, iterations: int, bailout: int, power: int,
) -> int {
    let t = spec_bulb_loop(x, y, z, x, y, z, 65536, 0, 1, iterations, bailout, power);
    (t.2 * 65536) / iterations
}

pub fn mandlebulb_sdf_iter(p: Vec3, iterations: u32, bailout: i64, power: i64) -> (r: i64)
    requires
        vs_maxabs(p) <= 0x4000_0000,
        1 <= iterations <= 1000,
        0 < bailout <= 655360,
        131072 <= power <= 262144,
    ensures
        r == spec_mandlebulb_iter(
            p.x as int, p.y as int, p.z as int, iterations as int, bailout as int, power as int,
        ),
        0 <= r <= 65536,
{
    proof {
        reveal(spec_mandlebulb_iter);
    }
    let t = mandlebulb_core(p, iterations, bailout, power);
    let r = (((t.2 as u64) * 65536) / (iterations as u64)) as i64;
    proof {
        vstd::arithmetic::div_mod::lemma_div_pos_is_pos(t.2 as int * 65536, iterations as int);
        assert(t.2 as int * 65536 <= iterations as int * 65536) by (nonlinear_arith)
            requires
                t.2 <= iterations,
        ;
        lemma_div_exact(iterations as int * 65536, iterations as int, 65536);
        vstd::arithmetic::div_mod::lemma_div_is_ordered(
            t.2 as int * 65536, iterations as int * 65536, iterations as int,
        );
    }
    r
}

} // verus!
