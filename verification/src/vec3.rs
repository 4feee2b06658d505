//! 3D vectors over fixed-point scalars.
//!
//! Every operation returns a new value; contracts state each component
//! exactly in terms of the integer model in `fixed`.

use vstd::prelude::*;
use crate::fixed::{
    fxs_mul, fxs_div, fxs_div_signed, fxs_max, fxs_abs, sqrt_floor, fx_mul, fx_div,
    fx_div_signed, floor_div, isqrt, lemma_sqrt_floor_le, lemma_div_exact,
};
pub use crate::fixed::lemma_mul_abs_le;

verus! {

/// A 3D vector; each component is a fixed-point scalar (`i64`, scaled by 2^16).
#[derive(Clone, Copy, Debug, PartialEq, Eq, Structural)]
pub struct Vec3 {
    pub x: i64,
    pub y: i64,
    pub z: i64,
}

/// Largest absolute value among the components.
pub open spec fn vs_maxabs(v: Vec3) -> int {
    fxs_max(fxs_max(fxs_abs(v.x as int), fxs_abs(v.y as int)), fxs_abs(v.z as int))
}

/// Sum of the squared components: the squared length, at scale 2^32.
pub open spec fn vs_norm_sq(v: Vec3) -> int {
    v.x * v.x + v.y * v.y + v.z * v.z
}

/// Fixed-point Euclidean length: floor of the square root of the squared
/// component sum.
pub open spec fn vs_len(v: Vec3) -> int {
    sqrt_floor(vs_norm_sq(v))
}

/// Fixed-point length of a vector given by scalar components.
pub open spec fn spec_len3(x: int, y: int, z: int) -> int {
    sqrt_floor(x * x + y * y + z * z)
}

/// Dot product of two fixed-point vectors (floor-scaled back to 2^16).
pub open spec fn vs_dot(a: Vec3, b: Vec3) -> int {
    (a.x * b.x + a.y * b.y + a.z * b.z) / 65536
}

/// The components of the cross product before rescaling, at scale 2^32.
pub open spec fn vs_cross_raw(a: Vec3, b: Vec3) -> (int, int, int) {
    (
        a.y * b.z - a.z * b.y,
        a.z * b.x - a.x * b.z,
        a.x * b.y - a.y * b.x,
    )
}

impl Vec3 {
    pub fn new(x: i64, y: i64, z: i64) -> (r: Vec3)
        ensures
            r.x == x,
            r.y == y,
            r.z == z,
    {
        Vec3 { x, y, z }
    }

    /// A vector with the same scalar in all three components.
    pub fn from_float(value: i64) -> (r: Vec3)
        ensures
            r.x == value,
            r.y == value,
            r.z == value,
    {
        Vec3 { x: value, y: value, z: value }
    }

    pub fn add(self, other: Vec3) -> (r: Vec3)
        requires
            crate::fixed::fxs_abs(self.x + other.x) <= 0x4000_0000_0000_0000,
            crate::fixed::fxs_abs(self.y + other.y) <= 0x4000_0000_0000_0000,
            crate::fixed::fxs_abs(self.z + other.z) <= 0x4000_0000_0000_0000,
        ensures
            r.x == self.x + other.x,
            r.y == self.y + other.y,
            r.z == self.z + other.z,
    {
        Vec3 { x: self.x + other.x, y: self.y + other.y, z: self.z + other.z }
    }

    pub fn sub(self, other: Vec3) -> (r: Vec3)
        requires
            crate::fixed::fxs_abs(self.x - other.x) <= 0x4000_0000_0000_0000,
            crate::fixed::fxs_abs(self.y - other.y) <= 0x4000_0000_0000_0000,
            crate::fixed::fxs_abs(self.z - other.z) <= 0x4000_0000_0000_0000,
        ensures
            r.x == self.x - other.x,
            r.y == self.y - other.y,
            r.z == self.z - other.z,
    {
        Vec3 { x: self.x - other.x, y: self.y - other.y, z: self.z - other.z }
    }

    /// Componentwise product with a scalar.
    pub fn scale(self, s: i64) -> (r: Vec3)
        requires
            vs_maxabs(self) <= 0x40_0000_0000,
            fxs_abs(s as int) <= 0x40_0000_0000,
        ensures
            r.x == fxs_mul(self.x as int, s as int),
            r.y == fxs_mul(self.y as int, s as int),
            r.z == fxs_mul(self.z as int, s as int),
    {
        proof {
            lemma_mul_abs_le(self.x as int, s as int, 0x40_0000_0000, 0x40_0000_0000);
            lemma_mul_abs_le(self.y as int, s as int, 0x40_0000_0000, 0x40_0000_0000);
            lemma_mul_abs_le(self.z as int, s as int, 0x40_0000_0000, 0x40_0000_0000);
        }
        Vec3 {
            x: fx_mul(self.x, s),
            y: fx_mul(self.y, s),
            z: fx_mul(self.z, s),
        }
    }

    /// Componentwise product with another vector.
    pub fn mul_comp(self, other: Vec3) -> (r: Vec3)
        requires
            vs_maxabs(self) <= 0x40_0000_0000,
            vs_maxabs(other) <= 0x40_0000_0000,
        ensures
            r.x == fxs_mul(self.x as int, other.x as int),
            r.y == fxs_mul(self.y as int, other.y as int),
            r.z == fxs_mul(self.z as int, other.z as int),
    {
        proof {
            lemma_mul_abs_le(self.x as int, other.x as int, 0x40_0000_0000, 0x40_0000_0000);
            lemma_mul_abs_le(self.y as int, other.y as int, 0x40_0000_0000, 0x40_0000_0000);
            lemma_mul_abs_le(self.z as int, other.z as int, 0x40_0000_0000, 0x40_0000_0000);
        }
        Vec3 {
            x: fx_mul(self.x, other.x),
            y: fx_mul(self.y, other.y),
            z: fx_mul(self.z, other.z),
        }
    }

    /// Componentwise quotient by a nonzero scalar.
    pub fn div_scalar(self, s: i64) -> (r: Vec3)
        requires
            vs_maxabs(self) <= 0x4000_0000_0000,
            s != 0,
            s != i64::MIN,
        ensures
            r.x == fxs_div_signed(self.x as int, s as int),
            r.y == fxs_div_signed(self.y as int, s as int),
            r.z == fxs_div_signed(self.z as int, s as int),
    {
        Vec3 {
            x: fx_div_signed(self.x, s),
            y: fx_div_signed(self.y, s),
            z: fx_div_signed(self.z, s),
        }
    }

    /// Componentwise quotient by another vector with nonzero components.
    pub fn div_comp(self, other: Vec3) -> (r: Vec3)
        requires
            vs_maxabs(self) <= 0x4000_0000_0000,
            other.x != 0 && other.x != i64::MIN,
            other.y != 0 && other.y != i64::MIN,
            other.z != 0 && other.z != i64::MIN,
        ensures
            r.x == fxs_div_signed(self.x as int, other.x as int),
            r.y == fxs_div_signed(self.y as int, other.y as int),
            r.z == fxs_div_signed(self.z as int, other.z as int),
    {
        Vec3 {
            x: fx_div_signed(self.x, other.x),
            y: fx_div_signed(self.y, other.y),
            z: fx_div_signed(self.z, other.z),
        }
    }

    /// Euclidean length.
    pub fn length(self) -> (r: i64)
        requires
            vs_maxabs(self) <= 0x40_0000_0000,
        ensures
            r == vs_len(self),
            0 <= r,
            r <= 2 * vs_maxabs(self),
            fxs_abs(self.x as int) <= r,
            fxs_abs(self.y as int) <= r,
            fxs_abs(self.z as int) <= r,
    {
        proof {
            lemma_norm_sq_bounds(self, 0x40_0000_0000);
        }
        let sq = (self.x as i128) * (self.x as i128) + (self.y as i128) * (self.y as i128)
            + (self.z as i128) * (self.z as i128);
        let r = isqrt(sq as u128);
        proof {
            lemma_len_bounds(self, 0x40_0000_0000);
        }
        r as i64
    }

    /// The vector scaled to unit length.  The caller must rule the
    /// zero vector out (a contract the callers of the renderer keep by
    /// construction); each resulting component has magnitude at most `ONE`.
    pub fn normalize(self) -> (r: Vec3)
        requires
            vs_maxabs(self) <= 0x40_0000_0000,
            vs_len(self) > 0,
        ensures
            r.x == fxs_div(self.x as int, vs_len(self)),
            r.y == fxs_div(self.y as int, vs_len(self)),
            r.z == fxs_div(self.z as int, vs_len(self)),
            vs_maxabs(r) <= 65536,
            vs_maxabs(r) >= 32768,
    {
        let len = self.length();
        proof {
            lemma_normalize_comp_bound(self.x as int, len as int);
            lemma_normalize_comp_bound(self.y as int, len as int);
            lemma_normalize_comp_bound(self.z as int, len as int);
            let m = vs_maxabs(self);
            if fxs_abs(self.x as int) == m {
                lemma_normalize_max_comp(self.x as int, len as int, m);
            } else if fxs_abs(self.y as int) == m {
                lemma_normalize_max_comp(self.y as int, len as int, m);
            } else {
                lemma_normalize_max_comp(self.z as int, len as int, m);
            }
        }
        Vec3 {
            x: fx_div(self.x, len),
            y: fx_div(self.y, len),
            z: fx_div(self.z, len),
        }
    }

    /// Dot product.
    pub fn dot(&self, b: &Vec3) -> (r: i64)
        requires
            vs_maxabs(*self) <= 0x40_0000_0000,
            vs_maxabs(*b) <= 0x40_0000_0000,
        ensures
            r == vs_dot(*self, *b),
    {
        proof {
            lemma_mul_abs_le(self.x as int, b.x as int, 0x40_0000_0000, 0x40_0000_0000);
            lemma_mul_abs_le(self.y as int, b.y as int, 0x40_0000_0000, 0x40_0000_0000);
            lemma_mul_abs_le(self.z as int, b.z as int, 0x40_0000_0000, 0x40_0000_0000);
        }
        let sum = (self.x as i128) * (b.x as i128) + (self.y as i128) * (b.y as i128)
            + (self.z as i128) * (b.z as i128);
        let q = floor_div(sum, 65536);
        proof {
            // |sum| <= 3 * 2^76 < 2^78 = 65536 * 2^62, so the quotient fits.
            crate::fixed::lemma_div_abs_bound(sum as int, 65536, 0x4000_0000_0000_0000);
        }
        q as i64
    }

    /// Cross product, floor-rescaled to fixed point.
    pub fn cross(&self, other: &Vec3) -> (r: Vec3)
        requires
            vs_maxabs(*self) <= 0x40_0000_0000,
            vs_maxabs(*other) <= 0x40_0000_0000,
        ensures
            r.x == vs_cross_raw(*self, *other).0 / 65536,
            r.y == vs_cross_raw(*self, *other).1 / 65536,
            r.z == vs_cross_raw(*self, *other).2 / 65536,
    {
        proof {
            lemma_mul_abs_le(self.y as int, other.z as int, 0x40_0000_0000, 0x40_0000_0000);
            lemma_mul_abs_le(self.z as int, other.y as int, 0x40_0000_0000, 0x40_0000_0000);
            lemma_mul_abs_le(self.z as int, other.x as int, 0x40_0000_0000, 0x40_0000_0000);
            lemma_mul_abs_le(self.x as int, other.z as int, 0x40_0000_0000, 0x40_0000_0000);
            lemma_mul_abs_le(self.x as int, other.y as int, 0x40_0000_0000, 0x40_0000_0000);
            lemma_mul_abs_le(self.y as int, other.x as int, 0x40_0000_0000, 0x40_0000_0000);
        }
        let cx = (self.y as i128) * (other.z as i128) - (self.z as i128) * (other.y as i128);
        let cy = (self.z as i128) * (other.x as i128) - (self.x as i128) * (other.z as i128);
        let cz = (self.x as i128) * (other.y as i128) - (self.y as i128) * (other.x as i128);
        let rx = floor_div(cx, 65536);
        let ry = floor_div(cy, 65536);
        let rz = floor_div(cz, 65536);
        proof {
            // |each raw component| <= 2 * 2^76 < 65536 * 2^61, so they fit.
            crate::fixed::lemma_div_abs_bound(cx as int, 65536, 0x2000_0000_0000_0000);
            crate::fixed::lemma_div_abs_bound(cy as int, 65536, 0x2000_0000_0000_0000);
            crate::fixed::lemma_div_abs_bound(cz as int, 65536, 0x2000_0000_0000_0000);
        }
        Vec3 { x: rx as i64, y: ry as i64, z: rz as i64 }
    }
}

/// The squared component sum is nonnegative and bounded by three times the
/// square of the component bound.
pub proof fn lemma_norm_sq_bounds(v: Vec3, c: int)
    requires
        vs_maxabs(v) <= c,
        0 <= c,
    ensures
        0 <= vs_norm_sq(v),
        vs_norm_sq(v) <= 3 * (c * c),
        0 <= v.x * v.x <= c * c,
        0 <= v.y * v.y <= c * c,
        0 <= v.z * v.z <= c * c,
{
    assert(0 <= v.x * v.x && v.x * v.x <= c * c) by (nonlinear_arith)
        requires
            -c <= v.x <= c,
    ;
    assert(0 <= v.y * v.y && v.y * v.y <= c * c) by (nonlinear_arith)
        requires
            -c <= v.y <= c,
    ;
    assert(0 <= v.z * v.z && v.z * v.z <= c * c) by (nonlinear_arith)
        requires
            -c <= v.z <= c,
    ;
}

/// The length is at most twice the largest component magnitude, and no
/// component magnitude exceeds the length.
pub proof fn lemma_len_bounds(v: Vec3, c: int)
    requires
        vs_maxabs(v) <= c,
        0 <= c,
    ensures
        0 <= vs_len(v),
        vs_len(v) <= 2 * vs_maxabs(v),
        fxs_abs(v.x as int) <= vs_len(v),
        fxs_abs(v.y as int) <= vs_len(v),
        fxs_abs(v.z as int) <= vs_len(v),
{
    let m = vs_maxabs(v);
    let s = vs_norm_sq(v);
    lemma_norm_sq_bounds(v, m);
    crate::fixed::lemma_sqrt_floor_props(s);
    let l = vs_len(v);
    assert(s < (2 * m + 1) * (2 * m + 1)) by (nonlinear_arith)
        requires
            s <= 3 * (m * m),
            0 <= m,
    ;
    lemma_sqrt_floor_le(s, 2 * m);
    // each component: x*x <= norm_sq < (l+1)^2, so |x| <= l
    assert(v.x * v.x <= s) by (nonlinear_arith)
        requires
            s == v.x * v.x + v.y * v.y + v.z * v.z,
    ;
    assert(v.y * v.y <= s) by (nonlinear_arith)
        requires
            s == v.x * v.x + v.y * v.y + v.z * v.z,
    ;
    assert(v.z * v.z <= s) by (nonlinear_arith)
        requires
            s == v.x * v.x + v.y * v.y + v.z * v.z,
    ;
    assert(-l <= v.x <= l) by (nonlinear_arith)
        requires
            v.x * v.x <= s,
            s < (l + 1) * (l + 1),
            0 <= l,
    ;
    assert(-l <= v.y <= l) by (nonlinear_arith)
        requires
            v.y * v.y <= s,
            s < (l + 1) * (l + 1),
            0 <= l,
    ;
    assert(-l <= v.z <= l) by (nonlinear_arith)
        requires
            v.z * v.z <= s,
            s < (l + 1) * (l + 1),
            0 <= l,
    ;
}

/// A component no larger than the length normalizes to a scalar of magnitude
/// at most `ONE`.
pub proof fn lemma_normalize_comp_bound(c: int, len: int)
    requires
        0 < len,
        fxs_abs(c) <= len,
    ensures
        -65536 <= fxs_div(c, len) <= 65536,
{
    assert(c * 65536 <= len * 65536) by (nonlinear_arith)
        requires
            c <= len,
    ;
    assert(-(len * 65536) <= c * 65536) by (nonlinear_arith)
        requires
            -len <= c,
    ;
    vstd::arithmetic::div_mod::lemma_div_is_ordered(c * 65536, len * 65536, len);
    vstd::arithmetic::div_mod::lemma_div_is_ordered(-(len * 65536), c * 65536, len);
    lemma_div_exact(len * 65536, len, 65536);
    lemma_div_exact(-(len * 65536), len, -65536);
}

/// The component that realizes the largest magnitude keeps at least half a
/// unit of magnitude after normalization, so a normalized vector is never
/// the zero vector.
proof fn lemma_normalize_max_comp(c: int, len: int, m: int)
    requires
        0 < len,
        fxs_abs(c) == m,
        len <= 2 * m,
    ensures
        fxs_abs(fxs_div(c, len)) >= 32768,
{
    if c >= 0 {
        // c * 65536 = 32768 * 2c >= 32768 * len
        assert(c * 65536 >= len * 32768) by (nonlinear_arith)
            requires
                2 * c >= len,
        ;
        lemma_div_exact(len * 32768, len, 32768);
        vstd::arithmetic::div_mod::lemma_div_is_ordered(len * 32768, c * 65536, len);
    } else {
        assert(c * 65536 <= -(len * 32768)) by (nonlinear_arith)
            requires
                2 * (-c) >= len,
        ;
        assert(-(len * 32768) == len * (-32768)) by (nonlinear_arith);
        lemma_div_exact(len * (-32768), len, -32768);
        vstd::arithmetic::div_mod::lemma_div_is_ordered(c * 65536, len * (-32768), len);
    }
}

/// The cross product of two unit-scale vectors has components of at most
/// twice the unit scale.
pub proof fn lemma_cross_unit_bound(a: Vec3, b: Vec3)
    requires
        vs_maxabs(a) <= 65536,
        vs_maxabs(b) <= 65536,
    ensures
        fxs_abs(vs_cross_raw(a, b).0 / 65536) <= 131072,
        fxs_abs(vs_cross_raw(a, b).1 / 65536) <= 131072,
        fxs_abs(vs_cross_raw(a, b).2 / 65536) <= 131072,
{
    lemma_mul_abs_le(a.y as int, b.z as int, 65536, 65536);
    lemma_mul_abs_le(a.z as int, b.y as int, 65536, 65536);
    lemma_mul_abs_le(a.z as int, b.x as int, 65536, 65536);
    lemma_mul_abs_le(a.x as int, b.z as int, 65536, 65536);
    lemma_mul_abs_le(a.x as int, b.y as int, 65536, 65536);
    lemma_mul_abs_le(a.y as int, b.x as int, 65536, 65536);
    crate::fixed::lemma_div_abs_bound(vs_cross_raw(a, b).0, 65536, 131072);
    crate::fixed::lemma_div_abs_bound(vs_cross_raw(a, b).1, 65536, 131072);
    crate::fixed::lemma_div_abs_bound(vs_cross_raw(a, b).2, 65536, 131072);
}

/// The raw cross product is orthogonal to both of its operands: the screen
/// basis built from cross products is mutually orthogonal at the exact
/// integer level, before rescaling rounds each component.
pub proof fn lemma_cross_orthogonal(a: Vec3, b: Vec3)
    ensures
        vs_cross_raw(a, b).0 * a.x + vs_cross_raw(a, b).1 * a.y + vs_cross_raw(a, b).2 * a.z
            == 0,
        vs_cross_raw(a, b).0 * b.x + vs_cross_raw(a, b).1 * b.y + vs_cross_raw(a, b).2 * b.z
            == 0,
{
    assert((a.y * b.z - a.z * b.y) * a.x + (a.z * b.x - a.x * b.z) * a.y + (a.x * b.y - a.y
        * b.x) * a.z == 0) by (nonlinear_arith);
    assert((a.y * b.z - a.z * b.y) * b.x + (a.z * b.x - a.x * b.z) * b.y + (a.x * b.y - a.y
        * b.x) * b.z == 0) by (nonlinear_arith);
}

/// Rescaling the raw cross product keeps near-orthogonality: the scale-32
/// projection of the floor-rescaled cross product onto either unit-scale
/// operand is at most three rounding units.
pub proof fn lemma_cross_rescale_error(a: Vec3, b: Vec3, c: Vec3)
    requires
        c.x == vs_cross_raw(a, b).0 / 65536,
        c.y == vs_cross_raw(a, b).1 / 65536,
        c.z == vs_cross_raw(a, b).2 / 65536,
        vs_maxabs(a) <= 65536,
        vs_maxabs(b) <= 65536,
    ensures
        fxs_abs(c.x * a.x + c.y * a.y + c.z * a.z) <= 3 * 65536,
        fxs_abs(c.x * b.x + c.y * b.y + c.z * b.z) <= 3 * 65536,
{
    let r0 = vs_cross_raw(a, b).0;
    let r1 = vs_cross_raw(a, b).1;
    let r2 = vs_cross_raw(a, b).2;
    lemma_cross_orthogonal(a, b);
    vstd::arithmetic::div_mod::lemma_fundamental_div_mod(r0, 65536);
    vstd::arithmetic::div_mod::lemma_fundamental_div_mod(r1, 65536);
    vstd::arithmetic::div_mod::lemma_fundamental_div_mod(r2, 65536);
    vstd::arithmetic::div_mod::lemma_mod_bound(r0, 65536);
    vstd::arithmetic::div_mod::lemma_mod_bound(r1, 65536);
    vstd::arithmetic::div_mod::lemma_mod_bound(r2, 65536);
    let m0 = r0 % 65536;
    let m1 = r1 % 65536;
    let m2 = r2 % 65536;
    let s = c.x * a.x + c.y * a.y + c.z * a.z;
    assert(65536 * s == -(m0 * a.x + m1 * a.y + m2 * a.z)) by (nonlinear_arith)
        requires
            r0 == 65536 * c.x + m0,
            r1 == 65536 * c.y + m1,
            r2 == 65536 * c.z + m2,
            r0 * a.x + r1 * a.y + r2 * a.z == 0,
            s == c.x * a.x + c.y * a.y + c.z * a.z,
    ;
    lemma_mul_abs_le(m0, a.x as int, 65536, 65536);
    lemma_mul_abs_le(m1, a.y as int, 65536, 65536);
    lemma_mul_abs_le(m2, a.z as int, 65536, 65536);
    let t = c.x * b.x + c.y * b.y + c.z * b.z;
    assert(65536 * t == -(m0 * b.x + m1 * b.y + m2 * b.z)) by (nonlinear_arith)
        requires
            r0 == 65536 * c.x + m0,
            r1 == 65536 * c.y + m1,
            r2 == 65536 * c.z + m2,
            r0 * b.x + r1 * b.y + r2 * b.z == 0,
            t == c.x * b.x + c.y * b.y + c.z * b.z,
    ;
    lemma_mul_abs_le(m0, b.x as int, 65536, 65536);
    lemma_mul_abs_le(m1, b.y as int, 65536, 65536);
    lemma_mul_abs_le(m2, b.z as int, 65536, 65536);
}

/// Normalizing keeps near-orthogonality when the vector retains at least
/// half a unit of length: the scale-32 projection of the normalized vector
/// grows to at most nine rounding units.
pub proof fn lemma_normalize_projection(v: Vec3, a: Vec3, n: Vec3)
    requires
        vs_len(v) >= 32768,
        n.x == fxs_div(v.x as int, vs_len(v)),
        n.y == fxs_div(v.y as int, vs_len(v)),
        n.z == fxs_div(v.z as int, vs_len(v)),
        vs_maxabs(a) <= 65536,
        fxs_abs(v.x * a.x + v.y * a.y + v.z * a.z) <= 3 * 65536,
    ensures
        fxs_abs(n.x * a.x + n.y * a.y + n.z * a.z) <= 9 * 65536,
{
    let l = vs_len(v);
    vstd::arithmetic::div_mod::lemma_fundamental_div_mod(v.x as int * 65536, l);
    vstd::arithmetic::div_mod::lemma_fundamental_div_mod(v.y as int * 65536, l);
    vstd::arithmetic::div_mod::lemma_fundamental_div_mod(v.z as int * 65536, l);
    vstd::arithmetic::div_mod::lemma_mod_bound(v.x as int * 65536, l);
    vstd::arithmetic::div_mod::lemma_mod_bound(v.y as int * 65536, l);
    vstd::arithmetic::div_mod::lemma_mod_bound(v.z as int * 65536, l);
    let t0 = (v.x as int * 65536) % l;
    let t1 = (v.y as int * 65536) % l;
    let t2 = (v.z as int * 65536) % l;
    let s = n.x * a.x + n.y * a.y + n.z * a.z;
    let sv = v.x * a.x + v.y * a.y + v.z * a.z;
    assert(l * (n.x * a.x) == 65536 * (v.x * a.x) - t0 * a.x) by (nonlinear_arith)
        requires
            v.x as int * 65536 == l * n.x + t0,
    ;
    assert(l * (n.y * a.y) == 65536 * (v.y * a.y) - t1 * a.y) by (nonlinear_arith)
        requires
            v.y as int * 65536 == l * n.y + t1,
    ;
    assert(l * (n.z * a.z) == 65536 * (v.z * a.z) - t2 * a.z) by (nonlinear_arith)
        requires
            v.z as int * 65536 == l * n.z + t2,
    ;
    assert(l * s == l * (n.x * a.x) + l * (n.y * a.y) + l * (n.z * a.z)) by (nonlinear_arith)
        requires
            s == n.x * a.x + n.y * a.y + n.z * a.z,
    ;
    assert(l * s == 65536 * sv - (t0 * a.x + t1 * a.y + t2 * a.z));
    lemma_mul_abs_le(t0, a.x as int, l, 65536);
    lemma_mul_abs_le(t1, a.y as int, l, 65536);
    lemma_mul_abs_le(t2, a.z as int, l, 65536);
    // 65536 * 3 * 65536 <= 6 * 65536 * l once l >= 32768
    assert(fxs_abs(l * s) <= 9 * (l * 65536)) by (nonlinear_arith)
        requires
            fxs_abs(l * s) <= 65536 * fxs_abs(sv) + 3 * (l * 65536),
            fxs_abs(sv) <= 3 * 65536,
            l >= 32768,
    ;
    assert(fxs_abs(s) <= 9 * 65536) by (nonlinear_arith)
        requires
            fxs_abs(l * s) <= 9 * (l * 65536),
            l >= 1,
    ;
}

/// The screen basis stays near-orthogonal through rounding: a basis vector
/// built by rescaling a cross product of two unit-scale vectors and then
/// normalizing (with at least half a unit of length retained) projects
/// onto either operand by at most nine parts in 2^16.  Applied twice, this
/// covers all three pairs of the screen frame: the second basis vector is
/// the normalized cross of the direction with the first.
pub proof fn lemma_basis_vector_near_orthogonal(a: Vec3, b: Vec3, c: Vec3, n: Vec3)
    requires
        c.x == vs_cross_raw(a, b).0 / 65536,
        c.y == vs_cross_raw(a, b).1 / 65536,
        c.z == vs_cross_raw(a, b).2 / 65536,
        vs_len(c) >= 32768,
        n.x == fxs_div(c.x as int, vs_len(c)),
        n.y == fxs_div(c.y as int, vs_len(c)),
        n.z == fxs_div(c.z as int, vs_len(c)),
        vs_maxabs(a) <= 65536,
        vs_maxabs(b) <= 65536,
    ensures
        fxs_abs(vs_dot(n, a)) <= 9,
        fxs_abs(vs_dot(n, b)) <= 9,
{
    lemma_cross_rescale_error(a, b, c);
    lemma_normalize_projection(c, a, n);
    crate::fixed::lemma_div_abs_bound(n.x * a.x + n.y * a.y + n.z * a.z, 65536, 9);
    lemma_normalize_projection(c, b, n);
    crate::fixed::lemma_div_abs_bound(n.x * b.x + n.y * b.y + n.z * b.z, 65536, 9);
}

} // verus!
