//! Fixed-point scalar arithmetic.
//!
//! A scalar is an `i64` holding the real value scaled by `ONE` (2^16).
//! Division and the square root round toward negative infinity, so every
//! operation is pinned to an exact integer-valued specification.

use vstd::prelude::*;
use vstd::arithmetic::div_mod::{
    lemma_fundamental_div_mod, lemma_fundamental_div_mod_converse_div,
};

verus! {

/// One unit in the fixed-point encoding (2^16).
pub const ONE: i64 = 65536;

/// Product of two fixed-point scalars, rounded toward negative infinity.
pub open spec fn fxs_mul(a: int, b: int) -> int {
    (a * b) / 65536
}

/// Quotient of two fixed-point scalars, rounded toward negative infinity.
pub open spec fn fxs_div(a: int, b: int) -> int
    recommends
        b > 0,
{
    (a * 65536) / b
}

pub open spec fn fxs_min(a: int, b: int) -> int {
    if a <= b {
        a
    } else {
        b
    }
}

pub open spec fn fxs_max(a: int, b: int) -> int {
    if a >= b {
        a
    } else {
        b
    }
}

pub open spec fn fxs_abs(a: int) -> int {
    if a < 0 {
        -a
    } else {
        a
    }
}

/// Largest multiple of `ONE` that is at most `a`: the fixed-point floor.
pub open spec fn fxs_floor(a: int) -> int {
    65536 * (a / 65536)
}

/// Fractional part in the sense of `f32::fract`: `a` minus its truncation
/// toward zero, so the result carries the sign of `a`.
pub open spec fn fxs_fract(a: int) -> int {
    if a >= 0 {
        a % 65536
    } else {
        -((-a) % 65536)
    }
}

/// Floor of the square root (0 for negative input).
pub open spec fn sqrt_floor(n: int) -> int
    decreases n,
{
    if n <= 0 {
        0
    } else {
        let r = sqrt_floor(n - 1);
        if (r + 1) * (r + 1) <= n {
            r + 1
        } else {
            r
        }
    }
}

/// `sqrt_floor` is the floor of the square root: it is nonnegative, its
/// square is at most `n`, and the next square is beyond `n`.
pub proof fn lemma_sqrt_floor_props(n: int)
    requires
        n >= 0,
    ensures
        0 <= sqrt_floor(n),
        sqrt_floor(n) * sqrt_floor(n) <= n,
        n < (sqrt_floor(n) + 1) * (sqrt_floor(n) + 1),
    decreases n,
{
    if n == 0 {
    } else {
        lemma_sqrt_floor_props(n - 1);
        let r = sqrt_floor(n - 1);
        if (r + 1) * (r + 1) <= n {
            assert(n < (r + 2) * (r + 2)) by (nonlinear_arith)
                requires
                    n - 1 < (r + 1) * (r + 1),
                    r >= 0,
            ;
        }
    }
}

/// Any `r` whose square brackets `n` is exactly `sqrt_floor(n)`.
pub proof fn lemma_sqrt_floor_unique(n: int, r: int)
    requires
        0 <= r,
        r * r <= n,
        n < (r + 1) * (r + 1),
    ensures
        r == sqrt_floor(n),
{
    lemma_sqrt_floor_props(n);
    let s = sqrt_floor(n);
    if s < r {
        assert(r * r > n) by (nonlinear_arith)
            requires
                s >= 0,
                s < r,
                n < (s + 1) * (s + 1),
        ;
    }
    if r < s {
        assert(s * s > n) by (nonlinear_arith)
            requires
                r >= 0,
                r < s,
                n < (r + 1) * (r + 1),
        ;
    }
}

/// The square root of a perfect square is exact.
pub proof fn lemma_sqrt_floor_square(k: int)
    requires
        k >= 0,
    ensures
        sqrt_floor(k * k) == k,
{
    assert(k * k < (k + 1) * (k + 1)) by (nonlinear_arith)
        requires
            k >= 0,
    ;
    assert(k * k >= 0) by (nonlinear_arith)
        requires
            k >= 0,
    ;
    lemma_sqrt_floor_unique(k * k, k);
}

/// `sqrt_floor` is bounded by any `k` whose next square is beyond `n`.
pub proof fn lemma_sqrt_floor_le(n: int, k: int)
    requires
        n >= 0,
        k >= 0,
        n < (k + 1) * (k + 1),
    ensures
        sqrt_floor(n) <= k,
{
    lemma_sqrt_floor_props(n);
    let s = sqrt_floor(n);
    if s > k {
        assert(s * s > n) by (nonlinear_arith)
            requires
                k >= 0,
                k < s,
                n < (k + 1) * (k + 1),
        ;
    }
}

/// A quotient of an exact multiple is exact.
pub proof fn lemma_div_exact(a: int, b: int, q: int)
    requires
        b > 0,
        a == b * q,
    ensures
        a / b == q,
{
    assert(a == q * b + 0) by (nonlinear_arith)
        requires
            a == b * q,
    ;
    lemma_fundamental_div_mod_converse_div(a, b, q, 0);
}

/// A quotient by a positive divisor lies between 0 and the dividend.
pub proof fn lemma_div_bounds(p: int, b: int)
    requires
        0 < b,
    ensures
        p >= 0 ==> 0 <= p / b <= p,
        p <= 0 ==> p <= p / b <= 0,
{
    let q = p / b;
    let r = p % b;
    lemma_fundamental_div_mod(p, b);
    if p >= 0 {
        vstd::arithmetic::div_mod::lemma_div_pos_is_pos(p, b);
        assert(q <= p) by (nonlinear_arith)
            requires
                p == b * q + r,
                0 <= r < b,
                b >= 1,
                q >= 0,
        ;
    } else {
        assert(q <= 0) by (nonlinear_arith)
            requires
                p == b * q + r,
                0 <= r < b,
                b >= 1,
                p < 0,
        ;
        assert(q >= p) by (nonlinear_arith)
            requires
                p == b * q + r,
                0 <= r < b,
                b >= 1,
                p <= 0,
                q <= 0,
        ;
    }
}

/// A dividend bounded by an exact multiple of the divisor has a quotient
/// bounded by the multiplier.
pub proof fn lemma_div_abs_bound(p: int, b: int, q: int)
    requires
        b > 0,
        q >= 0,
        -(b * q) <= p <= b * q,
    ensures
        -q <= p / b <= q,
{
    vstd::arithmetic::div_mod::lemma_div_is_ordered(p, b * q, b);
    vstd::arithmetic::div_mod::lemma_div_is_ordered(-(b * q), p, b);
    lemma_div_exact(b * q, b, q);
    assert(-(b * q) == b * (-q)) by (nonlinear_arith);
    lemma_div_exact(b * (-q), b, -q);
}

/// Division with the result rounded toward negative infinity, matching the
/// specification-level `/` on `int`.
pub fn floor_div(a: i128, b: i128) -> (q: i128)
    requires
        0 < b <= 0x1000_0000_0000_0000_0000_0000_0000,
        -0x1000_0000_0000_0000_0000_0000_0000 <= a <= 0x1000_0000_0000_0000_0000_0000_0000,
    ensures
        q == a as int / b as int,
        a >= 0 ==> 0 <= q <= a,
        a <= 0 ==> a <= q <= 0,
{
    proof {
        lemma_div_bounds(a as int, b as int);
    }
    if a >= 0 {
        let q0 = (a as u128) / (b as u128);
        q0 as i128
    } else {
        let m = (-a) as u128;
        let bb = b as u128;
        let q0 = (m + bb - 1) / bb;
        proof {
            let ai = a as int;
            let bi = b as int;
            let q = ai / bi;
            let r = ai % bi;
            lemma_fundamental_div_mod(ai, bi);
            // ai == bi * q + r with 0 <= r < bi, hence
            // -ai + bi - 1 == bi * (-q) + (bi - 1 - r) with that remainder in range.
            assert((-ai + bi - 1) == bi * (-q) + (bi - 1 - r)) by (nonlinear_arith)
                requires
                    ai == bi * q + r,
            ;
            lemma_fundamental_div_mod_converse_div(-ai + bi - 1, bi, -q, bi - 1 - r);
        }
        -(q0 as i128)
    }
}

/// Fixed-point multiply: `(a * b) / ONE`, rounded toward negative infinity.
pub fn fx_mul(a: i64, b: i64) -> (r: i64)
    requires
        -0x4000_0000_0000_0000_0000 <= a as int * b as int <= 0x4000_0000_0000_0000_0000,
    ensures
        r == fxs_mul(a as int, b as int),
{
    let p = (a as i128) * (b as i128);
    let q = floor_div(p, 65536);
    proof {
        lemma_div_bounds(p as int, 65536);
        if p >= 0 {
            vstd::arithmetic::div_mod::lemma_div_is_ordered(p as int, 0x4000_0000_0000_0000_0000, 65536);
            lemma_div_exact(0x4000_0000_0000_0000_0000, 65536, 0x4000_0000_0000_0000);
        } else {
            vstd::arithmetic::div_mod::lemma_div_is_ordered(-0x4000_0000_0000_0000_0000, p as int, 65536);
            lemma_div_exact(-0x4000_0000_0000_0000_0000, 65536, -0x4000_0000_0000_0000);
        }
    }
    q as i64
}

/// Fixed-point divide: `(a * ONE) / b`, rounded toward negative infinity.
pub fn fx_div(a: i64, b: i64) -> (r: i64)
    requires
        0 < b,
        -0x4000_0000_0000 <= a <= 0x4000_0000_0000,
    ensures
        r == fxs_div(a as int, b as int),
        -0x4000_0000_0000_0000 <= r <= 0x4000_0000_0000_0000,
{
    let p = (a as i128) * 65536;
    let q = floor_div(p, b as i128);
    q as i64
}

/// Fixed-point divide by a nonzero scalar of either sign: the divisor's
/// sign is folded out, so dividing by a negative negates the quotient by
/// the magnitude, as a true division's sign symmetry has it.
pub open spec fn fxs_div_signed(a: int, b: int) -> int
    recommends
        b != 0,
{
    if b > 0 {
        fxs_div(a, b)
    } else {
        -fxs_div(a, -b)
    }
}

pub fn fx_div_signed(a: i64, b: i64) -> (r: i64)
    requires
        b != 0,
        b != i64::MIN,
        -0x4000_0000_0000 <= a <= 0x4000_0000_0000,
    ensures
        r == fxs_div_signed(a as int, b as int),
{
    if b > 0 {
        fx_div(a, b)
    } else {
        -fx_div(a, -b)
    }
}

pub fn fx_min(a: i64, b: i64) -> (r: i64)
    ensures
        r == fxs_min(a as int, b as int),
{
    if a <= b {
        a
    } else {
        b
    }
}

pub fn fx_max(a: i64, b: i64) -> (r: i64)
    ensures
        r == fxs_max(a as int, b as int),
{
    if a >= b {
        a
    } else {
        b
    }
}

pub fn fx_abs(a: i64) -> (r: i64)
    requires
        a != i64::MIN,
    ensures
        r == fxs_abs(a as int),
{
    if a < 0 {
        -a
    } else {
        a
    }
}

/// Fixed-point floor: largest multiple of `ONE` at most `a`.
pub fn fx_floor(a: i64) -> (r: i64)
    requires
        -0x1000_0000_0000_0000 <= a <= 0x1000_0000_0000_0000,
    ensures
        r == fxs_floor(a as int),
        a - 65536 < r <= a,
{
    let q = floor_div(a as i128, 65536);
    proof {
        lemma_fundamental_div_mod(a as int, 65536);
        vstd::arithmetic::div_mod::lemma_mod_bound(a as int, 65536);
    }
    (q as i64) * 65536
}

/// Fractional part carrying the sign of `a`, as `f32::fract` computes it.
pub fn fx_fract(a: i64) -> (r: i64)
    requires
        -0x1000_0000_0000_0000 <= a <= 0x1000_0000_0000_0000,
    ensures
        r == fxs_fract(a as int),
        -65536 < r < 65536,
{
    if a >= 0 {
        let q = floor_div(a as i128, 65536);
        proof {
            lemma_fundamental_div_mod(a as int, 65536);
            vstd::arithmetic::div_mod::lemma_mod_bound(a as int, 65536);
        }
        a - (q as i64) * 65536
    } else {
        let m = -a;
        let q = floor_div(m as i128, 65536);
        proof {
            lemma_fundamental_div_mod(m as int, 65536);
            vstd::arithmetic::div_mod::lemma_mod_bound(m as int, 65536);
        }
        -(m - (q as i64) * 65536)
    }
}

/// Floor of the square root, by binary search.
pub fn isqrt(n: u128) -> (r: u64)
    requires
        n < 0x10_0000_0000_0000_0000_0000_0000,
    ensures
        r as int * r as int <= n as int,
        (n as int) < (r as int + 1) * (r as int + 1),
        r == sqrt_floor(n as int),
        r <= 0x4_0000_0000_0000,
{
    let mut lo: u64 = 0;
    let mut hi: u64 = 0x4_0000_0000_0000;  // 2^50
    proof {
        assert((n as int) < 0x4_0000_0000_0000 * 0x4_0000_0000_0000) by (nonlinear_arith)
            requires
                n < 0x10_0000_0000_0000_0000_0000_0000,
        ;
    }
    while hi - lo > 1
        invariant
            0 <= lo < hi <= 0x4_0000_0000_0000,
            lo as int * lo as int <= n as int,
            (n as int) < hi as int * hi as int,
        decreases hi - lo,
    {
        let mid = lo + (hi - lo) / 2;
        proof {
            assert(mid as int * mid as int <= 0x4_0000_0000_0000 * 0x4_0000_0000_0000)
                by (nonlinear_arith)
                requires
                    0 <= mid <= 0x4_0000_0000_0000,
            ;
        }
        if (mid as u128) * (mid as u128) <= n {
            lo = mid;
        } else {
            hi = mid;
        }
    }
    proof {
        lemma_sqrt_floor_unique(n as int, lo as int);
    }
    lo
}

/// The polynomial smooth-minimum blend: `min(a, b) - h*h*k/4` where
/// `h = max(k - |a - b|, 0) / k`.
pub open spec fn fxs_smooth_min(a: int, b: int, k: int) -> int {
    let h = fxs_div(fxs_max(k - fxs_abs(a - b), 0), k);
    fxs_min(a, b) - fxs_mul(fxs_mul(h, h), k) / 4
}

/// The polynomial smooth-maximum blend: the smooth minimum applied to the
/// negated operands and negated back.
pub open spec fn fxs_smooth_max(a: int, b: int, k: int) -> int {
    -fxs_smooth_min(-a, -b, k)
}

/// Quotients of nonnegative values by positive ones are nonnegative and
/// ordered by the numerator.
proof fn lemma_div_nonneg_le(a: int, b: int, c: int)
    requires
        0 <= a <= c,
        0 < b,
    ensures
        0 <= a / b,
        a / b <= c / b,
{
    vstd::arithmetic::div_mod::lemma_div_pos_is_pos(a, b);
    vstd::arithmetic::div_mod::lemma_div_is_ordered(a, c, b);
}

/// The term subtracted from the hard minimum by the smooth blend is between
/// 0 and `k/4`: the smooth minimum never exceeds the hard minimum and stays
/// within `k/4` of it.
pub proof fn lemma_smooth_min_le(a: int, b: int, k: int)
    requires
        0 < k,
    ensures
        fxs_smooth_min(a, b, k) <= fxs_min(a, b),
        fxs_min(a, b) - fxs_smooth_min(a, b, k) <= k / 4,
{
    let hnum = fxs_max(k - fxs_abs(a - b), 0);
    let h = fxs_div(hnum, k);
    assert(hnum <= k);
    assert(hnum * 65536 <= k * 65536) by (nonlinear_arith)
        requires
            hnum <= k,
    ;
    lemma_div_nonneg_le(hnum * 65536, k, k * 65536);
    assert((k * 65536) / k == 65536) by {
        assert(k * 65536 == 65536 * k) by (nonlinear_arith);
        lemma_div_exact(k * 65536, k, 65536);
    }
    assert(0 <= h <= 65536);
    let hh = fxs_mul(h, h);
    assert(h * h <= 65536 * 65536) by (nonlinear_arith)
        requires
            0 <= h <= 65536,
    ;
    assert(0 <= h * h) by (nonlinear_arith)
        requires
            0 <= h,
    ;
    lemma_div_nonneg_le(h * h, 65536, 65536int * 65536);
    lemma_div_exact(65536int * 65536, 65536, 65536);
    assert(0 <= hh <= 65536);
    let m = fxs_mul(hh, k);
    assert(hh * k <= 65536 * k) by (nonlinear_arith)
        requires
            0 <= hh <= 65536,
            0 < k,
    ;
    assert(0 <= hh * k) by (nonlinear_arith)
        requires
            0 <= hh,
            0 < k,
    ;
    lemma_div_nonneg_le(hh * k, 65536, 65536 * k);
    lemma_div_exact(65536 * k, 65536, k);
    assert(0 <= m <= k);
    lemma_div_nonneg_le(m, 4, k);
}

/// When the blend radius does not reach the gap between the operands, the
/// smooth minimum is exactly the hard minimum.
pub proof fn lemma_smooth_min_hard(a: int, b: int, k: int)
    requires
        0 < k <= fxs_abs(a - b),
    ensures
        fxs_smooth_min(a, b, k) == fxs_min(a, b),
{
    let hnum = fxs_max(k - fxs_abs(a - b), 0);
    assert(hnum == 0);
    vstd::arithmetic::div_mod::lemma_div_of0(k);
    assert(fxs_div(0, k) == 0);
    vstd::arithmetic::div_mod::lemma_div_of0(65536);
    assert(fxs_mul(0, 0) == 0);
    assert(fxs_mul(0, k) == 0);
    vstd::arithmetic::div_mod::lemma_div_of0(4);
}

/// Exec smooth minimum; the result is pinned to `fxs_smooth_min` and never
/// exceeds the hard minimum.
pub fn smooth_min(a: i64, b: i64, k: i64) -> (r: i64)
    requires
        0 < k <= 65536,
        -0x100_0000_0000_0000 <= a <= 0x100_0000_0000_0000,
        -0x100_0000_0000_0000 <= b <= 0x100_0000_0000_0000,
    ensures
        r == fxs_smooth_min(a as int, b as int, k as int),
        r <= fxs_min(a as int, b as int),
        fxs_abs(a as int - b as int) >= k ==> r == fxs_min(a as int, b as int),
{
    let d = fx_abs(a - b);
    let hnum = fx_max(k - d, 0);
    let h = fx_div(hnum, k);
    proof {
        lemma_smooth_min_le(a as int, b as int, k as int);
        if fxs_abs(a as int - b as int) >= k {
            lemma_smooth_min_hard(a as int, b as int, k as int);
        }
        assert(hnum * 65536 <= k * 65536) by (nonlinear_arith)
            requires
                hnum <= k,
        ;
        lemma_div_nonneg_le(hnum as int * 65536, k as int, k as int * 65536);
        assert((k as int * 65536) / k as int == 65536) by {
            assert(k as int * 65536 == (k as int) * 65536) by (nonlinear_arith);
            lemma_div_exact(k as int * 65536, k as int, 65536);
        }
        assert(0 <= h <= 65536);
        assert(0 <= h * h <= 65536int * 65536) by (nonlinear_arith)
            requires
                0 <= h <= 65536,
        ;
    }
    let hh = fx_mul(h, h);
    proof {
        lemma_div_nonneg_le(h as int * h as int, 65536, 65536int * 65536);
        lemma_div_exact(65536int * 65536, 65536, 65536);
        assert(0 <= hh <= 65536);
        assert(0 <= hh * k <= 65536int * 65536) by (nonlinear_arith)
            requires
                0 <= hh <= 65536,
                0 < k <= 65536,
        ;
        assert(hh * k <= 65536 * (k as int)) by (nonlinear_arith)
            requires
                0 <= hh <= 65536,
                0 < k,
        ;
    }
    let m = fx_mul(hh, k);
    proof {
        lemma_div_nonneg_le(hh as int * k as int, 65536, 65536 * k as int);
        lemma_div_exact(65536 * k as int, 65536, k as int);
        assert(0 <= m <= k);
    }
    let quarter = ((m as u64) / 4) as i64;
    proof {
        lemma_div_nonneg_le(m as int, 4, k as int);
    }
    fx_min(a, b) - quarter
}

/// Bounded factors give a bounded product.
pub proof fn lemma_mul_abs_le(a: int, b: int, ca: int, cb: int)
    requires
        fxs_abs(a) <= ca,
        fxs_abs(b) <= cb,
        0 <= ca,
        0 <= cb,
    ensures
        -(ca * cb) <= a * b <= ca * cb,
{
    assert(-(ca * cb) <= a * b <= ca * cb) by (nonlinear_arith)
        requires
            -ca <= a <= ca,
            -cb <= b <= cb,
            0 <= ca,
            0 <= cb,
    ;
}

/// A saturating base-2 exponential on fixed-point exponents.
///
/// Exponents below -25 underflow to 0 and exponents above 30 saturate to a
/// large sentinel.  In between, the exponent splits into its integer part
/// `n` and fractional part `f`; `2^(f/ONE)` is a fixed quartic polynomial,
/// shifted by `n` binary places.  The polynomial is the definition here, a
/// documented approximation.
pub open spec fn spec_fx_exp2(t: int) -> int {
    if t < -1638400 {
        0
    } else if t > 1966080 {
        0x7FFF_FFFF_FFFF
    } else {
        let n = t / 65536;
        let f = t - 65536 * n;
        let p = 65536 + fxs_mul(f, 45427 + fxs_mul(f, 15743 + fxs_mul(f, 3635 + fxs_mul(f, 637))));
        if n >= 0 {
            p * (vstd::arithmetic::power2::pow2(n as nat) as int)
        } else {
            p / (vstd::arithmetic::power2::pow2((-n) as nat) as int)
        }
    }
}

/// A saturating fixed-point exponential: arguments below -16 underflow to
/// 0, arguments above 16 saturate, and in between the argument is rescaled
/// to base 2 with `log2(e) ~ 94548/65536`.
pub open spec fn spec_fx_exp(x: int) -> int {
    if x < -1048576 {
        0
    } else if x > 1048576 {
        0x7FFF_FFFF_FFFF
    } else {
        spec_fx_exp2(fxs_mul(x, 94548))
    }
}

/// Two raised to a small exponent.
fn pow2_u64(e: u64) -> (r: u64)
    requires
        e <= 63,
    ensures
        r == vstd::arithmetic::power2::pow2(e as nat),
        1 <= r,
{
    let mut r: u64 = 1;
    let mut j: u64 = 0;
    proof {
        vstd::arithmetic::power2::lemma2_to64();
        assert(vstd::arithmetic::power2::pow2(0) == 1);
    }
    while j < e
        invariant
            0 <= j <= e <= 63,
            r == vstd::arithmetic::power2::pow2(j as nat),
            1 <= r,
        decreases e - j,
    {
        proof {
            vstd::arithmetic::power2::lemma_pow2_adds(j as nat, 1);
            vstd::arithmetic::power2::lemma2_to64();
            if j < 63 {
                vstd::arithmetic::power2::lemma_pow2_strictly_increases(j as nat, 63);
            }
            vstd::arithmetic::power2::lemma2_to64_rest();
            assert(vstd::arithmetic::power2::pow2(63) == 0x8000_0000_0000_0000);
        }
        r = r * 2;
        j = j + 1;
    }
    r
}

/// Exec saturating base-2 exponential, pinned to `spec_fx_exp2`.
pub fn fx_exp2(t: i64) -> (r: i64)
    requires
        -0x1000_0000_0000 <= t <= 0x1000_0000_0000,
    ensures
        r == spec_fx_exp2(t as int),
        0 <= r <= 0x7FFF_FFFF_FFFF,
        t <= 1048576 ==> r <= 0x2_0000_0000,
{
    if t < -1638400 {
        return 0;
    }
    if t > 1966080 {
        return 0x7FFF_FFFF_FFFF;
    }
    let nq = floor_div(t as i128, 65536);
    let n = nq as i64;
    proof {
        lemma_fundamental_div_mod(t as int, 65536);
        vstd::arithmetic::div_mod::lemma_mod_bound(t as int, 65536);
        // -25 <= n <= 30 from the saturation window
        vstd::arithmetic::div_mod::lemma_div_is_ordered(t as int, 1966080, 65536);
        lemma_div_exact(1966080, 65536, 30);
        vstd::arithmetic::div_mod::lemma_div_is_ordered(-1638400, t as int, 65536);
        lemma_div_exact(-1638400, 65536, -25);
        if t <= 1048576 {
            vstd::arithmetic::div_mod::lemma_div_is_ordered(t as int, 1048576, 65536);
            lemma_div_exact(1048576, 65536, 16);
        }
    }
    let f = t - n * 65536;
    proof {
        assert(f == t - 65536 * (t as int / 65536)) by (nonlinear_arith)
            requires
                f == t - n * 65536,
                n == t as int / 65536,
        ;
        lemma_div_abs_bound(f as int * 637, 65536, 637);
    }
    let v4 = fx_mul(f, 637);
    proof {
        crate::fixed::lemma_mul_abs_le(f as int, 3635 + v4 as int, 65536, 4272);
        lemma_div_abs_bound(f as int * (3635 + v4 as int), 65536, 4272);
    }
    let v3 = fx_mul(f, 3635 + v4);
    proof {
        crate::fixed::lemma_mul_abs_le(f as int, 15743 + v3 as int, 65536, 20015);
        lemma_div_abs_bound(f as int * (15743 + v3 as int), 65536, 20015);
    }
    let v2 = fx_mul(f, 15743 + v3);
    proof {
        crate::fixed::lemma_mul_abs_le(f as int, 45427 + v2 as int, 65536, 65442);
        lemma_div_abs_bound(f as int * (45427 + v2 as int), 65536, 65442);
    }
    let v1 = fx_mul(f, 45427 + v2);
    let p = 65536 + v1;
    proof {
        vstd::arithmetic::div_mod::lemma_div_pos_is_pos(f as int * 637, 65536);
        assert(f as int * 637 >= 0) by (nonlinear_arith)
            requires
                f >= 0,
        ;
        assert(f as int * (3635 + v4 as int) >= 0) by (nonlinear_arith)
            requires
                f >= 0,
                v4 >= 0,
        ;
        vstd::arithmetic::div_mod::lemma_div_pos_is_pos(f as int * (3635 + v4 as int), 65536);
        assert(f as int * (15743 + v3 as int) >= 0) by (nonlinear_arith)
            requires
                f >= 0,
                v3 >= 0,
        ;
        vstd::arithmetic::div_mod::lemma_div_pos_is_pos(f as int * (15743 + v3 as int), 65536);
        assert(f as int * (45427 + v2 as int) >= 0) by (nonlinear_arith)
            requires
                f >= 0,
                v2 >= 0,
        ;
        vstd::arithmetic::div_mod::lemma_div_pos_is_pos(f as int * (45427 + v2 as int), 65536);
    }
    if n >= 0 {
        let m = pow2_u64(n as u64);
        proof {
            vstd::arithmetic::power2::lemma2_to64();
            if (n as nat) < 30 {
                vstd::arithmetic::power2::lemma_pow2_strictly_increases(n as nat, 30);
            }
            assert(m <= 0x4000_0000);
            assert(p as int * m as int <= 130978 * 0x4000_0000) by (nonlinear_arith)
                requires
                    0 <= p <= 130978,
                    0 <= m <= 0x4000_0000,
            ;
            assert(p as int * m as int >= 0) by (nonlinear_arith)
                requires
                    0 <= p,
                    0 <= m,
            ;
            if n <= 16 {
                if (n as nat) < 16 {
                    vstd::arithmetic::power2::lemma_pow2_strictly_increases(n as nat, 16);
                }
                assert(m <= 65536);
                assert(p as int * m as int <= 130978 * 65536) by (nonlinear_arith)
                    requires
                        0 <= p <= 130978,
                        0 <= m <= 65536,
                ;
            }
        }
        let r = p * (m as i64);
        r
    } else {
        let m = pow2_u64((-n) as u64);
        let r = ((p as u64) / m) as i64;
        proof {
            lemma_div_bounds(p as int, m as int);
        }
        r
    }
}

/// Exec saturating exponential, pinned to `spec_fx_exp`.
pub fn fx_exp(x: i64) -> (r: i64)
    requires
        -0x1000_0000_0000 <= x <= 0x1000_0000_0000,
    ensures
        r == spec_fx_exp(x as int),
        0 <= r <= 0x7FFF_FFFF_FFFF,
{
    if x < -1048576 {
        return 0;
    }
    if x > 1048576 {
        return 0x7FFF_FFFF_FFFF;
    }
    let t = fx_mul(x, 94548);
    proof {
        lemma_div_abs_bound(x as int * 94548, 65536, 1512768);
    }
    fx_exp2(t)
}

/// Exec smooth maximum: the smooth minimum of the negated operands, negated.
pub fn smooth_max(a: i64, b: i64, k: i64) -> (r: i64)
    requires
        0 < k <= 65536,
        -0x100_0000_0000_0000 <= a <= 0x100_0000_0000_0000,
        -0x100_0000_0000_0000 <= b <= 0x100_0000_0000_0000,
    ensures
        r == fxs_smooth_max(a as int, b as int, k as int),
        r >= fxs_max(a as int, b as int),
{
    let n = smooth_min(-a, -b, k);
    proof {
        lemma_smooth_min_le(-a as int, -b as int, k as int);
        lemma_div_bounds(k as int, 4);
    }
    -n
}

/// Odd Taylor polynomial for the sine on [0, pi/2], in fixed point:
/// `t - t^3/6 + t^5/120 - t^7/5040` in Horner form.  The polynomial is the
/// definition here, a documented approximation of the sine.
pub open spec fn spec_sin_core(t: int) -> int {
    let t2 = fxs_mul(t, t);
    fxs_mul(t, 65536 - fxs_mul(t2, 10923 - fxs_mul(t2, 546 - fxs_mul(t2, 13))))
}

/// Sine on one half-turn, folded onto the first quarter.
pub open spec fn spec_sin_half(u: int) -> int {
    if u <= 102944 {
        spec_sin_core(u)
    } else {
        spec_sin_core(205887 - u)
    }
}

/// Periodic sine: the argument is reduced into one turn (2 pi is 411775
/// fixed-point units) and folded by sign over the two half-turns.
pub open spec fn spec_fx_sin(x: int) -> int {
    let u = x % 411775;
    if u < 205887 {
        spec_sin_half(u)
    } else {
        -spec_sin_half(u - 205887)
    }
}

/// Cosine as the sine shifted by a quarter turn.
pub open spec fn spec_fx_cos(x: int) -> int {
    spec_fx_sin(x + 102944)
}

fn sin_core(t: i64) -> (r: i64)
    requires
        -2 <= t <= 102944,
    ensures
        r == spec_sin_core(t as int),
        -103000 <= r <= 103000,
{
    proof {
        lemma_mul_abs_le(t as int, t as int, 102944, 102944);
        assert(t as int * t as int >= 0) by (nonlinear_arith);
        lemma_div_abs_bound(t as int * t as int, 65536, 161726);
        vstd::arithmetic::div_mod::lemma_div_pos_is_pos(t as int * t as int, 65536);
    }
    let t2 = fx_mul(t, t);
    proof {
        lemma_mul_abs_le(t2 as int, 13, 161726, 13);
        lemma_div_abs_bound(t2 as int * 13, 65536, 33);
        assert(t2 as int * 13 >= 0) by (nonlinear_arith)
            requires
                t2 >= 0,
        ;
        vstd::arithmetic::div_mod::lemma_div_pos_is_pos(t2 as int * 13, 65536);
    }
    let v1 = fx_mul(t2, 13);
    proof {
        lemma_mul_abs_le(t2 as int, 546 - v1 as int, 161726, 546);
        lemma_div_abs_bound(t2 as int * (546 - v1 as int), 65536, 1348);
        assert(t2 as int * (546 - v1 as int) >= 0) by (nonlinear_arith)
            requires
                t2 >= 0,
                v1 <= 546,
        ;
        vstd::arithmetic::div_mod::lemma_div_pos_is_pos(t2 as int * (546 - v1 as int), 65536);
    }
    let v2 = fx_mul(t2, 546 - v1);
    proof {
        lemma_mul_abs_le(t2 as int, 10923 - v2 as int, 161726, 10923);
        lemma_div_abs_bound(t2 as int * (10923 - v2 as int), 65536, 26956);
        assert(t2 as int * (10923 - v2 as int) >= 0) by (nonlinear_arith)
            requires
                t2 >= 0,
                v2 <= 10923,
        ;
        vstd::arithmetic::div_mod::lemma_div_pos_is_pos(t2 as int * (10923 - v2 as int), 65536);
    }
    let v3 = fx_mul(t2, 10923 - v2);
    proof {
        lemma_mul_abs_le(t as int, 65536 - v3 as int, 102944, 65536);
        lemma_div_abs_bound(t as int * (65536 - v3 as int), 65536, 102944);
    }
    fx_mul(t, 65536 - v3)
}

/// Periodic fixed-point sine, pinned to `spec_fx_sin`.
pub fn fx_sin(x: i64) -> (r: i64)
    requires
        -0x1000_0000_0000 <= x <= 0x1000_0000_0000,
    ensures
        r == spec_fx_sin(x as int),
        -103000 <= r <= 103000,
{
    let q = floor_div(x as i128, 411775);
    proof {
        lemma_div_abs_bound(x as int, 411775, 0x400_0000);
        lemma_fundamental_div_mod(x as int, 411775);
        vstd::arithmetic::div_mod::lemma_mod_bound(x as int, 411775);
    }
    let u = x - (q as i64) * 411775;
    if u < 205887 {
        if u <= 102944 {
            sin_core(u)
        } else {
            sin_core(205887 - u)
        }
    } else {
        let v = u - 205887;
        let s = if v <= 102944 {
            sin_core(v)
        } else {
            sin_core(205887 - v)
        };
        -s
    }
}

/// Periodic fixed-point cosine: the sine a quarter turn ahead.
pub fn fx_cos(x: i64) -> (r: i64)
    requires
        -0x800_0000_0000 <= x <= 0x800_0000_0000,
    ensures
        r == spec_fx_cos(x as int),
        -103000 <= r <= 103000,
{
    fx_sin(x + 102944)
}

/// Integer part of the base-2 logarithm (0 below 2).
pub open spec fn floor_log2(n: int) -> int
    decreases n,
{
    if n < 2 {
        0
    } else {
        1 + floor_log2(n / 2)
    }
}

/// `floor_log2` brackets its argument between consecutive powers of two.
pub proof fn lemma_floor_log2_props(n: int)
    requires
        n >= 1,
    ensures
        0 <= floor_log2(n),
        vstd::arithmetic::power2::pow2(floor_log2(n) as nat) <= n,
        n < vstd::arithmetic::power2::pow2((floor_log2(n) + 1) as nat),
    decreases n,
{
    vstd::arithmetic::power2::lemma2_to64();
    if n >= 2 {
        lemma_div_bounds(n, 2);
        lemma_floor_log2_props(n / 2);
        let k = floor_log2(n / 2);
        vstd::arithmetic::power2::lemma_pow2_adds(k as nat, 1);
        vstd::arithmetic::power2::lemma_pow2_adds((k + 1) as nat, 1);
        lemma_fundamental_div_mod(n, 2);
        vstd::arithmetic::div_mod::lemma_mod_bound(n, 2);
    }
}

/// The fractional bits of the base-2 logarithm of a mantissa in
/// [ONE, 2*ONE), one bit per squaring.
pub open spec fn spec_log2_bits(v: int, n: nat) -> int
    decreases n,
{
    if n == 0 {
        0
    } else {
        let v2 = (v * v) / 65536;
        if v2 >= 131072 {
            (vstd::arithmetic::power2::pow2((n - 1) as nat) as int) + spec_log2_bits(
                v2 / 2,
                (n - 1) as nat,
            )
        } else {
            spec_log2_bits(v2, (n - 1) as nat)
        }
    }
}

/// Base-2 logarithm of a positive fixed-point scalar: the integer part
/// from the leading bit, 16 fractional bits by repeated squaring of the
/// mantissa.
pub open spec fn spec_fx_log2(x: int) -> int {
    let k = floor_log2(x);
    let v = (x * 65536) / (vstd::arithmetic::power2::pow2(k as nat) as int);
    (k - 16) * 65536 + spec_log2_bits(v, 16)
}

pub fn fx_log2(x: i64) -> (r: i64)
    requires
        1 <= x <= 0x4000_0000_0000,
    ensures
        r == spec_fx_log2(x as int),
        -1048576 <= r <= 2031615,
        x <= 655360 ==> r <= 262143,
{
    proof {
        lemma_floor_log2_props(x as int);
    }
    proof {
        vstd::arithmetic::power2::lemma2_to64();
        vstd::arithmetic::power2::lemma2_to64_rest();
        if floor_log2(x as int) > 46 {
            vstd::arithmetic::power2::lemma_pow2_strictly_increases(46, floor_log2(x as int) as nat);
        }
    }
    let mut w: u64 = x as u64;
    let mut k: u64 = 0;
    while w >= 2
        invariant
            1 <= w,
            w <= x,
            floor_log2(x as int) == k + floor_log2(w as int),
            k <= floor_log2(x as int),
            floor_log2(x as int) <= 46,
        decreases w,
    {
        proof {
            lemma_div_bounds(w as int, 2);
            lemma_floor_log2_props((w as int) / 2);
        }
        w = w / 2;
        k = k + 1;
    }
    let ghost kk = floor_log2(x as int);
    proof {
        assert(floor_log2(1) == 0);
        assert(k == kk);
        // x <= 2^46, so k <= 46
        vstd::arithmetic::power2::lemma2_to64();
        vstd::arithmetic::power2::lemma2_to64_rest();
        if kk > 46 {
            vstd::arithmetic::power2::lemma_pow2_strictly_increases(46, kk as nat);
        }
        if x <= 655360 && kk > 19 {
            vstd::arithmetic::power2::lemma_pow2_strictly_increases(19, kk as nat);
        }
    }
    let pk = pow2_u64(k);
    let v128 = ((x as u128) * 65536) / (pk as u128);
    proof {
        let xi = x as int;
        let p2 = vstd::arithmetic::power2::pow2(k as nat) as int;
        // pow2(k) <= x < 2*pow2(k) gives a mantissa in [ONE, 2*ONE)
        vstd::arithmetic::power2::lemma_pow2_adds(k as nat, 1);
        assert(p2 * 65536 <= xi * 65536 && xi * 65536 < (2 * p2) * 65536) by (nonlinear_arith)
            requires
                p2 <= xi,
                xi < 2 * p2,
                p2 >= 1,
        ;
        assert(p2 * 65536 == 65536 * p2) by (nonlinear_arith);
        lemma_div_exact(p2 * 65536, p2, 65536);
        vstd::arithmetic::div_mod::lemma_div_is_ordered(p2 * 65536, xi * 65536, p2);
        assert((2 * p2) * 65536 - 1 == p2 * 131071 + (p2 - 1)) by (nonlinear_arith);
        lemma_fundamental_div_mod_converse_div((2 * p2) * 65536 - 1, p2, 131071, p2 - 1);
        vstd::arithmetic::div_mod::lemma_div_is_ordered(xi * 65536, (2 * p2) * 65536 - 1, p2);
    }
    let mut v: i64 = v128 as i64;
    let mut frac: i64 = 0;
    let mut j: u64 = 0;
    let ghost v0 = v as int;
    while j < 16
        invariant
            0 <= j <= 16,
            65536 <= v <= 131071,
            0 <= frac,
            frac < vstd::arithmetic::power2::pow2(j as nat),
            spec_log2_bits(v0, 16) == frac * (vstd::arithmetic::power2::pow2((16 - j) as nat)
                as int) + spec_log2_bits(v as int, (16 - j) as nat),
        decreases 16 - j,
    {
        proof {
            assert(65536 * 65536 <= v as int * v as int && v as int * v as int <= 131071
                * 131071) by (nonlinear_arith)
                requires
                    65536 <= v <= 131071,
            ;
            vstd::arithmetic::div_mod::lemma_div_is_ordered(65536int * 65536, v as int * v as int, 65536);
            lemma_div_exact(65536int * 65536, 65536, 65536);
            vstd::arithmetic::div_mod::lemma_div_is_ordered(v as int * v as int, 131071int * 131071, 65536);
            lemma_fundamental_div_mod_converse_div(131071int * 131071, 65536, 262140, 1);
            vstd::arithmetic::power2::lemma_pow2_adds((15 - j) as nat, 1);
            vstd::arithmetic::power2::lemma2_to64();
        }
        let ghost vold = v as int;
        let ghost fo = frac as int;
        let ghost po = vstd::arithmetic::power2::pow2((15 - j) as nat) as int;
        proof {
            assert(2 * po == vstd::arithmetic::power2::pow2((16 - j) as nat));
        }
        let v2 = (((v as u64) * (v as u64)) / 65536) as i64;
        if v2 >= 131072 {
            proof {
                lemma_fundamental_div_mod(v2 as int, 2);
                vstd::arithmetic::div_mod::lemma_mod_bound(v2 as int, 2);
                assert(spec_log2_bits(vold, (16 - j) as nat) == po + spec_log2_bits(
                    v2 as int / 2, (15 - j) as nat,
                ));
                assert((2 * fo + 1) * po == fo * (2 * po) + po) by (nonlinear_arith);
            }
            v = ((v2 as u64) / 2) as i64;
            frac = frac * 2 + 1;
        } else {
            proof {
                assert(spec_log2_bits(vold, (16 - j) as nat) == spec_log2_bits(
                    v2 as int, (15 - j) as nat,
                ));
                assert((2 * fo) * po == fo * (2 * po)) by (nonlinear_arith);
            }
            v = v2;
            frac = frac * 2;
        }
        j = j + 1;
    }
    proof {
        vstd::arithmetic::power2::lemma2_to64();
        assert(spec_log2_bits(v as int, 0) == 0);
        assert(k == kk);
        assert(j == 16);
        assert((16 - j) as nat == 0nat);
        assert(vstd::arithmetic::power2::pow2(0) == 1);
        assert(spec_log2_bits(v0, 16) == frac * ((vstd::arithmetic::power2::pow2(0) as int))
            + spec_log2_bits(v as int, 0));
        assert(frac * ((vstd::arithmetic::power2::pow2(0) as int)) == frac)
            by (nonlinear_arith)
            requires
                vstd::arithmetic::power2::pow2(0) == 1,
        ;
        assert(spec_log2_bits(v0, 16) == frac);
        assert(v0 == (x as int * 65536) / (
            vstd::arithmetic::power2::pow2(kk as nat) as int
        ));
        assert(spec_fx_log2(x as int) == (kk - 16) * 65536 + spec_log2_bits(v0, 16));
    }
    (k as i64 - 16) * 65536 + frac
}

/// The fractional logarithm bits stay below their bit budget.
pub proof fn lemma_log2_bits_range(v: int, n: nat)
    ensures
        0 <= spec_log2_bits(v, n),
        spec_log2_bits(v, n) < vstd::arithmetic::power2::pow2(n),
    decreases n,
{
    vstd::arithmetic::power2::lemma2_to64();
    if n == 0 {
    } else {
        let v2 = (v * v) / 65536;
        vstd::arithmetic::power2::lemma_pow2_adds((n - 1) as nat, 1);
        if v2 >= 131072 {
            lemma_log2_bits_range(v2 / 2, (n - 1) as nat);
        } else {
            lemma_log2_bits_range(v2, (n - 1) as nat);
        }
    }
}

/// The fixed-point logarithm lies within one unit of its leading-bit
/// estimate.
pub proof fn lemma_spec_fx_log2_range(x: int)
    requires
        x >= 1,
    ensures
        (floor_log2(x) - 16) * 65536 <= spec_fx_log2(x),
        spec_fx_log2(x) < (floor_log2(x) - 15) * 65536,
{
    let k = floor_log2(x);
    let v = (x * 65536) / (vstd::arithmetic::power2::pow2(k as nat) as int);
    lemma_log2_bits_range(v, 16);
    vstd::arithmetic::power2::lemma2_to64();
    assert((k - 15) * 65536 == (k - 16) * 65536 + 65536) by (nonlinear_arith);
}

/// Natural logarithm: `log2` rescaled by `ln(2) ~ 45426/65536`.
pub open spec fn spec_fx_ln(x: int) -> int {
    fxs_mul(spec_fx_log2(x), 45426)
}

pub fn fx_ln(x: i64) -> (r: i64)
    requires
        1 <= x <= 0x4000_0000_0000,
    ensures
        r == spec_fx_ln(x as int),
        -1048576 <= r <= 2031615,
{
    let lg = fx_log2(x);
    proof {
        lemma_div_abs_bound(lg as int * 45426, 65536, 1408302);
    }
    fx_mul(lg, 45426)
}

/// Arctangent on [0, 1]: the quadratic approximation
/// `pi/4 * u + 0.273 * u * (1 - u)`, a documented approximation.
pub open spec fn spec_atan_core(u: int) -> int {
    fxs_mul(u, 51472) + fxs_mul(fxs_mul(17892, u), 65536 - u)
}

fn atan_core(u: i64) -> (r: i64)
    requires
        0 <= u <= 65536,
    ensures
        r == spec_atan_core(u as int),
        0 <= r <= 69364,
{
    proof {
        lemma_div_abs_bound(u as int * 51472, 65536, 51472);
        vstd::arithmetic::div_mod::lemma_div_pos_is_pos(u as int * 51472, 65536);
        assert(u as int * 51472 >= 0) by (nonlinear_arith)
            requires
                u >= 0,
        ;
        lemma_div_abs_bound(17892 * u as int, 65536, 17892);
        vstd::arithmetic::div_mod::lemma_div_pos_is_pos(17892 * u as int, 65536);
    }
    let a = fx_mul(u, 51472);
    let b = fx_mul(17892, u);
    proof {
        lemma_mul_abs_le(b as int, 65536 - u as int, 17892, 65536);
        lemma_div_abs_bound(b as int * (65536 - u as int), 65536, 17892);
        assert(b as int * (65536 - u as int) >= 0) by (nonlinear_arith)
            requires
                b >= 0,
                u <= 65536,
        ;
        vstd::arithmetic::div_mod::lemma_div_pos_is_pos(b as int * (65536 - u as int), 65536);
    }
    let c = fx_mul(b, 65536 - u);
    a + c
}

/// Four-quadrant arctangent: the first octant comes from `spec_atan_core`,
/// the rest by the usual reflections; both arguments zero map to 0.
pub open spec fn spec_fx_atan2(y: int, x: int) -> int {
    if x == 0 && y == 0 {
        0
    } else {
        let a = fxs_abs(y);
        let b = fxs_abs(x);
        let t = if a <= b {
            spec_atan_core(fxs_div(a, b))
        } else {
            102944 - spec_atan_core(fxs_div(b, a))
        };
        let u = if x >= 0 {
            t
        } else {
            205887 - t
        };
        if y >= 0 {
            u
        } else {
            -u
        }
    }
}

pub fn fx_atan2(y: i64, x: i64) -> (r: i64)
    requires
        -0x4000_0000_0000 <= y <= 0x4000_0000_0000,
        -0x4000_0000_0000 <= x <= 0x4000_0000_0000,
    ensures
        r == spec_fx_atan2(y as int, x as int),
        -205887 <= r <= 205887,
{
    if x == 0 && y == 0 {
        return 0;
    }
    let a = fx_abs(y);
    let b = fx_abs(x);
    let t: i64;
    if a <= b {
        proof {
            assert(a as int * 65536 <= b as int * 65536) by (nonlinear_arith)
                requires
                    a <= b,
            ;
            lemma_div_exact(b as int * 65536, b as int, 65536);
            vstd::arithmetic::div_mod::lemma_div_is_ordered(a as int * 65536, b as int * 65536, b as int);
            vstd::arithmetic::div_mod::lemma_div_pos_is_pos(a as int * 65536, b as int);
        }
        let u = fx_div(a, b);
        t = atan_core(u);
    } else {
        proof {
            assert(b as int * 65536 <= a as int * 65536) by (nonlinear_arith)
                requires
                    b <= a,
            ;
            lemma_div_exact(a as int * 65536, a as int, 65536);
            vstd::arithmetic::div_mod::lemma_div_is_ordered(b as int * 65536, a as int * 65536, a as int);
            vstd::arithmetic::div_mod::lemma_div_pos_is_pos(b as int * 65536, a as int);
        }
        let u = fx_div(b, a);
        t = 102944 - atan_core(u);
    }
    let u = if x >= 0 {
        t
    } else {
        205887 - t
    };
    if y >= 0 {
        u
    } else {
        -u
    }
}

/// Arccosine via `atan2(sqrt(1 - t^2), t)`; the argument is clamped to
/// [-1, 1] first (the stand-in for the floating-point domain error).
pub open spec fn spec_fx_acos(t: int) -> int {
    let c = fxs_max(-65536, fxs_min(t, 65536));
    spec_fx_atan2(sqrt_floor(65536 * 65536 - c * c), c)
}

pub fn fx_acos(t: i64) -> (r: i64)
    requires
        -0x4000_0000_0000 <= t <= 0x4000_0000_0000,
    ensures
        r == spec_fx_acos(t as int),
        -205887 <= r <= 205887,
{
    let c = fx_max(-65536, fx_min(t, 65536));
    proof {
        assert(0 <= c as int * c as int && c as int * c as int <= 65536 * 65536)
            by (nonlinear_arith)
            requires
                -65536 <= c <= 65536,
        ;
    }
    let sq = (65536i64 * 65536) - c * c;
    let sroot = isqrt(sq as u128);
    proof {
        assert((sq as int) < 65537 * 65537) by (nonlinear_arith)
            requires
                sq <= 65536 * 65536,
        ;
        lemma_sqrt_floor_le(sq as int, 65536);
    }
    fx_atan2(sroot as i64, c)
}

/// A real power of a nonnegative base: `2^(w * log2(base))`, saturating as
/// the exponential does; a nonpositive base maps to 0 (the stand-in for
/// the floating-point domain error).
pub open spec fn spec_fx_powf(base: int, w: int) -> int {
    if base <= 0 {
        0
    } else {
        spec_fx_exp2(fxs_mul(w, spec_fx_log2(base)))
    }
}

pub fn fx_powf(base: i64, w: i64) -> (r: i64)
    requires
        base <= 0x4000_0000_0000,
        -1048576 <= w <= 1048576,
    ensures
        r == spec_fx_powf(base as int, w as int),
        0 <= r <= 0x7FFF_FFFF_FFFF,
        fxs_mul(w as int, spec_fx_log2(base as int)) <= 1048576 ==> r <= 0x2_0000_0000,
{
    if base <= 0 {
        return 0;
    }
    let lg = fx_log2(base);
    proof {
        lemma_mul_abs_le(w as int, lg as int, 1048576, 2031616);
        lemma_div_abs_bound(w as int * lg as int, 65536, 33_000_000);
    }
    let t = fx_mul(w, lg);
    fx_exp2(t)
}

/// Dividing a nonpositive value by a larger positive divisor moves the
/// quotient toward zero.
pub proof fn lemma_div_le_denominator_neg(a: int, b1: int, b2: int)
    requires
        a <= 0,
        0 < b1 <= b2,
    ensures
        a / b2 >= a / b1,
{
    let q1 = a / b1;
    let r1 = a % b1;
    let q2 = a / b2;
    let r2 = a % b2;
    lemma_fundamental_div_mod(a, b1);
    lemma_fundamental_div_mod(a, b2);
    lemma_div_bounds(a, b1);
    lemma_div_bounds(a, b2);
    assert(q2 >= q1) by (nonlinear_arith)
        requires
            a == b1 * q1 + r1,
            0 <= r1 < b1,
            a == b2 * q2 + r2,
            0 <= r2 < b2,
            0 < b1 <= b2,
            a <= 0,
            q1 <= 0,
            q2 <= 0,
    ;
}

} // verus!
