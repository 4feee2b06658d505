use rustic::fixed::{
    fx_abs, fx_acos, fx_atan2, fx_cos, fx_div, fx_exp, fx_floor, fx_fract, fx_log2, fx_max,
    fx_min, fx_mul, fx_powf, fx_sin, isqrt, smooth_max, smooth_min, ONE,
};

#[test]
fn one_is_two_to_the_sixteen() {
    assert_eq!(ONE, 65536);
}

#[test]
fn multiply_rounds_toward_negative_infinity() {
    assert_eq!(fx_mul(65536, 65536), 65536);
    assert_eq!(fx_mul(32768, 32768), 16384);
    assert_eq!(fx_mul(-32768, 32768), -16384);
    // 3 * 65537 = 196611; floor(196611 / 65536) = 3, floor(-196611 / 65536) = -4
    assert_eq!(fx_mul(3, 65537), 3);
    assert_eq!(fx_mul(-3, 65537), -4);
}

#[test]
fn divide_rounds_toward_negative_infinity() {
    assert_eq!(fx_div(65536, 131072), 32768);
    assert_eq!(fx_div(1, 3), 21845);
    assert_eq!(fx_div(-1, 3), -21846);
}

#[test]
fn floor_and_fract_match_their_float_counterparts() {
    // floor goes down, fract keeps the sign of its argument
    assert_eq!(fx_floor(98304), 65536);
    assert_eq!(fx_floor(-98304), -131072);
    assert_eq!(fx_fract(98304), 32768);
    assert_eq!(fx_fract(-98304), -32768);
    assert_eq!(fx_floor(65536), 65536);
    assert_eq!(fx_fract(65536), 0);
}

#[test]
fn min_max_abs() {
    assert_eq!(fx_min(3, -4), -4);
    assert_eq!(fx_max(3, -4), 3);
    assert_eq!(fx_abs(-7), 7);
    assert_eq!(fx_abs(7), 7);
}

#[test]
fn isqrt_exact_values() {
    assert_eq!(isqrt(0), 0);
    assert_eq!(isqrt(1), 1);
    assert_eq!(isqrt(3), 1);
    assert_eq!(isqrt(4), 2);
    assert_eq!(isqrt(196608 * 196608), 196608);
    assert_eq!(isqrt(196608 * 196608 + 1), 196608);
    assert_eq!(isqrt(10_000_000_000_000_000_000_000u128), 100_000_000_000);
}

#[test]
fn smooth_min_is_hard_min_outside_the_blend_radius() {
    // |a - b| = 32768 exceeds k = 19661, so the blend vanishes
    assert_eq!(smooth_min(65536, 98304, 19661), 65536);
    assert_eq!(smooth_min(98304, 65536, 19661), 65536);
}

#[test]
fn smooth_min_dips_below_hard_min_inside_the_blend_radius() {
    // |a - b| = 4464 is inside k = 19661: blended value computed by hand
    assert_eq!(smooth_min(65536, 70000, 19661), 62600);
    assert!(smooth_min(65536, 70000, 19661) <= 65536);
}

#[test]
fn smooth_min_never_exceeds_hard_min() {
    let samples = [-131072i64, -65536, -3, 0, 5, 32768, 65536, 131072];
    for &a in &samples {
        for &b in &samples {
            for &k in &[1i64, 100, 19661, 65536] {
                assert!(smooth_min(a, b, k) <= a.min(b));
            }
        }
    }
}

#[test]
fn smooth_max_never_undershoots_hard_max() {
    let samples = [-131072i64, -65536, 0, 32768, 65536];
    for &a in &samples {
        for &b in &samples {
            for &k in &[1i64, 19661, 65536] {
                assert!(smooth_max(a, b, k) >= a.max(b));
            }
        }
    }
}

#[test]
fn exponential_reference_points() {
    assert_eq!(fx_exp(0), 65536);
    // e^-1 = 0.36788 -> 24112 in exact arithmetic; the quartic gives 24108
    assert_eq!(fx_exp(-65536), 24108);
    assert_eq!(fx_exp(65536), 178140);
    assert_eq!(fx_exp(-70 * 65536), 0);
    // saturation far above the overflow threshold
    assert_eq!(fx_exp(20 * 65536), 0x7FFF_FFFF_FFFF);
}

#[test]
fn sine_reference_points() {
    // 2 pi is 411775 units; pi/6 is 34314.5
    assert_eq!(fx_sin(0), 0);
    assert_eq!(fx_sin(34315), 32768); // sin(pi/6) = 1/2
    assert_eq!(fx_sin(102944), 65524); // sin(pi/2), 12 units under 1
    assert_eq!(fx_sin(205887), 0); // sin(pi)
    assert_eq!(fx_sin(308831), -65524); // sin(3 pi / 2)
    // periodicity: one full turn later
    assert_eq!(fx_sin(34315 + 411775), fx_sin(34315));
    // odd up to one rounding unit of the reduction
    assert!((fx_sin(-102943) + fx_sin(102943)).abs() <= 2);
}

#[test]
fn cosine_reference_points() {
    assert_eq!(fx_cos(0), 65524); // cos(0), 12 units under 1
    assert!(fx_cos(102944).abs() <= 12); // cos(pi/2)
    assert!((fx_cos(205887) + 65524).abs() <= 24); // cos(pi)
    assert_eq!(fx_cos(0), fx_sin(102944));
}

#[test]
fn logarithm_reference_points() {
    assert_eq!(fx_log2(ONE), 0);
    assert_eq!(fx_log2(2 * ONE), ONE);
    assert_eq!(fx_log2(ONE / 2), -ONE);
    // log2(10) = 3.3219, exact to the last fractional bit
    assert_eq!(fx_log2(10 * ONE), 217705);
}

#[test]
fn arctangent_reference_points() {
    assert_eq!(fx_atan2(0, 0), 0);
    assert_eq!(fx_atan2(ONE, ONE), 51472); // pi/4
    assert_eq!(fx_atan2(ONE, 0), 102944); // pi/2
    assert_eq!(fx_atan2(0, -ONE), 205887); // pi
    assert_eq!(fx_atan2(-ONE, 0), -102944); // -pi/2
}

#[test]
fn arccosine_reference_points() {
    assert_eq!(fx_acos(ONE), 0);
    assert_eq!(fx_acos(0), 102944); // pi/2
    assert_eq!(fx_acos(-ONE), 205887); // pi
    // acos(1/2) = pi/3 = 68629; the arctangent approximation is 233 off
    assert!((fx_acos(ONE / 2) - 68629).abs() <= 250);
    // arguments beyond the domain clamp
    assert_eq!(fx_acos(5 * ONE), fx_acos(ONE));
}

#[test]
fn power_reference_points() {
    assert_eq!(fx_powf(2 * ONE, 4 * ONE), 16 * ONE);
    assert_eq!(fx_powf(ONE / 4, ONE / 2), ONE / 2);
    assert_eq!(fx_powf(0, 4 * ONE), 0);
    // 10^3 within a part in a thousand
    let p = fx_powf(10 * ONE, 3 * ONE);
    assert!((p - 1000 * ONE).abs() <= 65536, "p = {p}");
}
