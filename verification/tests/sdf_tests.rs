use rustic::sdf::{
    grid_sphere, gyroid_sdf, mandlebulb_sdf, mandlebulb_sdf_iter, plane_sdf,
    random_sphere_grid, simple_hash, sphere_fbm_sdf, sphere_sdf, torus_sdf,
};
use rustic::vec3::Vec3;

const ONE: i64 = 65536;

#[test]
fn sphere_distance_at_known_points() {
    // the sphere sits at (0, 0, 3) with radius 2: the origin is 1 away
    assert_eq!(sphere_sdf(Vec3::new(0, 0, 0)), ONE);
    // the center is radius deep inside
    assert_eq!(sphere_sdf(Vec3::new(0, 0, 3 * ONE)), -2 * ONE);
    // a point on the surface
    assert_eq!(sphere_sdf(Vec3::new(0, 0, ONE)), 0);
    // 5 along z from the center: 3 outside
    assert_eq!(sphere_sdf(Vec3::new(0, 0, 8 * ONE)), 3 * ONE);
}

#[test]
fn sphere_sign_tells_containment() {
    // inside points report negative, outside points positive
    assert!(sphere_sdf(Vec3::new(0, 0, 2 * ONE)) < 0);
    assert!(sphere_sdf(Vec3::new(0, 0, 4 * ONE)) < 0);
    assert!(sphere_sdf(Vec3::new(0, 0, 6 * ONE)) > 0);
    assert!(sphere_sdf(Vec3::new(0, 5 * ONE, 3 * ONE)) > 0);
}

#[test]
fn plane_distance_is_projection_minus_offset() {
    let up = Vec3::new(0, ONE, 0);
    assert_eq!(plane_sdf(Vec3::new(7 * ONE, 2 * ONE, -3 * ONE), up, 0), 2 * ONE);
    assert_eq!(plane_sdf(Vec3::new(0, -ONE, 0), up, 0), -ONE);
    assert_eq!(plane_sdf(Vec3::new(0, 5 * ONE, 0), up, 2 * ONE), 3 * ONE);
    // sign flips exactly at the surface
    assert_eq!(plane_sdf(Vec3::new(0, 0, 0), up, 0), 0);
}

#[test]
fn torus_distance_at_known_points() {
    // ring radius 1.5, tube radius 0.4 (the catalog's torus)
    let dia = 98304;
    let th = 26214;
    // on the ring circle: tube-radius deep inside
    assert_eq!(torus_sdf(Vec3::new(dia, 0, 0), dia, th), -th);
    // at the origin: ring_radius - tube_radius away
    assert_eq!(torus_sdf(Vec3::new(0, 0, 0), dia, th), dia - th);
    // 1 above the ring circle: 1 - tube_radius away
    assert_eq!(torus_sdf(Vec3::new(dia, ONE, 0), dia, th), ONE - th);
    assert!(torus_sdf(Vec3::new(dia + th / 2, 0, 0), dia, th) < 0);
}

#[test]
fn hash_reference_values() {
    // values pinned by the fixed-point formula
    assert_eq!(simple_hash(Vec3::new(0, 0, 0)), 0);
    assert_eq!(simple_hash(Vec3::new(ONE, 0, 0)), 6715);
    assert_eq!(simple_hash(Vec3::new(2 * ONE, 3 * ONE, 5 * ONE)), 3109);
}

#[test]
fn hash_stays_in_half_unit_range() {
    for i in -20i64..20 {
        for j in -5i64..5 {
            let h = simple_hash(Vec3::new(i * ONE, j * ONE, (i + j) * ONE));
            assert!((-32768..=32768).contains(&h));
        }
    }
}

#[test]
fn grid_sphere_matches_corner_distance() {
    // a zero hash (the origin corner) leaves the plain corner distance
    let grid = Vec3::new(0, 0, 0);
    let frac = Vec3::new(32768, 32768, 32768);
    let d = grid_sphere(grid, frac, Vec3::new(0, 0, 0));
    // |(0.5,0.5,0.5)| = 0.8660; the hash of the origin corner is 0
    assert_eq!(d, 56755);
}

#[test]
fn grid_sphere_hashes_each_corner_on_its_own() {
    // sitting exactly on the (1,0,0) corner: the distance term vanishes
    // and only that corner's own hashed radius remains
    let grid = Vec3::new(0, 0, 0);
    let frac = Vec3::new(ONE, 0, 0);
    let d = grid_sphere(grid, frac, Vec3::new(ONE, 0, 0));
    // hash of (1,0,0) is 6715, so the radius is 3357
    assert_eq!(d, -3357);
    // the same corner seen from the neighboring cell carries the same
    // radius, so the field agrees across the shared face
    let d2 = grid_sphere(Vec3::new(ONE, 0, 0), Vec3::new(0, 0, 0), Vec3::new(0, 0, 0));
    assert_eq!(d2, -3357);
}

#[test]
fn random_sphere_grid_reference_values() {
    assert_eq!(random_sphere_grid(Vec3::new(32768, 32768, 32768)), 46689);
    assert_eq!(random_sphere_grid(Vec3::new(81920, 163840, 245760)), 24129);
}

#[test]
fn random_sphere_grid_is_deterministic() {
    // identical points give identical distances on every evaluation
    let pts = [
        Vec3::new(32768, 32768, 32768),
        Vec3::new(-81920, 40000, 999999),
        Vec3::new(7 * ONE + 123, -3 * ONE + 456, ONE / 3),
    ];
    for p in pts {
        let first = random_sphere_grid(p);
        for _ in 0..10 {
            assert_eq!(random_sphere_grid(Vec3::new(p.x, p.y, p.z)), first);
        }
    }
}

#[test]
fn fbm_stays_near_its_seed() {
    // the octaves fold a bounded field into the seed distance
    let p = Vec3::new(32768, 3 * ONE, -2 * ONE);
    let d = sphere_fbm_sdf(p, 5 * ONE);
    assert!((d - 5 * ONE).abs() <= 1_280_000);
    let d2 = sphere_fbm_sdf(p, 5 * ONE);
    assert_eq!(d, d2);
}

#[test]
fn gyroid_is_bounded_and_deterministic() {
    let pts = [
        Vec3::new(0, 0, 0),
        Vec3::new(ONE / 3, -2 * ONE, 5 * ONE),
        Vec3::new(7 * ONE, ONE, -ONE),
    ];
    for p in pts {
        let d = gyroid_sdf(p, 5 * ONE, 98304);
        assert!((-1_500_000..=1_500_000).contains(&d));
        assert_eq!(gyroid_sdf(p, 5 * ONE, 98304), d);
    }
    // at the origin every sine vanishes: |0| / 5 - 0.2 scaled by 0.8
    assert_eq!(gyroid_sdf(Vec3::new(0, 0, 0), 5 * ONE, 98304), -10486);
}

#[test]
fn fractal_bulb_far_point_escapes_immediately() {
    // |(0, 0, 16)| = 16 exceeds the bailout on the first test, so the
    // estimator is 0.5 * ln(16) * 16 with derivative 1, in fixed point
    let p = Vec3::new(0, 0, 16 * ONE);
    assert_eq!(mandlebulb_sdf(p, 100, 10 * ONE, 4 * ONE), 1453632);
    // one iteration out of one hundred
    assert_eq!(mandlebulb_sdf_iter(p, 100, 10 * ONE, 4 * ONE), 655);
}

#[test]
fn fractal_bulb_interior_point_never_escapes() {
    // the origin's orbit is stuck at the origin: full iteration budget
    let p = Vec3::new(0, 0, 0);
    assert_eq!(mandlebulb_sdf_iter(p, 100, 10 * ONE, 4 * ONE), ONE);
    // and the degenerate orbit reports the stand-in distance 0
    assert_eq!(mandlebulb_sdf(p, 100, 10 * ONE, 4 * ONE), 0);
}

#[test]
fn fractal_bulb_is_bounded_and_deterministic() {
    let pts = [
        Vec3::new(ONE, ONE / 2, -ONE),
        Vec3::new(3 * ONE, -2 * ONE, ONE / 3),
        Vec3::new(-ONE / 2, ONE / 4, ONE / 8),
    ];
    for p in pts {
        let d = mandlebulb_sdf(p, 100, 10 * ONE, 4 * ONE);
        assert!((-400000..=67108863).contains(&d));
        assert_eq!(mandlebulb_sdf(p, 100, 10 * ONE, 4 * ONE), d);
        let s = mandlebulb_sdf_iter(p, 100, 10 * ONE, 4 * ONE);
        assert!((0..=ONE).contains(&s));
    }
}
