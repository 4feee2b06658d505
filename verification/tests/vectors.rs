use rustic::vec3::Vec3;

const ONE: i64 = 65536;

#[test]
fn construction_and_splat() {
    let v = Vec3::new(1, 2, 3);
    assert_eq!((v.x, v.y, v.z), (1, 2, 3));
    let s = Vec3::from_float(ONE);
    assert_eq!((s.x, s.y, s.z), (ONE, ONE, ONE));
}

#[test]
fn arithmetic_is_componentwise() {
    let a = Vec3::new(ONE, 2 * ONE, -ONE);
    let b = Vec3::new(ONE, -ONE, ONE);
    let s = a.add(b);
    assert_eq!((s.x, s.y, s.z), (2 * ONE, ONE, 0));
    let d = a.sub(b);
    assert_eq!((d.x, d.y, d.z), (0, 3 * ONE, -2 * ONE));
    let m = a.scale(2 * ONE);
    assert_eq!((m.x, m.y, m.z), (2 * ONE, 4 * ONE, -2 * ONE));
    let c = a.mul_comp(b);
    assert_eq!((c.x, c.y, c.z), (ONE, -2 * ONE, -ONE));
}

#[test]
fn division_is_componentwise_and_sign_symmetric() {
    let a = Vec3::new(3 * ONE, 4 * ONE, -2 * ONE);
    let d = a.div_scalar(2 * ONE);
    assert_eq!((d.x, d.y, d.z), (3 * ONE / 2, 2 * ONE, -ONE));
    // a negative divisor negates the quotient by the magnitude
    let n = a.div_scalar(-2 * ONE);
    assert_eq!((n.x, n.y, n.z), (-(3 * ONE / 2), -2 * ONE, ONE));
    let b = Vec3::new(ONE, -2 * ONE, 4 * ONE);
    let c = a.div_comp(b);
    assert_eq!((c.x, c.y, c.z), (3 * ONE, -2 * ONE, -ONE / 2));
}

#[test]
fn length_of_pythagorean_triple() {
    // (3, 4, 0) has length 5 exactly
    let v = Vec3::new(3 * ONE, 4 * ONE, 0);
    assert_eq!(v.length(), 5 * ONE);
}

#[test]
fn dot_products() {
    let a = Vec3::new(ONE, 2 * ONE, 3 * ONE);
    let b = Vec3::new(4 * ONE, -5 * ONE, 6 * ONE);
    // 4 - 10 + 18 = 12
    assert_eq!(a.dot(&b), 12 * ONE);
    let x = Vec3::new(ONE, 0, 0);
    let y = Vec3::new(0, ONE, 0);
    assert_eq!(x.dot(&y), 0);
}

#[test]
fn cross_of_axes() {
    let x = Vec3::new(ONE, 0, 0);
    let y = Vec3::new(0, ONE, 0);
    let z = x.cross(&y);
    assert_eq!((z.x, z.y, z.z), (0, 0, ONE));
}

#[test]
fn normalize_gives_unit_length() {
    for v in [
        Vec3::new(3 * ONE, 4 * ONE, 0),
        Vec3::new(ONE, ONE, ONE),
        Vec3::new(-7 * ONE, 2 * ONE, 5 * ONE),
        Vec3::new(1000 * ONE, -1, 17),
    ] {
        let n = v.normalize();
        let len = n.length();
        // unit length up to fixed-point rounding
        assert!((len - ONE).abs() <= 4, "length {len}");
    }
}

#[test]
fn cross_products_are_orthogonal_within_rounding() {
    let pairs = [
        (Vec3::new(ONE, 0, 0), Vec3::new(0, ONE, 0)),
        (Vec3::new(ONE, 2 * ONE, 3 * ONE), Vec3::new(-ONE, ONE, ONE)),
        (Vec3::new(12345, -54321, 77777), Vec3::new(-33333, 11111, 99999)),
    ];
    for (a, b) in pairs {
        let c = a.cross(&b);
        // the rescaled cross product keeps near-orthogonality; the raw
        // (unscaled) one is exactly orthogonal
        assert!(c.dot(&a).abs() <= 4, "dot {}", c.dot(&a));
        assert!(c.dot(&b).abs() <= 4, "dot {}", c.dot(&b));
    }
}
