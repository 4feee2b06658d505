use rustic::scene::{
    build_scene, example_scene_sdf, fbm_scene_sdf, gyroid_scene_sdf, lighting_kind_of_name,
    mandlebulb_scene_sdf, scene_kind_of_name, scene_sdf, sphere_grid_scene_sdf,
    torus_scene_sdf, AuxKind, LightingKind, SceneDescription, SceneKind,
};
use rustic::sdf::{plane_sdf, sphere_sdf};
use rustic::vec3::Vec3;

const ONE: i64 = 65536;

#[test]
fn scene_names_select_catalog_entries() {
    assert_eq!(scene_kind_of_name("torus"), SceneKind::Torus);
    assert_eq!(scene_kind_of_name("gyroid"), SceneKind::Gyroid);
    assert_eq!(scene_kind_of_name("mandlebulb"), SceneKind::Mandlebulb);
    assert_eq!(scene_kind_of_name("sphere_grid"), SceneKind::SphereGrid);
    assert_eq!(scene_kind_of_name("fbm"), SceneKind::Fbm);
    assert_eq!(scene_kind_of_name("example"), SceneKind::Example);
    assert_eq!(scene_kind_of_name("default"), SceneKind::Example);
}

#[test]
fn unknown_scene_names_fall_back_silently() {
    assert_eq!(scene_kind_of_name(""), SceneKind::Example);
    assert_eq!(scene_kind_of_name("no_such_scene"), SceneKind::Example);
    assert_eq!(scene_kind_of_name("TORUS"), SceneKind::Example);
}

#[test]
fn lighting_names_select_and_fall_back() {
    assert_eq!(lighting_kind_of_name("lighting2"), LightingKind::Simple2);
    assert_eq!(lighting_kind_of_name("default"), LightingKind::Simple);
    assert_eq!(lighting_kind_of_name("anything else"), LightingKind::Simple);
}

#[test]
fn description_defaults() {
    let d = SceneDescription::default();
    assert_eq!(d.sdf, "default");
    assert_eq!(d.lighting, "default");
    assert_eq!(d.width, 640);
    assert_eq!(d.height, 480);
    assert_eq!((d.camera_pos.x, d.camera_pos.y, d.camera_pos.z), (32768, 32768, -131072));
    assert_eq!((d.look_at.x, d.look_at.y, d.look_at.z), (0, 0, 0));
}

#[test]
fn union_scene_is_pointwise_minimum() {
    let pts = [
        Vec3::new(0, 0, 0),
        Vec3::new(ONE, 2 * ONE, 3 * ONE),
        Vec3::new(-5 * ONE, ONE / 2, 7 * ONE),
    ];
    let up = Vec3::new(0, ONE, 0);
    for p in pts {
        let u = example_scene_sdf(p);
        assert_eq!(u, sphere_sdf(p).min(plane_sdf(p, up, 0)));
    }
}

#[test]
fn catalog_dispatch_matches_named_fields() {
    let p = Vec3::new(ONE / 2, ONE, -ONE);
    assert_eq!(scene_sdf(SceneKind::Example, p), example_scene_sdf(p));
    assert_eq!(scene_sdf(SceneKind::Torus, p), torus_scene_sdf(p));
    assert_eq!(scene_sdf(SceneKind::Gyroid, p), gyroid_scene_sdf(p));
    assert_eq!(scene_sdf(SceneKind::Mandlebulb, p), mandlebulb_scene_sdf(p));
    assert_eq!(scene_sdf(SceneKind::SphereGrid, p), sphere_grid_scene_sdf(p));
    assert_eq!(scene_sdf(SceneKind::Fbm, p), fbm_scene_sdf(p));
}

#[test]
fn built_scene_carries_marching_parameters() {
    let s = build_scene(SceneDescription::default());
    assert_eq!(s.max_steps, 100);
    assert_eq!(s.max_dist, 255 * ONE);
    assert_eq!(s.epsilon, 66);
    assert_eq!(s.sdf, SceneKind::Example);
    assert_eq!(s.lighting_fn, LightingKind::Simple);
    assert_eq!(s.width, 640);
    assert_eq!(s.height, 480);
    assert_eq!(s.extra_sdf, Some(AuxKind::MandlebulbIter));
}

fn assert_orthonormal_basis(cam: (i64, i64, i64), look: (i64, i64, i64)) {
    let mut d = SceneDescription::default();
    d.camera_pos = Vec3::new(cam.0, cam.1, cam.2);
    d.look_at = Vec3::new(look.0, look.1, look.2);
    let s = build_scene(d);
    let dir = s.direction;
    let sx = s.screen_x;
    let sy = s.screen_y;
    // pairwise orthogonal up to rounding, unit length up to rounding
    assert!(dir.dot(&sx).abs() <= 8, "dir.sx {}", dir.dot(&sx));
    assert!(dir.dot(&sy).abs() <= 8, "dir.sy {}", dir.dot(&sy));
    assert!(sx.dot(&sy).abs() <= 8, "sx.sy {}", sx.dot(&sy));
    assert!((dir.length() - ONE).abs() <= 4);
    assert!((sx.length() - ONE).abs() <= 4);
    assert!((sy.length() - ONE).abs() <= 4);
}

#[test]
fn camera_basis_is_orthonormal_for_representative_aims() {
    assert_orthonormal_basis((32768, 32768, -2 * ONE), (0, 0, 0));
    assert_orthonormal_basis((3 * ONE, ONE, 4 * ONE), (0, 0, 0));
    assert_orthonormal_basis((-5 * ONE, 2 * ONE, ONE), (ONE, ONE, ONE));
}

#[test]
fn camera_basis_survives_the_near_vertical_branch() {
    // looking straight down and straight up
    assert_orthonormal_basis((32768, 2 * ONE, 32768), (32768, 0, 32768));
    assert_orthonormal_basis((0, -3 * ONE, 0), (0, 0, 0));
}
