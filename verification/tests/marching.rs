use rustic::march::{
    calc_normal_eff, march, march_ray, normal_from_samples, simple_lighting, LightingInfo,
};
use rustic::scene::{build_scene, SceneDescription, SceneKind};
use rustic::vec3::Vec3;

const ONE: i64 = 65536;

fn scene_with_camera(cam: Vec3, look: Vec3) -> rustic::scene::Scene {
    let mut d = SceneDescription::default();
    d.camera_pos = cam;
    d.look_at = look;
    build_scene(d)
}

#[test]
fn ray_at_sphere_center_converges_to_the_surface() {
    // camera aims straight at the sphere center (0, 0, 3); the surface
    // lies |camera - center| - 2 = 3.0498 along the ray
    let s = scene_with_camera(Vec3::new(32768, 32768, -2 * ONE), Vec3::new(0, 0, 3 * ONE));
    let r = march_ray(&s, &s.direction);
    assert!(r.radius < s.epsilon, "no hit: radius {}", r.radius);
    assert!(r.steps < s.max_steps, "budget exhausted");
    // traveled distance within epsilon-scale slack of the exact value
    let expected = 199_868i64;
    assert!(
        (r.dist - expected).abs() <= 500,
        "traveled {} expected about {}",
        r.dist,
        expected
    );
}

#[test]
fn ray_aimed_away_reports_a_miss_beyond_max_distance() {
    // straight up from the default camera: no geometry that way
    let s = scene_with_camera(Vec3::new(32768, 32768, -2 * ONE), Vec3::new(0, 0, 0));
    let up = Vec3::new(0, ONE, 0);
    let r = march_ray(&s, &up);
    assert!(r.dist > s.max_dist, "traveled {} within max_dist", r.dist);
    assert!(r.radius >= s.epsilon);
}

#[test]
fn march_always_terminates_one_of_three_ways() {
    let s = scene_with_camera(Vec3::new(32768, 32768, -2 * ONE), Vec3::new(0, 0, 0));
    let dirs = [
        Vec3::new(0, 0, ONE),
        Vec3::new(0, ONE, 0),
        Vec3::new(0, -ONE, 0),
        Vec3::new(46341, 0, 46341),
    ];
    for d in dirs {
        let r = march_ray(&s, &d);
        assert!(r.dist > s.max_dist || r.radius < s.epsilon || r.steps == s.max_steps);
        assert!(r.steps >= 1 && r.steps <= s.max_steps);
    }
}

#[test]
fn downward_ray_hits_the_ground_plane_at_camera_height() {
    // from (0.5, 2, 0.5) straight down, the plane is 2 away
    let s = scene_with_camera(Vec3::new(32768, 2 * ONE, 32768), Vec3::new(32768, 0, 32768));
    let r = march_ray(&s, &s.direction);
    assert!(r.radius < s.epsilon);
    assert!((r.dist - 2 * ONE).abs() <= 200, "traveled {}", r.dist);
}

#[test]
fn normal_of_the_ground_plane_points_up() {
    let p = Vec3::new(5 * ONE, 10, -4 * ONE);
    let n = calc_normal_eff(SceneKind::Example, p);
    assert!(n.y > 60000, "n = ({}, {}, {})", n.x, n.y, n.z);
    assert!(n.x.abs() < 3000 && n.z.abs() < 3000);
}

#[test]
fn normal_from_samples_normalizes_the_gradient() {
    // gradient (3, 4, 0) scaled to unit length
    let n = normal_from_samples(5 * ONE, 2 * ONE, ONE, 5 * ONE);
    assert_eq!((n.x, n.y, n.z), (39321, 52428, 0));
    // a flat field has no direction: the zero normal stands in
    let z = normal_from_samples(7, 7, 7, 7);
    assert_eq!((z.x, z.y, z.z), (0, 0, 0));
}

#[test]
fn simple_lighting_channels() {
    let info = LightingInfo {
        end_pos: Vec3::new(0, 0, 0),
        normal: Vec3::new(0, ONE, 0),
        ray_dist: ONE / 4,
        obj_dist: 3,
        light: ONE / 3,
        extra: ONE,
        steps: ONE / 10,
    };
    let (r, g, b) = simple_lighting(info);
    assert_eq!(r, ONE - ONE / 4);
    assert_eq!(g, ONE / 10);
    assert_eq!(b, ONE);
    // travel distances beyond the maximum clamp red to zero
    let far = LightingInfo { ray_dist: 3 * ONE, ..info };
    assert_eq!(simple_lighting(far).0, 0);
}

#[test]
fn march_colors_match_the_pipeline_on_a_hit() {
    let s = scene_with_camera(Vec3::new(32768, 2 * ONE, 32768), Vec3::new(32768, 0, 32768));
    let (r, g, b) = march(&s, &s.direction);
    // a hit 2 units out of 255: red near full; the hit point's orbit
    // never escapes, so the fractal iteration fraction fills blue
    assert!(r > 65000, "r = {r}");
    assert_eq!(b, ONE);
    assert!(g > 0 && g < ONE / 10, "g = {g}");
}
