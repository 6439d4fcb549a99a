use raytracer::color::Color;
use raytracer::scalar::Scalar;
use raytracer::scene::Scene;
use raytracer::structs::Canvas;
use raytracer::structs::Light;
use raytracer::structs::Sphere;
use raytracer::structs::NO_SPECULAR;
use raytracer::tracer::composite;
use raytracer::tracer::trace_ray;
use raytracer::vector::Vector;

fn v(x: i32, y: i32, z: i32) -> Vector {
    Vector::new(Scalar::from_int(x), Scalar::from_int(y), Scalar::from_int(z))
}

fn micro(raw: i64) -> Scalar {
    Scalar { raw }
}

fn rgb(r: i32, g: i32, b: i32) -> Color {
    Color::new(Scalar::from_int(r), Scalar::from_int(g), Scalar::from_int(b))
}

fn raw_rgb(r: i64, g: i64, b: i64) -> Color {
    Color::new(micro(r), micro(g), micro(b))
}

fn ball(center: Vector, color: Color, reflective: i64) -> Sphere {
    Sphere {
        center,
        radius: Scalar::one(),
        color,
        specular: NO_SPECULAR,
        reflective: micro(reflective),
    }
}

// A red sphere in front of the camera and a blue one behind it, lit by
// ambient light of intensity one.
fn corridor(red_reflective: i64, blue_reflective: i64) -> Scene {
    Scene {
        spheres: vec![
            ball(v(0, 0, 3), rgb(255, 0, 0), red_reflective),
            ball(v(0, 0, -3), rgb(0, 0, 255), blue_reflective),
        ],
        lights: vec![Light::Ambient { intensity: Scalar::one() }],
        camera_position: v(0, 0, 0),
        background_color: rgb(10, 20, 30),
        viewport_size: Scalar::one(),
        projection_plane_z: Scalar::one(),
        canvas: Canvas { height: 1, width: 1 },
    }
}

fn look(scene: &Scene, direction: Vector, depth: i32) -> Color {
    trace_ray(scene, v(0, 0, 0), direction, Scalar::one(), Scalar::infinity(), depth)
}

#[test]
fn ray_that_misses_everything_is_the_background() {
    let scene = corridor(500_000, 0);
    for depth in [-1, 0, 1, 3] {
        assert_eq!(look(&scene, v(0, 1, 0), depth), rgb(10, 20, 30));
        assert_eq!(look(&scene, v(1, 0, 0), depth), rgb(10, 20, 30));
    }
}

#[test]
fn empty_scene_is_all_background() {
    let mut scene = corridor(0, 0);
    scene.spheres = vec![];
    assert_eq!(look(&scene, v(0, 0, 1), 3), rgb(10, 20, 30));
}

#[test]
fn hit_outside_the_limits_is_the_background() {
    let scene = corridor(0, 0);
    let color = trace_ray(
        &scene,
        v(0, 0, 0),
        v(0, 0, 1),
        Scalar::one(),
        Scalar::from_int(2),
        3,
    );
    assert_eq!(color, rgb(10, 20, 30));
}

#[test]
fn matte_sphere_has_its_local_color() {
    let scene = corridor(0, 0);
    for depth in [0, 1, 3] {
        assert_eq!(look(&scene, v(0, 0, 1), depth), rgb(255, 0, 0));
    }
}

#[test]
fn local_color_scales_with_the_light() {
    let mut scene = corridor(0, 0);
    scene.lights = vec![Light::Ambient { intensity: micro(200_000) }];
    assert_eq!(look(&scene, v(0, 0, 1), 3), rgb(51, 0, 0));
    scene.lights = vec![];
    assert_eq!(look(&scene, v(0, 0, 1), 3), rgb(0, 0, 0));
}

#[test]
fn no_depth_means_no_reflection() {
    let full_mirror = corridor(1_000_000, 1_000_000);
    let half_mirror = corridor(500_000, 500_000);
    let matte = corridor(0, 0);
    for depth in [0, -1, i32::MIN] {
        assert_eq!(look(&full_mirror, v(0, 0, 1), depth), rgb(255, 0, 0));
        assert_eq!(look(&half_mirror, v(0, 0, 1), depth), rgb(255, 0, 0));
        assert_eq!(look(&matte, v(0, 0, 1), depth), rgb(255, 0, 0));
    }
}

#[test]
fn one_reflection_blends_in_the_mirrored_sphere() {
    let scene = corridor(500_000, 0);
    for depth in [1, 2, 3] {
        assert_eq!(look(&scene, v(0, 0, 1), depth), raw_rgb(127_500_000, 0, 127_500_000));
    }
}

#[test]
fn reflections_between_two_mirrors_stop_at_the_depth() {
    let scene = corridor(500_000, 500_000);
    assert_eq!(look(&scene, v(0, 0, 1), 1), raw_rgb(127_500_000, 0, 127_500_000));
    assert_eq!(look(&scene, v(0, 0, 1), 2), raw_rgb(191_250_000, 0, 63_750_000));
    assert_eq!(look(&scene, v(0, 0, 1), 3), raw_rgb(159_375_000, 0, 95_625_000));
}

#[test]
fn full_mirror_shows_only_the_reflection() {
    let scene = corridor(1_000_000, 0);
    assert_eq!(look(&scene, v(0, 0, 1), 1), rgb(0, 0, 255));
}

#[test]
fn negative_reflective_coefficient_counts_as_matte() {
    let scene = corridor(-500_000, 0);
    assert_eq!(look(&scene, v(0, 0, 1), 3), rgb(255, 0, 0));
}

#[test]
fn mirror_facing_nothing_reflects_the_background() {
    let mut scene = corridor(500_000, 0);
    scene.spheres.truncate(1);
    // half of red and half of the background
    assert_eq!(look(&scene, v(0, 0, 1), 1), raw_rgb(132_500_000, 10_000_000, 15_000_000));
}

#[test]
fn composite_with_zero_weight_is_the_local_color() {
    let reflected = rgb(1, 2, 3);
    for local in [rgb(255, 0, 0), rgb(0, 0, 0), raw_rgb(1, -1, 123_456_789), raw_rgb(i64::MAX, i64::MIN, 7)] {
        assert_eq!(composite(local, reflected, Scalar::zero()), local);
    }
}

#[test]
fn composite_is_a_linear_blend() {
    let local = rgb(200, 100, 0);
    let reflected = rgb(0, 100, 50);
    assert_eq!(composite(local, reflected, micro(250_000)), rgb(150, 100, 12).add(raw_rgb(0, 0, 500_000)));
    assert_eq!(composite(local, reflected, Scalar::one()), reflected);
    assert_eq!(composite(local, reflected, micro(500_000)), rgb(100, 100, 25));
}
