use raytracer::color::Color;
use raytracer::scalar::Scalar;
use raytracer::scene::Scene;
use raytracer::structs::Canvas;
use raytracer::structs::Light;
use raytracer::structs::LightType;
use raytracer::structs::Sphere;
use raytracer::structs::NO_SPECULAR;
use raytracer::tracer::compute_lighting;
use raytracer::vector::Vector;

fn v(x: i32, y: i32, z: i32) -> Vector {
    Vector::new(Scalar::from_int(x), Scalar::from_int(y), Scalar::from_int(z))
}

fn micro(raw: i64) -> Scalar {
    Scalar { raw }
}

fn blocker(center: Vector) -> Sphere {
    Sphere {
        center,
        radius: micro(250_000),
        color: Color::new(Scalar::zero(), Scalar::zero(), Scalar::zero()),
        specular: NO_SPECULAR,
        reflective: Scalar::zero(),
    }
}

fn scene_of(spheres: Vec<Sphere>, lights: Vec<Light>) -> Scene {
    Scene {
        spheres,
        lights,
        camera_position: v(0, 0, 0),
        background_color: Color::new(Scalar::zero(), Scalar::zero(), Scalar::zero()),
        viewport_size: Scalar::one(),
        projection_plane_z: Scalar::one(),
        canvas: Canvas { height: 1, width: 1 },
    }
}

fn ambient(raw: i64) -> Light {
    Light::Ambient { intensity: micro(raw) }
}

fn point(raw: i64, position: Vector) -> Light {
    Light::Point { intensity: micro(raw), position }
}

fn directional(raw: i64, direction: Vector) -> Light {
    Light::Directional { intensity: micro(raw), direction }
}

#[test]
fn light_kinds_and_intensities() {
    assert_eq!(ambient(200_000).light_type(), LightType::Ambient);
    assert_eq!(point(600_000, v(2, 1, 0)).light_type(), LightType::Point);
    assert_eq!(directional(300_000, v(1, 4, 4)).light_type(), LightType::Directional);
    assert_eq!(ambient(200_000).intensity().raw, 200_000);
    assert_eq!(point(600_000, v(2, 1, 0)).intensity().raw, 600_000);
    assert_eq!(directional(300_000, v(1, 4, 4)).intensity().raw, 300_000);
}

#[test]
fn no_lights_no_light() {
    let scene = scene_of(vec![], vec![]);
    assert_eq!(compute_lighting(&scene, v(0, 0, 0), v(0, 1, 0), v(0, 1, 0), 10).raw, 0);
}

#[test]
fn ambient_light_adds_its_intensity_everywhere() {
    let scene = scene_of(vec![blocker(v(0, 1, 0))], vec![ambient(200_000), ambient(300_000)]);
    assert_eq!(compute_lighting(&scene, v(0, 0, 0), v(0, 1, 0), v(0, 1, 0), 10).raw, 500_000);
    assert_eq!(compute_lighting(&scene, v(5, 5, 5), v(1, 0, 0), v(0, 0, 1), -1).raw, 500_000);
}

#[test]
fn point_light_straight_above_gives_full_diffuse() {
    let scene = scene_of(vec![], vec![ambient(200_000), point(500_000, v(0, 2, 0))]);
    let got = compute_lighting(&scene, v(0, 0, 0), v(0, 1, 0), v(0, 1, 0), NO_SPECULAR);
    assert_eq!(got.raw, 700_000);
}

#[test]
fn specular_highlight_adds_to_the_diffuse_light() {
    let scene = scene_of(vec![], vec![ambient(200_000), point(500_000, v(0, 2, 0))]);
    let got = compute_lighting(&scene, v(0, 0, 0), v(0, 1, 0), v(0, 1, 0), 10);
    assert_eq!(got.raw, 1_200_000);
}

#[test]
fn oblique_light_is_weighted_by_the_cosine() {
    // light vector (3, 4, 0) against normal (0, 1, 0): cosine 4 / 5
    let scene = scene_of(vec![], vec![point(1_000_000, v(3, 4, 0))]);
    let got = compute_lighting(&scene, v(0, 0, 0), v(0, 1, 0), v(0, 1, 0), NO_SPECULAR);
    assert_eq!(got.raw, 800_000);
    // the mirrored light vector is (-3, 4, 0); seen from (0, 1, 0) its
    // cosine is 4 / 5 again, squared 0.64, cubed 0.512
    let got = compute_lighting(&scene, v(0, 0, 0), v(0, 1, 0), v(0, 1, 0), 2);
    assert_eq!(got.raw, 1_440_000);
    let got = compute_lighting(&scene, v(0, 0, 0), v(0, 1, 0), v(0, 1, 0), 3);
    assert_eq!(got.raw, 1_312_000);
    // seen along the mirrored vector the highlight is full
    let got = compute_lighting(&scene, v(0, 0, 0), v(0, 1, 0), v(-3, 4, 0), 2);
    assert_eq!(got.raw, 1_800_000);
}

#[test]
fn light_from_behind_the_surface_adds_nothing() {
    let scene = scene_of(vec![], vec![point(1_000_000, v(0, -2, 0))]);
    let got = compute_lighting(&scene, v(0, 0, 0), v(0, 1, 0), v(0, 1, 0), 10);
    assert_eq!(got.raw, 0);
}

#[test]
fn blocked_point_light_adds_nothing_and_free_light_adds_something() {
    let lights = vec![ambient(200_000), point(500_000, v(0, 2, 0))];
    let shadowed = scene_of(vec![blocker(v(0, 1, 0))], lights.clone());
    let free = scene_of(vec![], lights);
    let dark = compute_lighting(&shadowed, v(0, 0, 0), v(0, 1, 0), v(0, 1, 0), 10);
    let lit = compute_lighting(&free, v(0, 0, 0), v(0, 1, 0), v(0, 1, 0), 10);
    // only the ambient light is left in the shadow
    assert_eq!(dark.raw, 200_000);
    assert_eq!(lit.raw, 1_200_000);
    assert!(lit.raw > dark.raw);
}

#[test]
fn sphere_beyond_a_point_light_casts_no_shadow() {
    let scene = scene_of(
        vec![blocker(v(0, 3, 0))],
        vec![ambient(200_000), point(500_000, v(0, 2, 0))],
    );
    let got = compute_lighting(&scene, v(0, 0, 0), v(0, 1, 0), v(0, 1, 0), NO_SPECULAR);
    assert_eq!(got.raw, 700_000);
}

#[test]
fn sphere_anywhere_along_a_directional_light_casts_a_shadow() {
    let free = scene_of(vec![], vec![directional(500_000, v(0, 2, 0))]);
    let got = compute_lighting(&free, v(0, 0, 0), v(0, 1, 0), v(0, 1, 0), NO_SPECULAR);
    assert_eq!(got.raw, 500_000);
    let shadowed = scene_of(vec![blocker(v(0, 3, 0))], vec![directional(500_000, v(0, 2, 0))]);
    let got = compute_lighting(&shadowed, v(0, 0, 0), v(0, 1, 0), v(0, 1, 0), NO_SPECULAR);
    assert_eq!(got.raw, 0);
    let far = scene_of(vec![blocker(v(0, 1000, 0))], vec![directional(500_000, v(0, 2, 0))]);
    let got = compute_lighting(&far, v(0, 0, 0), v(0, 1, 0), v(0, 1, 0), NO_SPECULAR);
    assert_eq!(got.raw, 0);
}

#[test]
fn surface_does_not_shadow_itself() {
    // the shaded point lies on the sphere; the bias keeps the root at
    // zero out of the shadow test
    let sphere = Sphere {
        center: v(0, -1, 0),
        radius: Scalar::one(),
        color: Color::new(Scalar::zero(), Scalar::zero(), Scalar::zero()),
        specular: NO_SPECULAR,
        reflective: Scalar::zero(),
    };
    let scene = scene_of(vec![sphere], vec![point(500_000, v(0, 2, 0))]);
    let got = compute_lighting(&scene, v(0, 0, 0), v(0, 1, 0), v(0, 1, 0), NO_SPECULAR);
    assert_eq!(got.raw, 500_000);
}

#[test]
fn light_is_never_negative_for_lights_that_are_not() {
    let scene = scene_of(
        vec![blocker(v(5, 5, 5))],
        vec![ambient(0), point(600_000, v(2, 1, 0)), directional(200_000, v(1, 4, 4))],
    );
    for normal in [v(0, 1, 0), v(0, -1, 0), v(1, 0, 0), v(-1, 0, 0), v(0, 0, 1), v(0, 0, -1)] {
        for view in [v(0, 1, 0), v(0, 0, -1), v(3, -2, 1)] {
            for specular in [NO_SPECULAR, 0, 1, 10, 500, -3] {
                let got = compute_lighting(&scene, v(0, 0, 0), normal, view, specular);
                assert!(got.raw >= 0);
            }
        }
    }
}
