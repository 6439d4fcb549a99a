use raytracer::color::Color;
use raytracer::raster::Raster;
use raytracer::render::canvas_to_viewport;
use raytracer::render::render;
use raytracer::render::render_pixel;
use raytracer::scalar::Scalar;
use raytracer::scene::Scene;
use raytracer::structs::Canvas;
use raytracer::structs::Light;
use raytracer::structs::Sphere;
use raytracer::structs::NO_SPECULAR;
use raytracer::vector::Vector;

fn v(x: i32, y: i32, z: i32) -> Vector {
    Vector::new(Scalar::from_int(x), Scalar::from_int(y), Scalar::from_int(z))
}

fn micro(raw: i64) -> Scalar {
    Scalar { raw }
}

fn rgb(r: i32, g: i32, b: i32) -> Color {
    Color::new(Scalar::from_int(r), Scalar::from_int(g), Scalar::from_int(b))
}

// One matte red sphere under ambient light of intensity one.
fn red_sphere_scene(width: u32, height: u32) -> Scene {
    Scene {
        spheres: vec![Sphere {
            center: v(0, -1, 3),
            radius: Scalar::one(),
            color: rgb(255, 0, 0),
            specular: NO_SPECULAR,
            reflective: Scalar::zero(),
        }],
        lights: vec![Light::Ambient { intensity: Scalar::one() }],
        camera_position: v(0, 0, 0),
        background_color: rgb(10, 20, 30),
        viewport_size: Scalar::one(),
        projection_plane_z: Scalar::one(),
        canvas: Canvas { height, width },
    }
}

// Four spheres, one of them a huge floor, under three lights.
fn four_sphere_scene() -> Scene {
    let sphere = |center, radius, color, specular, reflective| Sphere {
        center,
        radius: Scalar::from_int(radius),
        color,
        specular,
        reflective: micro(reflective),
    };
    Scene {
        spheres: vec![
            sphere(v(0, -1, 3), 1, rgb(255, 0, 0), 500, 200_000),
            sphere(v(-2, 0, 4), 1, rgb(0, 255, 0), 10, 400_000),
            sphere(v(2, 0, 4), 1, rgb(0, 0, 255), 500, 300_000),
            sphere(v(0, -5001, 0), 5000, rgb(255, 255, 0), 1000, 500_000),
        ],
        lights: vec![
            Light::Ambient { intensity: micro(200_000) },
            Light::Point { intensity: micro(600_000), position: v(2, 1, 0) },
            Light::Directional { intensity: micro(200_000), direction: v(1, 4, 4) },
        ],
        camera_position: v(0, 0, 0),
        background_color: rgb(0, 0, 0),
        viewport_size: Scalar::one(),
        projection_plane_z: Scalar::one(),
        canvas: Canvas { height: 600, width: 600 },
    }
}

#[test]
fn canvas_points_map_to_viewport_directions() {
    let scene = red_sphere_scene(100, 100);
    let d = canvas_to_viewport(&scene, Scalar::from_int(0), Scalar::from_int(33));
    assert_eq!(d, Vector::new(micro(0), micro(-330_000), micro(1_000_000)));
    let d = canvas_to_viewport(&scene, Scalar::from_int(-50), Scalar::from_int(-50));
    assert_eq!(d, Vector::new(micro(-500_000), micro(500_000), micro(1_000_000)));
    let d = canvas_to_viewport(&scene, Scalar::from_int(25), Scalar::from_int(0));
    assert_eq!(d, Vector::new(micro(250_000), micro(0), micro(1_000_000)));
}

#[test]
fn viewport_size_and_plane_distance_scale_the_direction() {
    let mut scene = red_sphere_scene(200, 100);
    scene.viewport_size = Scalar::from_int(2);
    scene.projection_plane_z = Scalar::from_int(3);
    let d = canvas_to_viewport(&scene, Scalar::from_int(50), Scalar::from_int(25));
    assert_eq!(d, Vector::new(micro(500_000), micro(-500_000), micro(3_000_000)));
}

#[test]
fn single_red_sphere_end_to_end() {
    let scene = red_sphere_scene(100, 100);
    let image = render(&scene, 3).unwrap();
    assert_eq!(image.width(), 100);
    assert_eq!(image.height(), 100);
    // the centre of the silhouette lies a third of the plane distance
    // below the middle: column 50, row 83
    assert_eq!(image.pixel(50, 83), Some((255, 0, 0)));
    // outside the silhouette
    assert_eq!(image.pixel(0, 0), Some((10, 20, 30)));
    assert_eq!(image.pixel(99, 0), Some((10, 20, 30)));
    assert_eq!(image.pixel(99, 99), Some((10, 20, 30)));
    assert_eq!(image.pixel(50, 49), Some((10, 20, 30)));
    // the silhouette spans rows 50 to 99 of column 50, columns 15 to 85
    // of row 83
    assert_eq!(image.pixel(50, 50), Some((255, 0, 0)));
    assert_eq!(image.pixel(50, 99), Some((255, 0, 0)));
    assert_eq!(image.pixel(14, 83), Some((10, 20, 30)));
    assert_eq!(image.pixel(15, 83), Some((255, 0, 0)));
    assert_eq!(image.pixel(85, 83), Some((255, 0, 0)));
    assert_eq!(image.pixel(86, 83), Some((10, 20, 30)));
    // every pixel is one or the other
    let mut red = 0;
    for y in 0..100 {
        for x in 0..100 {
            let p = image.pixel(x, y).unwrap();
            assert!(p == (255, 0, 0) || p == (10, 20, 30));
            if p == (255, 0, 0) {
                red += 1;
            }
        }
    }
    assert_eq!(red, 2912);
    // nothing outside the canvas
    assert_eq!(image.pixel(100, 0), None);
    assert_eq!(image.pixel(0, 100), None);
}

#[test]
fn rendering_twice_gives_the_same_image() {
    let scene = red_sphere_scene(40, 30);
    let first = render(&scene, 3).unwrap();
    let second = render(&scene, 3).unwrap();
    for y in 0..30 {
        for x in 0..40 {
            assert_eq!(first.pixel(x, y), second.pixel(x, y));
        }
    }
    let mut scene = four_sphere_scene();
    scene.canvas = Canvas { height: 12, width: 12 };
    let first = render(&scene, 3).unwrap();
    let second = render(&scene, 3).unwrap();
    for y in 0..12 {
        for x in 0..12 {
            assert_eq!(first.pixel(x, y), second.pixel(x, y));
        }
    }
}

#[test]
fn render_agrees_with_single_pixels() {
    let mut scene = four_sphere_scene();
    scene.canvas = Canvas { height: 9, width: 16 };
    let image = render(&scene, 2).unwrap();
    assert_eq!((image.width(), image.height()), (16, 9));
    for y in 0..9 {
        for x in 0..16 {
            assert_eq!(image.pixel(x, y), Some(render_pixel(&scene, x, y, 2)));
        }
    }
}

#[test]
fn four_spheres_under_three_lights() {
    let scene = four_sphere_scene();
    assert_eq!(render_pixel(&scene, 300, 300, 3), (101, 0, 0));
    assert_eq!(render_pixel(&scene, 300, 450, 3), (137, 0, 0));
    assert_eq!(render_pixel(&scene, 100, 300, 3), (0, 117, 15));
    assert_eq!(render_pixel(&scene, 500, 300, 3), (0, 38, 68));
    assert_eq!(render_pixel(&scene, 300, 590, 3), (124, 10, 0));
    assert_eq!(render_pixel(&scene, 0, 0, 3), (0, 0, 0));
}

#[test]
fn empty_canvas_renders_to_an_empty_image() {
    let scene = red_sphere_scene(0, 0);
    let image = render(&scene, 3).unwrap();
    assert_eq!((image.width(), image.height()), (0, 0));
    assert_eq!(image.pixel(0, 0), None);
    let scene = red_sphere_scene(5, 0);
    let image = render(&scene, 3).unwrap();
    assert_eq!((image.width(), image.height()), (5, 0));
    assert_eq!(image.pixel(0, 0), None);
}

#[test]
fn canvas_too_large_to_allocate_is_not_rendered() {
    let scene = red_sphere_scene(u32::MAX, u32::MAX);
    assert!(render(&scene, 3).is_none());
}

#[test]
fn new_raster_is_black() {
    let image = Raster::new(3, 2).unwrap();
    assert_eq!((image.width(), image.height()), (3, 2));
    for y in 0..2 {
        for x in 0..3 {
            assert_eq!(image.pixel(x, y), Some((0, 0, 0)));
        }
    }
    assert_eq!(image.pixel(3, 0), None);
    assert_eq!(image.pixel(0, 2), None);
    assert_eq!(image.pixel(u32::MAX, u32::MAX), None);
}

#[test]
fn raster_keeps_what_is_written() {
    let mut image = Raster::new(3, 2).unwrap();
    assert!(image.put_pixel(2, 1, (1, 2, 3)));
    assert!(image.put_pixel(0, 0, (4, 5, 6)));
    assert_eq!(image.pixel(2, 1), Some((1, 2, 3)));
    assert_eq!(image.pixel(0, 0), Some((4, 5, 6)));
    assert_eq!(image.pixel(1, 1), Some((0, 0, 0)));
    assert_eq!(image.pixel(2, 0), Some((0, 0, 0)));
    assert!(image.put_pixel(2, 1, (7, 8, 9)));
    assert_eq!(image.pixel(2, 1), Some((7, 8, 9)));
    assert_eq!(image.pixel(0, 0), Some((4, 5, 6)));
}

#[test]
fn writing_outside_the_raster_changes_nothing() {
    let mut image = Raster::new(3, 2).unwrap();
    assert!(!image.put_pixel(3, 0, (1, 2, 3)));
    assert!(!image.put_pixel(0, 2, (1, 2, 3)));
    for y in 0..2 {
        for x in 0..3 {
            assert_eq!(image.pixel(x, y), Some((0, 0, 0)));
        }
    }
}

#[test]
fn raster_too_large_is_not_made() {
    assert!(Raster::new(u32::MAX, u32::MAX).is_none());
    assert!(Raster::new(0, u32::MAX).is_some());
    assert!(Raster::new(u32::MAX, 0).is_some());
}
