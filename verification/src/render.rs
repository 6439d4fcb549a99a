//! The pixel loop: one ray per pixel of the canvas.

use crate::color::Color;
use crate::raster::Raster;
use crate::scalar::Scalar;
use crate::scene::Scene;
use crate::tracer::spec_trace_ray;
use crate::tracer::trace_ray;
use crate::vector::Vector;
use vstd::prelude::*;

verus! {

/// The direction from the camera through the canvas point `(x, y)`, which
/// is measured in pixels from the middle of the canvas: `x` and `y` are
/// scaled from canvas to viewport size, `y` changes sign because canvas
/// rows count downwards, and `z` is the distance of the projection plane.
pub open spec fn spec_canvas_to_viewport(scene: Scene, x: Scalar, y: Scalar) -> Vector {
    Vector {
        x: x.spec_mul(scene.viewport_size).spec_div(
            Scalar::spec_from_int(scene.canvas.width as int),
        ),
        y: y.spec_mul(scene.viewport_size).spec_div(
            Scalar::spec_from_int(scene.canvas.height as int),
        ).spec_neg(),
        z: scene.projection_plane_z,
    }
}

/// Maps a canvas point, in pixels from the middle of the canvas, to the
/// direction of its ray.
pub fn canvas_to_viewport(scene: &Scene, x: Scalar, y: Scalar) -> (direction: Vector)
    ensures
        direction == spec_canvas_to_viewport(*scene, x, y),
{
    Vector {
        x: x.mul(scene.viewport_size).div(Scalar::from_u32(scene.canvas.width)),
        y: y.mul(scene.viewport_size).div(Scalar::from_u32(scene.canvas.height)).neg(),
        z: scene.projection_plane_z,
    }
}

/// The direction of the ray through the pixel in column `px` and row
/// `py`. Both coordinates are centred by half the canvas width.
pub open spec fn pixel_direction(scene: Scene, px: int, py: int) -> Vector {
    let half = Scalar::spec_from_int(scene.canvas.width as int).spec_div(Scalar::spec_from_int(2));
    spec_canvas_to_viewport(
        scene,
        Scalar::spec_from_int(px).spec_sub(half),
        Scalar::spec_from_int(py).spec_sub(half),
    )
}

/// The colour of the pixel in column `px` and row `py`: what arrives at
/// the camera along the pixel's ray from beyond the projection plane.
pub open spec fn pixel_color(scene: Scene, px: int, py: int, depth: int) -> Color {
    spec_trace_ray(
        scene,
        scene.camera_position,
        pixel_direction(scene, px, py),
        Scalar::spec_one(),
        Scalar::spec_infinity(),
        depth,
    )
}

/// The image shows the scene: it has the size of the canvas, and every
/// pixel holds the display values of its colour.
pub open spec fn is_render_of(raster: Raster, scene: Scene, depth: int) -> bool {
    &&& raster.wf()
    &&& raster.spec_width() == scene.canvas.width
    &&& raster.spec_height() == scene.canvas.height
    &&& forall|x: int, y: int|
        raster.contains(x, y) ==> #[trigger] raster.pixels()[(x, y)] == pixel_color(
            scene,
            x,
            y,
            depth,
        ).spec_to_rgb()
}

/// Two renders of the same scene at the same depth are equal pixel by
/// pixel.
pub proof fn lemma_render_is_repeatable(first: Raster, second: Raster, scene: Scene, depth: int)
    requires
        is_render_of(first, scene, depth),
        is_render_of(second, scene, depth),
    ensures
        first.pixels() == second.pixels(),
{
    assert forall|p: (int, int)| first.pixels().dom().contains(p) implies #[trigger]
        second.pixels().dom().contains(p) && first.pixels()[p] == second.pixels()[p] by {
        assert(first.pixels().dom().contains((p.0, p.1)));
        assert(first.contains(p.0, p.1));
        assert(second.pixels().dom().contains((p.0, p.1)) <==> second.contains(p.0, p.1));
        assert(first.pixels()[(p.0, p.1)] == pixel_color(scene, p.0, p.1, depth).spec_to_rgb());
        assert(second.pixels()[(p.0, p.1)] == pixel_color(scene, p.0, p.1, depth).spec_to_rgb());
    }
    assert forall|p: (int, int)| second.pixels().dom().contains(p) implies #[trigger]
        first.pixels().dom().contains(p) by {
        assert(second.pixels().dom().contains((p.0, p.1)));
        assert(second.contains(p.0, p.1));
        assert(first.pixels().dom().contains((p.0, p.1)) <==> first.contains(p.0, p.1));
    }
    assert(first.pixels() =~= second.pixels());
}

/// Computes the display values of one pixel.
pub fn render_pixel(scene: &Scene, px: u32, py: u32, max_depth: i32) -> (rgb: (u8, u8, u8))
    ensures
        rgb == pixel_color(*scene, px as int, py as int, max_depth as int).spec_to_rgb(),
{
    let half = Scalar::from_u32(scene.canvas.width).div(Scalar::from_int(2));
    let view_x = Scalar::from_u32(px).sub(half);
    let view_y = Scalar::from_u32(py).sub(half);
    let direction = canvas_to_viewport(scene, view_x, view_y);
    let color = trace_ray(
        scene,
        scene.camera_position,
        direction,
        Scalar::one(),
        Scalar::infinity(),
        max_depth,
    );
    color.to_rgb()
}

/// Renders the scene onto an image of the size of its canvas, row by row
/// from the top. Returns nothing where the canvas is too large to
/// allocate.
pub fn render(scene: &Scene, max_depth: i32) -> (made: Option<Raster>)
    ensures
        made is Some <==> Raster::fits(scene.canvas.width, scene.canvas.height),
        made matches Some(raster) ==> is_render_of(raster, *scene, max_depth as int),
{
    let width = scene.canvas.width;
    let height = scene.canvas.height;
    let mut raster = match Raster::new(width, height) {
        Some(raster) => raster,
        None => {
            return None;
        },
    };
    let mut y: u32 = 0;
    while y < height
        invariant
            0 <= y <= height,
            width == scene.canvas.width,
            height == scene.canvas.height,
            raster.wf(),
            raster.spec_width() == width,
            raster.spec_height() == height,
            forall|i: int, j: int|
                0 <= i < width && 0 <= j < y ==> #[trigger] raster.pixels()[(i, j)] == pixel_color(
                    *scene,
                    i,
                    j,
                    max_depth as int,
                ).spec_to_rgb(),
        decreases height - y,
    {
        let mut x: u32 = 0;
        while x < width
            invariant
                0 <= x <= width,
                0 <= y < height,
                width == scene.canvas.width,
                height == scene.canvas.height,
                raster.wf(),
                raster.spec_width() == width,
                raster.spec_height() == height,
                forall|i: int, j: int|
                    0 <= i < width && 0 <= j < y ==> #[trigger] raster.pixels()[(i, j)]
                        == pixel_color(*scene, i, j, max_depth as int).spec_to_rgb(),
                forall|i: int|
                    0 <= i < x ==> #[trigger] raster.pixels()[(i, y as int)] == pixel_color(
                        *scene,
                        i,
                        y as int,
                        max_depth as int,
                    ).spec_to_rgb(),
            decreases width - x,
        {
            let rgb = render_pixel(scene, x, y, max_depth);
            raster.put_pixel(x, y, rgb);
            x += 1;
        }
        y += 1;
    }
    Some(raster)
}

} // verus!
