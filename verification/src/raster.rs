//! The rendered image, held in a pixel buffer of the `image` crate.

use vstd::prelude::*;

verus! {

/// An 8-bit RGB image of the `image` crate, `ImageBuffer<Rgb<u8>, Vec<u8>>`.
/// Its contents are known to the verifier only through `buffer_pixels`.
#[verifier::external_body]
pub struct PixelBuffer {
    buf: image::ImageBuffer<image::Rgb<u8>, Vec<u8>>,
}

/// The pixels of a buffer: one `(red, green, blue)` triple for every
/// position `(x, y)` inside the image, and none outside it.
pub uninterp spec fn buffer_pixels(b: PixelBuffer) -> Map<(int, int), (u8, u8, u8)>;

/// The pixels of a black image: black at every position with `x < width`
/// and `y < height`, and nothing outside.
pub open spec fn black_pixels(width: u32, height: u32) -> Map<(int, int), (u8, u8, u8)> {
    Map::new(
        |p: (int, int)| 0 <= p.0 < width && 0 <= p.1 < height,
        |p: (int, int)| (0u8, 0u8, 0u8),
    )
}

/// Calls `ImageBuffer::new`, which allocates `3 * width * height` zeroed
/// bytes and panics where that many do not fit in a vector. Trusted: the
/// new buffer holds exactly the positions with `x < width` and
/// `y < height`, and every pixel is black.
#[verifier::external_body]
fn buffer_new(width: u32, height: u32) -> (b: PixelBuffer)
    requires
        3 * width * height <= isize::MAX,
    ensures
        buffer_pixels(b) == black_pixels(width, height),
{
    PixelBuffer { buf: image::ImageBuffer::new(width, height) }
}

/// Calls `ImageBuffer::put_pixel`, which panics for a position outside the
/// image and for no other. Trusted: the pixel at `(x, y)` becomes `rgb` and
/// nothing else changes.
#[verifier::external_body]
fn buffer_put(b: &mut PixelBuffer, x: u32, y: u32, rgb: (u8, u8, u8))
    requires
        buffer_pixels(*old(b)).dom().contains((x as int, y as int)),
    ensures
        buffer_pixels(*final(b)) == buffer_pixels(*old(b)).insert((x as int, y as int), rgb),
    no_unwind
{
    b.buf.put_pixel(x, y, image::Rgb([rgb.0, rgb.1, rgb.2]));
}

/// Calls `ImageBuffer::get_pixel`, which panics for a position outside the
/// image. Trusted: the result is the pixel at `(x, y)`.
#[verifier::external_body]
fn buffer_get(b: &PixelBuffer, x: u32, y: u32) -> (rgb: (u8, u8, u8))
    requires
        buffer_pixels(*b).dom().contains((x as int, y as int)),
    ensures
        rgb == buffer_pixels(*b)[(x as int, y as int)],
{
    let p = b.buf.get_pixel(x, y);
    (p.0[0], p.0[1], p.0[2])
}

/// An image of known size. Position `(0, 0)` is the top left corner.
pub struct Raster {
    width: u32,
    height: u32,
    buffer: PixelBuffer,
}

impl Raster {
    /// The number of columns.
    pub closed spec fn spec_width(&self) -> u32 {
        self.width
    }

    /// The number of rows.
    pub closed spec fn spec_height(&self) -> u32 {
        self.height
    }

    /// The pixel at every position.
    pub closed spec fn pixels(&self) -> Map<(int, int), (u8, u8, u8)> {
        buffer_pixels(self.buffer)
    }

    /// The position lies inside the image.
    pub open spec fn contains(&self, x: int, y: int) -> bool {
        0 <= x < self.spec_width() && 0 <= y < self.spec_height()
    }

    /// The image has a pixel at exactly the positions inside it. This
    /// holds of every image that a program can get hold of.
    #[verifier::type_invariant]
    pub open spec fn wf(&self) -> bool {
        forall|x: int, y: int| #[trigger]
            self.pixels().dom().contains((x, y)) <==> self.contains(x, y)
    }

    /// An image of this size has few enough bytes to be allocated.
    pub open spec fn fits(width: u32, height: u32) -> bool {
        3 * width * height <= isize::MAX
    }

    /// Creates a black image, or nothing where the size is too large to
    /// allocate.
    pub fn new(width: u32, height: u32) -> (made: Option<Raster>)
        ensures
            made is Some <==> Raster::fits(width, height),
            made matches Some(raster) ==> {
                &&& raster.wf()
                &&& raster.spec_width() == width
                &&& raster.spec_height() == height
                &&& forall|x: int, y: int| #[trigger]
                    raster.contains(x, y) ==> raster.pixels()[(x, y)] == (0u8, 0u8, 0u8)
            },
    {
        let w: u128 = width as u128;
        let h: u128 = height as u128;
        assert(w * h <= 0xffff_ffff * 0xffff_ffff && 3 * (w * h) == 3 * w * h)
            by (nonlinear_arith)
            requires
                0 <= w <= 0xffff_ffff,
                0 <= h <= 0xffff_ffff,
        ;
        let bytes: u128 = 3 * (w * h);
        if bytes > isize::MAX as u128 {
            None
        } else {
            Some(Raster { width, height, buffer: buffer_new(width, height) })
        }
    }

    /// The number of columns.
    pub fn width(&self) -> (w: u32)
        ensures
            w == self.spec_width(),
    {
        self.width
    }

    /// The number of rows.
    pub fn height(&self) -> (h: u32)
        ensures
            h == self.spec_height(),
    {
        self.height
    }

    /// Reads the pixel at `(x, y)`, or nothing for a position outside the
    /// image.
    pub fn pixel(&self, x: u32, y: u32) -> (rgb: Option<(u8, u8, u8)>)
        ensures
            rgb == if self.contains(x as int, y as int) {
                Some(self.pixels()[(x as int, y as int)])
            } else {
                None
            },
    {
        proof {
            use_type_invariant(self);
        }
        if x < self.width && y < self.height {
            assert(self.pixels().dom().contains((x as int, y as int)));
            Some(buffer_get(&self.buffer, x, y))
        } else {
            None
        }
    }

    /// Writes the pixel at `(x, y)` and reports whether the position lies
    /// inside the image; outside it nothing changes.
    pub fn put_pixel(&mut self, x: u32, y: u32, rgb: (u8, u8, u8)) -> (inside: bool)
        ensures
            final(self).wf(),
            final(self).spec_width() == old(self).spec_width(),
            final(self).spec_height() == old(self).spec_height(),
            inside == old(self).contains(x as int, y as int),
            final(self).pixels() == if inside {
                old(self).pixels().insert((x as int, y as int), rgb)
            } else {
                old(self).pixels()
            },
    {
        proof {
            use_type_invariant(&*self);
        }
        if x < self.width && y < self.height {
            assert(self.pixels().dom().contains((x as int, y as int)));
            buffer_put(&mut self.buffer, x, y, rgb);
            assert forall|i: int, j: int| #[trigger]
                self.pixels().dom().contains((i, j)) <==> self.contains(i, j) by {
                assert(old(self).pixels().dom().contains((i, j)) <==> old(self).contains(i, j));
            }
            true
        } else {
            false
        }
    }
}

} // verus!
