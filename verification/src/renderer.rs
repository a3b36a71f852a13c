//! The off-screen framebuffer: a fixed grid of RGBA pixels that the drawing
//! code paints and the host uploads as one texture.

use vstd::prelude::*;
use crate::geometry::{Point2D, Rect, Scale, Size2D};

verus! {

/// Unit for pixels of the renderer
#[derive(Clone, Copy, Debug, PartialEq, Eq, Hash)]
pub struct Pixels;

/// Unit for pixels in WebGl
#[derive(Clone, Copy, Debug, PartialEq, Eq, Hash)]
pub struct WebGlPixels;

/// Width of the logical pixel grid.
pub const RENDER_WIDTH: i32 = 315;

/// Height of the logical pixel grid.
pub const RENDER_HEIGHT: i32 = 143;

/// Device pixels per logical pixel, along each axis.
pub const PIXEL_SCALE: i32 = 4;

/// red, green, blue, and alpha
pub const BYTES_PER_PIXEL: usize = 4;

/// Length of the framebuffer in bytes.
pub const FRAME_BYTES: usize = 180180;

#[derive(Clone, Copy, Debug, PartialEq, Eq, Structural, PartialOrd, Ord, Hash)]
pub struct Color {
    pub r: u8,
    pub g: u8,
    pub b: u8,
}

/// The logical pixel grid: 315 by 143 pixels with its corner at the origin.
pub open spec fn render_rect() -> Rect<Pixels> {
    Rect { origin: Point2D::at(0, 0), size: Size2D::of(RENDER_WIDTH as int, RENDER_HEIGHT as int) }
}

/// The rectangle that holds every pixel of the framebuffer.
pub fn render_rect_exec() -> (r: Rect<Pixels>)
    ensures
        r == render_rect(),
        r.fits(),
{
    Rect::new(Point2D::new(0, 0), Size2D::new(RENDER_WIDTH, RENDER_HEIGHT))
}

/// The factor from logical pixels to device pixels.
pub fn pixel_scale() -> (s: Scale<Pixels, WebGlPixels>)
    ensures
        s.factor == PIXEL_SCALE,
{
    Scale::new(PIXEL_SCALE)
}

/// The size of the device canvas: the logical grid scaled up, 1260 by 572.
pub fn canvas_size() -> (s: Size2D<WebGlPixels>)
    ensures
        s == Size2D::<WebGlPixels>::of(1260, 572),
{
    pixel_scale().apply(render_rect_exec().size)
}

/// Where the four bytes of the pixel at `p` start in the framebuffer.
pub open spec fn pixel_offset(p: Point2D<Pixels>) -> int {
    (p.y * RENDER_WIDTH + p.x) * 4
}

/// The colour that the framebuffer bytes `buffer` hold at `p`.
pub open spec fn color_at(buffer: Seq<u8>, p: Point2D<Pixels>) -> Color {
    Color {
        r: buffer[pixel_offset(p)],
        g: buffer[pixel_offset(p) + 1],
        b: buffer[pixel_offset(p) + 2],
    }
}

/// The bytes `buffer` with the pixel at `p` set to `color`, fully opaque.
pub open spec fn with_pixel(buffer: Seq<u8>, p: Point2D<Pixels>, color: Color) -> Seq<u8> {
    buffer.update(pixel_offset(p), color.r).update(pixel_offset(p) + 1, color.g).update(
        pixel_offset(p) + 2,
        color.b,
    ).update(pixel_offset(p) + 3, 255u8)
}

/// Pixels of the grid start at distinct offsets, four bytes apart or more,
/// and end inside the framebuffer.
pub proof fn lemma_pixel_offsets(p: Point2D<Pixels>, q: Point2D<Pixels>)
    requires
        render_rect().contains_point(p),
        render_rect().contains_point(q),
    ensures
        0 <= pixel_offset(p),
        pixel_offset(p) + 4 <= FRAME_BYTES,
        p != q ==> (pixel_offset(p) + 4 <= pixel_offset(q) || pixel_offset(q) + 4 <= pixel_offset(
            p,
        )),
{
    if p != q {
        if p.y < q.y {
            assert(p.y * RENDER_WIDTH + p.x < q.y * RENDER_WIDTH + q.x);
        } else if p.y > q.y {
            assert(p.y * RENDER_WIDTH + p.x > q.y * RENDER_WIDTH + q.x);
        } else {
            assert(p.x != q.x);
        }
    }
}

/// Painting the pixel at `p` gives it that colour with full opacity and
/// leaves every other pixel of the grid as it was.
pub proof fn lemma_with_pixel(buffer: Seq<u8>, p: Point2D<Pixels>, color: Color, q: Point2D<Pixels>)
    requires
        buffer.len() == FRAME_BYTES,
        render_rect().contains_point(p),
        render_rect().contains_point(q),
    ensures
        with_pixel(buffer, p, color).len() == FRAME_BYTES,
        color_at(with_pixel(buffer, p, color), p) == color,
        with_pixel(buffer, p, color)[pixel_offset(p) + 3] == 255,
        q != p ==> color_at(with_pixel(buffer, p, color), q) == color_at(buffer, q),
        q != p ==> with_pixel(buffer, p, color)[pixel_offset(q) + 3] == buffer[pixel_offset(q) + 3],
{
    lemma_pixel_offsets(p, q);
}

/// The framebuffer of the logical grid: four bytes for each pixel, rows from
/// top to bottom, the pixels of a row from left to right.
pub struct CanvasRenderer {
    buffer: Vec<u8>,
}

impl View for CanvasRenderer {
    type V = Seq<u8>;

    closed spec fn view(&self) -> Seq<u8> {
        self.buffer@
    }
}

impl CanvasRenderer {
    /// The buffer holds exactly the bytes of the grid.
    pub open spec fn wf(&self) -> bool {
        self@.len() == FRAME_BYTES
    }

    /// A framebuffer with every byte at its maximum: white and opaque.
    pub fn new() -> (r: Self)
        ensures
            r.wf(),
            forall|i: int| 0 <= i < FRAME_BYTES ==> r@[i] == u8::MAX,
    {
        let mut buffer: Vec<u8> = Vec::new();
        let mut n: usize = 0;
        while n < FRAME_BYTES
            invariant
                n <= FRAME_BYTES,
                buffer@.len() == n,
                forall|i: int| 0 <= i < n ==> buffer@[i] == u8::MAX,
            decreases FRAME_BYTES - n,
        {
            buffer.push(u8::MAX);
            n = n + 1;
        }
        CanvasRenderer { buffer }
    }

    /// Sets the pixel at `pos` to `color`, fully opaque.
    #[inline(always)]
    pub fn color_pixel(&mut self, pos: Point2D<Pixels>, color: Color)
        requires
            old(self).wf(),
            render_rect().contains_point(pos),
        ensures
            final(self).wf(),
            final(self)@ == with_pixel(old(self)@, pos, color),
    {
        proof {
            lemma_pixel_offsets(pos, pos);
        }
        let row: usize = (pos.y * RENDER_WIDTH) as usize;
        let i: usize = (row + pos.x as usize) * BYTES_PER_PIXEL;
        self.buffer[i] = color.r;
        self.buffer[i + 1] = color.g;
        self.buffer[i + 2] = color.b;
        self.buffer[i + 3] = 255;
    }

    /// The bytes to upload: RGBA, one texture of the grid's size.
    pub fn buffer(&self) -> (bytes: &Vec<u8>)
        ensures
            bytes@ == self@,
    {
        &self.buffer
    }

    /// The colour of the pixel at `pos`.
    pub fn pixel(&self, pos: Point2D<Pixels>) -> (c: Color)
        requires
            self.wf(),
            render_rect().contains_point(pos),
        ensures
            c == color_at(self@, pos),
    {
        proof {
            lemma_pixel_offsets(pos, pos);
        }
        let row: usize = (pos.y * RENDER_WIDTH) as usize;
        let i: usize = (row + pos.x as usize) * BYTES_PER_PIXEL;
        Color { r: self.buffer[i], g: self.buffer[i + 1], b: self.buffer[i + 2] }
    }
}

impl Default for CanvasRenderer {
    fn default() -> (r: Self)
        ensures
            r.wf(),
            forall|i: int| 0 <= i < FRAME_BYTES ==> r@[i] == u8::MAX,
    {
        Self::new()
    }
}

/// How opaque the framebuffer bytes `buffer` are at `p`.
pub open spec fn alpha_at(buffer: Seq<u8>, p: Point2D<Pixels>) -> u8 {
    buffer[pixel_offset(p) + 3]
}

/// Whether `after` is `before` with the pixels of `region` painted `color`,
/// fully opaque, and every other pixel of the grid as it was.
pub open spec fn painted(
    before: Seq<u8>,
    after: Seq<u8>,
    region: spec_fn(Point2D<Pixels>) -> bool,
    color: Color,
) -> bool {
    &&& after.len() == before.len()
    &&& forall|q: Point2D<Pixels>|
        #![trigger color_at(after, q)]
        #![trigger alpha_at(after, q)]
        render_rect().contains_point(q) ==> if region(q) {
            color_at(after, q) == color && alpha_at(after, q) == 255
        } else {
            color_at(after, q) == color_at(before, q) && alpha_at(after, q) == alpha_at(before, q)
        }
}

/// Painting a region and then another in the same colour paints their union.
pub proof fn lemma_painted_twice(
    a: Seq<u8>,
    b: Seq<u8>,
    c: Seq<u8>,
    first: spec_fn(Point2D<Pixels>) -> bool,
    second: spec_fn(Point2D<Pixels>) -> bool,
    both: spec_fn(Point2D<Pixels>) -> bool,
    color: Color,
)
    requires
        painted(a, b, first, color),
        painted(b, c, second, color),
        forall|q: Point2D<Pixels>| render_rect().contains_point(q) ==> (#[trigger] both(q) == (first(q) || second(q))),
    ensures
        painted(a, c, both, color),
{
    assert forall|q: Point2D<Pixels>|
        #![trigger color_at(c, q)]
        #![trigger alpha_at(c, q)]
        render_rect().contains_point(q) implies if both(q) {
        color_at(c, q) == color && alpha_at(c, q) == 255
    } else {
        color_at(c, q) == color_at(a, q) && alpha_at(c, q) == alpha_at(a, q)
    } by {
        assert(both(q) == (first(q) || second(q)));
        let _ = color_at(b, q);
        let _ = alpha_at(b, q);
    }
}

} // verus!
