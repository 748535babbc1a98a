//! A picture of RGBA pixels, held in an `image` buffer.

use vstd::prelude::*;

verus! {

/// A color with its opacity.
#[derive(Clone, Copy, Debug, PartialEq, Eq, Structural)]
pub struct Rgba {
    pub r: u8,
    pub g: u8,
    pub b: u8,
    pub a: u8,
}

/// A picture, which holds an `image::RgbaImage`. Its dimensions are named by `canvas_width` and
/// `canvas_height`, its pixels by `canvas_pixels`.
#[verifier::external_body]
pub struct Canvas {
    img: image::RgbaImage,
}

/// The width of a picture in pixels.
pub uninterp spec fn canvas_width(c: Canvas) -> u32;

/// The height of a picture in pixels.
pub uninterp spec fn canvas_height(c: Canvas) -> u32;

/// The pixels of a picture, by column and row.
pub uninterp spec fn canvas_pixels(c: Canvas) -> Map<(int, int), Rgba>;

/// Whether `(x, y)` is a pixel of the picture.
pub open spec fn in_canvas(c: Canvas, x: int, y: int) -> bool {
    0 <= x < canvas_width(c) && 0 <= y < canvas_height(c)
}

/// The pixel at `(x, y)`.
pub open spec fn pixel(c: Canvas, x: int, y: int) -> Rgba {
    canvas_pixels(c)[(x, y)]
}

/// Whether a picture of these dimensions can be held in memory.
pub open spec fn fits_in_memory(width: int, height: int) -> bool {
    4 * width * height <= isize::MAX
}

/// Whether two pictures have the same dimensions and the same pixels.
pub open spec fn same_picture(a: Canvas, b: Canvas) -> bool {
    &&& canvas_width(a) == canvas_width(b)
    &&& canvas_height(a) == canvas_height(b)
    &&& forall|x: int, y: int| in_canvas(a, x, y) ==> #[trigger] pixel(a, x, y) == pixel(b, x, y)
}

/// The pixel that four successive bytes of `bytes` stand for, in a picture of width `width` that
/// is stored row by row.
pub open spec fn stored_pixel(bytes: Seq<u8>, width: int, x: int, y: int) -> Rgba {
    let i = 4 * (y * width + x);
    Rgba { r: bytes[i], g: bytes[i + 1], b: bytes[i + 2], a: bytes[i + 3] }
}

impl Canvas {
    /// `ImageBuffer::from_pixel`: every pixel of the new picture is `fill`.
    #[verifier::external_body]
    pub(crate) fn filled(width: u32, height: u32, fill: Rgba) -> (r: Canvas)
        requires
            fits_in_memory(width as int, height as int),
        ensures
            canvas_width(r) == width,
            canvas_height(r) == height,
            forall|x: int, y: int| in_canvas(r, x, y) ==> #[trigger] pixel(r, x, y) == fill,
    {
        let pixel = image::Rgba([fill.r, fill.g, fill.b, fill.a]);
        Canvas { img: image::RgbaImage::from_pixel(width, height, pixel) }
    }

    /// `ImageBuffer::new`: every channel of the new picture is zero.
    #[verifier::external_body]
    pub(crate) fn blank(width: u32, height: u32) -> (r: Canvas)
        requires
            fits_in_memory(width as int, height as int),
        ensures
            canvas_width(r) == width,
            canvas_height(r) == height,
            forall|x: int, y: int|
                in_canvas(r, x, y) ==> #[trigger] pixel(r, x, y) == (Rgba { r: 0, g: 0, b: 0, a: 0 }),
    {
        Canvas { img: image::RgbaImage::new(width, height) }
    }

    /// `ImageBuffer::width`.
    #[verifier::external_body]
    pub(crate) fn image_width(&self) -> (r: u32)
        ensures
            r == canvas_width(*self),
    {
        self.img.width()
    }

    /// `ImageBuffer::height`.
    #[verifier::external_body]
    pub(crate) fn image_height(&self) -> (r: u32)
        ensures
            r == canvas_height(*self),
    {
        self.img.height()
    }

    /// `ImageBuffer::get_pixel`.
    #[verifier::external_body]
    pub(crate) fn get_pixel(&self, x: u32, y: u32) -> (r: Rgba)
        requires
            in_canvas(*self, x as int, y as int),
        ensures
            r == pixel(*self, x as int, y as int),
    {
        let image::Rgba([r, g, b, a]) = *self.img.get_pixel(x, y);
        Rgba { r, g, b, a }
    }

    /// `ImageBuffer::put_pixel`: the pixel at `(x, y)` becomes `p`, the others stay.
    #[verifier::external_body]
    pub(crate) fn put_pixel(&mut self, x: u32, y: u32, p: Rgba)
        requires
            in_canvas(*old(self), x as int, y as int),
        ensures
            canvas_width(*final(self)) == canvas_width(*old(self)),
            canvas_height(*final(self)) == canvas_height(*old(self)),
            canvas_pixels(*final(self)) == canvas_pixels(*old(self)).insert((x as int, y as int), p),
    {
        self.img.put_pixel(x, y, image::Rgba([p.r, p.g, p.b, p.a]));
    }

    /// `Clone` of `ImageBuffer`: a picture of the same dimensions and pixels.
    #[verifier::external_body]
    pub(crate) fn duplicate(&self) -> (r: Canvas)
        ensures
            same_picture(r, *self),
    {
        Canvas { img: self.img.clone() }
    }

    /// `imageops::replace`: the pixels of `top` are copied so that its upper left corner comes to
    /// lie at `(x, y)`. What would lie beyond the right or the lower edge is left out, and the
    /// other pixels stay.
    #[verifier::external_body]
    pub(crate) fn paste(&mut self, top: &Canvas, x: u32, y: u32)
        ensures
            canvas_width(*final(self)) == canvas_width(*old(self)),
            canvas_height(*final(self)) == canvas_height(*old(self)),
            forall|px: int, py: int|
                in_canvas(*final(self), px, py) ==> #[trigger] pixel(*final(self), px, py) == (
                if in_canvas(*top, px - x, py - y) {
                    pixel(*top, px - x, py - y)
                } else {
                    pixel(*old(self), px, py)
                }),
    {
        image::imageops::replace(&mut self.img, &top.img, i64::from(x), i64::from(y));
    }

    /// `ImageBuffer::from_raw`: there is a picture where there are enough bytes for it, and they
    /// are its pixels, row by row.
    #[verifier::external_body]
    pub(crate) fn from_raw(width: u32, height: u32, bytes: Vec<u8>) -> (r: Option<Canvas>)
        ensures
            r is Some <==> 4 * width * height <= bytes@.len(),
            r matches Some(c) ==> canvas_width(c) == width && canvas_height(c) == height && forall|
                x: int,
                y: int,
            |
                in_canvas(c, x, y) ==> #[trigger] pixel(c, x, y) == stored_pixel(
                    bytes@,
                    width as int,
                    x,
                    y,
                ),
    {
        image::RgbaImage::from_raw(width, height, bytes).map(|img| Canvas { img })
    }

    /// `ImageBuffer::into_raw`: bytes that begin with the pixels, row by row.
    #[verifier::external_body]
    pub(crate) fn into_raw(self) -> (r: Vec<u8>)
        ensures
            r@.len() >= 4 * canvas_width(self) * canvas_height(self),
            forall|x: int, y: int|
                in_canvas(self, x, y) ==> #[trigger] pixel(self, x, y) == stored_pixel(
                    r@,
                    canvas_width(self) as int,
                    x,
                    y,
                ),
    {
        self.img.into_raw()
    }

    /// A picture from its pixels in `bytes`, row by row; `None` where there are too few bytes.
    pub fn from_bytes(width: u32, height: u32, bytes: Vec<u8>) -> (r: Option<Canvas>)
        ensures
            r is Some <==> 4 * width * height <= bytes@.len(),
            r matches Some(c) ==> canvas_width(c) == width && canvas_height(c) == height && forall|
                x: int,
                y: int,
            |
                in_canvas(c, x, y) ==> #[trigger] pixel(c, x, y) == stored_pixel(
                    bytes@,
                    width as int,
                    x,
                    y,
                ),
    {
        Canvas::from_raw(width, height, bytes)
    }

    /// The pixels of the picture as bytes, row by row.
    pub fn into_bytes(self) -> (r: Vec<u8>)
        ensures
            r@.len() >= 4 * canvas_width(self) * canvas_height(self),
            forall|x: int, y: int|
                in_canvas(self, x, y) ==> #[trigger] pixel(self, x, y) == stored_pixel(
                    r@,
                    canvas_width(self) as int,
                    x,
                    y,
                ),
    {
        self.into_raw()
    }

    /// The width in pixels.
    pub fn width(&self) -> (r: u32)
        ensures
            r == canvas_width(*self),
    {
        self.image_width()
    }

    /// The height in pixels.
    pub fn height(&self) -> (r: u32)
        ensures
            r == canvas_height(*self),
    {
        self.image_height()
    }

    /// The pixel at `(x, y)`, if it is one of the picture.
    pub fn pixel_at(&self, x: u32, y: u32) -> (r: Option<Rgba>)
        ensures
            r is Some <==> in_canvas(*self, x as int, y as int),
            r matches Some(p) ==> p == pixel(*self, x as int, y as int),
    {
        if x < self.image_width() && y < self.image_height() {
            Some(self.get_pixel(x, y))
        } else {
            None
        }
    }
}

} // verus!
