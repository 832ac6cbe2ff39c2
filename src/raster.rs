use vstd::prelude::*;
use image::{DynamicImage, GenericImageView, ImageBuffer, Rgba};
use crate::colors::Color;

verus! {

#[verifier::external_type_specification]
#[verifier::external_body]
pub struct ExDynamicImage(DynamicImage);

/// An RGBA pixel buffer of the `image` crate, held opaquely; what it holds is
/// stated through `canvas_dims` and `canvas_pixels`.
#[verifier::external_body]
pub struct Canvas {
    buf: ImageBuffer<Rgba<u8>, Vec<u8>>,
}

/// Width and height of a canvas.
pub uninterp spec fn canvas_dims(c: Canvas) -> (u32, u32);

/// The pixels of a canvas, by `(x, y)` coordinate.
pub uninterp spec fn canvas_pixels(c: Canvas) -> Map<(u32, u32), (u8, u8, u8, u8)>;

/// Width and height of a decoded source image.
pub uninterp spec fn source_dims(img: DynamicImage) -> (u32, u32);

/// The pixels of a decoded source image, each as RGBA, by `(x, y)` coordinate.
pub uninterp spec fn source_pixels(img: DynamicImage) -> Map<(u32, u32), (u8, u8, u8, u8)>;

#[verifier::inline]
pub open spec fn px(c: Canvas, x: u32, y: u32) -> (u8, u8, u8, u8) {
    canvas_pixels(c)[(x, y)]
}

#[verifier::inline]
pub open spec fn spx(img: DynamicImage, x: u32, y: u32) -> (u8, u8, u8, u8) {
    source_pixels(img)[(x, y)]
}

/// The image has no pixels: its width or its height is zero.
pub open spec fn no_pixels(img: DynamicImage) -> bool {
    source_dims(img).0 == 0 || source_dims(img).1 == 0
}

/// Whether a buffer of this size can be allocated: four bytes per pixel fit in `usize`.
pub open spec fn fits_in_memory(width: u32, height: u32) -> bool {
    4 * (width as int) * (height as int) <= usize::MAX
}

impl Canvas {
    /// Relies on ImageBuffer::new: a buffer of the given size whose channels are
    /// all zero; it panics when four bytes per pixel overflow `usize`.
    #[verifier::external_body]
    pub(crate) fn blank(width: u32, height: u32) -> (r: Canvas)
        requires
            fits_in_memory(width, height),
        ensures
            canvas_dims(r) == (width, height),
            forall|x: u32, y: u32|
                x < width && y < height ==> #[trigger] canvas_pixels(r)[(x, y)] == (0u8, 0u8, 0u8, 0u8),
    {
        Canvas { buf: ImageBuffer::new(width, height) }
    }

    /// Relies on ImageBuffer::from_pixel: a buffer of the given size with every
    /// pixel set to `fill`; it panics when four bytes per pixel overflow `usize`.
    #[verifier::external_body]
    pub(crate) fn filled(width: u32, height: u32, fill: Color) -> (r: Canvas)
        requires
            fits_in_memory(width, height),
        ensures
            canvas_dims(r) == (width, height),
            forall|x: u32, y: u32| x < width && y < height ==> #[trigger] canvas_pixels(r)[(x, y)] == fill@,
    {
        Canvas { buf: ImageBuffer::from_pixel(width, height, Rgba([fill.r, fill.g, fill.b, fill.a])) }
    }

    /// Relies on ImageBuffer::dimensions: the width and height the buffer was made with.
    #[verifier::external_body]
    pub fn dimensions(&self) -> (r: (u32, u32))
        ensures
            r == canvas_dims(*self),
    {
        self.buf.dimensions()
    }

    /// Relies on ImageBuffer::get_pixel, which panics outside the buffer.
    #[verifier::external_body]
    pub fn pixel(&self, x: u32, y: u32) -> (r: Color)
        requires
            x < canvas_dims(*self).0,
            y < canvas_dims(*self).1,
        ensures
            r@ == canvas_pixels(*self)[(x, y)],
    {
        let p = self.buf.get_pixel(x, y);
        Color { r: p[0], g: p[1], b: p[2], a: p[3] }
    }

    /// Relies on ImageBuffer::put_pixel: one pixel is overwritten, the others and
    /// the size stay; it panics outside the buffer.
    #[verifier::external_body]
    pub(crate) fn put_pixel(&mut self, x: u32, y: u32, c: Color)
        requires
            x < canvas_dims(*old(self)).0,
            y < canvas_dims(*old(self)).1,
        ensures
            canvas_dims(*final(self)) == canvas_dims(*old(self)),
            forall|i: u32, j: u32|
                i < canvas_dims(*old(self)).0 && j < canvas_dims(*old(self)).1 ==> #[trigger] canvas_pixels(
                    *final(self),
                )[(i, j)] == if i == x && j == y {
                    c@
                } else {
                    canvas_pixels(*old(self))[(i, j)]
                },
    {
        self.buf.put_pixel(x, y, Rgba([c.r, c.g, c.b, c.a]))
    }

    /// Relies on imageops::replace: the pixels of `top` overwrite those of this
    /// canvas from `(x, y)` on, cropped to this canvas; nothing is blended.
    #[verifier::external_body]
    pub(crate) fn replace_from(&mut self, top: &Canvas, x: u32, y: u32)
        ensures
            canvas_dims(*final(self)) == canvas_dims(*old(self)),
            forall|i: u32, j: u32|
                i < canvas_dims(*old(self)).0 && j < canvas_dims(*old(self)).1 ==> #[trigger] canvas_pixels(
                    *final(self),
                )[(i, j)] == if x <= i < x + canvas_dims(*top).0 && y <= j < y + canvas_dims(*top).1 {
                    canvas_pixels(*top)[((i - x) as u32, (j - y) as u32)]
                } else {
                    canvas_pixels(*old(self))[(i, j)]
                },
    {
        image::imageops::replace(&mut self.buf, &top.buf, x, y)
    }
}

/// Relies on GenericImageView::dimensions of DynamicImage.
#[verifier::external_body]
pub fn source_dimensions(img: &DynamicImage) -> (r: (u32, u32))
    ensures
        r == source_dims(*img),
{
    img.dimensions()
}

/// Relies on GenericImageView::get_pixel of DynamicImage: the pixel converted to
/// 8-bit RGBA; it panics outside the image.
#[verifier::external_body]
pub(crate) fn source_pixel(img: &DynamicImage, x: u32, y: u32) -> (r: Color)
    requires
        x < source_dims(*img).0,
        y < source_dims(*img).1,
    ensures
        r@ == source_pixels(*img)[(x, y)],
{
    let p = img.get_pixel(x, y);
    Color { r: p[0], g: p[1], b: p[2], a: p[3] }
}

} // verus!
