use vstd::prelude::*;
use image::DynamicImage;
use crate::colors::{Color, ColorCount};
use crate::layout::{
    BACKGROUND_RGBA, DEFAULT_PALETTE_COUNT, FRAME_BORDER, box_side, count_or_default, gutter_width, palette_size,
};
use crate::paint::{copy_source, painted_strip, strip_px};
use crate::raster::{Canvas, canvas_dims, px, spx, fits_in_memory, no_pixels, source_dims};

verus! {

/// A picture with a frame round it and room for a palette below it.
pub struct FramedPicture {
    buffer: Canvas,
    y_divider: u32,
}

impl FramedPicture {
    pub closed spec fn canvas(&self) -> Canvas {
        self.buffer
    }

    pub closed spec fn divider(&self) -> u32 {
        self.y_divider
    }

    /// The frame is at least two borders wide.
    pub closed spec fn wf(&self) -> bool {
        canvas_dims(self.buffer).0 >= 2 * FRAME_BORDER
    }

    /// A beige frame for a `width` by `height` picture, with room below it for a
    /// palette of `n` boxes (ten when `None`).
    pub fn new(width: u32, height: u32, n: Option<u32>) -> (f: FramedPicture)
        requires
            width + 2 * FRAME_BORDER <= u32::MAX,
            height + 3 * FRAME_BORDER + box_side(width, count_or_default(n)) <= u32::MAX,
            fits_in_memory(
                (width + 2 * FRAME_BORDER) as u32,
                (height + 3 * FRAME_BORDER + box_side(width, count_or_default(n))) as u32,
            ),
        ensures
            f.wf(),
            f.divider() == height + 2 * FRAME_BORDER,
            canvas_dims(f.canvas()) == (
                (width + 2 * FRAME_BORDER) as u32,
                (height + 3 * FRAME_BORDER + box_side(width, count_or_default(n))) as u32,
            ),
            forall|x: u32, y: u32|
                x < canvas_dims(f.canvas()).0 && y < canvas_dims(f.canvas()).1 ==> #[trigger] px(
                    f.canvas(),
                    x,
                    y,
                ) == BACKGROUND_RGBA,
    {
        let count = match n {
            Some(k) => k,
            None => DEFAULT_PALETTE_COUNT,
        };
        let dims = palette_size(width, count);
        let w = width + 2 * FRAME_BORDER;
        let h = height + 3 * FRAME_BORDER + dims.0;
        let (r, g, b, a) = BACKGROUND_RGBA;
        FramedPicture { buffer: Canvas::filled(w, h, Color { r, g, b, a }), y_divider: height + 2 * FRAME_BORDER }
    }

    /// A palette as wide as the picture, with `top_colors` painted as boxes sized
    /// for `n` boxes; boxes past the right edge are cut off.
    pub fn draw_palette(&mut self, n: u32, top_colors: &Vec<ColorCount>) -> (r: Canvas)
        requires
            old(self).wf(),
            box_side((canvas_dims(old(self).canvas()).0 - 2 * FRAME_BORDER) as u32, n) + FRAME_BORDER <= u32::MAX,
            fits_in_memory(
                (canvas_dims(old(self).canvas()).0 - 2 * FRAME_BORDER) as u32,
                (box_side((canvas_dims(old(self).canvas()).0 - 2 * FRAME_BORDER) as u32, n) + FRAME_BORDER) as u32,
            ),
        ensures
            *final(self) == *old(self),
            ({
                let length = (canvas_dims(old(self).canvas()).0 - 2 * FRAME_BORDER) as u32;
                let side = box_side(length, n);
                &&& canvas_dims(r) == (length, (side + FRAME_BORDER) as u32)
                &&& forall|x: u32, y: u32|
                    x < length && y < side + FRAME_BORDER ==> #[trigger] px(r, x, y) == strip_px(
                        top_colors@,
                        top_colors@.len() as int,
                        side,
                        gutter_width(side),
                        x,
                        y,
                        (0u8, 0u8, 0u8, 0u8),
                    )
            }),
    {
        let (w, _h) = self.buffer.dimensions();
        let pwidth = w - 2 * FRAME_BORDER;
        let dims = palette_size(pwidth, n);
        painted_strip(pwidth, dims.0 + FRAME_BORDER, top_colors, dims.0, dims.1)
    }

    /// Copies `image` into the frame, `size` pixels in from its top-left corner.
    pub fn copy_img_into(&mut self, size: u32, image: &DynamicImage)
        requires
            old(self).wf(),
            no_pixels(*image) || (size + source_dims(*image).0 <= canvas_dims(old(self).canvas()).0 && size + source_dims(*image).1
            <= canvas_dims(old(self).canvas()).1),
        ensures
            final(self).wf(),
            final(self).divider() == old(self).divider(),
            canvas_dims(final(self).canvas()) == canvas_dims(old(self).canvas()),
            forall|x: u32, y: u32|
                x < canvas_dims(old(self).canvas()).0 && y < canvas_dims(old(self).canvas()).1 ==> #[trigger] px(
                    final(self).canvas(),
                    x,
                    y,
                ) == if size <= x < size + source_dims(*image).0 && size <= y < size + source_dims(*image).1 {
                    spx(*image, (x - size) as u32, (y - size) as u32)
                } else {
                    px(old(self).canvas(), x, y)
                },
    {
        copy_source(&mut self.buffer, image, size, size);
    }

    /// The side and gutter of `boxes` boxes along `length` pixels.
    pub fn compute_palette_size(length: u32, boxes: u32) -> (r: (u32, u32))
        ensures
            r == (box_side(length, boxes), gutter_width(box_side(length, boxes))),
    {
        palette_size(length, boxes)
    }

    /// Lays `palette` over the frame below the picture, one border in from the
    /// left, replacing the pixels under it; what reaches past the frame is cut off.
    pub fn stick_piece(&mut self, palette: &Canvas)
        requires
            old(self).wf(),
        ensures
            final(self).wf(),
            final(self).divider() == old(self).divider(),
            canvas_dims(final(self).canvas()) == canvas_dims(old(self).canvas()),
            ({
                let (dx, dy) = (FRAME_BORDER, old(self).divider());
                forall|x: u32, y: u32|
                    x < canvas_dims(old(self).canvas()).0 && y < canvas_dims(old(self).canvas()).1 ==> #[trigger] px(
                        final(self).canvas(),
                        x,
                        y,
                    ) == if dx <= x < dx + canvas_dims(*palette).0 && dy <= y < dy + canvas_dims(*palette).1 {
                        px(*palette, (x - dx) as u32, (y - dy) as u32)
                    } else {
                        px(old(self).canvas(), x, y)
                    }
            }),
    {
        self.buffer.replace_from(palette, FRAME_BORDER, self.y_divider);
    }

    pub fn get_buffer(&self) -> (r: &Canvas)
        ensures
            *r == self.canvas(),
    {
        &self.buffer
    }
}

} // verus!
