use vstd::prelude::*;
use image::DynamicImage;
use crate::colors::{Color, ColorCount};
use crate::layout::{
    BACKGROUND_RGBA, DEFAULT_PALETTE_COUNT, FRAME_BORDER, box_side, count_or_default, divider_of, frame_dims,
    frame_fits, frame_fits_machine, frame_side, gutter_width, palette_size, picture_shift, strip_length,
};
use crate::paint::{copy_source, is_paint_of, paint_strip, painted_px, transpose};
use crate::raster::{Canvas, canvas_dims, px, spx, fits_in_memory, no_pixels, source_dims, source_dimensions};
use crate::utils::Placement;

verus! {

/// A strip of color boxes, square, separated by gutters.
pub struct Palette {
    buffer: Canvas,
    n_boxes: u32,
    box_size: u32,
    space_size: u32,
}

impl Palette {
    pub closed spec fn canvas(&self) -> Canvas {
        self.buffer
    }

    pub closed spec fn side(&self) -> u32 {
        self.box_size
    }

    pub closed spec fn count(&self) -> u32 {
        self.n_boxes
    }

    pub closed spec fn gutter(&self) -> u32 {
        self.space_size
    }

    /// An empty palette for `n_boxes` boxes of `side_length` pixels, `space_size`
    /// pixels apart: as long as the boxes and gutters, as high as one box.
    pub fn new(side_length: u32, n_boxes: u32, space_size: u32) -> (p: Palette)
        requires
            strip_length(side_length, n_boxes, space_size) <= u32::MAX,
            fits_in_memory(strip_length(side_length, n_boxes, space_size) as u32, side_length),
        ensures
            p.side() == side_length,
            p.count() == n_boxes,
            p.gutter() == space_size,
            canvas_dims(p.canvas()) == (strip_length(side_length, n_boxes, space_size) as u32, side_length),
            forall|x: u32, y: u32|
                x < canvas_dims(p.canvas()).0 && y < side_length ==> #[trigger] px(p.canvas(), x, y) == (
                    0u8,
                    0u8,
                    0u8,
                    0u8,
                ),
    {
        let width: u32 = if n_boxes == 0 {
            0
        } else {
            proof {
                assert(0 <= space_size as int * (n_boxes as int - 1)) by (nonlinear_arith)
                    requires
                        n_boxes >= 1,
                ;
                assert(side_length as int * n_boxes as int <= u32::MAX);
                assert(space_size as int * (n_boxes as int - 1) <= u32::MAX);
            }
            side_length * n_boxes + space_size * (n_boxes - 1)
        };
        Palette {
            buffer: Canvas::blank(width, side_length),
            box_size: side_length,
            n_boxes,
            space_size,
        }
    }

    /// Paints `top_colors` as boxes, left to right from the top row; boxes past
    /// the right or bottom edge are cut off.
    pub fn paint_palette(&mut self, top_colors: &Vec<ColorCount>)
        ensures
            final(self).side() == old(self).side(),
            final(self).count() == old(self).count(),
            final(self).gutter() == old(self).gutter(),
            is_paint_of(final(self).canvas(), old(self).canvas(), top_colors@, old(self).side(), old(self).gutter()),
    {
        paint_strip(&mut self.buffer, top_colors, self.box_size, self.space_size);
    }

    /// Turns the palette a quarter, so that a horizontal strip runs down.
    pub fn rotate_90degrees(&mut self)
        requires
            fits_in_memory(canvas_dims(old(self).canvas()).0, canvas_dims(old(self).canvas()).1),
        ensures
            final(self).side() == old(self).side(),
            final(self).count() == old(self).count(),
            final(self).gutter() == old(self).gutter(),
            canvas_dims(final(self).canvas()) == (canvas_dims(old(self).canvas()).1, canvas_dims(old(self).canvas()).0),
            forall|x: u32, y: u32|
                x < canvas_dims(old(self).canvas()).1 && y < canvas_dims(old(self).canvas()).0 ==> #[trigger] px(
                    final(self).canvas(),
                    x,
                    y,
                ) == px(old(self).canvas(), y, x),
    {
        self.buffer = transpose(&self.buffer);
    }

    /// The width and height of the palette's pixels.
    pub fn get_dimensions(&self) -> (r: (u32, u32))
        ensures
            r == canvas_dims(self.canvas()),
    {
        self.buffer.dimensions()
    }

    pub fn get_buffer(&self) -> (r: &Canvas)
        ensures
            *r == self.canvas(),
    {
        &self.buffer
    }
}

/// A picture with a frame round it and a palette of its colors along one edge.
pub struct FramedPicture {
    buffer: Canvas,
    layer_divider: (u32, u32),
    palette: Palette,
    placement: Placement,
}

impl FramedPicture {
    pub closed spec fn canvas(&self) -> Canvas {
        self.buffer
    }

    pub closed spec fn divider(&self) -> (u32, u32) {
        self.layer_divider
    }

    pub closed spec fn palette(&self) -> Palette {
        self.palette
    }

    pub closed spec fn placement(&self) -> Placement {
        self.placement
    }

    /// A frame for a `width` by `height` picture with a palette of `n` boxes
    /// (ten when `None`), filled with the beige background.
    pub fn new(width: u32, height: u32, n: Option<u32>, placement: Placement) -> (f: FramedPicture)
        requires
            frame_fits(width, height, count_or_default(n), placement),
        ensures
            f.placement() == placement,
            f.divider() == divider_of(placement, width, height),
            canvas_dims(f.canvas()) == (
                frame_dims(width, height, count_or_default(n), placement).0 as u32,
                frame_dims(width, height, count_or_default(n), placement).1 as u32,
            ),
            forall|x: u32, y: u32|
                x < canvas_dims(f.canvas()).0 && y < canvas_dims(f.canvas()).1 ==> #[trigger] px(
                    f.canvas(),
                    x,
                    y,
                ) == BACKGROUND_RGBA,
            f.palette().side() == frame_side(width, height, count_or_default(n), placement),
            f.palette().count() == count_or_default(n),
            f.palette().gutter() == gutter_width(f.palette().side()),
            canvas_dims(f.palette().canvas()) == (
                strip_length(f.palette().side(), f.palette().count(), f.palette().gutter()) as u32,
                f.palette().side(),
            ),
            forall|x: u32, y: u32|
                x < canvas_dims(f.palette().canvas()).0 && y < f.palette().side() ==> #[trigger] px(
                    f.palette().canvas(),
                    x,
                    y,
                ) == (0u8, 0u8, 0u8, 0u8),
    {
        let (r, g, b, a) = BACKGROUND_RGBA;
        FramedPicture::with_background(width, height, n, placement, Color { r, g, b, a })
    }

    /// As `new`, or `None` when the frame or its palette would not fit the
    /// machine's integers or memory.
    pub fn checked_new(width: u32, height: u32, n: Option<u32>, placement: Placement) -> (r: Option<FramedPicture>)
        ensures
            r is Some <==> frame_fits(width, height, count_or_default(n), placement),
            r matches Some(f) ==> {
                &&& f.placement() == placement
                &&& f.divider() == divider_of(placement, width, height)
                &&& canvas_dims(f.canvas()) == (
                    frame_dims(width, height, count_or_default(n), placement).0 as u32,
                    frame_dims(width, height, count_or_default(n), placement).1 as u32,
                )
                &&& f.palette().side() == frame_side(width, height, count_or_default(n), placement)
                &&& f.palette().count() == count_or_default(n)
                &&& f.palette().gutter() == gutter_width(f.palette().side())
                &&& canvas_dims(f.palette().canvas()) == (
                    strip_length(f.palette().side(), f.palette().count(), f.palette().gutter()) as u32,
                    f.palette().side(),
                )
                &&& forall|x: u32, y: u32|
                    x < canvas_dims(f.canvas()).0 && y < canvas_dims(f.canvas()).1 ==> #[trigger] px(
                        f.canvas(),
                        x,
                        y,
                    ) == BACKGROUND_RGBA
                &&& forall|x: u32, y: u32|
                    x < canvas_dims(f.palette().canvas()).0 && y < f.palette().side() ==> #[trigger] px(
                        f.palette().canvas(),
                        x,
                        y,
                    ) == (0u8, 0u8, 0u8, 0u8)
            },
    {
        let count = match n {
            Some(k) => k,
            None => DEFAULT_PALETTE_COUNT,
        };
        if frame_fits_machine(width, height, count, placement) {
            Some(FramedPicture::new(width, height, n, placement))
        } else {
            None
        }
    }

    /// As `new`, with the frame filled with `background`.
    pub fn with_background(width: u32, height: u32, n: Option<u32>, placement: Placement, background: Color) -> (f: FramedPicture)
        requires
            frame_fits(width, height, count_or_default(n), placement),
        ensures
            f.placement() == placement,
            f.divider() == divider_of(placement, width, height),
            canvas_dims(f.canvas()) == (
                frame_dims(width, height, count_or_default(n), placement).0 as u32,
                frame_dims(width, height, count_or_default(n), placement).1 as u32,
            ),
            forall|x: u32, y: u32|
                x < canvas_dims(f.canvas()).0 && y < canvas_dims(f.canvas()).1 ==> #[trigger] px(
                    f.canvas(),
                    x,
                    y,
                ) == background@,
            f.palette().side() == frame_side(width, height, count_or_default(n), placement),
            f.palette().count() == count_or_default(n),
            f.palette().gutter() == gutter_width(f.palette().side()),
            canvas_dims(f.palette().canvas()) == (
                strip_length(f.palette().side(), f.palette().count(), f.palette().gutter()) as u32,
                f.palette().side(),
            ),
            forall|x: u32, y: u32|
                x < canvas_dims(f.palette().canvas()).0 && y < f.palette().side() ==> #[trigger] px(
                    f.palette().canvas(),
                    x,
                    y,
                ) == (0u8, 0u8, 0u8, 0u8),
    {
        let count = match n {
            Some(k) => k,
            None => DEFAULT_PALETTE_COUNT,
        };
        let horizontal = placement.is_horizontal();
        let along = if horizontal {
            width
        } else {
            height
        };
        let dims = palette_size(along, count);
        let side = dims.0;
        let (w, h) = if horizontal {
            (width + 2 * FRAME_BORDER, height + 3 * FRAME_BORDER + side)
        } else {
            (width + 3 * FRAME_BORDER + side, height + 2 * FRAME_BORDER)
        };
        let buffer = Canvas::filled(w, h, background);
        let palette = Palette::new(side, count, dims.1);
        let layer_divider = FramedPicture::set_layers_divider(placement, height, width);
        FramedPicture { buffer, layer_divider, palette, placement }
    }

    /// The point where the palette's top-left corner goes.
    fn set_layers_divider(placement: Placement, height: u32, width: u32) -> (r: (u32, u32))
        requires
            placement is Bottom ==> height + 2 * FRAME_BORDER <= u32::MAX,
            placement is Right ==> width + 2 * FRAME_BORDER <= u32::MAX,
        ensures
            r == divider_of(placement, width, height),
    {
        let b = FRAME_BORDER;
        match placement {
            Placement::Bottom => (b, b + height + b),
            Placement::Right => (b + width + b, b),
            _ => (b, b),
        }
    }

    /// The side and gutter of `boxes` boxes along `length` pixels.
    pub fn compute_palette_size(length: u32, boxes: u32) -> (r: (u32, u32))
        ensures
            r == (box_side(length, boxes), gutter_width(box_side(length, boxes))),
    {
        palette_size(length, boxes)
    }

    /// Copies `image` into the frame, `size` pixels in from the frame's edge and
    /// clear of a palette on its left or above it.
    pub fn copy_img_into(&mut self, size: u32, image: &DynamicImage)
        requires
            no_pixels(*image) || (picture_shift(old(self).placement(), old(self).palette().side(), size).0 + size
                + source_dims(*image).0 <= canvas_dims(old(self).canvas()).0 && picture_shift(
                old(self).placement(),
                old(self).palette().side(),
                size,
            ).1 + size + source_dims(*image).1 <= canvas_dims(old(self).canvas()).1),
        ensures
            final(self).placement() == old(self).placement(),
            final(self).divider() == old(self).divider(),
            final(self).palette() == old(self).palette(),
            canvas_dims(final(self).canvas()) == canvas_dims(old(self).canvas()),
            ({
                let (sx, sy) = picture_shift(old(self).placement(), old(self).palette().side(), size);
                let (x0, y0) = (sx + size, sy + size);
                forall|x: u32, y: u32|
                    x < canvas_dims(old(self).canvas()).0 && y < canvas_dims(old(self).canvas()).1 ==> #[trigger] px(
                        final(self).canvas(),
                        x,
                        y,
                    ) == if x0 <= x < x0 + source_dims(*image).0 && y0 <= y < y0 + source_dims(*image).1 {
                        spx(*image, (x - x0) as u32, (y - y0) as u32)
                    } else {
                        px(old(self).canvas(), x, y)
                    }
            }),
    {
        let (sw, sh) = source_dimensions(image);
        if sw == 0 || sh == 0 {
            return;
        }
        let side = self.palette.box_size;
        let (sx, sy): (u32, u32) = match self.placement {
            Placement::Left => (side + size, 0),
            Placement::Top => (0, side + size),
            _ => (0, 0),
        };
        copy_source(&mut self.buffer, image, sx + size, sy + size);
    }

    /// Paints the palette with `top_colors`, and turns it to run down when it goes
    /// left or right of the picture.
    pub fn fill_in_palette(&mut self, top_colors: &Vec<ColorCount>)
        requires
            !old(self).placement().horizontal() ==> fits_in_memory(
                canvas_dims(old(self).palette().canvas()).0,
                canvas_dims(old(self).palette().canvas()).1,
            ),
        ensures
            final(self).placement() == old(self).placement(),
            final(self).divider() == old(self).divider(),
            final(self).canvas() == old(self).canvas(),
            final(self).palette().side() == old(self).palette().side(),
            final(self).palette().count() == old(self).palette().count(),
            final(self).palette().gutter() == old(self).palette().gutter(),
            ({
                let before = old(self).palette().canvas();
                let after = final(self).palette().canvas();
                let (side, gutter) = (old(self).palette().side(), old(self).palette().gutter());
                if old(self).placement().horizontal() {
                    is_paint_of(after, before, top_colors@, side, gutter)
                } else {
                    &&& canvas_dims(after) == (canvas_dims(before).1, canvas_dims(before).0)
                    &&& forall|x: u32, y: u32|
                        x < canvas_dims(before).1 && y < canvas_dims(before).0 ==> #[trigger] px(after, x, y)
                            == painted_px(before, top_colors@, top_colors@.len() as int, side, gutter, y, x)
                }
            }),
    {
        self.palette.paint_palette(top_colors);
        if self.placement.needs_rotation() {
            self.palette.rotate_90degrees();
        }
    }

    /// Lays the palette over the frame at the divider, replacing the pixels under
    /// it; what reaches past the frame is cut off.
    pub fn combine_pieces(&mut self)
        ensures
            final(self).placement() == old(self).placement(),
            final(self).divider() == old(self).divider(),
            final(self).palette() == old(self).palette(),
            canvas_dims(final(self).canvas()) == canvas_dims(old(self).canvas()),
            ({
                let (dx, dy) = old(self).divider();
                let top = old(self).palette().canvas();
                forall|x: u32, y: u32|
                    x < canvas_dims(old(self).canvas()).0 && y < canvas_dims(old(self).canvas()).1 ==> #[trigger] px(
                        final(self).canvas(),
                        x,
                        y,
                    ) == if dx <= x < dx + canvas_dims(top).0 && dy <= y < dy + canvas_dims(top).1 {
                        px(top, (x - dx) as u32, (y - dy) as u32)
                    } else {
                        px(old(self).canvas(), x, y)
                    }
            }),
    {
        let (dx, dy) = self.layer_divider;
        self.buffer.replace_from(self.palette.get_buffer(), dx, dy);
    }

    /// The width and height of the framed picture.
    pub fn get_dimensions(&self) -> (r: (u32, u32))
        ensures
            r == canvas_dims(self.canvas()),
    {
        self.buffer.dimensions()
    }

    pub fn get_buffer(&self) -> (r: &Canvas)
        ensures
            *r == self.canvas(),
    {
        &self.buffer
    }

    pub fn get_palette(&self) -> (r: &Palette)
        ensures
            *r == self.palette(),
    {
        &self.palette
    }
}

} // verus!
