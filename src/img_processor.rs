use vstd::prelude::*;
use image::DynamicImage;
use crate::colors::ColorCount;
use crate::layout::{box_side, gutter_width, palette_size, strip_length};
use crate::paint::{copy_source, painted_strip, strip_px};
use crate::raster::{Canvas, canvas_dims, px, spx, fits_in_memory, no_pixels, source_dims};

verus! {

/// Copies `image` into `frame`, `size` pixels in from its top-left corner.
pub fn copy_img_into(frame: &mut Canvas, size: u32, image: &DynamicImage)
    requires
        no_pixels(*image) || (size + source_dims(*image).0 <= canvas_dims(*old(frame)).0 && size + source_dims(*image).1
            <= canvas_dims(*old(frame)).1),
    ensures
        canvas_dims(*final(frame)) == canvas_dims(*old(frame)),
        forall|x: u32, y: u32|
            x < canvas_dims(*old(frame)).0 && y < canvas_dims(*old(frame)).1 ==> #[trigger] px(*final(frame), x, y)
                == if size <= x < size + source_dims(*image).0 && size <= y < size + source_dims(*image).1 {
                spx(*image, (x - size) as u32, (y - size) as u32)
            } else {
                px(*old(frame), x, y)
            },
{
    copy_source(frame, image, size, size);
}

/// A palette of `n` boxes of side `dims.0`, `dims.1` apart, one box high, with
/// `top_colors` painted on it; boxes past the right edge are cut off.
pub fn draw_palette(dims: (u32, u32), n: u32, top_colors: &Vec<ColorCount>) -> (r: Canvas)
    requires
        strip_length(dims.0, n, dims.1) <= u32::MAX,
        fits_in_memory(strip_length(dims.0, n, dims.1) as u32, dims.0),
    ensures
        canvas_dims(r) == (strip_length(dims.0, n, dims.1) as u32, dims.0),
        forall|x: u32, y: u32|
            x < canvas_dims(r).0 && y < canvas_dims(r).1 ==> #[trigger] px(r, x, y) == strip_px(
                top_colors@,
                top_colors@.len() as int,
                dims.0,
                dims.1,
                x,
                y,
                (0u8, 0u8, 0u8, 0u8),
            ),
{
    let pwidth: u32 = if n == 0 {
        0
    } else {
        proof {
            assert(0 <= dims.1 as int * (n as int - 1)) by (nonlinear_arith)
                requires
                    n >= 1,
            ;
        }
        dims.0 * n + dims.1 * (n - 1)
    };
    painted_strip(pwidth, dims.0, top_colors, dims.0, dims.1)
}

/// The side and gutter of `boxes` boxes along the longer side of an image.
pub fn compute_palette_size(img_dims: &(u32, u32), boxes: u32) -> (r: (u32, u32))
    ensures
        r.0 == box_side(if img_dims.0 > img_dims.1 { img_dims.0 } else { img_dims.1 }, boxes),
        r.1 == gutter_width(r.0),
{
    let length = if img_dims.0 > img_dims.1 {
        img_dims.0
    } else {
        img_dims.1
    };
    palette_size(length, boxes)
}

} // verus!
