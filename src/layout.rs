use vstd::prelude::*;
use crate::raster::fits_in_memory;
use crate::utils::Placement;

verus! {

/// The side of one palette box: the available length shared by one more box
/// than there are, so that the gutters fit.
pub open spec fn box_side(length: u32, boxes: u32) -> u32 {
    (length as int / (boxes as int + 1)) as u32
}

/// The gap between two boxes: 13% of the box side, rounded down.
pub open spec fn gutter_width(side: u32) -> u32 {
    (side as int * 13 / 100) as u32
}

/// The length of a strip of `count` boxes with a gutter between each two.
pub open spec fn strip_length(side: u32, count: u32, gutter: u32) -> int {
    if count == 0 {
        0
    } else {
        side as int * count as int + gutter as int * (count as int - 1)
    }
}

/// The side and gutter of the boxes of a palette of `boxes` boxes along `length` pixels.
pub fn palette_size(length: u32, boxes: u32) -> (r: (u32, u32))
    ensures
        r.0 == box_side(length, boxes),
        r.1 == gutter_width(r.0),
        r.1 <= r.0,
{
    let size = (length as u64 / (boxes as u64 + 1)) as u32;
    let pillar = (size as u64 * 13 / 100) as u32;
    (size, pillar)
}

/// The margin around the picture and between the picture and the palette.
pub const FRAME_BORDER: u32 = 10;

/// The number of palette boxes when none is given.
pub const DEFAULT_PALETTE_COUNT: u32 = 10;

/// The beige the frame is filled with: red, green, blue and alpha.
pub const BACKGROUND_RGBA: (u8, u8, u8, u8) = (255, 252, 234, 1);

pub open spec fn count_or_default(n: Option<u32>) -> u32 {
    match n {
        Some(k) => k,
        None => DEFAULT_PALETTE_COUNT,
    }
}

/// The side of the palette boxes of a frame: the picture's width is shared for a
/// palette above or below, its height for one beside it.
pub open spec fn frame_side(width: u32, height: u32, count: u32, placement: Placement) -> u32 {
    if placement.horizontal() {
        box_side(width, count)
    } else {
        box_side(height, count)
    }
}

/// The size of a frame: a border round the picture, and one more border and the
/// palette's depth on the palette's side.
pub open spec fn frame_dims(width: u32, height: u32, count: u32, placement: Placement) -> (int, int) {
    let side = frame_side(width, height, count, placement) as int;
    let b = FRAME_BORDER as int;
    if placement.horizontal() {
        (width + 2 * b, height + 3 * b + side)
    } else {
        (width + 3 * b + side, height + 2 * b)
    }
}

/// Where the palette's top-left corner goes: one border in from the frame's
/// corner, or past the picture and a gap when the palette is below or right of it.
pub open spec fn divider_of(placement: Placement, width: u32, height: u32) -> (u32, u32) {
    let b = FRAME_BORDER;
    match placement {
        Placement::Bottom => (b, (b + height + b) as u32),
        Placement::Right => ((b + width + b) as u32, b),
        _ => (b, b),
    }
}

/// How far the picture is pushed right and down to clear a palette on its left
/// or above it.
pub open spec fn picture_shift(placement: Placement, side: u32, size: u32) -> (int, int) {
    match placement {
        Placement::Left => (side + size, 0),
        Placement::Top => (0, side + size),
        _ => (0, 0),
    }
}

/// A frame of this size and its palette fit the machine's integers and memory.
pub open spec fn frame_fits(width: u32, height: u32, count: u32, placement: Placement) -> bool {
    let side = frame_side(width, height, count, placement);
    let strip = strip_length(side, count, gutter_width(side));
    let (fw, fh) = frame_dims(width, height, count, placement);
    &&& fw <= u32::MAX
    &&& fh <= u32::MAX
    &&& fits_in_memory(fw as u32, fh as u32)
    &&& strip <= u32::MAX
    &&& fits_in_memory(strip as u32, side)
}

/// Whether a frame of this size and its palette fit the machine, as `frame_fits`
/// states it.
pub fn frame_fits_machine(width: u32, height: u32, count: u32, placement: Placement) -> (r: bool)
    ensures
        r == frame_fits(width, height, count, placement),
{
    let horizontal = placement.is_horizontal();
    let along = if horizontal {
        width
    } else {
        height
    };
    let (side, gutter) = palette_size(along, count);
    let b = FRAME_BORDER as u64;
    let (fw, fh): (u64, u64) = if horizontal {
        (width as u64 + 2 * b, height as u64 + 3 * b + side as u64)
    } else {
        (width as u64 + 3 * b + side as u64, height as u64 + 2 * b)
    };
    let strip: u128 = if count == 0 {
        0
    } else {
        proof {
            assert(side as int * count as int <= u32::MAX as int * u32::MAX as int) by (nonlinear_arith)
                requires
                    side <= u32::MAX,
                    count <= u32::MAX,
            ;
            assert(gutter as int * (count as int - 1) <= u32::MAX as int * u32::MAX as int) by (nonlinear_arith)
                requires
                    gutter <= u32::MAX,
                    1 <= count <= u32::MAX,
            ;
            assert(0 <= gutter as int * (count as int - 1)) by (nonlinear_arith)
                requires
                    count >= 1,
            ;
        }
        side as u128 * count as u128 + gutter as u128 * (count as u128 - 1)
    };
    if fw > u32::MAX as u64 || fh > u32::MAX as u64 || strip > u32::MAX as u128 {
        return false;
    }
    proof {
        assert(4 * (fw as int) * (fh as int) <= 4 * (u32::MAX as int) * (u32::MAX as int)) by (nonlinear_arith)
            requires
                fw <= u32::MAX,
                fh <= u32::MAX,
        ;
        assert(4 * (strip as int) * (side as int) <= 4 * (u32::MAX as int) * (u32::MAX as int)) by (nonlinear_arith)
            requires
                strip <= u32::MAX,
                side <= u32::MAX,
        ;
    }
    4 * (fw as u128) * (fh as u128) <= usize::MAX as u128 && 4 * strip * (side as u128) <= usize::MAX as u128
}

} // verus!
