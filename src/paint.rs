use vstd::prelude::*;
use vstd::arithmetic::div_mod::{lemma_fundamental_div_mod, lemma_fundamental_div_mod_converse};
use image::DynamicImage;
use crate::colors::{Color, ColorCount};
use crate::raster::{Canvas, canvas_dims, px, spx, fits_in_memory, no_pixels, source_dims, source_dimensions, source_pixel};

verus! {

/// Column `x` falls inside one of the first `count` boxes of a strip.
pub open spec fn in_box(x: int, side: int, gutter: int, count: int) -> bool {
    side > 0 && x / (side + gutter) < count && x % (side + gutter) < side
}

/// The pixel at `(x, y)` of a strip of the first `count` colors of `colors`
/// painted as boxes over a pixel `under`.
pub open spec fn strip_px(
    colors: Seq<ColorCount>,
    count: int,
    side: u32,
    gutter: u32,
    x: u32,
    y: u32,
    under: (u8, u8, u8, u8),
) -> (u8, u8, u8, u8) {
    if y < side && in_box(x as int, side as int, gutter as int, count) {
        colors[x as int / (side as int + gutter as int)].rgba@
    } else {
        under
    }
}

/// The pixel at `(x, y)` after the first `count` colors of `colors` were painted
/// as boxes over `before`.
pub open spec fn painted_px(
    before: Canvas,
    colors: Seq<ColorCount>,
    count: int,
    side: u32,
    gutter: u32,
    x: u32,
    y: u32,
) -> (u8, u8, u8, u8) {
    strip_px(colors, count, side, gutter, x, y, px(before, x, y))
}

/// `after` is `before` with `colors` painted as boxes on it.
pub open spec fn is_paint_of(after: Canvas, before: Canvas, colors: Seq<ColorCount>, side: u32, gutter: u32) -> bool {
    &&& canvas_dims(after) == canvas_dims(before)
    &&& forall|x: u32, y: u32|
        x < canvas_dims(before).0 && y < canvas_dims(before).1 ==> #[trigger] px(after, x, y) == painted_px(
            before,
            colors,
            colors.len() as int,
            side,
            gutter,
            x,
            y,
        )
}

/// Painting is idempotent and repeatable: painting the same colors over a painted
/// canvas changes nothing, and two paintings of one canvas are alike.
pub proof fn lemma_paint_idempotent(
    c0: Canvas,
    c1: Canvas,
    c2: Canvas,
    c3: Canvas,
    colors: Seq<ColorCount>,
    side: u32,
    gutter: u32,
)
    requires
        is_paint_of(c1, c0, colors, side, gutter),
        is_paint_of(c2, c1, colors, side, gutter),
        is_paint_of(c3, c0, colors, side, gutter),
    ensures
        canvas_dims(c2) == canvas_dims(c1),
        canvas_dims(c3) == canvas_dims(c1),
        forall|x: u32, y: u32|
            x < canvas_dims(c1).0 && y < canvas_dims(c1).1 ==> #[trigger] px(c2, x, y) == px(c1, x, y) && px(c3, x, y) == px(c1, x, y),
{
}

/// Paints the columns `x0` up to `x1` of the rows `0` up to `y1` with `c`.
pub(crate) fn fill_rect(canvas: &mut Canvas, x0: u32, x1: u32, y1: u32, c: Color)
    requires
        x0 <= x1 <= canvas_dims(*old(canvas)).0,
        y1 <= canvas_dims(*old(canvas)).1,
    ensures
        canvas_dims(*final(canvas)) == canvas_dims(*old(canvas)),
        forall|x: u32, y: u32|
            x < canvas_dims(*old(canvas)).0 && y < canvas_dims(*old(canvas)).1 ==> #[trigger] px(
                *final(canvas),
                x,
                y,
            ) == if x0 <= x < x1 && y < y1 {
                c@
            } else {
                px(*old(canvas), x, y)
            },
{
    let ghost start = *canvas;
    let ghost (w, h) = canvas_dims(start);
    let mut x: u32 = x0;
    while x < x1
        invariant
            x0 <= x <= x1 <= w,
            y1 <= h,
            canvas_dims(*canvas) == (w, h),
            forall|i: u32, j: u32|
                i < w && j < h ==> #[trigger] px(*canvas, i, j) == if x0 <= i < x && j < y1 {
                    c@
                } else {
                    px(start, i, j)
                },
        decreases x1 - x,
    {
        let mut y: u32 = 0;
        while y < y1
            invariant
                x0 <= x < x1 <= w,
                y <= y1 <= h,
                canvas_dims(*canvas) == (w, h),
                forall|i: u32, j: u32|
                    i < w && j < h ==> #[trigger] px(*canvas, i, j) == if (x0 <= i < x && j < y1) || (i
                        == x && j < y) {
                        c@
                    } else {
                        px(start, i, j)
                    },
            decreases y1 - y,
        {
            canvas.put_pixel(x, y, c);
            y = y + 1;
        }
        x = x + 1;
    }
}

/// A blank canvas of the given size with `colors` painted on it as boxes.
pub(crate) fn painted_strip(width: u32, height: u32, colors: &Vec<ColorCount>, side: u32, gutter: u32) -> (r: Canvas)
    requires
        fits_in_memory(width, height),
    ensures
        canvas_dims(r) == (width, height),
        forall|x: u32, y: u32|
            x < width && y < height ==> #[trigger] px(r, x, y) == strip_px(
                colors@,
                colors@.len() as int,
                side,
                gutter,
                x,
                y,
                (0u8, 0u8, 0u8, 0u8),
            ),
{
    let mut c = Canvas::blank(width, height);
    paint_strip(&mut c, colors, side, gutter);
    c
}

/// Paints `colors` left to right as square boxes of `side` pixels from the top
/// row, `gutter` pixels apart; a box that reaches past the right edge is cut off
/// there, and the boxes after it are left out.
pub(crate) fn paint_strip(canvas: &mut Canvas, colors: &Vec<ColorCount>, side: u32, gutter: u32)
    ensures
        is_paint_of(*final(canvas), *old(canvas), colors@, side, gutter),
{
    let ghost before = *canvas;
    let (w, h) = canvas.dimensions();
    let stride: u64 = side as u64 + gutter as u64;
    let rows: u32 = if side <= h {
        side
    } else {
        h
    };
    let mut start: u64 = 0;
    let mut i: usize = 0;
    while i < colors.len() && start < w as u64 && side > 0
        invariant
            i <= colors.len(),
            rows == if side <= h { side } else { h },
            stride == side + gutter,
            start == i * stride,
            canvas_dims(*canvas) == (w, h),
            canvas_dims(before) == (w, h),
            forall|x: u32, y: u32|
                x < w && y < h ==> #[trigger] px(*canvas, x, y) == painted_px(before, colors@, i as int, side, gutter, x, y),
        decreases colors.len() - i,
    {
        let end: u64 = if start + (side as u64) < w as u64 {
            start + side as u64
        } else {
            w as u64
        };
        let ghost mid = *canvas;
        fill_rect(canvas, start as u32, end as u32, rows, colors[i].rgba);
        proof {
            assert forall|x: u32, y: u32| x < w && y < h implies #[trigger] px(*canvas, x, y) == painted_px(
                before,
                colors@,
                i + 1,
                side,
                gutter,
                x,
                y,
            ) by {
                let d = stride as int;
                let q = x as int / d;
                let r = x as int % d;
                lemma_fundamental_div_mod(x as int, d);
                assert(0 <= r < d) by {
                    vstd::arithmetic::div_mod::lemma_mod_bound(x as int, d);
                }
                assert(d * q == q * d) by (nonlinear_arith);
                if start <= x < end && y < side {
                    lemma_fundamental_div_mod_converse(x as int, d, i as int, x - start);
                    assert(q == i);
                } else if y < side && q == i && r < side {
                    assert(x == start + r);
                    assert(false);
                }
            }
        }
        proof {
            assert((i + 1) * stride == i * stride + stride) by (nonlinear_arith);
        }
        start = start + stride;
        i = i + 1;
    }
    proof {
        assert forall|x: u32, y: u32| x < w && y < h implies #[trigger] px(*canvas, x, y) == painted_px(
            before,
            colors@,
            colors@.len() as int,
            side,
            gutter,
            x,
            y,
        ) by {
            if side > 0 && i < colors.len() {
                let d = stride as int;
                lemma_fundamental_div_mod(x as int, d);
                assert(x as int / d < i) by (nonlinear_arith)
                    requires
                        x < start,
                        start == i * d,
                        x == d * (x as int / d) + x as int % d,
                        0 <= x as int % d,
                        d > 0,
                ;
            }
        }
    }
}

/// A new canvas holding `c` turned a quarter: the pixel at `(x, y)` goes to `(y, x)`.
pub(crate) fn transpose(c: &Canvas) -> (r: Canvas)
    requires
        fits_in_memory(canvas_dims(*c).0, canvas_dims(*c).1),
    ensures
        canvas_dims(r) == (canvas_dims(*c).1, canvas_dims(*c).0),
        forall|x: u32, y: u32|
            x < canvas_dims(*c).1 && y < canvas_dims(*c).0 ==> #[trigger] px(r, x, y) == px(*c, y, x),
{
    let (w, h) = c.dimensions();
    proof {
        assert(4 * (h as int) * (w as int) == 4 * (w as int) * (h as int)) by (nonlinear_arith);
    }
    let mut t = Canvas::blank(h, w);
    let mut y: u32 = 0;
    while y < h
        invariant
            y <= h,
            (w, h) == canvas_dims(*c),
            canvas_dims(t) == (h, w),
            forall|i: u32, j: u32|
                i < h && j < w ==> #[trigger] px(t, i, j) == if i < y {
                    px(*c, j, i)
                } else {
                    (0u8, 0u8, 0u8, 0u8)
                },
        decreases h - y,
    {
        let mut x: u32 = 0;
        while x < w
            invariant
                y < h,
                x <= w,
                (w, h) == canvas_dims(*c),
                canvas_dims(t) == (h, w),
                forall|i: u32, j: u32|
                    i < h && j < w ==> #[trigger] px(t, i, j) == if i < y || (i == y && j < x) {
                        px(*c, j, i)
                    } else {
                        (0u8, 0u8, 0u8, 0u8)
                    },
            decreases w - x,
        {
            let p = c.pixel(x, y);
            t.put_pixel(y, x, p);
            x = x + 1;
        }
        y = y + 1;
    }
    t
}

/// Copies every pixel of `img` onto `canvas`, its top-left corner at `(dx, dy)`;
/// an image without pixels changes nothing, wherever it would go.
pub(crate) fn copy_source(canvas: &mut Canvas, img: &DynamicImage, dx: u32, dy: u32)
    requires
        no_pixels(*img) || (dx + source_dims(*img).0 <= canvas_dims(*old(canvas)).0 && dy + source_dims(*img).1
            <= canvas_dims(*old(canvas)).1),
    ensures
        canvas_dims(*final(canvas)) == canvas_dims(*old(canvas)),
        forall|x: u32, y: u32|
            x < canvas_dims(*old(canvas)).0 && y < canvas_dims(*old(canvas)).1 ==> #[trigger] px(
                *final(canvas),
                x,
                y,
            ) == if dx <= x < dx + source_dims(*img).0 && dy <= y < dy + source_dims(*img).1 {
                spx(*img, (x - dx) as u32, (y - dy) as u32)
            } else {
                px(*old(canvas), x, y)
            },
{
    let ghost start = *canvas;
    let ghost (cw, ch) = canvas_dims(start);
    let (sw, sh) = source_dimensions(img);
    if sw == 0 || sh == 0 {
        return;
    }
    let mut y: u32 = 0;
    while y < sh
        invariant
            y <= sh,
            (sw, sh) == source_dims(*img),
            dx + sw <= cw,
            dy + sh <= ch,
            canvas_dims(*canvas) == (cw, ch),
            forall|i: u32, j: u32|
                i < cw && j < ch ==> #[trigger] px(*canvas, i, j) == if dx <= i < dx + sw && dy <= j < dy + y {
                    spx(*img, (i - dx) as u32, (j - dy) as u32)
                } else {
                    px(start, i, j)
                },
        decreases sh - y,
    {
        let mut x: u32 = 0;
        while x < sw
            invariant
                y < sh,
                x <= sw,
                (sw, sh) == source_dims(*img),
                dx + sw <= cw,
                dy + sh <= ch,
                canvas_dims(*canvas) == (cw, ch),
                forall|i: u32, j: u32|
                    i < cw && j < ch ==> #[trigger] px(*canvas, i, j) == if (dx <= i < dx + sw && dy <= j
                        < dy + y) || (dx <= i < dx + x && j == dy + y) {
                        spx(*img, (i - dx) as u32, (j - dy) as u32)
                    } else {
                        px(start, i, j)
                    },
            decreases sw - x,
        {
            let p = source_pixel(img, x, y);
            canvas.put_pixel(dx + x, dy + y, p);
            x = x + 1;
        }
        y = y + 1;
    }
}

} // verus!
