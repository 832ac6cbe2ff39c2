use vstd::prelude::*;

verus! {

/// One RGBA pixel value.
#[derive(Clone, Copy, Debug, PartialEq, Eq, Structural)]
pub struct Color {
    pub r: u8,
    pub g: u8,
    pub b: u8,
    pub a: u8,
}

impl View for Color {
    type V = (u8, u8, u8, u8);

    open spec fn view(&self) -> (u8, u8, u8, u8) {
        (self.r, self.g, self.b, self.a)
    }
}

impl Color {
    pub fn new(r: u8, g: u8, b: u8, a: u8) -> (c: Color)
        ensures
            c == (Color { r, g, b, a }),
    {
        Color { r, g, b, a }
    }
}

/// The identity of a color: its red, green and blue channels; alpha is left out.
pub open spec fn key_of(c: Color) -> u32 {
    ((c.r as int) * 65536 + (c.g as int) * 256 + (c.b as int)) as u32
}

pub open spec fn hex_digits() -> Seq<char> {
    seq!['0', '1', '2', '3', '4', '5', '6', '7', '8', '9', 'A', 'B', 'C', 'D', 'E', 'F']
}

/// Two upper-case hexadecimal digits of a channel.
pub open spec fn hex_byte(v: u8) -> Seq<char> {
    seq![hex_digits()[v as int / 16], hex_digits()[v as int % 16]]
}

/// The hex code of a color: `x` followed by the red, green and blue channels.
pub open spec fn hex_of(c: Color) -> Seq<char> {
    seq!['x'] + hex_byte(c.r) + hex_byte(c.g) + hex_byte(c.b)
}

pub open spec fn sq(x: int) -> int {
    x * x
}

/// How far apart two colors look: a third of the summed squared RGB deltas plus
/// half the squared square of the alpha delta. Not a metric, an approximation.
pub open spec fn distance(p: Color, q: Color) -> int {
    (sq(p.r - q.r) + sq(p.g - q.g) + sq(p.b - q.b)) / 3 + sq(sq(p.a - q.a)) / 2
}

/// A color seen in an image, with the number of times it was seen.
#[derive(Debug)]
pub struct ColorCount {
    pub rgba: Color,
    pub hex: String,
    pub count: u32,
}

impl ColorCount {
    /// The hex code is derived from the color.
    pub open spec fn wf(&self) -> bool {
        self.hex@ == hex_of(self.rgba)
    }

    /// A sample of `rgba` seen once.
    pub fn new(rgba: Color) -> (r: ColorCount)
        ensures
            r.wf(),
            r.rgba == rgba,
            r.count == 1,
    {
        ColorCount { rgba, hex: ColorCount::generate_hex(&rgba), count: 1 }
    }

    /// A sample of `rgba` seen `count` times.
    pub fn with_count(rgba: Color, count: u32) -> (r: ColorCount)
        ensures
            r.wf(),
            r.rgba == rgba,
            r.count == count,
    {
        ColorCount { rgba, hex: ColorCount::generate_hex(&rgba), count }
    }

    /// The upper-case hex code of the color's RGB channels, after an `x`: `x2F3FB6`.
    pub fn generate_hex(color: &Color) -> (r: String)
        ensures
            r@ == hex_of(*color),
    {
        let mut hexcode = String::from_str("x");
        push_hex_byte(&mut hexcode, color.r);
        push_hex_byte(&mut hexcode, color.g);
        push_hex_byte(&mut hexcode, color.b);
        proof {
            reveal_strlit("x");
        }
        hexcode
    }

    /// Counts one more sighting.
    pub fn increment_count(&mut self)
        requires
            old(self).count < u32::MAX,
        ensures
            final(self).count == old(self).count + 1,
            final(self).rgba == old(self).rgba,
            final(self).hex@ == old(self).hex@,
    {
        self.count = self.count + 1;
    }

    /// The `distance` from this color to `other`: small for shades of one color,
    /// large for colors that look different.
    pub fn measure_distance(&self, other: &ColorCount) -> (d: i32)
        ensures
            d == distance(self.rgba, other.rgba),
    {
        color_distance(self.rgba, other.rgba)
    }

    /// A copy of this sample.
    pub fn duplicate(&self) -> (r: ColorCount)
        ensures
            r.rgba == self.rgba,
            r.count == self.count,
            r.hex@ == self.hex@,
    {
        ColorCount { rgba: self.rgba, hex: self.hex.clone(), count: self.count }
    }
}

fn push_hex_byte(s: &mut String, v: u8)
    ensures
        final(s)@ == old(s)@ + hex_byte(v),
{
    let digits = "0123456789ABCDEF";
    proof {
        reveal_strlit("0123456789ABCDEF");
    }
    let hi = (v / 16) as usize;
    let lo = (v % 16) as usize;
    s.append(digits.substring_char(hi, hi + 1));
    s.append(digits.substring_char(lo, lo + 1));
    assert(final(s)@ =~= old(s)@ + hex_byte(v));
}

/// The square of the difference of two channels.
fn channel_sq(x: u8, y: u8) -> (r: u64)
    ensures
        r == sq(x - y),
        r <= 65025,
{
    let d: u64 = if x >= y {
        (x - y) as u64
    } else {
        (y - x) as u64
    };
    assert(d * d == sq(x - y) && d * d <= 65025) by (nonlinear_arith)
        requires
            d == x - y || d == y - x,
            d <= 255,
    ;
    d * d
}

/// The `distance` between two colors; it always fits in an `i32`.
pub fn color_distance(p: Color, q: Color) -> (d: i32)
    ensures
        d == distance(p, q),
{
    let dr = channel_sq(p.r, q.r);
    let dg = channel_sq(p.g, q.g);
    let db = channel_sq(p.b, q.b);
    let da = channel_sq(p.a, q.a);
    assert(da * da <= 65025 * 65025) by (nonlinear_arith)
        requires
            da <= 65025,
    ;
    let rgb = (dr + dg + db) / 3;
    let alpha = (da * da) / 2;
    (rgb + alpha) as i32
}

} // verus!
