use vstd::prelude::*;
use image::DynamicImage;
use crate::colors::{Color, ColorCount, hex_of, key_of};
use crate::histogram::{
    ColorHistogram, tally, merge, total, lemma_tally_total, lemma_tally_split, lemma_tally_permutation,
};
use crate::selection::{
    Sample, samples_of, select, select_top, lemma_select_single, rank_sort, ranked_entries, in_rank_order,
    lemma_rank_order_unique,
};
use crate::raster::{source_dims, source_pixels, source_dimensions, source_pixel};

verus! {

pub open spec fn as_color(p: (u8, u8, u8, u8)) -> Color {
    Color { r: p.0, g: p.1, b: p.2, a: p.3 }
}

/// The first `n` pixels of row `y`, left to right.
pub open spec fn row_prefix(img: DynamicImage, y: u32, n: int) -> Seq<Color> {
    Seq::new(n as nat, |x: int| as_color(source_pixels(img)[(x as u32, y)]))
}

/// The pixels of rows `from` up to `to` (excluded), row after row.
pub open spec fn band(img: DynamicImage, from: int, to: int) -> Seq<Color>
    decreases to - from,
{
    if to <= from {
        seq![]
    } else {
        band(img, from, to - 1) + row_prefix(img, (to - 1) as u32, source_dims(img).0 as int)
    }
}

/// All the pixels of an image, row after row.
pub open spec fn image_pixels(img: DynamicImage) -> Seq<Color> {
    band(img, 0, source_dims(img).1 as int)
}

pub open spec fn pixel_count(img: DynamicImage) -> int {
    source_dims(img).0 as int * source_dims(img).1 as int
}

proof fn lemma_band_len(img: DynamicImage, from: int, to: int)
    requires
        from <= to,
    ensures
        band(img, from, to).len() == (to - from) * source_dims(img).0,
    decreases to - from,
{
    if to > from {
        lemma_band_len(img, from, to - 1);
        let w = source_dims(img).0 as int;
        assert((to - 1 - from) * w + w == (to - from) * w) by (nonlinear_arith);
    } else {
        let w = source_dims(img).0 as int;
        assert((to - from) * w == 0) by (nonlinear_arith)
            requires
                to == from,
        ;
    }
}

/// Bands that meet make one band.
pub proof fn lemma_band_split(img: DynamicImage, from: int, mid: int, to: int)
    requires
        from <= mid <= to,
    ensures
        band(img, from, to) == band(img, from, mid) + band(img, mid, to),
    decreases to - mid,
{
    if to > mid {
        lemma_band_split(img, from, mid, to - 1);
        assert(band(img, from, to) =~= band(img, from, mid) + band(img, mid, to));
    } else {
        assert(band(img, from, mid) + band(img, mid, to) =~= band(img, from, mid));
    }
}

/// Counts the colors of rows `from` up to `to` (excluded) of `img`.
pub fn count_band(img: &DynamicImage, from: u32, to: u32) -> (h: ColorHistogram)
    requires
        from <= to <= source_dims(*img).1,
        pixel_count(*img) <= u32::MAX,
    ensures
        h.wf(),
        h@ == tally(band(*img, from as int, to as int)),
{
    let (w, ht) = source_dimensions(img);
    let mut hist = ColorHistogram::new();
    proof {
        assert(band(*img, from as int, from as int) =~= Seq::<Color>::empty());
        assert(tally(Seq::<Color>::empty()) =~= Map::<u32, (Color, nat)>::empty());
    }
    let mut y: u32 = from;
    while y < to
        invariant
            from <= y <= to <= ht,
            (w, ht) == source_dims(*img),
            w as int * ht as int <= u32::MAX,
            hist.wf(),
            hist@ == tally(band(*img, from as int, y as int)),
        decreases to - y,
    {
        let ghost done = band(*img, from as int, y as int);
        let mut x: u32 = 0;
        while x < w
            invariant
                from <= y < to <= ht,
                (w, ht) == source_dims(*img),
                w as int * ht as int <= u32::MAX,
                x <= w,
                done == band(*img, from as int, y as int),
                hist.wf(),
                hist@ == tally(done + row_prefix(*img, y, x as int)),
            decreases w - x,
        {
            let c = source_pixel(img, x, y);
            let ghost s = done + row_prefix(*img, y, x as int);
            proof {
                lemma_tally_total(s);
                lemma_band_len(*img, from as int, y as int);
                assert(s.len() == (y - from) * w + x);
                assert((y - from) * w + x < w * ht) by (nonlinear_arith)
                    requires
                        x < w,
                        from <= y < ht,
                ;
            }
            hist.ingest(c);
            proof {
                let s2 = done + row_prefix(*img, y, x + 1);
                assert(s2.drop_last() =~= s);
                assert(s2.last() == as_color(source_pixels(*img)[(x, y)]));
                assert(c == as_color(source_pixels(*img)[(x, y)]));
            }
            x = x + 1;
        }
        proof {
            assert(done + row_prefix(*img, y, w as int) =~= band(*img, from as int, y + 1));
        }
        y = y + 1;
    }
    hist
}

/// Counts the colors of an image, keyed by their RGB channels. The counts add
/// up to the number of pixels.
pub fn get_colors_from(img: &DynamicImage) -> (h: ColorHistogram)
    requires
        pixel_count(*img) <= u32::MAX,
    ensures
        h.wf(),
        h@ == tally(image_pixels(*img)),
        total(h@) == pixel_count(*img),
{
    let (w, ht) = source_dimensions(img);
    let h = count_band(img, 0, ht);
    proof {
        lemma_tally_total(image_pixels(*img));
        lemma_band_len(*img, 0, ht as int);
        assert((ht - 0) * w == w * ht) by (nonlinear_arith);
    }
    h
}

/// As `get_colors_from`, or `None` when the image has more pixels than a count
/// can hold.
pub fn try_get_colors_from(img: &DynamicImage) -> (r: Option<ColorHistogram>)
    ensures
        r is Some <==> pixel_count(*img) <= u32::MAX,
        r matches Some(h) ==> h.wf() && h@ == tally(image_pixels(*img)) && total(h@) == pixel_count(*img),
{
    let (w, h) = source_dimensions(img);
    proof {
        assert(w as int * h as int <= u32::MAX as int * u32::MAX as int) by (nonlinear_arith)
            requires
                w <= u32::MAX,
                h <= u32::MAX,
        ;
    }
    if w as u64 * h as u64 <= u32::MAX as u64 {
        Some(get_colors_from(img))
    } else {
        None
    }
}

/// Counting an image in two bands of rows and merging the counts gives the
/// counts of the whole image.
pub proof fn lemma_bands_merge(img: DynamicImage, mid: int)
    requires
        0 <= mid <= source_dims(img).1,
    ensures
        merge(tally(band(img, 0, mid)), tally(band(img, mid, source_dims(img).1 as int)))
            == tally(image_pixels(img)),
{
    lemma_band_split(img, 0, mid, source_dims(img).1 as int);
    lemma_tally_split(band(img, 0, mid), band(img, mid, source_dims(img).1 as int));
}

/// The distance under which two colors count as shades of one another.
pub const DEFAULT_DISTANCE_THRESHOLD: i32 = 250;

/// The `n` most frequent colors of a histogram that are mutually at least
/// `threshold` apart: the colors are offered most frequent first, and one too
/// close to a color already kept is skipped. The result is ranked by count, ties
/// by key.
pub fn get_most_freq_within(hist: &ColorHistogram, n: usize, threshold: i32) -> (r: Vec<ColorCount>)
    requires
        hist.wf(),
    ensures
        forall|i: int| 0 <= i < r.len() ==> (#[trigger] r[i]).wf(),
        in_rank_order(ranked_entries(hist@), hist@),
        samples_of(r@) == select(ranked_entries(hist@), n as nat, threshold as int),
{
    let samples = hist.finalize();
    let ranked = rank_sort(&samples, Ghost(hist@));
    select_top(&ranked, n, threshold)
}

/// The `n` most frequent colors of a histogram, with the default distance threshold.
pub fn get_most_freq(hist: &ColorHistogram, n: usize) -> (r: Vec<ColorCount>)
    requires
        hist.wf(),
    ensures
        forall|i: int| 0 <= i < r.len() ==> (#[trigger] r[i]).wf(),
        in_rank_order(ranked_entries(hist@), hist@),
        samples_of(r@) == select(ranked_entries(hist@), n as nat, DEFAULT_DISTANCE_THRESHOLD as int),
{
    get_most_freq_within(hist, n, DEFAULT_DISTANCE_THRESHOLD)
}

/// The colors picked from pixels counted in one pass are those picked from the
/// same pixels counted in two parts and merged.
pub proof fn lemma_selection_deterministic(front: Seq<Color>, back: Seq<Color>, n: nat, t: int)
    ensures
        select(ranked_entries(tally(front + back)), n, t) == select(
            ranked_entries(merge(tally(front), tally(back))),
            n,
            t,
        ),
{
    lemma_tally_split(front, back);
}

/// The colors picked do not depend on the order in which the pixels were counted.
pub proof fn lemma_selection_order_free(s1: Seq<Color>, s2: Seq<Color>, n: nat, t: int)
    requires
        s1.to_multiset() == s2.to_multiset(),
    ensures
        tally(s1) == tally(s2),
        select(ranked_entries(tally(s1)), n, t) == select(ranked_entries(tally(s2)), n, t),
{
    lemma_tally_permutation(s1, s2);
}

/// The pixels of `s` share one red, green and blue; their alphas may differ.
pub open spec fn one_rgb(s: Seq<Color>) -> bool {
    forall|i: int|
        0 <= i < s.len() ==> (#[trigger] s[i]).r == s[0].r && s[i].g == s[0].g && s[i].b == s[0].b
}

proof fn lemma_tally_one_rgb(s: Seq<Color>)
    requires
        s.len() > 0,
        one_rgb(s),
    ensures
        tally(s).dom() == set![key_of(s[0])],
        tally(s)[key_of(s[0])].1 == s.len(),
        tally(s)[key_of(s[0])].0.r == s[0].r,
        tally(s)[key_of(s[0])].0.g == s[0].g,
        tally(s)[key_of(s[0])].0.b == s[0].b,
    decreases s.len(),
{
    let k = key_of(s[0]);
    if s.len() == 1 {
        assert(s.drop_last() =~= Seq::<Color>::empty());
        assert(tally(s.drop_last()) =~= Map::<u32, (Color, nat)>::empty());
        assert(s.last() == s[0]);
        assert(tally(s).dom() =~= set![k]);
    } else {
        let d = s.drop_last();
        assert(d[0] == s[0]);
        assert forall|i: int| 0 <= i < d.len() implies (#[trigger] d[i]).r == d[0].r && d[i].g == d[0].g
            && d[i].b == d[0].b by {
            assert(d[i] == s[i]);
        }
        lemma_tally_one_rgb(d);
        let c = s.last();
        assert(c == s[s.len() - 1]);
        assert(key_of(c) == k);
        assert(tally(s).dom() =~= set![k]);
    }
}

/// Pixels of one single color, whatever their alphas, give a histogram of one
/// entry, which counts them all and has their red, green and blue (so their hex
/// code), and a selection of that one entry whatever number of colors is asked for.
pub proof fn lemma_one_color(s: Seq<Color>, n: nat, t: int)
    requires
        s.len() > 0,
        one_rgb(s),
        n >= 1,
    ensures
        tally(s).dom().len() == 1,
        tally(s)[key_of(s[0])].1 == s.len(),
        hex_of(tally(s)[key_of(s[0])].0) == hex_of(s[0]),
        select(ranked_entries(tally(s)), n, t) == seq![tally(s)[key_of(s[0])]],
{
    lemma_tally_one_rgb(s);
    let m = tally(s);
    let k = key_of(s[0]);
    let e = m[k];
    lemma_tally_total(s);
    assert(key_of(e.0) == k);
    let only: Seq<Sample> = seq![e];
    assert(in_rank_order(only, m)) by {
        assert forall|j: u32| #[trigger] m.contains_key(j) implies exists|i: int| 0 <= i < only.len() && key_of(only[i].0) == j by {
            assert(key_of(only[0].0) == j);
        }
    }
    lemma_rank_order_unique(only, ranked_entries(m), m);
    lemma_select_single(e, n, t);
}

/// Which edge of the framed picture the palette runs along.
#[derive(Clone, Copy, Debug, PartialEq, Eq, Structural)]
pub enum Placement {
    Top,
    Bottom,
    Left,
    Right,
}

impl Placement {
    /// The palette runs along a horizontal edge: the frame grows in height and
    /// the strip stays as painted.
    pub open spec fn horizontal(self) -> bool {
        self is Top || self is Bottom
    }

    pub fn is_horizontal(&self) -> (r: bool)
        ensures
            r == self.horizontal(),
    {
        match self {
            Placement::Top | Placement::Bottom => true,
            Placement::Left | Placement::Right => false,
        }
    }

    /// A vertical strip is painted horizontally and then turned.
    pub fn needs_rotation(&self) -> (r: bool)
        ensures
            r == !self.horizontal(),
    {
        !self.is_horizontal()
    }
}

/// The size of a box.
pub struct BoxShape {
    pub width: u32,
    pub height: u32,
}

impl BoxShape {
    pub fn new<TW, TH>(w: TW, h: TH) -> (r: BoxShape)
        where
            TW: Into<u32>,
            TH: Into<u32>,
        ensures
            call_ensures(TW::into, (w,), r.width),
            call_ensures(TH::into, (h,), r.height),
    {
        let width = w.into();
        let height = h.into();
        BoxShape { width, height }
    }
}

} // verus!
