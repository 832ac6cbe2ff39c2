use vstd::prelude::*;
use image::DynamicImage;
use crate::raster::{source_dims, source_pixels};

verus! {

/// Relies on DynamicImage::grayscale: an image of the same size whose pixels are
/// shades of gray without alpha, so each reads back with equal red, green and
/// blue and an opaque alpha.
#[verifier::external_body]
fn to_grayscale(img: &DynamicImage) -> (r: DynamicImage)
    ensures
        source_dims(r) == source_dims(*img),
        forall|x: u32, y: u32|
            x < source_dims(*img).0 && y < source_dims(*img).1 ==> (#[trigger] source_pixels(r)[(x, y)]).0
                == source_pixels(r)[(x, y)].1 && source_pixels(r)[(x, y)].1 == source_pixels(r)[(x, y)].2
                && source_pixels(r)[(x, y)].3 == 255,
{
    img.grayscale()
}

/// The image stores 8-bit pixels in blue, green, red, alpha order (the
/// `ImageBgra8` variant), the one format whose inversion crosses red and blue.
pub uninterp spec fn stores_bgra(img: DynamicImage) -> bool;

/// The pixel `p` inverted: each color channel becomes 255 minus itself and alpha
/// stays, except that for `crossed` the red and blue results trade places.
pub open spec fn inverted_px(p: (u8, u8, u8, u8), crossed: bool) -> (u8, u8, u8, u8) {
    if crossed {
        ((255 - p.2) as u8, (255 - p.1) as u8, (255 - p.0) as u8, p.3)
    } else {
        ((255 - p.0) as u8, (255 - p.1) as u8, (255 - p.2) as u8, p.3)
    }
}

/// `r` is `img` inverted: the same size and format, each pixel inverted.
pub open spec fn is_inversion_of(r: DynamicImage, img: DynamicImage) -> bool {
    &&& source_dims(r) == source_dims(img)
    &&& stores_bgra(r) == stores_bgra(img)
    &&& forall|x: u32, y: u32|
        x < source_dims(img).0 && y < source_dims(img).1 ==> #[trigger] source_pixels(r)[(x, y)] == inverted_px(
            source_pixels(img)[(x, y)],
            stores_bgra(img),
        )
}

/// Relies on DynamicImage::invert, applied to a copy. Each channel but alpha
/// becomes its largest value minus itself, in place, so the size and the format
/// stay. Read back as 8-bit RGBA (16-bit channels by their high byte) that is 255
/// minus each color channel with alpha kept, for every format but `ImageBgra8`:
/// there `Invert for Bgra` puts the inverted red in the blue slot and the
/// inverted blue in the red slot, so red and blue come back crossed.
#[verifier::external_body]
fn to_inverted(img: &DynamicImage) -> (r: DynamicImage)
    ensures
        source_dims(r) == source_dims(*img),
        stores_bgra(r) == stores_bgra(*img),
        forall|x: u32, y: u32|
            x < source_dims(*img).0 && y < source_dims(*img).1 ==> #[trigger] source_pixels(r)[(x, y)]
                == inverted_px(source_pixels(*img)[(x, y)], stores_bgra(*img)),
{
    let mut inv_img = img.clone();
    inv_img.invert();
    inv_img
}

/// Every pixel of `r` is a gray, with equal red, green and blue, and opaque.
pub open spec fn is_gray(r: DynamicImage) -> bool {
    forall|x: u32, y: u32|
        x < source_dims(r).0 && y < source_dims(r).1 ==> (#[trigger] source_pixels(r)[(x, y)]).0
            == source_pixels(r)[(x, y)].1 && source_pixels(r)[(x, y)].1 == source_pixels(r)[(x, y)].2
            && source_pixels(r)[(x, y)].3 == 255
}

/// Color filters over whole images.
pub trait Filter {
    /// The image in shades of gray.
    fn grayscale(img: &DynamicImage) -> (r: DynamicImage)
        ensures
            source_dims(r) == source_dims(*img),
            is_gray(r),
    {
        to_grayscale(img)
    }

    /// The image with its colors inverted.
    fn invert_colors(img: &DynamicImage) -> (r: DynamicImage)
        ensures
            is_inversion_of(r, *img),
    {
        to_inverted(img)
    }
}

/// The filters as they are.
pub struct ImageFilters;

impl Filter for ImageFilters {}

/// Inverting twice gives every pixel back, and the size.
pub proof fn lemma_invert_twice(img: DynamicImage, once: DynamicImage, twice: DynamicImage)
    requires
        is_inversion_of(once, img),
        is_inversion_of(twice, once),
    ensures
        source_dims(twice) == source_dims(img),
        forall|x: u32, y: u32|
            x < source_dims(img).0 && y < source_dims(img).1 ==> #[trigger] source_pixels(twice)[(x, y)]
                == source_pixels(img)[(x, y)],
{
    assert forall|x: u32, y: u32| x < source_dims(img).0 && y < source_dims(img).1 implies #[trigger] source_pixels(
        twice,
    )[(x, y)] == source_pixels(img)[(x, y)] by {
        let p = source_pixels(img)[(x, y)];
        let q = source_pixels(once)[(x, y)];
        assert(q == inverted_px(p, stores_bgra(img)));
        assert(source_pixels(twice)[(x, y)] == inverted_px(q, stores_bgra(img)));
    }
}

} // verus!
