use image::{DynamicImage, ImageBuffer, Rgba};
use paleatra::colors::{color_distance, Color, ColorCount};
use paleatra::histogram::ColorHistogram;
use paleatra::selection::select_top;
use paleatra::utils::{self, count_band, get_most_freq_within, BoxShape, Placement};

fn image_of(w: u32, h: u32, f: impl Fn(u32, u32) -> [u8; 4]) -> DynamicImage {
    DynamicImage::ImageRgba8(ImageBuffer::from_fn(w, h, |x, y| Rgba(f(x, y))))
}

#[test]
fn test_get_most_freq() {
    let mut set = ColorHistogram::new();
    let mut color;
    for i in (0..200).step_by(10) {
        color = ColorCount::new(Color::new(i, 10 + i, 20 + i, 0));
        for _ in 0..5 + i {
            color.increment_count();
        }
        set.add(&color);
    }

    let freq = utils::get_most_freq(&set, 10);
    let prev = &freq[0];
    for c in &freq[1..] {
        assert!(c.count <= prev.count, "Color counts are not sorted in descending order");
    }
}

#[test]
fn test_get_colors_from() {
    let img = image_of(100, 100, |_, _| [255, 20, 0, 0]);
    let set = utils::get_colors_from(&img);
    assert_eq!(set.len(), 1);

    let c = Color::new(255, 20, 0, 0);
    let found = set.count_of(c);
    assert_eq!(found.unwrap(), 10000);
}

#[test]
fn counts_add_up_to_pixel_count() {
    let img = image_of(7, 5, |x, y| [(x % 3) as u8, (y % 2) as u8, 0, 255]);
    let h = utils::get_colors_from(&img);
    let total: u64 = h.finalize().iter().map(|s| s.count as u64).sum();
    assert_eq!(total, 35);
    assert_eq!(h.len(), 6);
}

#[test]
fn histogram_keys_ignore_alpha_and_keep_the_most_opaque() {
    let mut h = ColorHistogram::new();
    h.ingest(Color::new(1, 2, 3, 10));
    h.ingest(Color::new(1, 2, 3, 200));
    h.ingest(Color::new(1, 2, 3, 50));
    let s = h.finalize();
    assert_eq!(s.len(), 1);
    assert_eq!(s[0].count, 3);
    assert_eq!(s[0].rgba, Color::new(1, 2, 3, 200));
    assert_eq!(s[0].hex, "x010203");
}

#[test]
fn finalize_lists_by_increasing_key() {
    let mut h = ColorHistogram::new();
    h.ingest(Color::new(0, 0, 9, 0));
    h.ingest(Color::new(5, 0, 0, 0));
    h.ingest(Color::new(0, 3, 0, 0));
    let keys: Vec<String> = h.finalize().iter().map(|s| s.hex.clone()).collect();
    assert_eq!(keys, vec!["x000009", "x000300", "x050000"]);
}

#[test]
fn merging_bands_gives_the_whole_histogram() {
    let img = image_of(6, 9, |x, y| [(x * 40) as u8, (y % 4) as u8 * 60, 7, 255]);
    let whole = utils::get_colors_from(&img);
    let mut top = count_band(&img, 0, 4);
    let bottom = count_band(&img, 4, 9);
    top.merge(&bottom);
    let a = whole.finalize();
    let b = top.finalize();
    assert_eq!(a.len(), b.len());
    for (x, y) in a.iter().zip(b.iter()) {
        assert_eq!((x.rgba, x.count), (y.rgba, y.count));
    }
    let pa: Vec<String> = utils::get_most_freq(&whole, 4).iter().map(|s| s.hex.clone()).collect();
    let pb: Vec<String> = utils::get_most_freq(&top, 4).iter().map(|s| s.hex.clone()).collect();
    assert_eq!(pa, pb);
}

#[test]
fn selection_is_ranked_spread_and_bounded() {
    let mut h = ColorHistogram::new();
    // two shades of red close together, a blue and a green
    for (c, n) in [((250, 0, 0), 50u32), ((245, 0, 0), 40), ((0, 0, 250), 30), ((0, 250, 0), 30)] {
        h.add(&ColorCount::with_count(Color::new(c.0, c.1, c.2, 255), n));
    }
    let top = get_most_freq_within(&h, 10, 250);
    let hex: Vec<&str> = top.iter().map(|s| s.hex.as_str()).collect();
    // the darker red is a near-duplicate shade of the more frequent brighter red
    assert_eq!(hex, vec!["xFA0000", "x0000FA", "x00FA00"]);
    for i in 0..top.len() {
        for j in 0..top.len() {
            if i != j {
                assert!(color_distance(top[i].rgba, top[j].rgba) >= 250);
            }
        }
    }
    let two = get_most_freq_within(&h, 2, 250);
    assert_eq!(two.len(), 2);
    assert_eq!(two[0].count, 50);
    assert_eq!(two[1].hex, "x0000FA");
}

#[test]
fn selection_of_zero_is_empty() {
    let mut h = ColorHistogram::new();
    h.ingest(Color::new(1, 1, 1, 1));
    assert!(utils::get_most_freq(&h, 0).is_empty());
}

#[test]
fn one_color_image_gives_one_color() {
    let img = image_of(4, 3, |_, _| [9, 9, 9, 255]);
    let h = utils::get_colors_from(&img);
    assert_eq!(h.len(), 1);
    let top = utils::get_most_freq(&h, 5);
    assert_eq!(top.len(), 1);
    assert_eq!(top[0].count, 12);
}

#[test]
fn select_top_follows_given_order() {
    let cands = vec![
        ColorCount::with_count(Color::new(0, 0, 0, 0), 1),
        ColorCount::with_count(Color::new(100, 0, 0, 0), 5),
        ColorCount::with_count(Color::new(0, 100, 0, 0), 5),
    ];
    let top = select_top(&cands, 2, 0);
    let hex: Vec<&str> = top.iter().map(|s| s.hex.as_str()).collect();
    // equal counts rank by smaller key first
    assert_eq!(hex, vec!["x006400", "x640000"]);
}

#[test]
fn merge_sums_counts() {
    let mut a = ColorHistogram::new();
    a.ingest(Color::new(1, 1, 1, 1));
    let mut b = ColorHistogram::new();
    b.ingest(Color::new(1, 1, 1, 7));
    b.ingest(Color::new(1, 1, 1, 0));
    b.ingest(Color::new(2, 2, 2, 0));
    a.merge(&b);
    assert_eq!(a.count_of(Color::new(1, 1, 1, 0)), Some(3));
    assert_eq!(a.count_of(Color::new(2, 2, 2, 0)), Some(1));
    assert_eq!(a.count_of(Color::new(3, 2, 2, 0)), None);
    assert_eq!(a.finalize()[0].rgba.a, 7);
}

#[test]
fn placement_axes() {
    assert!(Placement::Top.is_horizontal());
    assert!(Placement::Bottom.is_horizontal());
    assert!(Placement::Left.needs_rotation());
    assert!(!Placement::Right.is_horizontal());
}

#[test]
fn box_shape_converts_sizes() {
    let b = BoxShape::new(3u8, 400u16);
    assert_eq!((b.width, b.height), (3, 400));
}

#[test]
fn checked_count_matches_plain_count() {
    let img = image_of(3, 3, |x, _| [x as u8, 0, 0, 255]);
    let h = utils::try_get_colors_from(&img).unwrap();
    assert_eq!(h.len(), 3);
    assert_eq!(h.count_of(Color::new(2, 0, 0, 255)), Some(3));
}

#[test]
fn one_color_with_varying_alpha_is_one_entry() {
    let img = image_of(5, 2, |x, _| [3, 4, 5, x as u8 * 10]);
    let h = utils::get_colors_from(&img);
    let s = h.finalize();
    assert_eq!(s.len(), 1);
    assert_eq!(s[0].count, 10);
    assert_eq!(s[0].hex, "x030405");
    assert_eq!(utils::get_most_freq(&h, 3).len(), 1);
}

#[test]
fn pixel_order_does_not_change_counts() {
    let a = image_of(4, 3, |x, y| [(x + y) as u8 % 3, 0, 0, 255]);
    // the same picture turned half a turn: the same pixels in another order
    let b = image_of(4, 3, |x, y| [((3 - x) + (2 - y)) as u8 % 3, 0, 0, 255]);
    let ha = utils::get_colors_from(&a);
    let hb = utils::get_colors_from(&b);
    let fa: Vec<(String, u32)> = ha.finalize().iter().map(|s| (s.hex.clone(), s.count)).collect();
    let fb: Vec<(String, u32)> = hb.finalize().iter().map(|s| (s.hex.clone(), s.count)).collect();
    assert_eq!(fa, fb);
}
