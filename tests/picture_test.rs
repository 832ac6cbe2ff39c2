use image::{DynamicImage, ImageBuffer, Rgba};
use paleatra::colors::{Color, ColorCount};
use paleatra::picture::{self, FramedPicture, Palette};
use paleatra::utils::Placement;
use paleatra::raster::Canvas;

fn samples(colors: &[(u8, u8, u8, u8)]) -> Vec<ColorCount> {
    colors.iter().map(|c| ColorCount::new(Color::new(c.0, c.1, c.2, c.3))).collect()
}

fn px(c: &Canvas, x: u32, y: u32) -> Color {
    c.pixel(x, y)
}

fn all_pixels(c: &Canvas) -> Vec<Color> {
    let (w, h) = c.dimensions();
    let mut v = Vec::new();
    for y in 0..h {
        for x in 0..w {
            v.push(c.pixel(x, y));
        }
    }
    v
}

#[test]
fn test_framedpic_constructor() {
    let _pic = picture::FramedPicture::new(200, 100, Some(10), Placement::Bottom);
    assert!(true);
}

#[test]
fn test_compute_palette_size() {
    let pic = picture::FramedPicture::compute_palette_size(100, 9);
    assert_eq!(pic.0, 10); // test size
    assert_eq!(pic.1, 1); // test pillar
}

#[test]
fn test_get_dimensions() {
    let pic = picture::FramedPicture::new(200, 100, Some(10), Placement::Bottom);
    let dims = pic.get_dimensions();
    assert_eq!(dims.0, 220);
    assert_eq!(dims.1, 148);
}

#[test]
fn test_create_palette() {
    let pal = picture::Palette::new(50, 10, 5);
    assert_eq!(pal.get_dimensions().0, 545);
    assert_eq!(pal.get_dimensions().1, 50);
}

#[test]
fn test_palette_rotation() {
    let mut pal = picture::Palette::new(50, 10, 5);
    pal.rotate_90degrees();
    assert_eq!(pal.get_dimensions().1, 545);
    assert_eq!(pal.get_dimensions().0, 50);
}

#[test]
fn palette_size_rounds_down() {
    assert_eq!(FramedPicture::compute_palette_size(1000, 9), (100, 13));
    assert_eq!(FramedPicture::compute_palette_size(7, 0), (7, 0));
    assert_eq!(FramedPicture::compute_palette_size(5, 10), (0, 0));
    assert_eq!(FramedPicture::compute_palette_size(u32::MAX, u32::MAX), (0, 0));
}

#[test]
fn empty_palette_has_no_width() {
    let pal = Palette::new(30, 0, 3);
    assert_eq!(pal.get_dimensions(), (0, 30));
}

#[test]
fn frame_sizes_for_each_placement() {
    // boxes along the width for top and bottom, along the height for left and right
    assert_eq!(FramedPicture::new(200, 100, Some(10), Placement::Top).get_dimensions(), (220, 148));
    assert_eq!(FramedPicture::new(200, 110, Some(10), Placement::Left).get_dimensions(), (240, 130));
    assert_eq!(FramedPicture::new(200, 110, Some(10), Placement::Right).get_dimensions(), (240, 130));
    assert_eq!(FramedPicture::new(200, 100, None, Placement::Bottom).get_dimensions(), (220, 148));
}

#[test]
fn frame_is_filled_with_background() {
    let f = FramedPicture::new(20, 10, Some(3), Placement::Bottom);
    let b = f.get_buffer();
    assert_eq!(px(b, 0, 0), Color::new(255, 252, 234, 1));
    let (w, h) = f.get_dimensions();
    assert_eq!(px(b, w - 1, h - 1), Color::new(255, 252, 234, 1));
}

#[test]
fn frame_with_custom_background() {
    let f = FramedPicture::with_background(4, 4, Some(1), Placement::Top, Color::new(1, 2, 3, 255));
    assert_eq!(px(f.get_buffer(), 5, 5), Color::new(1, 2, 3, 255));
}

#[test]
fn palette_boxes_and_gutters() {
    let mut pal = Palette::new(2, 3, 1);
    assert_eq!(pal.get_dimensions(), (8, 2));
    pal.paint_palette(&samples(&[(255, 0, 0, 255), (0, 255, 0, 255), (0, 0, 255, 255)]));
    let b = pal.get_buffer();
    let red = Color::new(255, 0, 0, 255);
    let green = Color::new(0, 255, 0, 255);
    let blue = Color::new(0, 0, 255, 255);
    let none = Color::new(0, 0, 0, 0);
    let row: Vec<Color> = (0..8).map(|x| px(b, x, 1)).collect();
    assert_eq!(row, vec![red, red, none, green, green, none, blue, blue]);
}

#[test]
fn palette_cuts_off_extra_colors() {
    let mut pal = Palette::new(2, 1, 1);
    pal.paint_palette(&samples(&[(9, 9, 9, 9), (7, 7, 7, 7)]));
    assert_eq!(pal.get_dimensions(), (2, 2));
    assert_eq!(px(pal.get_buffer(), 1, 1), Color::new(9, 9, 9, 9));
}

#[test]
fn painting_twice_gives_the_same_pixels() {
    let colors = samples(&[(1, 2, 3, 4), (5, 6, 7, 8)]);
    let mut once = Palette::new(3, 2, 1);
    once.paint_palette(&colors);
    let mut twice = Palette::new(3, 2, 1);
    twice.paint_palette(&colors);
    twice.paint_palette(&colors);
    let mut other = Palette::new(3, 2, 1);
    other.paint_palette(&colors);
    assert_eq!(all_pixels(once.get_buffer()), all_pixels(twice.get_buffer()));
    assert_eq!(all_pixels(once.get_buffer()), all_pixels(other.get_buffer()));
    assert_eq!(px(once.get_buffer(), 4, 2), Color::new(5, 6, 7, 8));
}

#[test]
fn rotation_transposes_pixels() {
    let mut pal = Palette::new(2, 2, 1);
    pal.paint_palette(&samples(&[(10, 0, 0, 255), (20, 0, 0, 255)]));
    pal.rotate_90degrees();
    let b = pal.get_buffer();
    assert_eq!(pal.get_dimensions(), (2, 5));
    assert_eq!(px(b, 1, 0), Color::new(10, 0, 0, 255));
    assert_eq!(px(b, 0, 2), Color::new(0, 0, 0, 0));
    assert_eq!(px(b, 1, 4), Color::new(20, 0, 0, 255));
}

fn solid_image(w: u32, h: u32, c: [u8; 4]) -> DynamicImage {
    DynamicImage::ImageRgba8(ImageBuffer::from_pixel(w, h, Rgba(c)))
}

#[test]
fn copy_places_picture_inside_border() {
    let img = solid_image(20, 10, [1, 2, 3, 255]);
    let mut f = FramedPicture::new(20, 10, Some(3), Placement::Bottom);
    f.copy_img_into(10, &img);
    let b = f.get_buffer();
    assert_eq!(px(b, 10, 10), Color::new(1, 2, 3, 255));
    assert_eq!(px(b, 29, 19), Color::new(1, 2, 3, 255));
    assert_eq!(px(b, 9, 10), Color::new(255, 252, 234, 1));
    assert_eq!(px(b, 10, 20), Color::new(255, 252, 234, 1));
}

#[test]
fn copy_clears_a_palette_on_the_left() {
    let img = solid_image(20, 22, [1, 2, 3, 255]);
    let mut f = FramedPicture::new(20, 22, Some(1), Placement::Left);
    // side = 22 / 2 = 11; picture starts at 11 + 10 + 10
    f.copy_img_into(10, &img);
    let b = f.get_buffer();
    assert_eq!(px(b, 31, 10), Color::new(1, 2, 3, 255));
    assert_eq!(px(b, 30, 10), Color::new(255, 252, 234, 1));
}

#[test]
fn combine_puts_palette_at_divider() {
    let mut f = FramedPicture::new(20, 10, Some(1), Placement::Bottom);
    // side = 20 / 2 = 10, gutter 1, palette 10 x 10 at (10, 30)
    f.fill_in_palette(&samples(&[(7, 7, 7, 255)]));
    f.combine_pieces();
    let b = f.get_buffer();
    assert_eq!(f.get_dimensions(), (40, 50));
    assert_eq!(px(b, 10, 30), Color::new(7, 7, 7, 255));
    assert_eq!(px(b, 19, 39), Color::new(7, 7, 7, 255));
    assert_eq!(px(b, 20, 39), Color::new(255, 252, 234, 1));
    assert_eq!(px(b, 10, 29), Color::new(255, 252, 234, 1));
}

#[test]
fn right_palette_is_turned_and_placed_past_picture() {
    let mut f = FramedPicture::new(20, 10, Some(1), Placement::Right);
    // side = 10 / 2 = 5; palette 5 x 5 turned, at (40, 10)
    f.fill_in_palette(&samples(&[(7, 7, 7, 255)]));
    assert_eq!(f.get_palette().get_dimensions(), (5, 5));
    f.combine_pieces();
    let b = f.get_buffer();
    assert_eq!(f.get_dimensions(), (55, 30));
    assert_eq!(px(b, 40, 10), Color::new(7, 7, 7, 255));
    assert_eq!(px(b, 44, 14), Color::new(7, 7, 7, 255));
    assert_eq!(px(b, 39, 10), Color::new(255, 252, 234, 1));
}

#[test]
fn zero_box_frame_has_no_overlay() {
    let mut f = FramedPicture::new(4, 4, Some(0), Placement::Bottom);
    f.fill_in_palette(&Vec::new());
    f.combine_pieces();
    assert_eq!(f.get_palette().get_dimensions(), (0, 4));
    assert_eq!(px(f.get_buffer(), 10, 24), Color::new(255, 252, 234, 1));
}

#[test]
fn pixels_follow_rows() {
    let mut pal = Palette::new(1, 2, 1);
    pal.paint_palette(&samples(&[(1, 2, 3, 4), (5, 6, 7, 8)]));
    let none = Color::new(0, 0, 0, 0);
    assert_eq!(all_pixels(pal.get_buffer()), vec![Color::new(1, 2, 3, 4), none, Color::new(5, 6, 7, 8)]);
}

#[test]
fn checked_frame_refuses_oversized_input() {
    assert!(FramedPicture::checked_new(u32::MAX, 10, Some(10), Placement::Bottom).is_none());
    assert!(FramedPicture::checked_new(10, u32::MAX - 5, Some(1), Placement::Left).is_none());
    let f = FramedPicture::checked_new(200, 100, Some(10), Placement::Bottom).unwrap();
    assert_eq!(f.get_dimensions(), (220, 148));
    assert!(paleatra::layout::frame_fits_machine(200, 100, 10, Placement::Right));
}

#[test]
fn empty_image_leaves_frame_unchanged() {
    let empty = DynamicImage::ImageRgba8(ImageBuffer::new(7, 0));
    let mut f = FramedPicture::new(20, 10, Some(3), Placement::Left);
    f.copy_img_into(u32::MAX, &empty);
    assert_eq!(px(f.get_buffer(), 30, 15), Color::new(255, 252, 234, 1));
}

#[test]
fn painting_a_turned_palette_clips_rows() {
    let mut pal = Palette::new(3, 2, 1);
    pal.rotate_90degrees();
    // now 3 wide and 7 high: boxes of side 3 along x, rows below 3 untouched
    pal.paint_palette(&samples(&[(1, 1, 1, 1), (2, 2, 2, 2)]));
    assert_eq!(pal.get_dimensions(), (3, 7));
    assert_eq!(px(pal.get_buffer(), 0, 2), Color::new(1, 1, 1, 1));
    assert_eq!(px(pal.get_buffer(), 0, 3), Color::new(0, 0, 0, 0));
}
