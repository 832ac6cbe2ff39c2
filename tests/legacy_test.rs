use image::{DynamicImage, GenericImageView, ImageBuffer, Rgba};
use paleatra::colors::{Color, ColorCount};
use paleatra::filters::{Filter, ImageFilters};
use paleatra::img_copy;
use paleatra::img_processor;

fn samples(colors: &[(u8, u8, u8, u8)]) -> Vec<ColorCount> {
    colors.iter().map(|c| ColorCount::new(Color::new(c.0, c.1, c.2, c.3))).collect()
}

#[test]
fn bottom_frame_layout() {
    let f = img_copy::FramedPicture::new(200, 100, Some(10));
    assert_eq!(f.get_buffer().dimensions(), (220, 148));
    assert_eq!(img_copy::FramedPicture::compute_palette_size(100, 9), (10, 1));
}

#[test]
fn drawn_palette_spans_picture_width() {
    let mut f = img_copy::FramedPicture::new(22, 10, Some(1));
    // side = 22 / 2 = 11, gutter 1; palette 22 x 21
    let p = f.draw_palette(1, &samples(&[(5, 5, 5, 255), (6, 6, 6, 255)]));
    assert_eq!(p.dimensions(), (22, 21));
    assert_eq!(p.pixel(0, 0), Color::new(5, 5, 5, 255));
    assert_eq!(p.pixel(11, 0), Color::new(0, 0, 0, 0));
    assert_eq!(p.pixel(12, 10), Color::new(6, 6, 6, 255));
    assert_eq!(p.pixel(12, 11), Color::new(0, 0, 0, 0));
    f.stick_piece(&p);
    assert_eq!(f.get_buffer().pixel(10, 30), Color::new(5, 5, 5, 255));
}

#[test]
fn legacy_copy_and_palette() {
    let img = DynamicImage::ImageRgba8(ImageBuffer::from_pixel(3, 2, Rgba([4, 5, 6, 255])));
    let mut f = img_copy::FramedPicture::new(3, 2, Some(1));
    f.copy_img_into(10, &img);
    assert_eq!(f.get_buffer().pixel(12, 11), Color::new(4, 5, 6, 255));

    let mut frame = img_copy::FramedPicture::new(3, 2, Some(1));
    let mut canvas = frame.draw_palette(1, &Vec::new());
    img_processor::copy_img_into(&mut canvas, 0, &DynamicImage::ImageRgba8(ImageBuffer::from_pixel(1, 1, Rgba([1, 1, 1, 1]))));
    assert_eq!(canvas.pixel(0, 0), Color::new(1, 1, 1, 1));
    frame.stick_piece(&canvas);

    let p = img_processor::draw_palette((2, 1), 2, &samples(&[(8, 8, 8, 8)]));
    assert_eq!(p.dimensions(), (5, 2));
    assert_eq!(p.pixel(1, 1), Color::new(8, 8, 8, 8));
    assert_eq!(p.pixel(3, 1), Color::new(0, 0, 0, 0));
    assert_eq!(img_processor::compute_palette_size(&(100, 300), 9), (30, 3));
}

#[test]
fn filters_keep_size() {
    let img = DynamicImage::ImageRgba8(ImageBuffer::from_pixel(3, 2, Rgba([200, 10, 10, 100])));
    let g = ImageFilters::grayscale(&img);
    assert_eq!(g.dimensions(), (3, 2));
    let inv = ImageFilters::invert_colors(&img);
    assert_eq!(inv.dimensions(), (3, 2));
    assert_eq!(inv.get_pixel(0, 0), Rgba([55, 245, 245, 100]));
    let gp = g.get_pixel(1, 1);
    assert_eq!((gp[0] == gp[1], gp[1] == gp[2], gp[3]), (true, true, 255));
}

#[test]
fn inverting_twice_gives_the_image_back() {
    let img = DynamicImage::ImageRgb8(ImageBuffer::from_fn(3, 2, |x, y| image::Rgb([x as u8 * 50, y as u8 * 90, 7])));
    let once = ImageFilters::invert_colors(&img);
    assert_eq!(once.get_pixel(2, 1), Rgba([155, 165, 248, 255]));
    let twice = ImageFilters::invert_colors(&once);
    for y in 0..2 {
        for x in 0..3 {
            assert_eq!(twice.get_pixel(x, y), img.get_pixel(x, y));
        }
    }
}

#[test]
fn palette_from_dims_is_one_box_high() {
    let p = img_processor::draw_palette((50, 5), 10, &Vec::new());
    assert_eq!(p.dimensions(), (545, 50));
    let empty = img_processor::draw_palette((4, 1), 0, &Vec::new());
    assert_eq!(empty.dimensions(), (0, 4));
}

#[test]
fn empty_image_copies_nowhere() {
    let empty = DynamicImage::ImageRgba8(ImageBuffer::new(0, 5));
    let mut frame = img_processor::draw_palette((2, 0), 1, &Vec::new());
    img_processor::copy_img_into(&mut frame, u32::MAX, &empty);
    assert_eq!(frame.dimensions(), (2, 2));
    let mut f = img_copy::FramedPicture::new(3, 2, Some(1));
    f.copy_img_into(1000, &empty);
    assert_eq!(f.get_buffer().pixel(0, 0), Color::new(255, 252, 234, 1));
}

#[test]
fn bgra_inversion_crosses_red_and_blue() {
    // a pure red pixel stored blue, green, red, alpha
    let img = DynamicImage::ImageBgra8(ImageBuffer::from_pixel(1, 1, image::Bgra([0, 0, 255, 9])));
    assert_eq!(img.get_pixel(0, 0), Rgba([255, 0, 0, 9]));
    let once = ImageFilters::invert_colors(&img);
    assert_eq!(once.get_pixel(0, 0), Rgba([255, 255, 0, 9]));
    let twice = ImageFilters::invert_colors(&once);
    assert_eq!(twice.get_pixel(0, 0), Rgba([255, 0, 0, 9]));
}
