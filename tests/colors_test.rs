use paleatra::colors::{color_distance, Color, ColorCount};

#[test]
fn test_color_construct() {
    let w = Color::new(255, 255, 255, 1);
    let white = ColorCount::new(w);
    assert_eq!(white.count, 1);
}

#[test]
fn test_color_count_increment() {
    let w = Color::new(255, 255, 255, 1);
    let mut white = ColorCount::new(w);
    for _ in 0..10 {
        white.increment_count();
    }
    assert_eq!(white.count, 11);
}

#[test]
fn test_color_generate_hex() {
    let r = Color::new(255, 0, 0, 1);
    let red = ColorCount::new(r);
    assert_eq!("xFF0000", red.hex);
}

#[test]
fn test_color_measure_diff() {
    let r1 = Color::new(255, 255, 255, 1);
    let r3 = Color::new(250, 250, 250, 1);
    let red1 = ColorCount::new(r1);
    let red2 = ColorCount::new(r1);
    let red3 = ColorCount::new(r3);

    let diff0 = red1.measure_distance(&red2);
    let diff1 = red1.measure_distance(&red3);

    assert_eq!(diff0, 0);
    assert_eq!(diff1, 25);
}

#[test]
fn hex_uses_two_upper_case_digits_per_channel() {
    assert_eq!(ColorCount::generate_hex(&Color::new(0x2F, 0x3F, 0xB6, 200)), "x2F3FB6");
    assert_eq!(ColorCount::generate_hex(&Color::new(0, 10, 1, 0)), "x000A01");
}

#[test]
fn hex_ignores_alpha() {
    let a = ColorCount::new(Color::new(1, 2, 3, 0));
    let b = ColorCount::new(Color::new(1, 2, 3, 255));
    assert_eq!(a.hex, b.hex);
}

#[test]
fn distance_alpha_term_is_quartic() {
    // alpha delta 3: (3^2)^2 / 2 = 40
    assert_eq!(color_distance(Color::new(0, 0, 0, 10), Color::new(0, 0, 0, 13)), 40);
    // rgb deltas 1, 2, 2: (1 + 4 + 4) / 3 = 3
    assert_eq!(color_distance(Color::new(5, 5, 5, 0), Color::new(6, 7, 3, 0)), 3);
}

#[test]
fn distance_largest_value_fits() {
    let d = color_distance(Color::new(0, 0, 0, 0), Color::new(255, 255, 255, 255));
    // 3 * 65025 / 3 + 65025^2 / 2
    assert_eq!(d, 2114190337);
}

#[test]
fn distance_is_symmetric() {
    let p = Color::new(10, 200, 30, 40);
    let q = Color::new(100, 20, 35, 44);
    assert_eq!(color_distance(p, q), color_distance(q, p));
}

#[test]
fn duplicate_keeps_everything() {
    let mut c = ColorCount::new(Color::new(9, 8, 7, 6));
    c.increment_count();
    let d = c.duplicate();
    assert_eq!(d.rgba, c.rgba);
    assert_eq!(d.count, 2);
    assert_eq!(d.hex, "x090807");
}
