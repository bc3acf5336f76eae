use rasterization_in_a_weekend::color::{
    black, blue, from_raw_color, green, red, to_raw_color, white, Color,
};
use rasterization_in_a_weekend::fixed::ONE;

#[test]
pub fn color_to_raw() {
    assert_eq!(to_raw_color(black()), 0x00000000);
    assert_eq!(to_raw_color(white()), 0x00FFFFFF);
    assert_eq!(to_raw_color(red()), 0x00FF0000);
    assert_eq!(to_raw_color(green()), 0x0000FF00);
    assert_eq!(to_raw_color(blue()), 0x000000FF);
}

#[test]
pub fn raw_to_color() {
    assert_eq!(from_raw_color(0x00000000), black());
    assert_eq!(from_raw_color(0x00FFFFFF), white());
    assert_eq!(from_raw_color(0x00FF0000), red());
    assert_eq!(from_raw_color(0x0000FF00), green());
    assert_eq!(from_raw_color(0x000000FF), blue());
}

#[test]
fn to_raw_clamps_out_of_range_channels() {
    let c = Color { r: 2 * ONE, g: -ONE, b: ONE / 2 };
    // 0.5 * 255 = 127.5 rounds to 128
    assert_eq!(to_raw_color(c), 0x00FF0080);
}

#[test]
fn from_raw_ignores_the_top_byte() {
    assert_eq!(from_raw_color(0xAB00FF00), green());
}

#[test]
fn raw_round_trip_on_every_byte() {
    for k in 0u32..256 {
        let raw = (k << 16) | ((255 - k) << 8) | (k / 2);
        assert_eq!(to_raw_color(from_raw_color(raw)), raw);
    }
}

#[test]
fn pure_colors_round_trip() {
    for c in [black(), white(), red(), green(), blue()] {
        assert_eq!(from_raw_color(to_raw_color(c)), c);
    }
}

#[test]
fn color_round_trip_within_one_step() {
    let c = Color { r: 12345, g: 40000, b: 65000 };
    let d = from_raw_color(to_raw_color(c));
    for (a, b) in [(c.r, d.r), (c.g, d.g), (c.b, d.b)] {
        assert!((a - b).abs() * 255 <= ONE);
    }
    assert_eq!(from_raw_color(0x00808080).r, (128 * ONE + 127) / 255);
}
