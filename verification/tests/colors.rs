use thorus_forge::colors::Rgb;
use thorus_forge::scene_background;

#[test]
fn from_hex_decodes_rgb_channels() {
    assert_eq!(Rgb::from_hex(0x156289), Rgb(21, 98, 137));
    assert_eq!(Rgb::from_hex(0x072534), Rgb(7, 37, 52));
    assert_eq!(Rgb::from_hex(0x111111), Rgb(17, 17, 17));
    assert_eq!(Rgb::from_hex(0x444444), Rgb(68, 68, 68));
}

#[test]
fn from_hex_extremes_match_named_colors() {
    assert_eq!(Rgb::from_hex(0x000000), Rgb::black());
    assert_eq!(Rgb::from_hex(0xFFFFFF), Rgb::white());
    assert_eq!(Rgb::from_hex(0xFF0000), Rgb::red());
    assert_eq!(Rgb::from_hex(0x0000FF), Rgb::blue());
}

#[test]
fn from_hex_ignores_bits_above_24() {
    assert_eq!(Rgb::from_hex(0xAB12_3456), Rgb(0x12, 0x34, 0x56));
}

#[test]
fn ascii_shade_for_rgb_buckets_brightness() {
    assert_eq!(Rgb::black().ascii_shade(), ' ');
    assert_eq!(Rgb(32, 32, 32).ascii_shade(), '░');
    assert_eq!(Rgb(64, 64, 64).ascii_shade(), '▒');
    assert_eq!(Rgb(128, 128, 128).ascii_shade(), '▓');
    assert_eq!(Rgb(200, 200, 200).ascii_shade(), '█');
    assert_eq!(Rgb::white().ascii_shade(), '█');
}

#[test]
fn ascii_shade_quarter_boundaries() {
    // Channel sums 191 / 192 straddle a brightness of one quarter (765 / 4 = 191.25).
    assert_eq!(Rgb(191, 0, 0).ascii_shade(), '░');
    assert_eq!(Rgb(192, 0, 0).ascii_shade(), '▒');
    assert_eq!(Rgb(1, 0, 0).ascii_shade(), '░');
    assert_eq!(Rgb(255, 255, 63).ascii_shade(), '▓');
    assert_eq!(Rgb(255, 255, 64).ascii_shade(), '█');
}

#[test]
fn scene_background_is_dark_grey() {
    assert_eq!(scene_background(), Rgb(0x44, 0x44, 0x44));
}
