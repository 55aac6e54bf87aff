use thorus_forge::colors::Rgb;
use thorus_forge::depth::float_bits_lt;
use thorus_forge::framebuffer::{FbPoint, FrameBuffer};
use thorus_forge::text::{border_ascii_art, to_ascii_art};

fn depth(d: f32) -> u32 {
    d.to_bits()
}

#[test]
fn clear_resets_depth_so_farther_write_succeeds() {
    let mut fb = FrameBuffer::new(3, 3);
    fb.write_pixel(FbPoint::new(1, 1, depth(0.3)), Rgb::white());
    fb.write_pixel(FbPoint::new(1, 1, depth(0.8)), Rgb(255, 0, 0));
    assert_eq!(fb.get_pixel(1, 1), Rgb::white());

    fb.clear();
    fb.write_pixel(FbPoint::new(1, 1, depth(0.8)), Rgb(255, 0, 0));
    assert_eq!(fb.get_pixel(1, 1), Rgb(255, 0, 0));
}

#[test]
fn write_pixel_out_of_bounds_is_ignored() {
    let mut fb = FrameBuffer::new(2, 2);
    fb.write_pixel(FbPoint::new(100, 0, depth(0.0)), Rgb::white());
    assert!(fb.as_bytes().iter().all(|&b| b == 0));
}

#[test]
fn write_pixel_accepts_nearer_depth() {
    let mut fb = FrameBuffer::new(3, 3);
    fb.write_pixel(FbPoint::new(1, 1, depth(0.8)), Rgb::white());
    fb.write_pixel(FbPoint::new(1, 1, depth(0.3)), Rgb(255, 0, 0));
    assert_eq!(fb.get_pixel(1, 1), Rgb(255, 0, 0));
}

#[test]
fn write_pixel_rejects_farther_depth() {
    let mut fb = FrameBuffer::new(3, 3);
    fb.write_pixel(FbPoint::new(1, 1, depth(0.3)), Rgb::white());
    fb.write_pixel(FbPoint::new(1, 1, depth(0.8)), Rgb(255, 0, 0));
    assert_eq!(fb.get_pixel(1, 1), Rgb::white());
}

#[test]
fn write_pixel_stores_color_on_cleared_depth() {
    let mut fb = FrameBuffer::new(3, 3);
    fb.write_pixel(FbPoint::new(1, 1, depth(0.5)), Rgb::white());
    assert_eq!(fb.get_pixel(1, 1), Rgb::white());
}

#[test]
fn initialize_frame_buffer() {
    let fb = FrameBuffer::new(10, 5);

    assert_eq!(fb.as_bytes().len(), 10 * 5 * 3);
    assert!(fb.as_bytes().iter().all(|&b| b == 0));
}

#[test]
fn set_pixel_writes_rgb_at_correct_offset() {
    let mut fb = FrameBuffer::new(3, 3);
    fb.set_pixel(1, 1, Rgb::white());

    assert_eq!(fb.get_pixel(1, 1), Rgb::white());
    assert_eq!(fb.get_pixel(0, 0), Rgb::black());

    let w = Rgb::white();
    let expected = [
        0, 0, 0, 0, 0, 0, 0, 0, 0, //
        0, 0, 0, w.0, w.1, w.2, 0, 0, 0, //
        0, 0, 0, 0, 0, 0, 0, 0, 0,
    ];
    assert_eq!(fb.as_bytes(), expected.as_slice());
}

#[test]
fn set_pixel_out_of_bounds_is_ignored() {
    let mut fb = FrameBuffer::new(2, 2);
    fb.set_pixel(100, 0, Rgb::white());
    assert!(fb.as_bytes().iter().all(|&b| b == 0));
}

#[test]
fn border_ascii_art_draws_box_around_rows() {
    let boxed = border_ascii_art(" █\n██");
    assert_eq!(boxed, "┌──┐\n│ █│\n│██│\n└──┘");
}

#[test]
fn border_ascii_art_pads_short_rows_and_drops_final_newline() {
    assert_eq!(border_ascii_art("ab\nc\n"), "┌──┐\n│ab│\n│c │\n└──┘");
    assert_eq!(border_ascii_art("x\r\ny"), "┌─┐\n│x│\n│y│\n└─┘");
}

#[test]
fn border_ascii_art_of_empty_text_is_an_empty_box() {
    assert_eq!(border_ascii_art(""), "┌┐\n└┘");
}

#[test]
fn to_ascii_art_maps_black_to_space_and_white_to_full_block() {
    let mut fb = FrameBuffer::new(2, 1);
    fb.set_pixel(0, 0, Rgb::black());
    fb.set_pixel(1, 0, Rgb::white());
    assert_eq!(fb.to_ascii_art(), to_ascii_art(&[" █"]));
}

#[test]
fn to_ascii_art_joins_rows_with_newlines() {
    let mut fb = FrameBuffer::new(3, 2);
    fb.set_pixel(0, 0, Rgb(32, 32, 32));
    fb.set_pixel(2, 1, Rgb(128, 128, 128));
    assert_eq!(fb.to_ascii_art(), "░  \n  ▓");
    assert_eq!(to_ascii_art(&["a", "", "bc"]), "a\n\nbc");
}

#[test]
fn get_pixel_off_raster_is_black() {
    let mut fb = FrameBuffer::new(2, 2);
    fb.set_pixel(1, 1, Rgb::white());
    assert_eq!(fb.get_pixel(2, 1), Rgb::black());
    assert_eq!(fb.get_pixel(1, 7), Rgb::black());
}

#[test]
fn pixel_index_and_offset_are_row_major() {
    let fb = FrameBuffer::new(4, 3);
    assert_eq!(fb.pixel_index(1, 2), Some(9));
    assert_eq!(fb.pixel_offset(1, 2), Some(27));
    assert_eq!(fb.pixel_index(4, 0), None);
    assert_eq!(fb.pixel_offset(0, 3), None);
    assert_eq!((fb.width(), fb.height()), (4, 3));
}

#[test]
fn nearer_write_wins_regardless_of_order() {
    // Whichever order two depth-tested writes come in, the nearer one stays.
    for (first, second) in [(0.25f32, 0.75f32), (0.75f32, 0.25f32)] {
        let mut fb = FrameBuffer::new(2, 2);
        let c_first = if first < second { Rgb::red() } else { Rgb::blue() };
        let c_second = if first < second { Rgb::blue() } else { Rgb::red() };
        fb.write_pixel(FbPoint::new(0, 1, depth(first)), c_first);
        fb.write_pixel(FbPoint::new(0, 1, depth(second)), c_second);
        assert_eq!(fb.get_pixel(0, 1), Rgb::red());
    }
}

#[test]
fn equal_depth_write_is_rejected() {
    let mut fb = FrameBuffer::new(1, 1);
    fb.write_pixel(FbPoint::new(0, 0, depth(0.5)), Rgb::white());
    fb.write_pixel(FbPoint::new(0, 0, depth(0.5)), Rgb::red());
    assert_eq!(fb.get_pixel(0, 0), Rgb::white());
}

#[test]
fn nan_depth_is_never_nearer() {
    // A NaN depth is not nearer than anything, and nothing is nearer than a
    // stored NaN: neither write lands.
    let mut fb = FrameBuffer::new(1, 1);
    fb.write_pixel(FbPoint::new(0, 0, depth(f32::NAN)), Rgb::white());
    assert_eq!(fb.get_pixel(0, 0), Rgb::black());
    fb.write_pixel(FbPoint::new(0, 0, depth(0.5)), Rgb::red());
    assert_eq!(fb.get_pixel(0, 0), Rgb::red());
    fb.write_pixel(FbPoint::new(0, 0, depth(f32::NAN)), Rgb::blue());
    assert_eq!(fb.get_pixel(0, 0), Rgb::red());
}

#[test]
fn negative_zero_and_positive_zero_compare_equal() {
    let mut fb = FrameBuffer::new(1, 1);
    fb.write_pixel(FbPoint::new(0, 0, depth(0.0)), Rgb::white());
    fb.write_pixel(FbPoint::new(0, 0, depth(-0.0)), Rgb::red());
    assert_eq!(fb.get_pixel(0, 0), Rgb::white());
    fb.write_pixel(FbPoint::new(0, 0, depth(-1.0)), Rgb::blue());
    assert_eq!(fb.get_pixel(0, 0), Rgb::blue());
}

#[test]
fn draw_horz_line_clips_to_raster() {
    let mut fb = FrameBuffer::new(5, 2);
    fb.draw_horz_line(3, 9, 1, Rgb::white());
    fb.draw_horz_line(0, 1, 4, Rgb::white());
    assert_eq!(fb.to_ascii_art(), "     \n   ██");
}

#[test]
fn clear_blackens_every_pixel() {
    let mut fb = FrameBuffer::new(2, 2);
    fb.set_pixel(0, 0, Rgb::white());
    fb.clear();
    assert!(fb.as_bytes().iter().all(|&b| b == 0));
}

#[test]
fn float_bits_lt_orders_like_f32() {
    let samples = [
        f32::NEG_INFINITY,
        -3.5,
        -1.0,
        -0.0,
        0.0,
        1e-40,
        0.5,
        2.0,
        f32::INFINITY,
        f32::NAN,
    ];
    for &a in &samples {
        for &b in &samples {
            assert_eq!(float_bits_lt(a.to_bits(), b.to_bits()), a < b, "{a} < {b}");
        }
    }
}
