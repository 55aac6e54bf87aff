use thorus_forge::frames::{encode_png_frame, frame_file_name};
use thorus_forge::webp::WebpEncoder;
use thorus_forge::{ANIMATED_SCENE_FRAME_COUNT, ANIMATED_SCENE_FRAME_SPACING_MS, SCENE_HEIGHT, SCENE_WIDTH};

#[test]
fn scene_constants() {
    assert_eq!((SCENE_WIDTH, SCENE_HEIGHT), (800, 600));
    assert_eq!(ANIMATED_SCENE_FRAME_COUNT, 360);
    assert_eq!(ANIMATED_SCENE_FRAME_SPACING_MS, 20);
}

#[test]
fn frame_file_names_are_zero_padded_to_six_digits() {
    assert_eq!(frame_file_name(0), "000000.png");
    assert_eq!(frame_file_name(7), "000007.png");
    assert_eq!(frame_file_name(359), "000359.png");
    assert_eq!(frame_file_name(999_999), "999999.png");
    assert_eq!(frame_file_name(1_234_567), "1234567.png");
    assert_eq!(frame_file_name(u32::MAX), "4294967295.png");
}

#[test]
fn png_frame_has_png_signature_and_size() {
    let bytes = encode_png_frame(2, 1, &[255, 0, 0, 0, 0, 255]).unwrap();
    assert_eq!(&bytes[..8], &[137, 80, 78, 71, 13, 10, 26, 10]);
    // IHDR: width then height, big endian.
    assert_eq!(&bytes[12..16], b"IHDR");
    assert_eq!(&bytes[16..24], &[0, 0, 0, 2, 0, 0, 0, 1]);
    assert!(bytes.ends_with(&[0x49, 0x45, 0x4e, 0x44, 0xae, 0x42, 0x60, 0x82]));
}

#[test]
fn png_frame_refuses_wrong_length_and_empty_size() {
    assert!(encode_png_frame(2, 1, &[255, 0, 0]).is_err());
    assert!(encode_png_frame(0, 1, &[]).is_err());
    assert!(encode_png_frame(1, 0, &[]).is_err());
}

#[test]
fn webp_encoder_writes_riff_webp() {
    let mut encoder = WebpEncoder::with_frame_spacing(2, 2, ANIMATED_SCENE_FRAME_SPACING_MS).unwrap();
    let black = [0u8; 12];
    let white = [255u8; 12];
    encoder.add_frame(&black).unwrap();
    encoder.add_frame(&white).unwrap();
    encoder.add_frame(&black).unwrap();
    let bytes = encoder.finalize().unwrap();
    assert_eq!(&bytes[..4], b"RIFF");
    assert_eq!(&bytes[8..12], b"WEBP");
}

#[test]
fn webp_encoder_single_frame() {
    let mut encoder = WebpEncoder::new(1, 1).unwrap();
    encoder.add_frame(&[10, 20, 30]).unwrap();
    assert!(encoder.finalize().is_ok());
}

#[test]
fn webp_encoder_refuses_zero_size() {
    assert!(WebpEncoder::new(0, 4).is_err());
    assert!(WebpEncoder::new(4, 0).is_err());
}

#[test]
fn webp_encoder_refuses_frame_of_wrong_length_and_keeps_going() {
    let mut encoder = WebpEncoder::new(2, 2).unwrap();
    assert!(encoder.add_frame(&[0u8; 16]).is_err());
    assert!(encoder.add_frame(&[0u8; 11]).is_err());
    encoder.add_frame(&[0u8; 12]).unwrap();
    assert!(encoder.finalize().is_ok());
}

#[test]
fn webp_encoder_without_frames_cannot_finalize() {
    let encoder = WebpEncoder::new(2, 2).unwrap();
    assert!(encoder.finalize().is_err());
}

#[test]
fn webp_encoder_refuses_frames_after_saturated_timestamp() {
    let mut encoder = WebpEncoder::with_frame_spacing(1, 1, i32::MAX).unwrap();
    encoder.add_frame(&[1, 2, 3]).unwrap();
    // The next frame is stamped i32::MAX; once one is, no later frame fits.
    if encoder.add_frame(&[4, 5, 6]).is_ok() {
        assert!(encoder.add_frame(&[7, 8, 9]).is_err());
    }
}
