use base64::Engine;
use thorus_forge::kitty::{delete_all_command, display_rgb_command, pixel_dimensions, placement, Placement};

#[test]
fn display_rgb_single_chunk_carries_all_keys_and_last_flag() {
    let out = display_rgb_command(&[255, 0, 0], 1, 1, 0, 0);
    assert_eq!(out, b"\x1b_Ga=T,f=24,s=1,v=1,X=0,Y=0,C=1,i=1,q=1,m=0;/wAA\x1b\\".to_vec());
}

#[test]
fn display_rgb_writes_size_and_offsets_in_decimal() {
    let out = display_rgb_command(&[1, 2, 3, 4, 5, 6], 2, 1, 7, 15);
    let text = String::from_utf8(out).unwrap();
    assert_eq!(text, "\x1b_Ga=T,f=24,s=2,v=1,X=7,Y=15,C=1,i=1,q=1,m=0;AQIDBAUG\x1b\\");
}

#[test]
fn display_rgb_splits_payload_into_4096_byte_chunks() {
    let pixels: Vec<u8> = (0..3075u32).map(|k| (k % 251) as u8).collect();
    let encoded = base64::engine::general_purpose::STANDARD.encode(&pixels);
    assert_eq!(encoded.len(), 4100);
    let mut expected = Vec::new();
    expected.extend_from_slice(b"\x1b_Ga=T,f=24,s=41,v=25,X=3,Y=4,C=1,i=1,q=1,m=1;");
    expected.extend_from_slice(&encoded.as_bytes()[..4096]);
    expected.extend_from_slice(b"\x1b\\");
    expected.extend_from_slice(b"\x1b_Gm=0;");
    expected.extend_from_slice(&encoded.as_bytes()[4096..]);
    expected.extend_from_slice(b"\x1b\\");
    assert_eq!(display_rgb_command(&pixels, 41, 25, 3, 4), expected);
}

#[test]
fn display_rgb_three_chunks_mark_more_on_all_but_last() {
    let pixels = vec![0u8; 6150];
    let out = String::from_utf8(display_rgb_command(&pixels, 1, 1, 0, 0)).unwrap();
    let sequences: Vec<&str> = out.split("\x1b\\").filter(|s| !s.is_empty()).collect();
    assert_eq!(sequences.len(), 3);
    assert!(sequences[0].starts_with("\x1b_Ga=T,"));
    assert!(sequences[0].contains(",m=1;"));
    assert!(sequences[1].starts_with("\x1b_Gm=1;"));
    assert!(sequences[2].starts_with("\x1b_Gm=0;"));
    assert_eq!(sequences[2].len(), "\x1b_Gm=0;".len() + 8200 - 2 * 4096);
}

#[test]
fn display_rgb_of_no_pixels_sends_nothing() {
    assert!(display_rgb_command(&[], 0, 0, 0, 0).is_empty());
}

#[test]
fn delete_all_sequence() {
    assert_eq!(delete_all_command(), b"\x1b_Ga=d,q=1;\x1b\\".to_vec());
}

#[test]
fn pixel_dimensions_prefer_reported_size() {
    assert_eq!(pixel_dimensions(80, 24, 1024, 768), (1024, 768));
}

#[test]
fn pixel_dimensions_fall_back_to_cell_estimate() {
    assert_eq!(pixel_dimensions(80, 24, 0, 768), (640, 384));
    assert_eq!(pixel_dimensions(80, 24, 1024, 0), (640, 384));
    assert_eq!(pixel_dimensions(65535, 65535, 0, 0), (65535 * 8, 65535 * 16));
}

#[test]
fn placement_centers_image_in_cells() {
    assert_eq!(
        placement(800, 600, 100, 40, 400, 300),
        Placement { col: 25, row: 10, x_offset: 0, y_offset: 0 }
    );
    assert_eq!(
        placement(803, 601, 100, 40, 400, 300),
        Placement { col: 25, row: 10, x_offset: 1, y_offset: 0 }
    );
}

#[test]
fn placement_of_oversized_image_starts_at_origin() {
    assert_eq!(
        placement(100, 100, 10, 10, 400, 300),
        Placement { col: 0, row: 0, x_offset: 0, y_offset: 0 }
    );
}

#[test]
fn placement_treats_zero_cells_as_one_and_tiny_cells_as_one_pixel() {
    // No cell count: one cell spanning the screen.
    assert_eq!(
        placement(800, 600, 0, 0, 400, 300),
        Placement { col: 0, row: 0, x_offset: 200, y_offset: 150 }
    );
    // More cells than pixels: cells are one pixel wide.
    assert_eq!(
        placement(10, 10, 100, 100, 2, 2),
        Placement { col: 4, row: 4, x_offset: 0, y_offset: 0 }
    );
}
