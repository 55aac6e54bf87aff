use thorus_forge::colors::Rgb;
use thorus_forge::fill::{FillQuad, FillTriangle};
use thorus_forge::framebuffer::{FrameBuffer, Point};

/// Rows concatenated without separators, `'+'` for a lit pixel and `' '` for
/// a black one: the picture format these fill scenarios are written in.
fn plus_art(fb: &FrameBuffer) -> String {
    let mut out = String::new();
    for y in 0..fb.height() {
        for x in 0..fb.width() {
            out.push(if fb.get_pixel(x, y) == Rgb::black() { ' ' } else { '+' });
        }
    }
    out
}

fn quad(corners: [(u32, u32); 4]) -> [Point; 4] {
    [
        Point::new(corners[0].0, corners[0].1),
        Point::new(corners[1].0, corners[1].1),
        Point::new(corners[2].0, corners[2].1),
        Point::new(corners[3].0, corners[3].1),
    ]
}

fn tri(corners: [(u32, u32); 3]) -> [Point; 3] {
    [
        Point::new(corners[0].0, corners[0].1),
        Point::new(corners[1].0, corners[1].1),
        Point::new(corners[2].0, corners[2].1),
    ]
}

#[test]
fn fill_axis_aligned_rectangle() {
    let mut fb = FrameBuffer::new(10, 5);
    FillQuad::new(quad([(2, 1), (7, 1), (7, 3), (2, 3)]), Rgb::white()).draw(&mut fb);

    let expected = ["          ", "  ++++++  ", "  ++++++  ", "  ++++++  ", "          "].concat();
    assert_eq!(plus_art(&fb), expected);
}

#[test]
fn fill_same_quad_under_rotated_vertex_order() {
    let corners_ccw = [(2, 1), (7, 1), (7, 3), (2, 3)];
    let expected = ["          ", "  ++++++  ", "  ++++++  ", "  ++++++  ", "          "].concat();

    for start in 0..4 {
        let mut fb = FrameBuffer::new(10, 5);
        FillQuad::new(
            quad([
                corners_ccw[start],
                corners_ccw[(start + 1) % 4],
                corners_ccw[(start + 2) % 4],
                corners_ccw[(start + 3) % 4],
            ]),
            Rgb::white(),
        )
        .draw(&mut fb);
        let art = plus_art(&fb);
        assert_eq!(expected, art, "order start {}", start);
    }
}

#[test]
fn fill_clips_when_quad_extends_past_buffer() {
    let mut fb = FrameBuffer::new(10, 5);
    FillQuad::new(quad([(2, 1), (14, 1), (14, 3), (2, 3)]), Rgb::white()).draw(&mut fb);

    let expected = ["          ", "  ++++++++", "  ++++++++", "  ++++++++", "          "].concat();
    assert_eq!(plus_art(&fb), expected);
}

#[test]
fn fill_convex_slanted_quad() {
    let mut fb = FrameBuffer::new(10, 5);
    FillQuad::new(quad([(2, 3), (7, 3), (8, 1), (1, 1)]), Rgb::white()).draw(&mut fb);

    let expected = ["          ", " ++++++++ ", "  ++++++  ", "  ++++++  ", "          "].concat();
    assert_eq!(plus_art(&fb), expected);
}

#[test]
fn fill_quad_fill_degenerate_all_corners_same_point() {
    let mut fb = FrameBuffer::new(10, 5);
    FillQuad::new(quad([(4, 2), (4, 2), (4, 2), (4, 2)]), Rgb::white()).draw(&mut fb);

    let expected = ["          ", "          ", "    +     ", "          ", "          "].concat();
    assert_eq!(plus_art(&fb), expected);
}

#[test]
fn fill_degenerate_quad_is_line_segment() {
    let mut fb = FrameBuffer::new(10, 5);
    FillQuad::new(quad([(2, 3), (7, 3), (7, 3), (2, 3)]), Rgb::white()).draw(&mut fb);

    let expected = ["          ", "          ", "          ", "  ++++++  ", "          "].concat();
    assert_eq!(plus_art(&fb), expected);
}

#[test]
fn fill_triangle_fill_degenerate_all_corners_same_point() {
    let mut fb = FrameBuffer::new(10, 5);
    FillTriangle::new(tri([(4, 2), (4, 2), (4, 2)]), Rgb::white()).draw(&mut fb);

    let expected = ["          ", "          ", "    +     ", "          ", "          "].concat();
    assert_eq!(plus_art(&fb), expected);
}

#[test]
fn fill_triangle_fill_axis_aligned_shapes_isosceles() {
    let mut fb = FrameBuffer::new(10, 5);
    FillTriangle::new(tri([(4, 1), (6, 3), (2, 3)]), Rgb::white()).draw(&mut fb);

    let expected = ["          ", "    +     ", "   +++    ", "  +++++   ", "          "].concat();
    assert_eq!(plus_art(&fb), expected);
}

#[test]
fn fill_triangle_fill_same_triangle_under_rotated_vertex_order() {
    let corners_ccw = [(4, 1), (6, 3), (2, 3)];
    let expected = ["          ", "    +     ", "   +++    ", "  +++++   ", "          "].concat();

    for start in 0..3 {
        let mut fb = FrameBuffer::new(10, 5);
        FillTriangle::new(
            tri([corners_ccw[start], corners_ccw[(start + 1) % 3], corners_ccw[(start + 2) % 3]]),
            Rgb::white(),
        )
        .draw(&mut fb);
        assert_eq!(expected, plus_art(&fb), "order start {}", start);
    }
}

#[test]
fn fill_triangle_fill_clips_when_triangle_extends_past_buffer() {
    let mut fb = FrameBuffer::new(10, 5);
    FillTriangle::new(tri([(2, 1), (14, 1), (2, 3)]), Rgb::white()).draw(&mut fb);

    let expected = ["          ", "  ++++++++", "  +++++++ ", "  +       ", "          "].concat();
    assert_eq!(plus_art(&fb), expected);
}

#[test]
fn fill_triangle_fill_slanted_triangle() {
    let mut fb = FrameBuffer::new(10, 5);
    FillTriangle::new(tri([(2, 3), (7, 3), (8, 1)]), Rgb::white()).draw(&mut fb);

    let expected = ["          ", "        + ", "     +++  ", "  ++++++  ", "          "].concat();
    assert_eq!(plus_art(&fb), expected);
}

#[test]
fn fill_triangle_fill_triangle_with_vertical_edge() {
    let mut fb = FrameBuffer::new(10, 5);
    FillTriangle::new(tri([(2, 1), (2, 4), (6, 2)]), Rgb::white()).draw(&mut fb);

    let expected = ["          ", "  +       ", "  +++++   ", "  +++     ", "  +       "].concat();
    assert_eq!(plus_art(&fb), expected);
}

#[test]
fn fill_triangle_fill_degenerate_triangle_is_line_segment() {
    let mut fb = FrameBuffer::new(10, 5);
    FillTriangle::new(tri([(2, 3), (7, 3), (7, 3)]), Rgb::white()).draw(&mut fb);

    let expected = ["          ", "          ", "          ", "  ++++++  ", "          "].concat();
    assert_eq!(plus_art(&fb), expected);
}

#[test]
fn fill_reversed_corner_order_covers_the_same_pixels() {
    let cw = [(2, 1), (2, 3), (7, 3), (7, 1)];
    let ccw = [(2, 1), (7, 1), (7, 3), (2, 3)];
    let mut a = FrameBuffer::new(10, 5);
    let mut b = FrameBuffer::new(10, 5);
    FillQuad::new(quad(cw), Rgb::white()).draw(&mut a);
    FillQuad::new(quad(ccw), Rgb::white()).draw(&mut b);
    assert_eq!(a.as_bytes(), b.as_bytes());
}

#[test]
fn is_point_inside_matches_drawn_pixels() {
    let t = FillTriangle::new(tri([(4, 1), (6, 3), (2, 3)]), Rgb::red());
    assert!(t.is_point_inside(Point::new(4, 2)));
    assert!(!t.is_point_inside(Point::new(2, 1)));
    assert_eq!(t.color(), Rgb::red());
    let q = FillQuad::new(quad([(2, 1), (7, 1), (7, 3), (2, 3)]), Rgb::blue());
    assert!(q.is_point_inside(Point::new(7, 3)));
    assert!(!q.is_point_inside(Point::new(8, 3)));
    assert_eq!(q.color(), Rgb::blue());
}

#[test]
fn fill_draws_its_own_colour() {
    let mut fb = FrameBuffer::new(10, 5);
    FillQuad::new(quad([(2, 1), (7, 1), (7, 3), (2, 3)]), Rgb(1, 2, 3)).draw(&mut fb);
    assert_eq!(fb.get_pixel(3, 2), Rgb(1, 2, 3));
    assert_eq!(fb.get_pixel(1, 2), Rgb::black());
}
