//! Software rasterizer building blocks: an RGB framebuffer with depth test,
//! filled convex polygons, mesh topology builders, text renderings, the kitty
//! terminal graphics protocol, and frame encoders.

pub mod colors;
pub mod cube;
pub mod depth;
pub mod fill;
pub mod framebuffer;
pub mod frames;
pub mod kitty;
pub mod mesh;
pub mod sphere;
pub mod text;
pub mod torus;
pub mod webp;

pub use colors::Rgb;
pub use fill::{FillQuad, FillTriangle};
pub use framebuffer::{FbPoint, FrameBuffer, Point};
pub use webp::WebpEncoder;

use vstd::prelude::*;

verus! {

/// Raster width in pixels.
pub const SCENE_WIDTH: u32 = 800;

/// Raster height in pixels.
pub const SCENE_HEIGHT: u32 = 600;

/// Number of frames of the animated scene.
pub const ANIMATED_SCENE_FRAME_COUNT: u32 = 360;

/// Milliseconds between successive frames of the animated scene (50 fps).
pub const ANIMATED_SCENE_FRAME_SPACING_MS: i32 = 20;

/// Scene background colour, `0x444444`.
pub fn scene_background() -> (c: Rgb)
    ensures
        c == Rgb(0x44, 0x44, 0x44),
{
    let c = Rgb::from_hex(0x444444);
    assert(colors::hex_red(0x444444) == 0x44);
    c
}

} // verus!
