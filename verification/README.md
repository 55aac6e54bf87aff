# thorus_forge

Building blocks of a small software rasterizer, written in Verus and proved
against their contracts:

- `framebuffer`, `depth`: an RGB raster with a depth buffer; depths are `f32`
  values carried as bit patterns and compared with the IEEE order.
- `fill`: flat-filled convex quads and triangles (bounding box plus half-plane
  test, either winding).
- `colors`, `text`: colours, block-character pictures of a raster, boxed text.
- `mesh`, `torus`, `sphere`, `cube`: mesh topologies (vertex descriptions and
  counter-clockwise facets).
- `kitty`: escape sequences of the kitty terminal graphics protocol.
- `webp`, `frames`: lossless animated WebP and numbered PNG frames, through
  the `webp-animation` and `png` crates.

`app/` holds what stays outside the proofs: the program that draws the
"flower" still, terminal and file I/O, and the floating-point geometry,
lighting and camera code.
