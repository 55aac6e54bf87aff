//! RGB framebuffer: `width × height` pixels, three `u8` channels per pixel,
//! row-major, with one depth value per pixel for depth-tested writes.

use vstd::prelude::*;
use vstd::arithmetic::div_mod::*;
use vstd::arithmetic::mul::*;

use crate::colors::{Rgb, channel};
use crate::colors::shade_char;
use crate::depth::{float_bits_lt, float_lt, infinity_bits, is_nan_bits};
use crate::text::{joined_rows, push_char};

verus! {

/// Integer pixel position; `(0, 0)` is the top-left pixel, `+y` runs down.
#[derive(Clone, Copy, Debug, PartialEq, Eq, Structural)]
pub struct Point {
    pub x: u32,
    pub y: u32,
}

impl Point {
    pub fn new(x: u32, y: u32) -> (p: Point)
        ensures
            p.x == x,
            p.y == y,
    {
        Point { x, y }
    }
}

/// Screen pixel location with a depth for depth testing. The depth is an `f32`
/// carried as its IEEE-754 bit pattern (`f32::to_bits`).
#[derive(Clone, Copy, Debug, PartialEq, Eq, Structural)]
pub struct FbPoint {
    pub x: u32,
    pub y: u32,
    pub depth: u32,
}

impl FbPoint {
    pub fn new(x: u32, y: u32, depth: u32) -> (p: FbPoint)
        ensures
            p.x == x,
            p.y == y,
            p.depth == depth,
    {
        FbPoint { x, y, depth }
    }
}

/// Row-major index of pixel `(x, y)` in a raster `width` pixels wide.
pub open spec fn pixel_number(width: int, x: int, y: int) -> int {
    y * width + x
}

/// `bytes` with the three channels of pixel number `i` replaced by colour `c`.
pub open spec fn with_pixel(bytes: Seq<u8>, i: int, c: Rgb) -> Seq<u8> {
    bytes.update(3 * i, c.0).update(3 * i + 1, c.1).update(3 * i + 2, c.2)
}

/// `bytes` (three per pixel, rows `width` pixels wide) with every pixel `(x, y)`
/// for which `covered(x, y)` holds painted in colour `c`.
pub open spec fn paint(bytes: Seq<u8>, width: int, covered: spec_fn(int, int) -> bool, c: Rgb) -> Seq<u8> {
    Seq::new(
        bytes.len(),
        |k: int|
            if covered((k / 3) % width, (k / 3) / width) {
                channel(c, k % 3)
            } else {
                bytes[k]
            },
    )
}

/// Pixel number `y * width + x` splits back into `x` and `y`.
pub proof fn lemma_pixel_coords(width: int, x: int, y: int)
    requires
        0 <= x < width,
        0 <= y,
    ensures
        (y * width + x) / width == y,
        (y * width + x) % width == x,
{
    lemma_fundamental_div_mod_converse(y * width + x, width, y, x);
}

/// Byte `3 * i + j` belongs to pixel `i`, channel `j`.
pub proof fn lemma_byte_coords(i: int, j: int)
    requires
        0 <= i,
        0 <= j < 3,
    ensures
        (3 * i + j) / 3 == i,
        (3 * i + j) % 3 == j,
{
    lemma_fundamental_div_mod_converse(3 * i + j, 3, i, j);
}

/// A pixel inside a `width × height` raster has a number below `width * height`.
pub proof fn lemma_pixel_in_range(width: int, height: int, x: int, y: int)
    requires
        0 <= x < width,
        0 <= y < height,
    ensures
        0 <= y * width + x < width * height,
        3 * (y * width + x) + 2 < 3 * (width * height),
{
    lemma_mul_inequality(y, height - 1, width);
    lemma_mul_is_distributive_sub_other_way(width, height, 1);
    lemma_mul_nonnegative(y, width);
}

/// Two pixel positions with the same number coincide.
pub proof fn lemma_pixel_number_injective(width: int, p: int, x: int, y: int)
    requires
        0 <= x < width,
        0 <= y,
        0 <= p,
        p / width == y,
        p % width == x,
    ensures
        p == y * width + x,
{
    lemma_fundamental_div_mod(p, width);
    lemma_mul_is_commutative(width, p / width);
}

/// Painting one more pixel `(x, y)` on top of a painted raster is the same as
/// painting with the enlarged coverage.
pub proof fn lemma_paint_one_more(
    bytes: Seq<u8>,
    width: int,
    height: int,
    before: spec_fn(int, int) -> bool,
    after: spec_fn(int, int) -> bool,
    x: int,
    y: int,
    c: Rgb,
)
    requires
        bytes.len() == 3 * (width * height),
        0 <= x < width,
        0 <= y < height,
        forall|px: int, py: int| #[trigger] after(px, py) == (before(px, py) || (px == x && py == y)),
    ensures
        with_pixel(paint(bytes, width, before, c), pixel_number(width, x, y), c)
            == paint(bytes, width, after, c),
{
    let i = pixel_number(width, x, y);
    lemma_pixel_in_range(width, height, x, y);
    let lhs = with_pixel(paint(bytes, width, before, c), i, c);
    let rhs = paint(bytes, width, after, c);
    assert forall|k: int| 0 <= k < bytes.len() implies lhs[k] == rhs[k] by {
        let p = k / 3;
        lemma_fundamental_div_mod(k, 3);
        assert(0 <= p);
        if k == 3 * i || k == 3 * i + 1 || k == 3 * i + 2 {
            lemma_byte_coords(i, k - 3 * i);
            lemma_pixel_coords(width, x, y);
        } else {
            if p == i {
                assert(k == 3 * i + k % 3);
            }
            if p % width == x && p / width == y {
                lemma_pixel_number_injective(width, p, x, y);
            }
        }
    }
    assert(lhs =~= rhs);
}

/// Painting with a coverage that holds nowhere leaves the raster as it is.
pub proof fn lemma_paint_nothing(bytes: Seq<u8>, width: int, covered: spec_fn(int, int) -> bool, c: Rgb)
    requires
        forall|px: int, py: int| !#[trigger] covered(px, py),
    ensures
        paint(bytes, width, covered, c) == bytes,
{
    assert(paint(bytes, width, covered, c) =~= bytes);
}

/// Coverage predicates that agree on every pixel paint the same raster.
pub proof fn lemma_paint_same_coverage(
    bytes: Seq<u8>,
    width: int,
    a: spec_fn(int, int) -> bool,
    b: spec_fn(int, int) -> bool,
    c: Rgb,
)
    requires
        forall|px: int, py: int| #[trigger] a(px, py) == b(px, py),
    ensures
        paint(bytes, width, a, c) == paint(bytes, width, b, c),
{
    assert(paint(bytes, width, a, c) =~= paint(bytes, width, b, c));
}

/// Coverage predicates that agree on every pixel of a `width × height` raster
/// paint it the same way; what they say off the raster does not matter.
pub proof fn lemma_paint_on_raster(
    bytes: Seq<u8>,
    width: int,
    height: int,
    a: spec_fn(int, int) -> bool,
    b: spec_fn(int, int) -> bool,
    c: Rgb,
)
    requires
        bytes.len() == 3 * (width * height),
        width >= 0,
        height >= 0,
        forall|px: int, py: int| 0 <= px < width && 0 <= py < height ==> #[trigger] a(px, py) == b(px, py),
    ensures
        paint(bytes, width, a, c) == paint(bytes, width, b, c),
{
    assert forall|k: int| 0 <= k < bytes.len() implies paint(bytes, width, a, c)[k] == paint(
        bytes,
        width,
        b,
        c,
    )[k] by {
        let p = k / 3;
        lemma_fundamental_div_mod(k, 3);
        if width > 0 {
            lemma_div_pos_is_pos(p, width);
            lemma_mod_pos_bound(p, width);
            lemma_fundamental_div_mod(p, width);
            if p / width >= height {
                lemma_mul_inequality(height, p / width, width);
                lemma_mul_is_commutative(height, width);
                lemma_mul_is_commutative(p / width, width);
            }
        } else {
            lemma_mul_basics(height);
        }
    }
    assert(paint(bytes, width, a, c) =~= paint(bytes, width, b, c));
}

/// An RGB raster with a depth buffer.
#[derive(Clone, Debug)]
pub struct FrameBuffer {
    width: u32,
    height: u32,
    rgb: Vec<u8>,
    depth: Vec<u32>,
}

impl FrameBuffer {
    /// Raster width in pixels.
    pub closed spec fn spec_width(&self) -> int {
        self.width as int
    }

    /// Raster height in pixels.
    pub closed spec fn spec_height(&self) -> int {
        self.height as int
    }

    /// The colour bytes, three per pixel, row-major.
    pub closed spec fn bytes(&self) -> Seq<u8> {
        self.rgb@
    }

    /// The stored depths (as `f32` bit patterns), one per pixel, row-major.
    pub closed spec fn depths(&self) -> Seq<u32> {
        self.depth@
    }

    /// Sizes of the colour and depth buffers match the raster.
    pub open spec fn wf(&self) -> bool {
        &&& 0 <= self.spec_width() <= u32::MAX
        &&& 0 <= self.spec_height() <= u32::MAX
        &&& self.bytes().len() == 3 * (self.spec_width() * self.spec_height())
        &&& self.depths().len() == self.spec_width() * self.spec_height()
        &&& 3 * (self.spec_width() * self.spec_height()) <= usize::MAX
    }

    /// Whether `(x, y)` lies on the raster.
    pub open spec fn in_bounds(&self, x: int, y: int) -> bool {
        0 <= x < self.spec_width() && 0 <= y < self.spec_height()
    }

    /// Colour of pixel `(x, y)`.
    pub open spec fn color_at(&self, x: int, y: int) -> Rgb {
        let i = pixel_number(self.spec_width(), x, y);
        Rgb(self.bytes()[3 * i], self.bytes()[3 * i + 1], self.bytes()[3 * i + 2])
    }

    /// Stored depth of pixel `(x, y)`.
    pub open spec fn depth_at(&self, x: int, y: int) -> u32 {
        self.depths()[pixel_number(self.spec_width(), x, y)]
    }

    /// Whether `other` has the same size and the same stored depths as `self`.
    pub open spec fn same_geometry(&self, other: &FrameBuffer) -> bool {
        &&& other.spec_width() == self.spec_width()
        &&& other.spec_height() == self.spec_height()
        &&& other.depths() == self.depths()
    }

    /// Whether a depth-tested write of `point` passes: on the raster and nearer
    /// than the stored depth (`point.depth < stored` as `f32`; never when
    /// either is NaN).
    pub open spec fn depth_test_passes(&self, point: FbPoint) -> bool {
        self.in_bounds(point.x as int, point.y as int) && float_lt(
            point.depth,
            self.depth_at(point.x as int, point.y as int),
        )
    }

    /// `after` is `self` after a depth-tested write of `color` at `point`.
    pub open spec fn write_pixel_result(&self, after: &FrameBuffer, point: FbPoint, color: Rgb) -> bool {
        let i = pixel_number(self.spec_width(), point.x as int, point.y as int);
        &&& after.spec_width() == self.spec_width()
        &&& after.spec_height() == self.spec_height()
        &&& if self.depth_test_passes(point) {
            &&& after.bytes() == with_pixel(self.bytes(), i, color)
            &&& after.depths() == self.depths().update(i, point.depth)
        } else {
            &&& after.bytes() == self.bytes()
            &&& after.depths() == self.depths()
        }
    }

    /// Row `y` of the text picture: one shade character per pixel.
    pub open spec fn ascii_row(&self, y: int) -> Seq<char> {
        Seq::new(self.spec_width() as nat, |x: int| shade_char(self.color_at(x, y)))
    }

    /// The text picture: rows top to bottom, separated by `'\n'`.
    pub open spec fn ascii_art(&self) -> Seq<char> {
        joined_rows(Seq::new(self.spec_height() as nat, |y: int| self.ascii_row(y)))
    }

    /// A black raster whose every depth is `+infinity`.
    pub fn new(width: u32, height: u32) -> (fb: FrameBuffer)
        requires
            3 * (width * height) <= usize::MAX,
        ensures
            fb.wf(),
            fb.spec_width() == width,
            fb.spec_height() == height,
            fb.bytes() == Seq::new(3 * (width * height) as nat, |k: int| 0u8),
            fb.depths() == Seq::new((width * height) as nat, |k: int| infinity_bits()),
    {
        let pixel_count: usize = (width as usize) * (height as usize);
        let mut rgb: Vec<u8> = Vec::new();
        let mut depth: Vec<u32> = Vec::new();
        let mut k: usize = 0;
        while k < pixel_count
            invariant
                pixel_count == width * height,
                3 * pixel_count <= usize::MAX,
                k <= pixel_count,
                rgb@ == Seq::new(3 * k as nat, |j: int| 0u8),
                depth@ == Seq::new(k as nat, |j: int| infinity_bits()),
            decreases pixel_count - k,
        {
            rgb.push(0);
            rgb.push(0);
            rgb.push(0);
            depth.push(0x7f80_0000);
            k = k + 1;
            assert(rgb@ =~= Seq::new(3 * k as nat, |j: int| 0u8));
            assert(depth@ =~= Seq::new(k as nat, |j: int| infinity_bits()));
        }
        FrameBuffer { width, height, rgb, depth }
    }

    /// Width in pixels.
    pub fn width(&self) -> (w: u32)
        ensures
            w == self.spec_width(),
    {
        self.width
    }

    /// Height in pixels.
    pub fn height(&self) -> (h: u32)
        ensures
            h == self.spec_height(),
    {
        self.height
    }

    /// The colour bytes, three per pixel, row-major.
    pub fn as_bytes(&self) -> (b: &[u8])
        ensures
            b@ == self.bytes(),
    {
        self.rgb.as_slice()
    }

    /// Resets every pixel to black and every depth to `+infinity`.
    pub fn clear(&mut self)
        requires
            old(self).wf(),
        ensures
            final(self).wf(),
            final(self).spec_width() == old(self).spec_width(),
            final(self).spec_height() == old(self).spec_height(),
            final(self).bytes() == Seq::new(old(self).bytes().len(), |k: int| 0u8),
            final(self).depths() == Seq::new(old(self).depths().len(), |k: int| infinity_bits()),
    {
        let n = self.rgb.len();
        let mut k: usize = 0;
        while k < n
            invariant
                n == self.rgb@.len(),
                self.rgb@.len() == old(self).rgb@.len(),
                self.depth@ == old(self).depth@,
                self.width == old(self).width,
                self.height == old(self).height,
                k <= n,
                forall|j: int| 0 <= j < k ==> self.rgb@[j] == 0u8,
            decreases n - k,
        {
            self.rgb.set(k, 0);
            k = k + 1;
        }
        let m = self.depth.len();
        let mut k: usize = 0;
        while k < m
            invariant
                m == self.depth@.len(),
                self.depth@.len() == old(self).depth@.len(),
                self.rgb@.len() == old(self).rgb@.len(),
                forall|j: int| 0 <= j < n ==> self.rgb@[j] == 0u8,
                n == self.rgb@.len(),
                self.width == old(self).width,
                self.height == old(self).height,
                k <= m,
                forall|j: int| 0 <= j < k ==> self.depth@[j] == infinity_bits(),
            decreases m - k,
        {
            self.depth.set(k, 0x7f80_0000);
            k = k + 1;
        }
        assert(self.rgb@ =~= Seq::new(old(self).rgb@.len(), |k: int| 0u8));
        assert(self.depth@ =~= Seq::new(old(self).depth@.len(), |k: int| infinity_bits()));
    }

    /// Row-major number of pixel `(x, y)`, or `None` off the raster.
    pub fn pixel_index(&self, x: u32, y: u32) -> (r: Option<usize>)
        requires
            self.wf(),
        ensures
            self.in_bounds(x as int, y as int) <==> r is Some,
            r matches Some(i) ==> i == pixel_number(self.spec_width(), x as int, y as int)
                && 3 * i + 2 < self.bytes().len() && i < self.depths().len(),
    {
        if x >= self.width || y >= self.height {
            None
        } else {
            proof {
                lemma_pixel_in_range(self.width as int, self.height as int, x as int, y as int);
            }
            Some(y as usize * self.width as usize + x as usize)
        }
    }

    /// Offset of the first colour byte of pixel `(x, y)`, or `None` off the raster.
    pub fn pixel_offset(&self, x: u32, y: u32) -> (r: Option<usize>)
        requires
            self.wf(),
        ensures
            self.in_bounds(x as int, y as int) <==> r is Some,
            r matches Some(o) ==> o == 3 * pixel_number(self.spec_width(), x as int, y as int)
                && o + 2 < self.bytes().len(),
    {
        match self.pixel_index(x, y) {
            Some(i) => Some(i * 3),
            None => None,
        }
    }

    /// Colour of pixel `(x, y)`; black off the raster.
    pub fn get_pixel(&self, x: u32, y: u32) -> (c: Rgb)
        requires
            self.wf(),
        ensures
            self.in_bounds(x as int, y as int) ==> c == self.color_at(x as int, y as int),
            !self.in_bounds(x as int, y as int) ==> c == Rgb(0, 0, 0),
    {
        match self.pixel_offset(x, y) {
            Some(i) => Rgb(self.rgb[i], self.rgb[i + 1], self.rgb[i + 2]),
            None => Rgb(0, 0, 0),
        }
    }

    /// Paints pixel `(x, y)` with `color`; does nothing off the raster. Depths
    /// are not read or written.
    pub fn set_pixel(&mut self, x: u32, y: u32, color: Rgb)
        requires
            old(self).wf(),
        ensures
            final(self).wf(),
            old(self).same_geometry(&*final(self)),
            old(self).in_bounds(x as int, y as int) ==> final(self).bytes() == with_pixel(
                old(self).bytes(),
                pixel_number(old(self).spec_width(), x as int, y as int),
                color,
            ),
            !old(self).in_bounds(x as int, y as int) ==> final(self).bytes() == old(self).bytes(),
    {
        let Some(i) = self.pixel_offset(x, y) else {
            return;
        };
        self.rgb.set(i, color.0);
        self.rgb.set(i + 1, color.1);
        self.rgb.set(i + 2, color.2);
    }

    /// Writes `color` at `point` when `point.depth` is nearer than the stored
    /// depth (`point.depth < stored` as `f32`, which no NaN on either side
    /// meets); then stores `point.depth`. Does nothing off the raster.
    pub fn write_pixel(&mut self, point: FbPoint, color: Rgb)
        requires
            old(self).wf(),
        ensures
            final(self).wf(),
            final(self).spec_width() == old(self).spec_width(),
            final(self).spec_height() == old(self).spec_height(),
            old(self).write_pixel_result(&*final(self), point, color),
    {
        let Some(i) = self.pixel_index(point.x, point.y) else {
            return;
        };
        if !float_bits_lt(point.depth, self.depth[i]) {
            return;
        }
        self.depth.set(i, point.depth);
        let o = i * 3;
        self.rgb.set(o, color.0);
        self.rgb.set(o + 1, color.1);
        self.rgb.set(o + 2, color.2);
    }

    /// Multi-line text picture: one row per line, `' '` for black pixels and
    /// `░ ▒ ▓ █` by brightness quarter for the others.
    pub fn to_ascii_art(&self) -> (out: String)
        requires
            self.wf(),
        ensures
            out@ == self.ascii_art(),
    {
        let ghost rows = Seq::new(self.spec_height() as nat, |y: int| self.ascii_row(y));
        let mut out = String::new();
        let mut y: u32 = 0;
        while y < self.height
            invariant
                self.wf(),
                y <= self.spec_height(),
                rows == Seq::new(self.spec_height() as nat, |y: int| self.ascii_row(y)),
                out@ == joined_rows(rows.take(y as int)),
            decreases self.height - y,
        {
            if y > 0 {
                push_char(&mut out, '\n');
            }
            let ghost row_start = out@;
            let mut x: u32 = 0;
            while x < self.width
                invariant
                    self.wf(),
                    x <= self.spec_width(),
                    y < self.spec_height(),
                    out@ == row_start + self.ascii_row(y as int).take(x as int),
                decreases self.width - x,
            {
                let c = self.get_pixel(x, y);
                push_char(&mut out, c.ascii_shade());
                proof {
                    assert(out@ =~= row_start + self.ascii_row(y as int).take(x + 1));
                }
                x = x + 1;
            }
            proof {
                assert(self.ascii_row(y as int).take(x as int) =~= self.ascii_row(y as int));
                assert(rows.take(y + 1).drop_last() =~= rows.take(y as int));
                assert(rows.take(y + 1).last() == rows[y as int]);
                if y == 0 {
                    assert(out@ =~= joined_rows(rows.take(1)));
                } else {
                    assert(out@ =~= joined_rows(rows.take(y + 1)));
                }
            }
            y = y + 1;
        }
        proof {
            assert(rows.take(y as int) =~= rows);
        }
        out
    }

    /// Paints the pixels `x_min ..= x_max` of row `y` with `color`, skipping
    /// those off the raster.
    pub fn draw_horz_line(&mut self, x_min: u32, x_max: u32, y: u32, color: Rgb)
        requires
            old(self).wf(),
        ensures
            final(self).wf(),
            old(self).same_geometry(&*final(self)),
            final(self).bytes() == paint(
                old(self).bytes(),
                old(self).spec_width(),
                |px: int, py: int| py == y && x_min <= px <= x_max,
                color,
            ),
    {
        let ghost w = self.spec_width();
        let ghost h = self.spec_height();
        let ghost start = self.bytes();
        proof {
            lemma_paint_nothing(start, w, |px: int, py: int| py == y && x_min <= px < x_min, color);
        }
        if x_min > x_max {
            proof {
                lemma_paint_nothing(start, w, |px: int, py: int| py == y && x_min <= px <= x_max, color);
            }
            return;
        }
        let mut x: u64 = x_min as u64;
        while x <= x_max as u64
            invariant
                self.wf(),
                old(self).same_geometry(&*self),
                w == self.spec_width(),
                h == self.spec_height(),
                start == old(self).bytes(),
                x_min <= x <= x_max as u64 + 1,
                self.bytes() == paint(start, w, |px: int, py: int| py == y && x_min <= px < x, color),
            decreases x_max as u64 + 1 - x,
        {
            let ghost before = self.bytes();
            self.set_pixel(x as u32, y, color);
            proof {
                let b = |px: int, py: int| py == y && x_min <= px < x;
                let a = |px: int, py: int| py == y && x_min <= px < x + 1;
                if self.in_bounds(x as int, y as int) {
                    lemma_paint_one_more(start, w, h, b, a, x as int, y as int, color);
                } else {
                    lemma_paint_on_raster(start, w, h, a, b, color);
                }
            }
            x = x + 1;
        }
        proof {
            lemma_paint_same_coverage(
                start,
                w,
                |px: int, py: int| py == y && x_min <= px < x,
                |px: int, py: int| py == y && x_min <= px <= x_max,
                color,
            );
        }
    }
}

/// Reading back a painted pixel gives its new colour; every other pixel reads
/// as before.
pub proof fn lemma_with_pixel_read_back(before: FrameBuffer, after: FrameBuffer, x: int, y: int, c: Rgb, px: int, py: int)
    requires
        before.wf(),
        after.spec_width() == before.spec_width(),
        after.spec_height() == before.spec_height(),
        before.in_bounds(x, y),
        before.in_bounds(px, py),
        after.bytes() == with_pixel(before.bytes(), pixel_number(before.spec_width(), x, y), c),
    ensures
        after.color_at(x, y) == c,
        (px != x || py != y) ==> after.color_at(px, py) == before.color_at(px, py),
{
    let w = before.spec_width();
    let h = before.spec_height();
    lemma_pixel_in_range(w, h, x, y);
    lemma_pixel_in_range(w, h, px, py);
    if px != x || py != y {
        if pixel_number(w, px, py) == pixel_number(w, x, y) {
            lemma_pixel_coords(w, x, y);
            lemma_pixel_coords(w, px, py);
        }
    }
}

/// Two depth-tested writes to one pixel whose stored depth is `+infinity`
/// leave the colour of the nearer one; on equal depths, or when the second
/// depth is NaN, the first stays.
pub proof fn lemma_nearer_write_wins(
    f0: FrameBuffer,
    f1: FrameBuffer,
    f2: FrameBuffer,
    p1: FbPoint,
    c1: Rgb,
    p2: FbPoint,
    c2: Rgb,
)
    requires
        f0.wf(),
        f0.write_pixel_result(&f1, p1, c1),
        f1.write_pixel_result(&f2, p2, c2),
        p1.x == p2.x,
        p1.y == p2.y,
        f0.in_bounds(p1.x as int, p1.y as int),
        f0.depth_at(p1.x as int, p1.y as int) == infinity_bits(),
        !is_nan_bits(p1.depth),
        p1.depth != infinity_bits(),
    ensures
        f2.color_at(p1.x as int, p1.y as int) == (if float_lt(p2.depth, p1.depth) {
            c2
        } else {
            c1
        }),
        f2.depth_at(p1.x as int, p1.y as int) == (if float_lt(p2.depth, p1.depth) {
            p2.depth
        } else {
            p1.depth
        }),
{
    let x = p1.x as int;
    let y = p1.y as int;
    crate::depth::lemma_infinity_is_top(p1.depth);
    assert(f0.depth_test_passes(p1));
    assert(f1.depths() == f0.depths().update(pixel_number(f0.spec_width(), x, y), p1.depth));
    lemma_pixel_in_range(f0.spec_width(), f0.spec_height(), x, y);
    assert(f1.wf());
    lemma_with_pixel_read_back(f0, f1, x, y, c1, x, y);
    assert(f1.depth_at(x, y) == p1.depth);
    if float_lt(p2.depth, p1.depth) {
        assert(f1.depth_test_passes(p2));
        assert(f2.depths() == f1.depths().update(pixel_number(f1.spec_width(), x, y), p2.depth));
        lemma_with_pixel_read_back(f1, f2, x, y, c2, x, y);
    } else {
        assert(!f1.depth_test_passes(p2));
    }
}

/// On a cleared raster (every depth `+infinity`) a depth-tested write lands
/// whenever its depth is a number other than `+infinity`.
pub proof fn lemma_cleared_pixel_takes_write(before: FrameBuffer, after: FrameBuffer, p: FbPoint, c: Rgb)
    requires
        before.wf(),
        before.depths() == Seq::new(before.depths().len(), |k: int| infinity_bits()),
        before.in_bounds(p.x as int, p.y as int),
        p.depth != infinity_bits(),
        !is_nan_bits(p.depth),
        before.write_pixel_result(&after, p, c),
    ensures
        after.color_at(p.x as int, p.y as int) == c,
        after.depth_at(p.x as int, p.y as int) == p.depth,
{
    let x = p.x as int;
    let y = p.y as int;
    lemma_pixel_in_range(before.spec_width(), before.spec_height(), x, y);
    crate::depth::lemma_infinity_is_top(p.depth);
    assert(before.depth_test_passes(p));
    lemma_with_pixel_read_back(before, after, x, y, c, x, y);
}

} // verus!
