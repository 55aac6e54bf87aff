//! Flat-filled convex polygons in pixel space: a half-plane inside test per
//! pixel over the polygon's bounding box.

use vstd::prelude::*;

use crate::colors::Rgb;
use crate::framebuffer::{FrameBuffer, Point, paint, lemma_paint_nothing, lemma_paint_one_more,
    lemma_paint_on_raster, lemma_paint_same_coverage};

verus! {

/// Signed area test: `(b - a) ⟂· (p - a)`, positive when `p` lies to one side of
/// the directed edge `a → b`, negative on the other, zero on its line. It is
/// the exact integer value; an `f32` `perp_dot` gives the same sign only while
/// the coordinates stay within `f32`'s exact integer range (below 2048 each
/// side suffices), and can round beyond it.
pub open spec fn cross(a: Point, b: Point, x: int, y: int) -> int {
    (b.x - a.x) * (y - a.y) - (b.y - a.y) * (x - a.x)
}

/// Cross term of pixel `(x, y)` against edge `i` (from corner `i` to the next
/// corner, cyclically).
pub open spec fn edge_cross(corners: Seq<Point>, i: int, x: int, y: int) -> int {
    cross(corners[i], corners[(i + 1) % (corners.len() as int)], x, y)
}

/// Pixel `(x, y)` is on the inner side of (or on) every edge, for one winding
/// or the other: all cross terms are `>= 0`, or all are `<= 0`.
pub open spec fn convex_contains(corners: Seq<Point>, x: int, y: int) -> bool {
    ||| forall|i: int| 0 <= i < corners.len() ==> #[trigger] edge_cross(corners, i, x, y) >= 0
    ||| forall|i: int| 0 <= i < corners.len() ==> #[trigger] edge_cross(corners, i, x, y) <= 0
}

/// `(x, y)` lies in the inclusive rectangle spanned by `min` and `max`.
pub open spec fn in_rect(min: Point, max: Point, x: int, y: int) -> bool {
    min.x <= x <= max.x && min.y <= y <= max.y
}

/// `r` is the inclusive bounding rectangle of `corners`: `r[0]` holds the least
/// `x` and `y` of the corners, `r[1]` the greatest.
pub open spec fn is_bounding_rect(corners: Seq<Point>, r: [Point; 2]) -> bool {
    &&& forall|i: int| 0 <= i < corners.len() ==> r[0].x <= #[trigger] corners[i].x <= r[1].x
    &&& forall|i: int| 0 <= i < corners.len() ==> r[0].y <= #[trigger] corners[i].y <= r[1].y
    &&& exists|i: int| 0 <= i < corners.len() && corners[i].x == r[0].x
    &&& exists|i: int| 0 <= i < corners.len() && corners[i].y == r[0].y
    &&& exists|i: int| 0 <= i < corners.len() && corners[i].x == r[1].x
    &&& exists|i: int| 0 <= i < corners.len() && corners[i].y == r[1].y
}

/// Pixels a convex polygon fill covers: its bounding rectangle intersected with
/// its inside test.
pub open spec fn polygon_covers(corners: Seq<Point>, r: [Point; 2], x: int, y: int) -> bool {
    in_rect(r[0], r[1], x, y) && convex_contains(corners, x, y)
}

/// `corners` started at corner `k` instead of corner 0.
pub open spec fn rotate(corners: Seq<Point>, k: int) -> Seq<Point> {
    Seq::new(corners.len(), |i: int| corners[(i + k) % (corners.len() as int)])
}

/// Inclusive bounding rectangle of `corners`: minimum corner, then maximum corner.
fn calculate_bounding_rect(corners: &[Point]) -> (r: [Point; 2])
    requires
        corners.len() >= 1,
    ensures
        is_bounding_rect(corners@, r),
{
    let mut min_x = corners[0].x;
    let mut min_y = corners[0].y;
    let mut max_x = corners[0].x;
    let mut max_y = corners[0].y;
    let mut k: usize = 1;
    while k < corners.len()
        invariant
            1 <= k <= corners.len(),
            forall|i: int| 0 <= i < k ==> min_x <= #[trigger] corners@[i].x <= max_x,
            forall|i: int| 0 <= i < k ==> min_y <= #[trigger] corners@[i].y <= max_y,
            exists|i: int| 0 <= i < k && corners@[i].x == min_x,
            exists|i: int| 0 <= i < k && corners@[i].y == min_y,
            exists|i: int| 0 <= i < k && corners@[i].x == max_x,
            exists|i: int| 0 <= i < k && corners@[i].y == max_y,
        decreases corners.len() - k,
    {
        let v = corners[k];
        if v.x < min_x {
            min_x = v.x;
        }
        if v.y < min_y {
            min_y = v.y;
        }
        if v.x > max_x {
            max_x = v.x;
        }
        if v.y > max_y {
            max_y = v.y;
        }
        k = k + 1;
    }
    [Point { x: min_x, y: min_y }, Point { x: max_x, y: max_y }]
}

/// Cross term `(b - a) ⟂· (p - a)` computed exactly.
fn cross_exec(a: Point, b: Point, x: u32, y: u32) -> (c: i128)
    ensures
        c == cross(a, b, x as int, y as int),
{
    let ex: i128 = b.x as i128 - a.x as i128;
    let ey: i128 = b.y as i128 - a.y as i128;
    let px: i128 = x as i128 - a.x as i128;
    let py: i128 = y as i128 - a.y as i128;
    assert(-0x1_0000_0000 < ex < 0x1_0000_0000 && -0x1_0000_0000 < py < 0x1_0000_0000);
    assert(-0x1_0000_0000 < ey < 0x1_0000_0000 && -0x1_0000_0000 < px < 0x1_0000_0000);
    assert(-0x1_0000_0000_0000_0000 <= ex * py <= 0x1_0000_0000_0000_0000) by (nonlinear_arith)
        requires
            -0x1_0000_0000 < ex < 0x1_0000_0000,
            -0x1_0000_0000 < py < 0x1_0000_0000,
    ;
    assert(-0x1_0000_0000_0000_0000 <= ey * px <= 0x1_0000_0000_0000_0000) by (nonlinear_arith)
        requires
            -0x1_0000_0000 < ey < 0x1_0000_0000,
            -0x1_0000_0000 < px < 0x1_0000_0000,
    ;
    ex * py - ey * px
}

/// Inside test with a running winding sign: the first non-zero cross term fixes
/// the winding, a later term of the opposite sign rejects the pixel, zero terms
/// are skipped.
fn convex_contains_exec(corners: &[Point], x: u32, y: u32) -> (r: bool)
    requires
        corners.len() >= 1,
    ensures
        r == convex_contains(corners@, x as int, y as int),
{
    let n = corners.len();
    let mut winding: i8 = 0;
    let mut i: usize = 0;
    while i < n
        invariant
            n == corners@.len(),
            n >= 1,
            i <= n,
            winding == 0 || winding == 1 || winding == -1,
            winding == 0 ==> forall|j: int| 0 <= j < i ==> #[trigger] edge_cross(corners@, j, x as int, y as int) == 0,
            winding == 1 ==> forall|j: int| 0 <= j < i ==> #[trigger] edge_cross(corners@, j, x as int, y as int) >= 0,
            winding == 1 ==> exists|j: int| 0 <= j < i && #[trigger] edge_cross(corners@, j, x as int, y as int) > 0,
            winding == -1 ==> forall|j: int| 0 <= j < i ==> #[trigger] edge_cross(corners@, j, x as int, y as int) <= 0,
            winding == -1 ==> exists|j: int| 0 <= j < i && #[trigger] edge_cross(corners@, j, x as int, y as int) < 0,
        decreases n - i,
    {
        let a = corners[i];
        let next = if i + 1 == n {
            0
        } else {
            i + 1
        };
        let b = corners[next];
        assert(next == (i + 1) % (n as int)) by {
            if i + 1 == n {
                vstd::arithmetic::div_mod::lemma_mod_self_0(n as int);
            } else {
                vstd::arithmetic::div_mod::lemma_small_mod((i + 1) as nat, n as nat);
            }
        }
        let c = cross_exec(a, b, x, y);
        assert(c == edge_cross(corners@, i as int, x as int, y as int));
        if c != 0 {
            let w: i8 = if c > 0 {
                1
            } else {
                -1
            };
            if winding == 0 {
                winding = w;
            } else if winding != w {
                return false;
            }
        }
        i = i + 1;
    }
    true
}

/// Paints every pixel of the rectangle `r` that passes the convex inside test
/// of `corners`; pixels off the raster are skipped.
fn fill_convex(fb: &mut FrameBuffer, corners: &[Point], r: [Point; 2], color: Rgb)
    requires
        old(fb).wf(),
        corners.len() >= 1,
    ensures
        final(fb).wf(),
        old(fb).same_geometry(&*final(fb)),
        final(fb).bytes() == paint(
            old(fb).bytes(),
            old(fb).spec_width(),
            |px: int, py: int| polygon_covers(corners@, r, px, py),
            color,
        ),
{
    let ghost w = fb.spec_width();
    let ghost h = fb.spec_height();
    let ghost start = fb.bytes();
    let ghost cs = corners@;
    let min = r[0];
    let max = r[1];
    if min.y > max.y || min.x > max.x {
        proof {
            lemma_paint_nothing(start, w, |px: int, py: int| polygon_covers(cs, r, px, py), color);
        }
        return;
    }
    proof {
        lemma_paint_nothing(
            start,
            w,
            |px: int, py: int| polygon_covers(cs, r, px, py) && py < min.y,
            color,
        );
    }
    let mut y: u64 = min.y as u64;
    while y <= max.y as u64
        invariant
            fb.wf(),
            old(fb).same_geometry(&*fb),
            w == fb.spec_width(),
            h == fb.spec_height(),
            start == old(fb).bytes(),
            cs == corners@,
            cs.len() >= 1,
            min == r[0],
            max == r[1],
            min.x <= max.x,
            min.y <= y <= max.y as u64 + 1,
            fb.bytes() == paint(start, w, |px: int, py: int| polygon_covers(cs, r, px, py) && py < y, color),
        decreases max.y as u64 + 1 - y,
    {
        proof {
            lemma_paint_same_coverage(
                start,
                w,
                |px: int, py: int| polygon_covers(cs, r, px, py) && py < y,
                |px: int, py: int| polygon_covers(cs, r, px, py) && (py < y || (py == y && px < min.x)),
                color,
            );
        }
        let mut x: u64 = min.x as u64;
        while x <= max.x as u64
            invariant
                fb.wf(),
                old(fb).same_geometry(&*fb),
                w == fb.spec_width(),
                h == fb.spec_height(),
                start == old(fb).bytes(),
                cs == corners@,
                cs.len() >= 1,
                min == r[0],
                max == r[1],
                min.y <= y <= max.y,
                min.x <= x <= max.x as u64 + 1,
                fb.bytes() == paint(
                    start,
                    w,
                    |px: int, py: int| polygon_covers(cs, r, px, py) && (py < y || (py == y && px < x)),
                    color,
                ),
            decreases max.x as u64 + 1 - x,
        {
            let ghost b = |px: int, py: int| polygon_covers(cs, r, px, py) && (py < y || (py == y && px < x));
            let ghost a = |px: int, py: int| polygon_covers(cs, r, px, py) && (py < y || (py == y && px < x + 1));
            if convex_contains_exec(corners, x as u32, y as u32) {
                fb.set_pixel(x as u32, y as u32, color);
                proof {
                    if fb.in_bounds(x as int, y as int) {
                        lemma_paint_one_more(start, w, h, b, a, x as int, y as int, color);
                    } else {
                        lemma_paint_on_raster(start, w, h, a, b, color);
                    }
                }
            } else {
                proof {
                    lemma_paint_same_coverage(start, w, a, b, color);
                }
            }
            x = x + 1;
        }
        proof {
            lemma_paint_same_coverage(
                start,
                w,
                |px: int, py: int| polygon_covers(cs, r, px, py) && (py < y || (py == y && px < x)),
                |px: int, py: int| polygon_covers(cs, r, px, py) && py < y + 1,
                color,
            );
        }
        y = y + 1;
    }
    proof {
        lemma_paint_same_coverage(
            start,
            w,
            |px: int, py: int| polygon_covers(cs, r, px, py) && py < y,
            |px: int, py: int| polygon_covers(cs, r, px, py),
            color,
        );
    }
}

/// Four convex corners in cyclic order (either winding), filled flat with one
/// colour, edges included.
#[derive(Clone, Copy, Debug)]
pub struct FillQuad {
    corners: [Point; 4],
    /// Inclusive scan bounds: minimum corner, then maximum corner.
    bounding_rect: [Point; 2],
    color: Rgb,
}

impl FillQuad {
    /// The fill colour.
    pub closed spec fn spec_color(&self) -> Rgb {
        self.color
    }

    /// The fill colour.
    pub fn color(&self) -> (c: Rgb)
        ensures
            c == self.spec_color(),
    {
        self.color
    }

    /// The corners as given.
    pub closed spec fn spec_corners(&self) -> Seq<Point> {
        self.corners@
    }

    /// Pixels the fill paints: the corners' bounding rectangle intersected with
    /// the convex inside test.
    pub closed spec fn covers(&self, x: int, y: int) -> bool {
        polygon_covers(self.corners@, self.bounding_rect, x, y)
    }

    pub fn new(corners: [Point; 4], color: Rgb) -> (q: FillQuad)
        ensures
            q.spec_corners() == corners@,
            q.spec_color() == color,
            forall|x: int, y: int| #[trigger] q.covers(x, y) <==> exists|r: [Point; 2]|
                is_bounding_rect(corners@, r) && polygon_covers(corners@, r, x, y),
    {
        let bounding_rect = calculate_bounding_rect(&corners);
        let q = FillQuad { corners, bounding_rect, color };
        proof {
            assert forall|x: int, y: int| #[trigger] q.covers(x, y) <==> exists|r: [Point; 2]|
                is_bounding_rect(corners@, r) && polygon_covers(corners@, r, x, y) by {
                if exists|r: [Point; 2]| is_bounding_rect(corners@, r) && polygon_covers(corners@, r, x, y) {
                    let r = choose|r: [Point; 2]| is_bounding_rect(corners@, r) && polygon_covers(corners@, r, x, y);
                    lemma_bounding_rect_unique(corners@, r, bounding_rect);
                }
            }
        }
        q
    }

    /// Rasterizes the quad, edges included; pixels off the raster are skipped.
    pub fn draw(self, fb: &mut FrameBuffer)
        requires
            old(fb).wf(),
        ensures
            final(fb).wf(),
            old(fb).same_geometry(&*final(fb)),
            final(fb).bytes() == paint(
                old(fb).bytes(),
                old(fb).spec_width(),
                |px: int, py: int| self.covers(px, py),
                self.spec_color(),
            ),
    {
        fill_convex(fb, &self.corners, self.bounding_rect, self.color);
        proof {
            lemma_paint_same_coverage(
                old(fb).bytes(),
                old(fb).spec_width(),
                |px: int, py: int| polygon_covers(self.corners@, self.bounding_rect, px, py),
                |px: int, py: int| self.covers(px, py),
                self.color,
            );
        }
    }

    /// Inside test for one pixel (edges included).
    pub fn is_point_inside(&self, p: Point) -> (r: bool)
        ensures
            r == convex_contains(self.spec_corners(), p.x as int, p.y as int),
    {
        convex_contains_exec(&self.corners, p.x, p.y)
    }
}

/// Three corners in cyclic order (either winding), filled flat with one colour,
/// edges included.
#[derive(Clone, Copy, Debug)]
pub struct FillTriangle {
    corners: [Point; 3],
    /// Inclusive scan bounds: minimum corner, then maximum corner.
    bounding_rect: [Point; 2],
    color: Rgb,
}

impl FillTriangle {
    /// The fill colour.
    pub closed spec fn spec_color(&self) -> Rgb {
        self.color
    }

    /// The fill colour.
    pub fn color(&self) -> (c: Rgb)
        ensures
            c == self.spec_color(),
    {
        self.color
    }

    /// The corners as given.
    pub closed spec fn spec_corners(&self) -> Seq<Point> {
        self.corners@
    }

    /// Pixels the fill paints: the corners' bounding rectangle intersected with
    /// the convex inside test.
    pub closed spec fn covers(&self, x: int, y: int) -> bool {
        polygon_covers(self.corners@, self.bounding_rect, x, y)
    }

    pub fn new(corners: [Point; 3], color: Rgb) -> (t: FillTriangle)
        ensures
            t.spec_corners() == corners@,
            t.spec_color() == color,
            forall|x: int, y: int| #[trigger] t.covers(x, y) <==> exists|r: [Point; 2]|
                is_bounding_rect(corners@, r) && polygon_covers(corners@, r, x, y),
    {
        let bounding_rect = calculate_bounding_rect(&corners);
        let t = FillTriangle { corners, bounding_rect, color };
        proof {
            assert forall|x: int, y: int| #[trigger] t.covers(x, y) <==> exists|r: [Point; 2]|
                is_bounding_rect(corners@, r) && polygon_covers(corners@, r, x, y) by {
                if exists|r: [Point; 2]| is_bounding_rect(corners@, r) && polygon_covers(corners@, r, x, y) {
                    let r = choose|r: [Point; 2]| is_bounding_rect(corners@, r) && polygon_covers(corners@, r, x, y);
                    lemma_bounding_rect_unique(corners@, r, bounding_rect);
                }
            }
        }
        t
    }

    /// Rasterizes the triangle, edges included; pixels off the raster are skipped.
    pub fn draw(self, fb: &mut FrameBuffer)
        requires
            old(fb).wf(),
        ensures
            final(fb).wf(),
            old(fb).same_geometry(&*final(fb)),
            final(fb).bytes() == paint(
                old(fb).bytes(),
                old(fb).spec_width(),
                |px: int, py: int| self.covers(px, py),
                self.spec_color(),
            ),
    {
        fill_convex(fb, &self.corners, self.bounding_rect, self.color);
        proof {
            lemma_paint_same_coverage(
                old(fb).bytes(),
                old(fb).spec_width(),
                |px: int, py: int| polygon_covers(self.corners@, self.bounding_rect, px, py),
                |px: int, py: int| self.covers(px, py),
                self.color,
            );
        }
    }

    /// Inside test for one pixel (edges included).
    pub fn is_point_inside(&self, p: Point) -> (r: bool)
        ensures
            r == convex_contains(self.spec_corners(), p.x as int, p.y as int),
    {
        convex_contains_exec(&self.corners, p.x, p.y)
    }
}

/// The bounding rectangle of a corner list is unique.
pub proof fn lemma_bounding_rect_unique(corners: Seq<Point>, r: [Point; 2], s: [Point; 2])
    requires
        is_bounding_rect(corners, r),
        is_bounding_rect(corners, s),
    ensures
        r == s,
{
    let i0 = choose|i: int| 0 <= i < corners.len() && corners[i].x == r[0].x;
    let j0 = choose|i: int| 0 <= i < corners.len() && corners[i].x == s[0].x;
    let i1 = choose|i: int| 0 <= i < corners.len() && corners[i].y == r[0].y;
    let j1 = choose|i: int| 0 <= i < corners.len() && corners[i].y == s[0].y;
    let i2 = choose|i: int| 0 <= i < corners.len() && corners[i].x == r[1].x;
    let j2 = choose|i: int| 0 <= i < corners.len() && corners[i].x == s[1].x;
    let i3 = choose|i: int| 0 <= i < corners.len() && corners[i].y == r[1].y;
    let j3 = choose|i: int| 0 <= i < corners.len() && corners[i].y == s[1].y;
    assert(corners[i0].x == r[0].x && corners[j0].x == s[0].x);
    assert(corners[i1].y == r[0].y && corners[j1].y == s[0].y);
    assert(corners[i2].x == r[1].x && corners[j2].x == s[1].x);
    assert(corners[i3].y == r[1].y && corners[j3].y == s[1].y);
    assert(r[0] == s[0]);
    assert(r[1] == s[1]);
    assert(r@ =~= s@);
}

/// `corners` listed in the opposite cyclic order.
pub open spec fn reverse_order(corners: Seq<Point>) -> Seq<Point> {
    Seq::new(corners.len(), |i: int| corners[corners.len() - 1 - i])
}

/// The pixels a fill of `corners` covers (the set `FillQuad::new` and
/// `FillTriangle::new` describe).
pub open spec fn fill_covers(corners: Seq<Point>, x: int, y: int) -> bool {
    exists|r: [Point; 2]| is_bounding_rect(corners, r) && polygon_covers(corners, r, x, y)
}

proof fn lemma_rotated_edge(corners: Seq<Point>, k: int, i: int, x: int, y: int)
    requires
        corners.len() >= 1,
        0 <= k < corners.len(),
        0 <= i < corners.len(),
    ensures
        edge_cross(rotate(corners, k), i, x, y) == edge_cross(corners, (i + k) % (corners.len() as int), x, y),
{
    let n = corners.len() as int;
    let rot = rotate(corners, k);
    vstd::arithmetic::div_mod::lemma_mod_bound(i + 1, n);
    vstd::arithmetic::div_mod::lemma_add_mod_noop(i + 1, k, n);
    vstd::arithmetic::div_mod::lemma_mod_twice(k, n);
    vstd::arithmetic::div_mod::lemma_small_mod(k as nat, n as nat);
    vstd::arithmetic::div_mod::lemma_add_mod_noop(i + k, 1, n);
    vstd::arithmetic::div_mod::lemma_mod_twice(i + k, n);
    if n > 1 {
        vstd::arithmetic::div_mod::lemma_small_mod(1nat, n as nat);
    }
    if n == 1 {
        vstd::arithmetic::div_mod::lemma_mod_self_0(1);
    }
    assert(rot[(i + 1) % n] == corners[((i + 1) % n + k) % n]);
    assert(((i + 1) % n + k) % n == ((i + k) % n + 1) % n);
}

/// A corner list whose every corner occurs in another list has that list's
/// bounding rectangle whenever, conversely, every corner of the other occurs in it.
proof fn lemma_bounds_of_same_corners(
    a: Seq<Point>,
    b: Seq<Point>,
    f: spec_fn(int) -> int,
    g: spec_fn(int) -> int,
    r: [Point; 2],
)
    requires
        a.len() == b.len(),
        forall|i: int| 0 <= i < b.len() ==> 0 <= #[trigger] f(i) < a.len() && b[i] == a[f(i)],
        forall|j: int| 0 <= j < a.len() ==> 0 <= #[trigger] g(j) < b.len() && a[j] == b[g(j)],
        is_bounding_rect(a, r),
    ensures
        is_bounding_rect(b, r),
{
    assert forall|i: int| 0 <= i < b.len() implies r[0].x <= #[trigger] b[i].x <= r[1].x by {
        assert(b[i] == a[f(i)]);
    }
    assert forall|i: int| 0 <= i < b.len() implies r[0].y <= #[trigger] b[i].y <= r[1].y by {
        assert(b[i] == a[f(i)]);
    }
    let i0 = choose|i: int| 0 <= i < a.len() && a[i].x == r[0].x;
    let i1 = choose|i: int| 0 <= i < a.len() && a[i].y == r[0].y;
    let i2 = choose|i: int| 0 <= i < a.len() && a[i].x == r[1].x;
    let i3 = choose|i: int| 0 <= i < a.len() && a[i].y == r[1].y;
    assert(0 <= g(i0) < b.len() && b[g(i0)].x == r[0].x);
    assert(0 <= g(i1) < b.len() && b[g(i1)].y == r[0].y);
    assert(0 <= g(i2) < b.len() && b[g(i2)].x == r[1].x);
    assert(0 <= g(i3) < b.len() && b[g(i3)].y == r[1].y);
}

proof fn lemma_rotated_bounds(corners: Seq<Point>, k: int, r: [Point; 2])
    requires
        corners.len() >= 1,
        0 <= k < corners.len(),
    ensures
        is_bounding_rect(rotate(corners, k), r) == is_bounding_rect(corners, r),
{
    let n = corners.len() as int;
    let rot = rotate(corners, k);
    let f = |i: int| (i + k) % n;
    let g = |j: int| (j - k + n) % n;
    assert forall|i: int| 0 <= i < n implies 0 <= #[trigger] f(i) < n && rot[i] == corners[f(i)] by {
        vstd::arithmetic::div_mod::lemma_mod_bound(i + k, n);
    }
    assert forall|j: int| 0 <= j < n implies 0 <= #[trigger] g(j) < n && corners[j] == rot[g(j)] by {
        vstd::arithmetic::div_mod::lemma_mod_bound(j - k + n, n);
        vstd::arithmetic::div_mod::lemma_add_mod_noop(j - k + n, k, n);
        vstd::arithmetic::div_mod::lemma_small_mod(k as nat, n as nat);
        vstd::arithmetic::div_mod::lemma_mod_add_multiples_vanish(j, n);
        vstd::arithmetic::div_mod::lemma_small_mod(j as nat, n as nat);
    }
    if is_bounding_rect(corners, r) {
        lemma_bounds_of_same_corners(corners, rot, f, g, r);
    }
    if is_bounding_rect(rot, r) {
        lemma_bounds_of_same_corners(rot, corners, g, f, r);
    }
}

/// Which corner comes first does not change the pixels a fill covers.
pub proof fn lemma_fill_rotation_invariant(corners: Seq<Point>, k: int, x: int, y: int)
    requires
        corners.len() >= 1,
        0 <= k < corners.len(),
    ensures
        fill_covers(rotate(corners, k), x, y) == fill_covers(corners, x, y),
{
    let n = corners.len() as int;
    let rot = rotate(corners, k);
    assert forall|i: int| 0 <= i < n implies #[trigger] edge_cross(rot, i, x, y) == edge_cross(
        corners,
        (i + k) % n,
        x,
        y,
    ) && 0 <= (i + k) % n < n by {
        lemma_rotated_edge(corners, k, i, x, y);
        vstd::arithmetic::div_mod::lemma_mod_bound(i + k, n);
    }
    assert forall|j: int| 0 <= j < n implies edge_cross(rot, (j - k + n) % n, x, y) == #[trigger] edge_cross(
        corners,
        j,
        x,
        y,
    ) && 0 <= (j - k + n) % n < n by {
        vstd::arithmetic::div_mod::lemma_mod_bound(j - k + n, n);
        lemma_rotated_edge(corners, k, (j - k + n) % n, x, y);
        vstd::arithmetic::div_mod::lemma_add_mod_noop(j - k + n, k, n);
        vstd::arithmetic::div_mod::lemma_small_mod(k as nat, n as nat);
        vstd::arithmetic::div_mod::lemma_mod_add_multiples_vanish(j, n);
        vstd::arithmetic::div_mod::lemma_small_mod(j as nat, n as nat);
    }
    assert(convex_contains(rot, x, y) == convex_contains(corners, x, y));
    if fill_covers(rot, x, y) {
        let r = choose|r: [Point; 2]| is_bounding_rect(rot, r) && polygon_covers(rot, r, x, y);
        lemma_rotated_bounds(corners, k, r);
    }
    if fill_covers(corners, x, y) {
        let r = choose|r: [Point; 2]| is_bounding_rect(corners, r) && polygon_covers(corners, r, x, y);
        lemma_rotated_bounds(corners, k, r);
        assert(is_bounding_rect(rot, r) && polygon_covers(rot, r, x, y));
    }
}

proof fn lemma_cross_swap(a: Point, b: Point, x: int, y: int)
    ensures
        cross(b, a, x, y) == -cross(a, b, x, y),
{
    assert(cross(b, a, x, y) == -cross(a, b, x, y)) by (nonlinear_arith);
}

/// Edge `i` of the reversed list is edge `(2n - 2 - i) mod n` walked backwards.
proof fn lemma_reversed_edge(corners: Seq<Point>, i: int, x: int, y: int)
    requires
        corners.len() >= 1,
        0 <= i < corners.len(),
    ensures
        0 <= (2 * corners.len() - 2 - i) % (corners.len() as int) < corners.len(),
        edge_cross(reverse_order(corners), i, x, y) == -edge_cross(
            corners,
            (2 * corners.len() - 2 - i) % (corners.len() as int),
            x,
            y,
        ),
{
    let n = corners.len() as int;
    let rev = reverse_order(corners);
    let j = (2 * n - 2 - i) % n;
    if i + 1 < n {
        vstd::arithmetic::div_mod::lemma_small_mod((i + 1) as nat, n as nat);
        vstd::arithmetic::div_mod::lemma_fundamental_div_mod_converse(2 * n - 2 - i, n, 1, n - 2 - i);
        assert(j == n - 2 - i);
        vstd::arithmetic::div_mod::lemma_small_mod((j + 1) as nat, n as nat);
        assert((j + 1) % n == n - 1 - i);
    } else {
        vstd::arithmetic::div_mod::lemma_mod_self_0(n);
        vstd::arithmetic::div_mod::lemma_fundamental_div_mod_converse(2 * n - 2 - i, n, 0, n - 1);
        assert(j == n - 1);
        vstd::arithmetic::div_mod::lemma_mod_self_0(n);
        assert((j + 1) % n == 0);
    }
    assert(rev[i] == corners[(j + 1) % n]);
    assert(rev[(i + 1) % n] == corners[j]);
    lemma_cross_swap(corners[j], corners[(j + 1) % n], x, y);
}

/// Listing the corners in the opposite winding does not change the pixels a
/// fill covers.
pub proof fn lemma_fill_reversal_invariant(corners: Seq<Point>, x: int, y: int)
    requires
        corners.len() >= 1,
    ensures
        fill_covers(reverse_order(corners), x, y) == fill_covers(corners, x, y),
{
    let n = corners.len() as int;
    let rev = reverse_order(corners);
    let m = |i: int| (2 * n - 2 - i) % n;
    assert forall|i: int| 0 <= i < n implies 0 <= #[trigger] m(i) < n && edge_cross(rev, i, x, y) == -edge_cross(
        corners,
        m(i),
        x,
        y,
    ) by {
        lemma_reversed_edge(corners, i, x, y);
    }
    assert forall|j: int| 0 <= j < n implies 0 <= #[trigger] m(j) < n && m(m(j)) == j by {
        vstd::arithmetic::div_mod::lemma_mod_bound(2 * n - 2 - j, n);
        if j <= n - 2 {
            vstd::arithmetic::div_mod::lemma_fundamental_div_mod_converse(2 * n - 2 - j, n, 1, n - 2 - j);
            vstd::arithmetic::div_mod::lemma_fundamental_div_mod_converse(2 * n - 2 - (n - 2 - j), n, 1, j);
        } else {
            vstd::arithmetic::div_mod::lemma_fundamental_div_mod_converse(2 * n - 2 - j, n, 0, n - 1);
            vstd::arithmetic::div_mod::lemma_fundamental_div_mod_converse(2 * n - 2 - (n - 1), n, 0, j);
        }
    }
    assert forall|j: int| 0 <= j < n implies #[trigger] edge_cross(corners, j, x, y) == -edge_cross(
        rev,
        m(j),
        x,
        y,
    ) by {
        assert(m(m(j)) == j);
        assert(edge_cross(rev, m(j), x, y) == -edge_cross(corners, m(m(j)), x, y));
    }
    assert(convex_contains(rev, x, y) == convex_contains(corners, x, y)) by {
        if forall|i: int| 0 <= i < n ==> #[trigger] edge_cross(corners, i, x, y) >= 0 {
            assert forall|i: int| 0 <= i < n implies #[trigger] edge_cross(rev, i, x, y) <= 0 by {
                assert(edge_cross(corners, m(i), x, y) >= 0);
            }
        }
        if forall|i: int| 0 <= i < n ==> #[trigger] edge_cross(corners, i, x, y) <= 0 {
            assert forall|i: int| 0 <= i < n implies #[trigger] edge_cross(rev, i, x, y) >= 0 by {
                assert(edge_cross(corners, m(i), x, y) <= 0);
            }
        }
        if forall|i: int| 0 <= i < n ==> #[trigger] edge_cross(rev, i, x, y) >= 0 {
            assert forall|j: int| 0 <= j < n implies #[trigger] edge_cross(corners, j, x, y) <= 0 by {
                assert(edge_cross(rev, m(j), x, y) >= 0);
            }
        }
        if forall|i: int| 0 <= i < n ==> #[trigger] edge_cross(rev, i, x, y) <= 0 {
            assert forall|j: int| 0 <= j < n implies #[trigger] edge_cross(corners, j, x, y) >= 0 by {
                assert(edge_cross(rev, m(j), x, y) <= 0);
            }
        }
    }
    let f = |i: int| n - 1 - i;
    assert forall|i: int| 0 <= i < n implies 0 <= #[trigger] f(i) < n && rev[i] == corners[f(i)] by {}
    assert forall|j: int| 0 <= j < n implies 0 <= #[trigger] f(j) < n && corners[j] == rev[f(j)] by {}
    if fill_covers(rev, x, y) {
        let r = choose|r: [Point; 2]| is_bounding_rect(rev, r) && polygon_covers(rev, r, x, y);
        lemma_bounds_of_same_corners(rev, corners, f, f, r);
        assert(is_bounding_rect(corners, r) && polygon_covers(corners, r, x, y));
    }
    if fill_covers(corners, x, y) {
        let r = choose|r: [Point; 2]| is_bounding_rect(corners, r) && polygon_covers(corners, r, x, y);
        lemma_bounds_of_same_corners(corners, rev, f, f, r);
        assert(is_bounding_rect(rev, r) && polygon_covers(rev, r, x, y));
    }
}

} // verus!
