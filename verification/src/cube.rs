//! Axis-aligned unit cube `[-½, ½]³`: eight corners and twelve triangular
//! facets, two per face, each with its face's outward normal.

use vstd::prelude::*;

verus! {

/// Outward face normal of the cube: one of the six axis directions.
#[derive(Clone, Copy, Debug, PartialEq, Eq, Structural)]
pub enum AxisNormal {
    X,
    NegX,
    Y,
    NegY,
    Z,
    NegZ,
}

/// Integer components of an axis direction.
pub open spec fn axis_vector(n: AxisNormal) -> (int, int, int) {
    match n {
        AxisNormal::X => (1, 0, 0),
        AxisNormal::NegX => (-1, 0, 0),
        AxisNormal::Y => (0, 1, 0),
        AxisNormal::NegY => (0, -1, 0),
        AxisNormal::Z => (0, 0, 1),
        AxisNormal::NegZ => (0, 0, -1),
    }
}

/// A cube corner in half units: each component is `-1` (for `-½`) or `1`
/// (for `+½`).
#[derive(Clone, Copy, Debug, PartialEq, Eq, Structural)]
pub struct HalfCorner {
    pub x: i8,
    pub y: i8,
    pub z: i8,
}

/// Triangle of the cube hull: three corner indices, counter-clockwise seen
/// from outside, and the outward normal of its face.
#[derive(Clone, Copy, Debug)]
pub struct CubeFacet {
    pub normal: AxisNormal,
    pub verts: [usize; 3],
}

/// The eight corners in their fixed order.
pub open spec fn cube_corners() -> Seq<HalfCorner> {
    seq![
        HalfCorner { x: -1i8, y: -1i8, z: -1i8 },
        HalfCorner { x: 1i8, y: -1i8, z: -1i8 },
        HalfCorner { x: 1i8, y: 1i8, z: -1i8 },
        HalfCorner { x: -1i8, y: 1i8, z: -1i8 },
        HalfCorner { x: -1i8, y: -1i8, z: 1i8 },
        HalfCorner { x: 1i8, y: -1i8, z: 1i8 },
        HalfCorner { x: 1i8, y: 1i8, z: 1i8 },
        HalfCorner { x: -1i8, y: 1i8, z: 1i8 },
    ]
}

/// The six faces: outward normal and four corners counter-clockwise seen
/// from outside.
pub open spec fn cube_quads() -> Seq<(AxisNormal, [usize; 4])> {
    seq![
        (AxisNormal::NegZ, [0, 3, 2, 1]),
        (AxisNormal::Z, [4, 5, 6, 7]),
        (AxisNormal::X, [1, 2, 6, 5]),
        (AxisNormal::NegX, [0, 4, 7, 3]),
        (AxisNormal::Y, [3, 7, 6, 2]),
        (AxisNormal::NegY, [0, 1, 5, 4]),
    ]
}

/// Two triangles `(w, x, y)` and `(w, y, z)` of the quad `w x y z`, both with
/// the quad's normal.
pub open spec fn quad_triangles(normal: AxisNormal, q: [usize; 4]) -> Seq<CubeFacet> {
    seq![CubeFacet { normal, verts: [q[0], q[1], q[2]] }, CubeFacet { normal, verts: [q[0], q[2], q[3]] }]
}

/// Facet `k` of the cube: triangle `k % 2` of face `k / 2`.
pub open spec fn cube_facet(k: int) -> CubeFacet {
    quad_triangles(cube_quads()[k / 2].0, cube_quads()[k / 2].1)[k % 2]
}

/// Splits a convex quad `w x y z` (counter-clockwise) into the triangles
/// `(w, x, y)` and `(w, y, z)`, both carrying the quad's normal.
pub fn facets_from_quad_ccw_corner(normal: AxisNormal, verts: [usize; 4]) -> (r: [CubeFacet; 2])
    ensures
        r@ == quad_triangles(normal, verts),
{
    let r = [
        CubeFacet { normal, verts: [verts[0], verts[1], verts[2]] },
        CubeFacet { normal, verts: [verts[0], verts[2], verts[3]] },
    ];
    assert(r@ =~= quad_triangles(normal, verts));
    r
}

/// The cube's corners and facets.
#[derive(Clone, Debug)]
pub struct CubeMesh {
    pub vertices: Vec<HalfCorner>,
    pub facets: Vec<CubeFacet>,
}

/// The unit cube: its eight corners and twelve facets, faces in the order
/// `-z, +z, +x, -x, +y, -y`, two triangles per face.
pub fn cube() -> (m: CubeMesh)
    ensures
        m.vertices@ == cube_corners(),
        m.facets@.len() == 12,
        forall|k: int| 0 <= k < 12 ==> #[trigger] m.facets@[k] == cube_facet(k),
{
    let vertices: Vec<HalfCorner> = vec![
        HalfCorner { x: -1, y: -1, z: -1 },
        HalfCorner { x: 1, y: -1, z: -1 },
        HalfCorner { x: 1, y: 1, z: -1 },
        HalfCorner { x: -1, y: 1, z: -1 },
        HalfCorner { x: -1, y: -1, z: 1 },
        HalfCorner { x: 1, y: -1, z: 1 },
        HalfCorner { x: 1, y: 1, z: 1 },
        HalfCorner { x: -1, y: 1, z: 1 },
    ];
    let quads: [(AxisNormal, [usize; 4]); 6] = [
        (AxisNormal::NegZ, [0, 3, 2, 1]),
        (AxisNormal::Z, [4, 5, 6, 7]),
        (AxisNormal::X, [1, 2, 6, 5]),
        (AxisNormal::NegX, [0, 4, 7, 3]),
        (AxisNormal::Y, [3, 7, 6, 2]),
        (AxisNormal::NegY, [0, 1, 5, 4]),
    ];
    assert(quads@ =~= cube_quads());
    let mut facets: Vec<CubeFacet> = Vec::new();
    let mut i: usize = 0;
    while i < 6
        invariant
            i <= 6,
            quads@ == cube_quads(),
            facets@.len() == 2 * i,
            forall|k: int| 0 <= k < 2 * i ==> #[trigger] facets@[k] == cube_facet(k),
        decreases 6 - i,
    {
        let (normal, corners) = quads[i];
        let pair = facets_from_quad_ccw_corner(normal, corners);
        facets.push(pair[0]);
        facets.push(pair[1]);
        proof {
            vstd::arithmetic::div_mod::lemma_fundamental_div_mod_converse(2 * i as int, 2, i as int, 0);
            vstd::arithmetic::div_mod::lemma_fundamental_div_mod_converse(2 * i + 1, 2, i as int, 1);
        }
        i = i + 1;
    }
    proof {
        assert(vertices@ =~= cube_corners());
    }
    CubeMesh { vertices, facets }
}

/// Component of corner `c` along axis direction `n`.
pub open spec fn along(c: HalfCorner, n: AxisNormal) -> int {
    match n {
        AxisNormal::X => c.x as int,
        AxisNormal::NegX => -c.x,
        AxisNormal::Y => c.y as int,
        AxisNormal::NegY => -c.y,
        AxisNormal::Z => c.z as int,
        AxisNormal::NegZ => -c.z,
    }
}

/// `(v1 - v0) × (v2 - v0)`: the cross product of the two edges leaving the
/// first corner, taken in corner order.
pub open spec fn winding_normal(v0: HalfCorner, v1: HalfCorner, v2: HalfCorner) -> (int, int, int) {
    let (ax, ay, az) = (v1.x - v0.x, v1.y - v0.y, v1.z - v0.z);
    let (bx, by, bz) = (v2.x - v0.x, v2.y - v0.y, v2.z - v0.z);
    (ay * bz - az * by, az * bx - ax * bz, ax * by - ay * bx)
}

/// Every facet lies on the face its normal names (each corner is `½` out
/// along the normal), and all facets wind alike: the cross product of the
/// edges leaving the first corner points along the outward normal.
pub proof fn lemma_cube_facets_outward(k: int)
    requires
        0 <= k < 12,
    ensures
        ({
            let f = cube_facet(k);
            let cs = cube_corners();
            let (wx, wy, wz) = winding_normal(cs[f.verts[0] as int], cs[f.verts[1] as int], cs[f.verts[2] as int]);
            let (nx, ny, nz) = axis_vector(f.normal);
            &&& f.verts[0] < 8 && f.verts[1] < 8 && f.verts[2] < 8
            &&& along(cs[f.verts[0] as int], f.normal) == 1
            &&& along(cs[f.verts[1] as int], f.normal) == 1
            &&& along(cs[f.verts[2] as int], f.normal) == 1
            &&& (wx, wy, wz) == (4 * nx, 4 * ny, 4 * nz)
        }),
{
    let cs = cube_corners();
    let f = cube_facet(k);
    if k == 0 {
        vstd::arithmetic::div_mod::lemma_fundamental_div_mod_converse(0, 2, 0, 0);
        assert(f.verts[0] == 0 && f.verts[1] == 3 && f.verts[2] == 2);
        assert(winding_normal(cs[0], cs[3], cs[2]) == (0int, 0int, -4int)) by (nonlinear_arith)
            requires
                cs[0] == (HalfCorner { x: -1i8, y: -1i8, z: -1i8 }),
                cs[3] == (HalfCorner { x: -1i8, y: 1i8, z: -1i8 }),
                cs[2] == (HalfCorner { x: 1i8, y: 1i8, z: -1i8 }),
        ;
    }
    if k == 1 {
        vstd::arithmetic::div_mod::lemma_fundamental_div_mod_converse(1, 2, 0, 1);
        assert(f.verts[0] == 0 && f.verts[1] == 2 && f.verts[2] == 1);
        assert(winding_normal(cs[0], cs[2], cs[1]) == (0int, 0int, -4int)) by (nonlinear_arith)
            requires
                cs[0] == (HalfCorner { x: -1i8, y: -1i8, z: -1i8 }),
                cs[2] == (HalfCorner { x: 1i8, y: 1i8, z: -1i8 }),
                cs[1] == (HalfCorner { x: 1i8, y: -1i8, z: -1i8 }),
        ;
    }
    if k == 2 {
        vstd::arithmetic::div_mod::lemma_fundamental_div_mod_converse(2, 2, 1, 0);
        assert(f.verts[0] == 4 && f.verts[1] == 5 && f.verts[2] == 6);
        assert(winding_normal(cs[4], cs[5], cs[6]) == (0int, 0int, 4int)) by (nonlinear_arith)
            requires
                cs[4] == (HalfCorner { x: -1i8, y: -1i8, z: 1i8 }),
                cs[5] == (HalfCorner { x: 1i8, y: -1i8, z: 1i8 }),
                cs[6] == (HalfCorner { x: 1i8, y: 1i8, z: 1i8 }),
        ;
    }
    if k == 3 {
        vstd::arithmetic::div_mod::lemma_fundamental_div_mod_converse(3, 2, 1, 1);
        assert(f.verts[0] == 4 && f.verts[1] == 6 && f.verts[2] == 7);
        assert(winding_normal(cs[4], cs[6], cs[7]) == (0int, 0int, 4int)) by (nonlinear_arith)
            requires
                cs[4] == (HalfCorner { x: -1i8, y: -1i8, z: 1i8 }),
                cs[6] == (HalfCorner { x: 1i8, y: 1i8, z: 1i8 }),
                cs[7] == (HalfCorner { x: -1i8, y: 1i8, z: 1i8 }),
        ;
    }
    if k == 4 {
        vstd::arithmetic::div_mod::lemma_fundamental_div_mod_converse(4, 2, 2, 0);
        assert(f.verts[0] == 1 && f.verts[1] == 2 && f.verts[2] == 6);
        assert(winding_normal(cs[1], cs[2], cs[6]) == (4int, 0int, 0int)) by (nonlinear_arith)
            requires
                cs[1] == (HalfCorner { x: 1i8, y: -1i8, z: -1i8 }),
                cs[2] == (HalfCorner { x: 1i8, y: 1i8, z: -1i8 }),
                cs[6] == (HalfCorner { x: 1i8, y: 1i8, z: 1i8 }),
        ;
    }
    if k == 5 {
        vstd::arithmetic::div_mod::lemma_fundamental_div_mod_converse(5, 2, 2, 1);
        assert(f.verts[0] == 1 && f.verts[1] == 6 && f.verts[2] == 5);
        assert(winding_normal(cs[1], cs[6], cs[5]) == (4int, 0int, 0int)) by (nonlinear_arith)
            requires
                cs[1] == (HalfCorner { x: 1i8, y: -1i8, z: -1i8 }),
                cs[6] == (HalfCorner { x: 1i8, y: 1i8, z: 1i8 }),
                cs[5] == (HalfCorner { x: 1i8, y: -1i8, z: 1i8 }),
        ;
    }
    if k == 6 {
        vstd::arithmetic::div_mod::lemma_fundamental_div_mod_converse(6, 2, 3, 0);
        assert(f.verts[0] == 0 && f.verts[1] == 4 && f.verts[2] == 7);
        assert(winding_normal(cs[0], cs[4], cs[7]) == (-4int, 0int, 0int)) by (nonlinear_arith)
            requires
                cs[0] == (HalfCorner { x: -1i8, y: -1i8, z: -1i8 }),
                cs[4] == (HalfCorner { x: -1i8, y: -1i8, z: 1i8 }),
                cs[7] == (HalfCorner { x: -1i8, y: 1i8, z: 1i8 }),
        ;
    }
    if k == 7 {
        vstd::arithmetic::div_mod::lemma_fundamental_div_mod_converse(7, 2, 3, 1);
        assert(f.verts[0] == 0 && f.verts[1] == 7 && f.verts[2] == 3);
        assert(winding_normal(cs[0], cs[7], cs[3]) == (-4int, 0int, 0int)) by (nonlinear_arith)
            requires
                cs[0] == (HalfCorner { x: -1i8, y: -1i8, z: -1i8 }),
                cs[7] == (HalfCorner { x: -1i8, y: 1i8, z: 1i8 }),
                cs[3] == (HalfCorner { x: -1i8, y: 1i8, z: -1i8 }),
        ;
    }
    if k == 8 {
        vstd::arithmetic::div_mod::lemma_fundamental_div_mod_converse(8, 2, 4, 0);
        assert(f.verts[0] == 3 && f.verts[1] == 7 && f.verts[2] == 6);
        assert(winding_normal(cs[3], cs[7], cs[6]) == (0int, 4int, 0int)) by (nonlinear_arith)
            requires
                cs[3] == (HalfCorner { x: -1i8, y: 1i8, z: -1i8 }),
                cs[7] == (HalfCorner { x: -1i8, y: 1i8, z: 1i8 }),
                cs[6] == (HalfCorner { x: 1i8, y: 1i8, z: 1i8 }),
        ;
    }
    if k == 9 {
        vstd::arithmetic::div_mod::lemma_fundamental_div_mod_converse(9, 2, 4, 1);
        assert(f.verts[0] == 3 && f.verts[1] == 6 && f.verts[2] == 2);
        assert(winding_normal(cs[3], cs[6], cs[2]) == (0int, 4int, 0int)) by (nonlinear_arith)
            requires
                cs[3] == (HalfCorner { x: -1i8, y: 1i8, z: -1i8 }),
                cs[6] == (HalfCorner { x: 1i8, y: 1i8, z: 1i8 }),
                cs[2] == (HalfCorner { x: 1i8, y: 1i8, z: -1i8 }),
        ;
    }
    if k == 10 {
        vstd::arithmetic::div_mod::lemma_fundamental_div_mod_converse(10, 2, 5, 0);
        assert(f.verts[0] == 0 && f.verts[1] == 1 && f.verts[2] == 5);
        assert(winding_normal(cs[0], cs[1], cs[5]) == (0int, -4int, 0int)) by (nonlinear_arith)
            requires
                cs[0] == (HalfCorner { x: -1i8, y: -1i8, z: -1i8 }),
                cs[1] == (HalfCorner { x: 1i8, y: -1i8, z: -1i8 }),
                cs[5] == (HalfCorner { x: 1i8, y: -1i8, z: 1i8 }),
        ;
    }
    if k == 11 {
        vstd::arithmetic::div_mod::lemma_fundamental_div_mod_converse(11, 2, 5, 1);
        assert(f.verts[0] == 0 && f.verts[1] == 5 && f.verts[2] == 4);
        assert(winding_normal(cs[0], cs[5], cs[4]) == (0int, -4int, 0int)) by (nonlinear_arith)
            requires
                cs[0] == (HalfCorner { x: -1i8, y: -1i8, z: -1i8 }),
                cs[5] == (HalfCorner { x: 1i8, y: -1i8, z: 1i8 }),
                cs[4] == (HalfCorner { x: -1i8, y: -1i8, z: 1i8 }),
        ;
    }
}

/// The twelve facets one by one.
proof fn lemma_cube_facet_values()
    ensures
        cube_facet(0) == (CubeFacet { normal: AxisNormal::NegZ, verts: [0usize, 3usize, 2usize] }),
        cube_facet(1) == (CubeFacet { normal: AxisNormal::NegZ, verts: [0usize, 2usize, 1usize] }),
        cube_facet(2) == (CubeFacet { normal: AxisNormal::Z, verts: [4usize, 5usize, 6usize] }),
        cube_facet(3) == (CubeFacet { normal: AxisNormal::Z, verts: [4usize, 6usize, 7usize] }),
        cube_facet(4) == (CubeFacet { normal: AxisNormal::X, verts: [1usize, 2usize, 6usize] }),
        cube_facet(5) == (CubeFacet { normal: AxisNormal::X, verts: [1usize, 6usize, 5usize] }),
        cube_facet(6) == (CubeFacet { normal: AxisNormal::NegX, verts: [0usize, 4usize, 7usize] }),
        cube_facet(7) == (CubeFacet { normal: AxisNormal::NegX, verts: [0usize, 7usize, 3usize] }),
        cube_facet(8) == (CubeFacet { normal: AxisNormal::Y, verts: [3usize, 7usize, 6usize] }),
        cube_facet(9) == (CubeFacet { normal: AxisNormal::Y, verts: [3usize, 6usize, 2usize] }),
        cube_facet(10) == (CubeFacet { normal: AxisNormal::NegY, verts: [0usize, 1usize, 5usize] }),
        cube_facet(11) == (CubeFacet { normal: AxisNormal::NegY, verts: [0usize, 5usize, 4usize] }),
{
    vstd::arithmetic::div_mod::lemma_fundamental_div_mod_converse(0, 2, 0, 0);
    vstd::arithmetic::div_mod::lemma_fundamental_div_mod_converse(1, 2, 0, 1);
    vstd::arithmetic::div_mod::lemma_fundamental_div_mod_converse(2, 2, 1, 0);
    vstd::arithmetic::div_mod::lemma_fundamental_div_mod_converse(3, 2, 1, 1);
    vstd::arithmetic::div_mod::lemma_fundamental_div_mod_converse(4, 2, 2, 0);
    vstd::arithmetic::div_mod::lemma_fundamental_div_mod_converse(5, 2, 2, 1);
    vstd::arithmetic::div_mod::lemma_fundamental_div_mod_converse(6, 2, 3, 0);
    vstd::arithmetic::div_mod::lemma_fundamental_div_mod_converse(7, 2, 3, 1);
    vstd::arithmetic::div_mod::lemma_fundamental_div_mod_converse(8, 2, 4, 0);
    vstd::arithmetic::div_mod::lemma_fundamental_div_mod_converse(9, 2, 4, 1);
    vstd::arithmetic::div_mod::lemma_fundamental_div_mod_converse(10, 2, 5, 0);
    vstd::arithmetic::div_mod::lemma_fundamental_div_mod_converse(11, 2, 5, 1);
}

/// How many of the facets `0 .. k` have normal `n`.
pub open spec fn facets_with_normal(n: AxisNormal, k: nat) -> nat
    decreases k,
{
    if k == 0 {
        0
    } else {
        facets_with_normal(n, (k - 1) as nat) + if cube_facet(k - 1).normal == n {
            1nat
        } else {
            0nat
        }
    }
}

/// Directed edge `c` of facet `k`: from corner `c` to the next corner.
pub open spec fn facet_edge(k: int, c: int) -> (usize, usize) {
    (cube_facet(k).verts[c], cube_facet(k).verts[(c + 1) % 3])
}

/// The facets cover the whole hull: each of the six axis directions is the
/// normal of exactly two facets.
pub proof fn lemma_each_face_twice(n: AxisNormal)
    ensures
        facets_with_normal(n, 12) == 2,
{
    lemma_cube_facet_values();
    reveal_with_fuel(facets_with_normal, 13);
}

/// The facets close up into an oriented surface: no two facet corners walk
/// the same directed edge, and the reverse of every directed edge is walked
/// by some facet.
pub proof fn lemma_cube_closed_surface(k: int, c: int)
    requires
        0 <= k < 12,
        0 <= c < 3,
    ensures
        forall|k2: int, c2: int|
            0 <= k2 < 12 && 0 <= c2 < 3 && #[trigger] facet_edge(k2, c2) == facet_edge(k, c) ==> k2 == k && c2 == c,
        exists|k2: int, c2: int|
            0 <= k2 < 12 && 0 <= c2 < 3 && #[trigger] facet_edge(k2, c2) == (facet_edge(k, c).1, facet_edge(k, c).0),
{
    lemma_cube_facet_values();
    assert(facet_edge(0, 0) == (0usize, 3usize));
    assert(facet_edge(0, 1) == (3usize, 2usize));
    assert(facet_edge(0, 2) == (2usize, 0usize));
    assert(facet_edge(1, 0) == (0usize, 2usize));
    assert(facet_edge(1, 1) == (2usize, 1usize));
    assert(facet_edge(1, 2) == (1usize, 0usize));
    assert(facet_edge(2, 0) == (4usize, 5usize));
    assert(facet_edge(2, 1) == (5usize, 6usize));
    assert(facet_edge(2, 2) == (6usize, 4usize));
    assert(facet_edge(3, 0) == (4usize, 6usize));
    assert(facet_edge(3, 1) == (6usize, 7usize));
    assert(facet_edge(3, 2) == (7usize, 4usize));
    assert(facet_edge(4, 0) == (1usize, 2usize));
    assert(facet_edge(4, 1) == (2usize, 6usize));
    assert(facet_edge(4, 2) == (6usize, 1usize));
    assert(facet_edge(5, 0) == (1usize, 6usize));
    assert(facet_edge(5, 1) == (6usize, 5usize));
    assert(facet_edge(5, 2) == (5usize, 1usize));
    assert(facet_edge(6, 0) == (0usize, 4usize));
    assert(facet_edge(6, 1) == (4usize, 7usize));
    assert(facet_edge(6, 2) == (7usize, 0usize));
    assert(facet_edge(7, 0) == (0usize, 7usize));
    assert(facet_edge(7, 1) == (7usize, 3usize));
    assert(facet_edge(7, 2) == (3usize, 0usize));
    assert(facet_edge(8, 0) == (3usize, 7usize));
    assert(facet_edge(8, 1) == (7usize, 6usize));
    assert(facet_edge(8, 2) == (6usize, 3usize));
    assert(facet_edge(9, 0) == (3usize, 6usize));
    assert(facet_edge(9, 1) == (6usize, 2usize));
    assert(facet_edge(9, 2) == (2usize, 3usize));
    assert(facet_edge(10, 0) == (0usize, 1usize));
    assert(facet_edge(10, 1) == (1usize, 5usize));
    assert(facet_edge(10, 2) == (5usize, 0usize));
    assert(facet_edge(11, 0) == (0usize, 5usize));
    assert(facet_edge(11, 1) == (5usize, 4usize));
    assert(facet_edge(11, 2) == (4usize, 0usize));
    assert forall|k2: int, c2: int|
        0 <= k2 < 12 && 0 <= c2 < 3 && #[trigger] facet_edge(k2, c2) == facet_edge(k, c) implies k2 == k && c2 == c by {
        assert(0 <= k2 < 12 && 0 <= c2 < 3);
    }
}

} // verus!
