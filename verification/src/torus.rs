//! Parametric torus: a ring of `ring_segments` tube cross-sections, each
//! sampled at `tube_segments` points. Vertex `(i, j)` sits at ring angle
//! `τ·i / ring_segments` and tube angle `τ·j / tube_segments`; each grid cell
//! `(i, j)` is split into two triangles.

use vstd::prelude::*;
use vstd::arithmetic::div_mod::*;
use vstd::arithmetic::mul::*;

use crate::mesh::{IndexedMesh, facets_in_range};

verus! {

/// Grid coordinates of a torus vertex: ring step `ring` of `ring_segments`,
/// tube step `tube` of `tube_segments`.
#[derive(Clone, Copy, Debug, PartialEq, Eq, Structural)]
pub struct TorusSample {
    pub ring: usize,
    pub tube: usize,
}

/// Vertex number of grid point `(i, j)`, wrapping both coordinates.
pub open spec fn torus_index(ring_segments: int, tube_segments: int, i: int, j: int) -> int {
    (i % ring_segments) * tube_segments + (j % tube_segments)
}

/// Facet `k`: cell `c = k / 2` at `(i, j) = (c / tube_segments, c % tube_segments)`;
/// the even facet is `(i, j), (i + 1, j), (i + 1, j + 1)`, the odd one
/// `(i, j), (i + 1, j + 1), (i, j + 1)`.
pub open spec fn torus_facet(ring_segments: int, tube_segments: int, k: int) -> Seq<int> {
    let c = k / 2;
    let i = c / tube_segments;
    let j = c % tube_segments;
    if k % 2 == 0 {
        seq![
            torus_index(ring_segments, tube_segments, i, j),
            torus_index(ring_segments, tube_segments, i + 1, j),
            torus_index(ring_segments, tube_segments, i + 1, j + 1),
        ]
    } else {
        seq![
            torus_index(ring_segments, tube_segments, i, j),
            torus_index(ring_segments, tube_segments, i + 1, j + 1),
            torus_index(ring_segments, tube_segments, i, j + 1),
        ]
    }
}

proof fn lemma_torus_index_range(r: int, t: int, i: int, j: int)
    requires
        r > 0,
        t > 0,
    ensures
        0 <= torus_index(r, t, i, j) < r * t,
{
    lemma_mod_bound(i, r);
    lemma_mod_bound(j, t);
    lemma_mul_inequality(i % r, r - 1, t);
    lemma_mul_is_distributive_sub_other_way(t, r, 1);
    lemma_mul_nonnegative(i % r, t);
    lemma_mul_is_commutative(r, t);
}

/// Wrapped vertex number, computed with the ring and tube steps below
/// `2 * segments`.
fn wrap_index(ring_segments: usize, tube_segments: usize, i: usize, j: usize) -> (k: usize)
    requires
        ring_segments > 0,
        tube_segments > 0,
        ring_segments * tube_segments <= usize::MAX,
    ensures
        k == torus_index(ring_segments as int, tube_segments as int, i as int, j as int),
        k < ring_segments * tube_segments,
{
    proof {
        lemma_torus_index_range(ring_segments as int, tube_segments as int, i as int, j as int);
        lemma_mod_bound(i as int, ring_segments as int);
        lemma_mod_bound(j as int, tube_segments as int);
    }
    (i % ring_segments) * tube_segments + (j % tube_segments)
}

/// Indexed torus grid: `ring_segments × tube_segments` vertices numbered
/// `i * tube_segments + j`, and `2 × ring_segments × tube_segments` facets,
/// two per grid cell, wrapping around in both directions.
///
/// Both segment counts must be at least 3.
pub fn torus(ring_segments: usize, tube_segments: usize) -> (mesh: IndexedMesh<TorusSample>)
    requires
        ring_segments >= 3,
        tube_segments >= 3,
        2 * ring_segments * tube_segments <= usize::MAX,
    ensures
        mesh.spec_vertices().len() == ring_segments * tube_segments,
        forall|i: int, j: int|
            0 <= i < ring_segments && 0 <= j < tube_segments ==> #[trigger] mesh.spec_vertices()[i
                * tube_segments + j] == (TorusSample { ring: i as usize, tube: j as usize }),
        mesh.spec_facets().len() == 2 * ring_segments * tube_segments,
        forall|k: int, c: int|
            0 <= k < mesh.spec_facets().len() && 0 <= c < 3 ==> #[trigger] mesh.spec_facets()[k][c]
                == torus_facet(ring_segments as int, tube_segments as int, k)[c],
        facets_in_range(mesh.spec_facets(), mesh.spec_vertices().len() as int),
{
    let r = ring_segments;
    let t = tube_segments;
    proof {
        lemma_mul_is_associative(2, r as int, t as int);
    }
    let mut vertices: Vec<TorusSample> = Vec::new();
    let mut i: usize = 0;
    while i < r
        invariant
            r == ring_segments,
            t == tube_segments,
            r >= 3,
            t >= 3,
            2 * (r * t) <= usize::MAX,
            i <= r,
            vertices@.len() == i * t,
            forall|a: int, b: int|
                0 <= a < i && 0 <= b < t ==> #[trigger] vertices@[a * t + b] == (TorusSample {
                    ring: a as usize,
                    tube: b as usize,
                }),
        decreases r - i,
    {
        let mut j: usize = 0;
        while j < t
            invariant
                r == ring_segments,
                t == tube_segments,
                r >= 3,
                t >= 3,
                2 * (r * t) <= usize::MAX,
                i < r,
                j <= t,
                vertices@.len() == i * t + j,
                forall|a: int, b: int|
                    0 <= a < i && 0 <= b < t ==> #[trigger] vertices@[a * t + b] == (TorusSample {
                        ring: a as usize,
                        tube: b as usize,
                    }),
                forall|b: int| 0 <= b < j ==> #[trigger] vertices@[i * t + b] == (TorusSample {
                    ring: i,
                    tube: b as usize,
                }),
            decreases t - j,
        {
            proof {
                lemma_mul_inequality(i as int, r as int - 1, t as int);
                lemma_mul_is_distributive_sub_other_way(t as int, r as int, 1);
                lemma_mul_is_commutative(r as int, t as int);
            }
            let ghost prev = vertices@;
            vertices.push(TorusSample { ring: i, tube: j });
            proof {
                assert forall|a: int, b: int| 0 <= a < i && 0 <= b < t implies #[trigger] vertices@[a * t + b]
                    == (TorusSample { ring: a as usize, tube: b as usize }) by {
                    lemma_mul_inequality(a, i as int - 1, t as int);
                    lemma_mul_is_distributive_sub_other_way(t as int, i as int, 1);
                    lemma_mul_is_commutative(i as int - 1, t as int);
                    assert(vertices@[a * t + b] == prev[a * t + b]);
                }
            }
            j = j + 1;
        }
        proof {
            lemma_mul_is_distributive_add_other_way(t as int, i as int, 1);
            assert forall|a: int, b: int| 0 <= a < i + 1 && 0 <= b < t implies #[trigger] vertices@[a * t + b]
                == (TorusSample { ring: a as usize, tube: b as usize }) by {
                if a == i {
                } else {
                    lemma_mul_inequality(a, i as int - 1, t as int);
                    lemma_mul_is_distributive_sub_other_way(t as int, i as int, 1);
                }
            }
        }
        i = i + 1;
    }
    let mut facets: Vec<[usize; 3]> = Vec::new();
    let mut i: usize = 0;
    while i < r
        invariant
            r == ring_segments,
            t == tube_segments,
            r >= 3,
            t >= 3,
            2 * (r * t) <= usize::MAX,
            i <= r,
            facets@.len() == 2 * (i * t),
            forall|k: int, c: int|
                0 <= k < facets@.len() && 0 <= c < 3 ==> #[trigger] facets@[k][c] == torus_facet(
                    r as int,
                    t as int,
                    k,
                )[c],
        decreases r - i,
    {
        let mut j: usize = 0;
        while j < t
            invariant
                r == ring_segments,
                t == tube_segments,
                r >= 3,
                t >= 3,
                2 * (r * t) <= usize::MAX,
                i < r,
                j <= t,
                facets@.len() == 2 * (i * t + j),
                forall|k: int, c: int|
                    0 <= k < facets@.len() && 0 <= c < 3 ==> #[trigger] facets@[k][c] == torus_facet(
                        r as int,
                        t as int,
                        k,
                    )[c],
            decreases t - j,
        {
            let i0 = wrap_index(r, t, i, j);
            let i1 = wrap_index(r, t, i + 1, j);
            let i2 = wrap_index(r, t, i + 1, j + 1);
            let i3 = wrap_index(r, t, i, j + 1);
            proof {
                let c = i * t + j;
                let k0 = 2 * c;
                lemma_fundamental_div_mod_converse(k0, 2, c, 0);
                lemma_fundamental_div_mod_converse(k0 + 1, 2, c, 1);
                lemma_fundamental_div_mod_converse(c, t as int, i as int, j as int);
                lemma_mul_is_commutative(i as int, t as int);
                lemma_mul_inequality(i as int, r as int - 1, t as int);
                lemma_mul_is_distributive_sub_other_way(t as int, r as int, 1);
                lemma_mul_is_commutative(r as int, t as int);
                assert(torus_facet(r as int, t as int, k0) == seq![i0 as int, i1 as int, i2 as int]);
                assert(torus_facet(r as int, t as int, k0 + 1) == seq![i0 as int, i2 as int, i3 as int]);
            }
            facets.push([i0, i1, i2]);
            facets.push([i0, i2, i3]);
            j = j + 1;
        }
        proof {
            lemma_mul_is_distributive_add_other_way(t as int, i as int, 1);
        }
        i = i + 1;
    }
    proof {
        assert forall|k: int, c: int| 0 <= k < facets@.len() && 0 <= c < 3 implies #[trigger] facets@[k][c]
            < vertices@.len() by {
            let cell = k / 2;
            lemma_torus_index_range(r as int, t as int, cell / t as int, cell % t as int);
            lemma_torus_index_range(r as int, t as int, cell / t as int + 1, cell % t as int);
            lemma_torus_index_range(r as int, t as int, cell / t as int + 1, cell % t as int + 1);
            lemma_torus_index_range(r as int, t as int, cell / t as int, cell % t as int + 1);
        }
    }
    IndexedMesh::new(vertices, facets)
}

} // verus!
