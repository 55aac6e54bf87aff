//! Unit sphere by repeated subdivision of an octahedron: every split replaces
//! each triangle by four, adding one vertex per edge at the normalized midpoint
//! of the edge's ends. A cache keyed by the edge makes the two triangles that
//! share an edge share its midpoint.

use vstd::prelude::*;
use vstd::std_specs::hash::*;
use vstd::arithmetic::power::pow;
use std::collections::HashMap;

use crate::mesh::{IndexedMesh, facets_in_range};

verus! {

broadcast use group_hash_axioms;

/// How a sphere vertex is obtained: one of the six octahedron corners
/// (numbered `0: +x, 1: +y, 2: -z, 3: -x, 4: +z, 5: -y`), or the normalized
/// sum of two earlier vertices (the projected midpoint of their edge).
#[derive(Clone, Copy, Debug, PartialEq, Eq, Structural)]
pub enum SphereVertex {
    Corner(usize),
    Midpoint(usize, usize),
}

/// Octahedron facets, counter-clockwise seen from outside; corner numbers are
/// `0: +x, 1: +y, 2: -z, 3: -x, 4: +z, 5: -y`.
pub open spec fn octahedron_facets() -> Seq<[usize; 3]> {
    seq![[0, 1, 2], [2, 1, 3], [1, 4, 3], [4, 1, 0], [0, 2, 5], [5, 2, 3], [5, 3, 4], [4, 0, 5]]
}

/// Cache key of the undirected edge `a–b`.
pub open spec fn edge_key(a: int, b: int) -> u128 {
    if a < b {
        (a * 0x1_0000_0000_0000_0000 + b) as u128
    } else {
        (b * 0x1_0000_0000_0000_0000 + a) as u128
    }
}

/// Midpoint description of the undirected edge `a–b`, lower index first.
pub open spec fn edge_midpoint(a: int, b: int) -> SphereVertex {
    if a < b {
        SphereVertex::Midpoint(a as usize, b as usize)
    } else {
        SphereVertex::Midpoint(b as usize, a as usize)
    }
}

/// Vertex list and midpoint cache after asking for the midpoint of edge `a–b`:
/// unchanged when the edge is cached, else the midpoint is appended and cached.
pub open spec fn request_edge(state: (Seq<SphereVertex>, Map<u128, usize>), a: int, b: int) -> (Seq<SphereVertex>, Map<u128, usize>) {
    let (vs, cache) = state;
    if cache.contains_key(edge_key(a, b)) {
        state
    } else {
        (vs.push(edge_midpoint(a, b)), cache.insert(edge_key(a, b), vs.len() as usize))
    }
}

/// State after asking for the midpoints of a facet's edges `a–b`, `a–c`, `b–c`.
pub open spec fn request_facet(state: (Seq<SphereVertex>, Map<u128, usize>), f: [usize; 3]) -> (Seq<SphereVertex>, Map<u128, usize>) {
    request_edge(request_edge(request_edge(state, f[0] as int, f[1] as int), f[0] as int, f[2] as int), f[1] as int, f[2] as int)
}

/// State after asking for the midpoints of every facet's edges, facets in order.
pub open spec fn request_all(state: (Seq<SphereVertex>, Map<u128, usize>), facets: Seq<[usize; 3]>) -> (Seq<SphereVertex>, Map<u128, usize>)
    decreases facets.len(),
{
    if facets.len() == 0 {
        state
    } else {
        request_facet(request_all(state, facets.drop_last()), facets.last())
    }
}

/// The four triangles facet `a, b, c` splits into, with midpoints looked up
/// in `cache`: `(a, ab, ac)`, `(b, bc, ab)`, `(c, ac, bc)`, `(ab, bc, ac)`.
pub open spec fn split_pattern(f: [usize; 3], cache: Map<u128, usize>) -> Seq<[usize; 3]> {
    let ab = cache[edge_key(f[0] as int, f[1] as int)];
    let ac = cache[edge_key(f[0] as int, f[2] as int)];
    let bc = cache[edge_key(f[1] as int, f[2] as int)];
    seq![[f[0], ab, ac], [f[1], bc, ab], [f[2], ac, bc], [ab, bc, ac]]
}

/// Every facet of `facets` split in four, in order.
pub open spec fn split_all(facets: Seq<[usize; 3]>, cache: Map<u128, usize>) -> Seq<[usize; 3]> {
    Seq::new(4 * facets.len(), |i: int| split_pattern(facets[i / 4], cache)[i % 4])
}

/// Corners name one of the six octahedron corners; midpoints name two earlier
/// vertices, lower index first.
pub open spec fn vertices_well_founded(vs: Seq<SphereVertex>) -> bool {
    forall|m: int|
        0 <= m < vs.len() ==> match #[trigger] vs[m] {
            SphereVertex::Corner(k) => k < 6,
            SphereVertex::Midpoint(a, b) => a <= b < m,
        }
}

/// First (lower) vertex of the edge a cache key stands for.
pub open spec fn key_lo(k: u128) -> int {
    k as int / 0x1_0000_0000_0000_0000
}

/// Second (higher) vertex of the edge a cache key stands for.
pub open spec fn key_hi(k: u128) -> int {
    k as int % 0x1_0000_0000_0000_0000
}

/// Each cached key stands for an edge of existing vertices and maps to an
/// existing vertex that is that edge's midpoint.
pub open spec fn cache_consistent(vs: Seq<SphereVertex>, cache: Map<u128, usize>) -> bool {
    forall|k: u128|
        #[trigger] cache.contains_key(k) ==> {
            &&& key_lo(k) <= key_hi(k) < vs.len()
            &&& cache[k] < vs.len()
            &&& vs[cache[k] as int] == SphereVertex::Midpoint(key_lo(k) as usize, key_hi(k) as usize)
        }
}

/// Every entry of `c1` is in `c2` with the same value.
pub open spec fn cache_extends(c1: Map<u128, usize>, c2: Map<u128, usize>) -> bool {
    forall|k: u128| #[trigger] c1.contains_key(k) ==> c2.contains_key(k) && c2[k] == c1[k]
}

/// The midpoints of facet `f`'s three edges are cached.
pub open spec fn facet_edges_cached(f: [usize; 3], cache: Map<u128, usize>) -> bool {
    &&& cache.contains_key(edge_key(f[0] as int, f[1] as int))
    &&& cache.contains_key(edge_key(f[0] as int, f[2] as int))
    &&& cache.contains_key(edge_key(f[1] as int, f[2] as int))
}

/// The state of a subdivision in progress.
#[derive(Debug)]
pub struct OctaSplitter {
    vertices: Vec<SphereVertex>,
    facets: Vec<[usize; 3]>,
    midpoint_cache: HashMap<u128, usize>,
}

/// A key spells out its edge: lower end, then higher end.
pub proof fn lemma_edge_key_decode(a: int, b: int)
    requires
        0 <= a <= usize::MAX,
        0 <= b <= usize::MAX,
    ensures
        key_lo(edge_key(a, b)) == (if a < b { a } else { b }),
        key_hi(edge_key(a, b)) == (if a < b { b } else { a }),
        edge_midpoint(a, b) == SphereVertex::Midpoint(
            key_lo(edge_key(a, b)) as usize,
            key_hi(edge_key(a, b)) as usize,
        ),
{
    let lo = if a < b { a } else { b };
    let hi = if a < b { b } else { a };
    assert(0 <= lo * 0x1_0000_0000_0000_0000 + hi < 0x1_0000_0000_0000_0000 * 0x1_0000_0000_0000_0000)
        by (nonlinear_arith)
        requires
            0 <= lo < 0x1_0000_0000_0000_0000,
            0 <= hi < 0x1_0000_0000_0000_0000,
    ;
    vstd::arithmetic::div_mod::lemma_fundamental_div_mod_converse(
        lo * 0x1_0000_0000_0000_0000 + hi,
        0x1_0000_0000_0000_0000,
        lo,
        hi,
    );
}

proof fn lemma_request_edge(state: (Seq<SphereVertex>, Map<u128, usize>), a: int, b: int)
    requires
        vertices_well_founded(state.0),
        cache_consistent(state.0, state.1),
        0 <= a < state.0.len(),
        0 <= b < state.0.len(),
        state.0.len() < usize::MAX,
    ensures
        ({
            let next = request_edge(state, a, b);
            &&& vertices_well_founded(next.0)
            &&& cache_consistent(next.0, next.1)
            &&& cache_extends(state.1, next.1)
            &&& next.0.len() >= state.0.len()
            &&& next.0.len() <= state.0.len() + 1
            &&& next.0.subrange(0, state.0.len() as int) == state.0
            &&& next.1.contains_key(edge_key(a, b))
        }),
{
    let next = request_edge(state, a, b);
    let (vs, cache) = state;
    lemma_edge_key_decode(a, b);
    if !cache.contains_key(edge_key(a, b)) {
        let nvs = next.0;
        let ncache = next.1;
        assert forall|m: int| 0 <= m < nvs.len() implies match #[trigger] nvs[m] {
            SphereVertex::Corner(k) => k < 6,
            SphereVertex::Midpoint(p, q) => p <= q < m,
        } by {
            if m < vs.len() {
                assert(nvs[m] == vs[m]);
            }
        }
        assert forall|k: u128| #[trigger] ncache.contains_key(k) implies {
            &&& key_lo(k) <= key_hi(k) < nvs.len()
            &&& ncache[k] < nvs.len()
            &&& nvs[ncache[k] as int] == SphereVertex::Midpoint(key_lo(k) as usize, key_hi(k) as usize)
        } by {
            if k != edge_key(a, b) {
                assert(cache.contains_key(k));
                assert(nvs[ncache[k] as int] == vs[cache[k] as int]);
            }
        }
        assert(nvs.subrange(0, vs.len() as int) =~= vs);
    } else {
        assert(vs.subrange(0, vs.len() as int) =~= vs);
    }
}

impl OctaSplitter {
    pub closed spec fn spec_vertices(&self) -> Seq<SphereVertex> {
        self.vertices@
    }

    pub closed spec fn spec_facets(&self) -> Seq<[usize; 3]> {
        self.facets@
    }

    pub closed spec fn spec_cache(&self) -> Map<u128, usize> {
        self.midpoint_cache@
    }

    /// Vertices name valid sources, facets index existing vertices, and the
    /// cache maps edges to their midpoints.
    pub open spec fn wf(&self) -> bool {
        &&& vertices_well_founded(self.spec_vertices())
        &&& facets_in_range(self.spec_facets(), self.spec_vertices().len() as int)
        &&& cache_consistent(self.spec_vertices(), self.spec_cache())
        &&& forall|k: u128| #[trigger] self.spec_cache().contains_key(k) ==> self.spec_cache()[k]
            < self.spec_vertices().len()
    }
}

/// Splitting with a cache that has gained entries gives the same triangles for
/// a facet whose edges were already cached.
proof fn lemma_split_pattern_stable(f: [usize; 3], c1: Map<u128, usize>, c2: Map<u128, usize>)
    requires
        cache_extends(c1, c2),
        facet_edges_cached(f, c1),
    ensures
        facet_edges_cached(f, c2),
        split_pattern(f, c1) == split_pattern(f, c2),
{
    assert(c1.contains_key(edge_key(f[0] as int, f[1] as int)));
    assert(c1.contains_key(edge_key(f[0] as int, f[2] as int)));
    assert(c1.contains_key(edge_key(f[1] as int, f[2] as int)));
}

/// Facets with every corner below `n` stay in range of any longer vertex list.
proof fn lemma_facets_in_range_grow(facets: Seq<[usize; 3]>, n: int, m: int)
    requires
        facets_in_range(facets, n),
        n <= m,
    ensures
        facets_in_range(facets, m),
{
}

impl OctaSplitter {
    /// The octahedron: six corner vertices and eight facets, empty cache.
    pub fn new() -> (s: OctaSplitter)
        ensures
            s.wf(),
            s.spec_vertices() == Seq::new(6, |k: int| SphereVertex::Corner(k as usize)),
            s.spec_facets() == octahedron_facets(),
            s.spec_cache() == Map::<u128, usize>::empty(),
    {
        let mut vertices: Vec<SphereVertex> = Vec::new();
        let mut k: usize = 0;
        while k < 6
            invariant
                k <= 6,
                vertices@ == Seq::new(k as nat, |j: int| SphereVertex::Corner(j as usize)),
            decreases 6 - k,
        {
            vertices.push(SphereVertex::Corner(k));
            k = k + 1;
            proof {
                assert(vertices@ =~= Seq::new(k as nat, |j: int| SphereVertex::Corner(j as usize)));
            }
        }
        let facets: Vec<[usize; 3]> = vec![
            [0, 1, 2],
            [2, 1, 3],
            [1, 4, 3],
            [4, 1, 0],
            [0, 2, 5],
            [5, 2, 3],
            [5, 3, 4],
            [4, 0, 5],
        ];
        let midpoint_cache: HashMap<u128, usize> = HashMap::new();
        let s = OctaSplitter { vertices, facets, midpoint_cache };
        proof {
            assert(s.spec_facets() =~= octahedron_facets());
            assert forall|k: int, c: int| 0 <= k < s.spec_facets().len() && 0 <= c < 3 implies #[trigger] s.spec_facets()[k][c]
                < s.spec_vertices().len() by {
                assert(s.spec_facets()[k] == octahedron_facets()[k]);
            }
        }
        s
    }

    /// Index of the midpoint of edge `idx_a–idx_b`, appending and caching it
    /// when the edge has none yet.
    fn split_edge(&mut self, idx_a: usize, idx_b: usize) -> (m: usize)
        requires
            old(self).wf(),
            idx_a < old(self).spec_vertices().len(),
            idx_b < old(self).spec_vertices().len(),
            old(self).spec_vertices().len() < usize::MAX,
        ensures
            final(self).wf(),
            (final(self).spec_vertices(), final(self).spec_cache()) == request_edge(
                (old(self).spec_vertices(), old(self).spec_cache()),
                idx_a as int,
                idx_b as int,
            ),
            final(self).spec_facets() == old(self).spec_facets(),
            final(self).spec_cache().contains_key(edge_key(idx_a as int, idx_b as int)),
            m == final(self).spec_cache()[edge_key(idx_a as int, idx_b as int)],
    {
        proof {
            lemma_request_edge((self.vertices@, self.midpoint_cache@), idx_a as int, idx_b as int);
            lemma_edge_key_decode(idx_a as int, idx_b as int);
        }
        let (lo, hi) = if idx_a < idx_b {
            (idx_a, idx_b)
        } else {
            (idx_b, idx_a)
        };
        let key: u128 = (lo as u128) * 0x1_0000_0000_0000_0000 + (hi as u128);
        assert(key == edge_key(idx_a as int, idx_b as int));
        match self.midpoint_cache.get(&key) {
            Some(m) => {
                return *m;
            },
            None => {},
        }
        let vertex_idx = self.vertices.len();
        self.vertices.push(SphereVertex::Midpoint(lo, hi));
        self.midpoint_cache.insert(key, vertex_idx);
        proof {
            lemma_facets_in_range_grow(self.facets@, vertex_idx as int, vertex_idx + 1);
        }
        vertex_idx
    }

    /// The four triangles facet `(a, b, c)` splits into:
    /// `(a, ab, ac)`, `(b, bc, ab)`, `(c, ac, bc)`, `(ab, bc, ac)`, where `ab`
    /// is the midpoint of edge `a–b` and so on.
    pub fn split_facet(&mut self, facet: &[usize; 3]) -> (r: [[usize; 3]; 4])
        requires
            old(self).wf(),
            facet[0] < old(self).spec_vertices().len(),
            facet[1] < old(self).spec_vertices().len(),
            facet[2] < old(self).spec_vertices().len(),
            old(self).spec_vertices().len() + 3 < usize::MAX,
        ensures
            final(self).wf(),
            (final(self).spec_vertices(), final(self).spec_cache()) == request_facet(
                (old(self).spec_vertices(), old(self).spec_cache()),
                *facet,
            ),
            final(self).spec_facets() == old(self).spec_facets(),
            final(self).spec_vertices().len() <= old(self).spec_vertices().len() + 3,
            facet_edges_cached(*facet, final(self).spec_cache()),
            r@ == split_pattern(*facet, final(self).spec_cache()),
    {
        let i_a = facet[0];
        let i_b = facet[1];
        let i_c = facet[2];
        let ghost s0 = (self.vertices@, self.midpoint_cache@);
        let i_m_ab = self.split_edge(i_a, i_b);
        let ghost s1 = (self.vertices@, self.midpoint_cache@);
        let i_m_ac = self.split_edge(i_a, i_c);
        let ghost s2 = (self.vertices@, self.midpoint_cache@);
        let i_m_bc = self.split_edge(i_b, i_c);
        proof {
            lemma_request_edge(s0, i_a as int, i_b as int);
            lemma_request_edge(s1, i_a as int, i_c as int);
            lemma_request_edge(s2, i_b as int, i_c as int);
        }
        let r = [[i_a, i_m_ab, i_m_ac], [i_b, i_m_bc, i_m_ab], [i_c, i_m_ac, i_m_bc], [i_m_ab, i_m_bc, i_m_ac]];
        proof {
            assert(r@ =~= split_pattern(*facet, self.midpoint_cache@));
        }
        r
    }

    /// Splits every facet in four, in order; midpoints are shared between the
    /// facets of one split (the cache starts empty for it).
    pub fn split_facets(&mut self)
        requires
            old(self).wf(),
            old(self).spec_vertices().len() + 3 * old(self).spec_facets().len() + 3 < usize::MAX,
        ensures
            final(self).wf(),
            (final(self).spec_vertices(), final(self).spec_cache()) == request_all(
                (old(self).spec_vertices(), Map::<u128, usize>::empty()),
                old(self).spec_facets(),
            ),
            final(self).spec_facets() == split_all(old(self).spec_facets(), final(self).spec_cache()),
            final(self).spec_vertices().len() <= old(self).spec_vertices().len() + 3 * old(self).spec_facets().len(),
    {
        let mut facets: Vec<[usize; 3]> = Vec::new();
        std::mem::swap(&mut facets, &mut self.facets);
        self.midpoint_cache.clear();
        let ghost vs0 = self.vertices@;
        let ghost fs = facets@;
        proof {
            assert(fs.take(0) =~= Seq::<[usize; 3]>::empty());
            assert(split_all(fs.take(0), self.midpoint_cache@) =~= self.facets@);
        }
        let n = facets.len();
        let mut q: usize = 0;
        while q < n
            invariant
                self.wf(),
                n == fs.len(),
                fs == facets@,
                facets_in_range(fs, vs0.len() as int),
                vs0.len() + 3 * fs.len() + 3 < usize::MAX,
                q <= n,
                (self.vertices@, self.midpoint_cache@) == request_all(
                    (vs0, Map::<u128, usize>::empty()),
                    fs.take(q as int),
                ),
                self.vertices@.len() >= vs0.len(),
                self.vertices@.len() <= vs0.len() + 3 * q,
                forall|k: int| 0 <= k < q ==> #[trigger] facet_edges_cached(fs[k], self.midpoint_cache@),
                self.facets@ == split_all(fs.take(q as int), self.midpoint_cache@),
            decreases n - q,
        {
            let ghost c_before = self.midpoint_cache@;
            let ghost f_before = self.facets@;
            assert(fs[q as int][0] < vs0.len() && fs[q as int][1] < vs0.len() && fs[q as int][2] < vs0.len());
            let parts = self.split_facet(&facets[q]);
            proof {
                lemma_request_extends_facet((vs0, Map::<u128, usize>::empty()), fs, q as int, c_before, self.midpoint_cache@);
            }
            self.facets.push(parts[0]);
            self.facets.push(parts[1]);
            self.facets.push(parts[2]);
            self.facets.push(parts[3]);
            proof {
                assert(fs.take(q + 1).drop_last() =~= fs.take(q as int));
                assert(self.facets@ =~= f_before + parts@);
                lemma_split_step(fs, q as int, f_before, c_before, self.midpoint_cache@, self.facets@, self.vertices@, vs0.len() as int);
            }
            q = q + 1;
        }
        proof {
            assert(fs.take(n as int) =~= fs);
        }
    }

    /// The finished mesh.
    pub fn build(self) -> (m: IndexedMesh<SphereVertex>)
        ensures
            m.spec_vertices() == self.spec_vertices(),
            m.spec_facets() == self.spec_facets(),
    {
        IndexedMesh::new(self.vertices, self.facets)
    }
}

proof fn lemma_quarter_bound(i: int, q: int)
    requires
        0 <= i < 4 * q,
    ensures
        0 <= i / 4 < q,
        0 <= i % 4 < 4,
{
    vstd::arithmetic::div_mod::lemma_fundamental_div_mod(i, 4);
    vstd::arithmetic::div_mod::lemma_mod_bound(i, 4);
}

/// One more facet split and appended keeps the output equal to the split of
/// the facets seen so far, in range of the vertex list.
proof fn lemma_split_step(
    fs: Seq<[usize; 3]>,
    q: int,
    f_before: Seq<[usize; 3]>,
    c_before: Map<u128, usize>,
    c: Map<u128, usize>,
    f_after: Seq<[usize; 3]>,
    vs: Seq<SphereVertex>,
    n0: int,
)
    requires
        0 <= q < fs.len(),
        f_before == split_all(fs.take(q), c_before),
        cache_extends(c_before, c),
        forall|k: int| 0 <= k < q ==> #[trigger] facet_edges_cached(fs[k], c_before),
        facet_edges_cached(fs[q], c),
        f_after == f_before + split_pattern(fs[q], c),
        cache_consistent(vs, c),
        facets_in_range(fs, n0),
        n0 <= vs.len(),
    ensures
        f_after == split_all(fs.take(q + 1), c),
        facets_in_range(f_after, vs.len() as int),
        forall|k: int| 0 <= k < q + 1 ==> #[trigger] facet_edges_cached(fs[k], c),
{
    assert forall|k: int| 0 <= k < q + 1 implies #[trigger] facet_edges_cached(fs[k], c) by {
        if k < q {
            lemma_split_pattern_stable(fs[k], c_before, c);
        }
    }
    assert forall|i: int| 0 <= i < 4 * (q + 1) implies f_after[i] == split_all(fs.take(q + 1), c)[i] by {
        lemma_quarter_bound(i, q + 1);
        if i < 4 * q {
            lemma_quarter_bound(i, q);
            assert(f_before[i] == split_all(fs.take(q), c_before)[i]);
            lemma_split_pattern_stable(fs[i / 4], c_before, c);
        } else {
            vstd::arithmetic::div_mod::lemma_fundamental_div_mod_converse(i, 4, q, i - 4 * q);
        }
    }
    assert(f_after =~= split_all(fs.take(q + 1), c));
    assert forall|k: int, cc: int| 0 <= k < f_after.len() && 0 <= cc < 3 implies #[trigger] f_after[k][cc]
        < vs.len() by {
        lemma_quarter_bound(k, q + 1);
        let j = k / 4;
        assert(fs[j][0] < n0 && fs[j][1] < n0 && fs[j][2] < n0);
        lemma_split_pattern_in_range(fs[j], c, vs);
        assert(f_after[k] == split_pattern(fs[j], c)[k % 4]);
    }
}

/// Requesting a facet's edges extends the cache and caches them.
proof fn lemma_request_extends_facet(
    start: (Seq<SphereVertex>, Map<u128, usize>),
    fs: Seq<[usize; 3]>,
    q: int,
    c_before: Map<u128, usize>,
    c_after: Map<u128, usize>,
)
    requires
        0 <= q < fs.len(),
        request_all(start, fs.take(q)).1 == c_before,
        request_facet(request_all(start, fs.take(q)), fs[q]).1 == c_after,
        vertices_well_founded(request_all(start, fs.take(q)).0),
        cache_consistent(request_all(start, fs.take(q)).0, c_before),
        fs[q][0] < request_all(start, fs.take(q)).0.len(),
        fs[q][1] < request_all(start, fs.take(q)).0.len(),
        fs[q][2] < request_all(start, fs.take(q)).0.len(),
        request_all(start, fs.take(q)).0.len() + 3 < usize::MAX,
    ensures
        cache_extends(c_before, c_after),
        facet_edges_cached(fs[q], c_after),
{
    let s0 = request_all(start, fs.take(q));
    let f = fs[q];
    let s1 = request_edge(s0, f[0] as int, f[1] as int);
    let s2 = request_edge(s1, f[0] as int, f[2] as int);
    lemma_request_edge(s0, f[0] as int, f[1] as int);
    lemma_request_edge(s1, f[0] as int, f[2] as int);
    lemma_request_edge(s2, f[1] as int, f[2] as int);
}

/// The triangles of a split facet index existing vertices once its edges are
/// cached consistently.
proof fn lemma_split_pattern_in_range(f: [usize; 3], c: Map<u128, usize>, vs: Seq<SphereVertex>)
    requires
        facet_edges_cached(f, c),
        cache_consistent(vs, c),
        f[0] < vs.len(),
        f[1] < vs.len(),
        f[2] < vs.len(),
    ensures
        forall|i: int, cc: int| 0 <= i < 4 && 0 <= cc < 3 ==> #[trigger] split_pattern(f, c)[i][cc] < vs.len(),
{
    assert(c.contains_key(edge_key(f[0] as int, f[1] as int)));
    assert(c.contains_key(edge_key(f[0] as int, f[2] as int)));
    assert(c.contains_key(edge_key(f[1] as int, f[2] as int)));
}

/// Two edges share a cache key exactly when they join the same two vertices,
/// in either order.
pub proof fn lemma_edge_key_identifies_edge(a: int, b: int, c: int, d: int)
    requires
        0 <= a <= usize::MAX,
        0 <= b <= usize::MAX,
        0 <= c <= usize::MAX,
        0 <= d <= usize::MAX,
    ensures
        edge_key(a, b) == edge_key(c, d) <==> ((a == c && b == d) || (a == d && b == c)),
{
    lemma_edge_key_decode(a, b);
    lemma_edge_key_decode(c, d);
}

/// Asking for the midpoint of an edge that has none yet appends exactly that
/// midpoint after the existing vertices and caches its index; asking again,
/// from either end of the edge, changes nothing and finds the same vertex.
pub proof fn lemma_request_edge_once(vs: Seq<SphereVertex>, cache: Map<u128, usize>, a: int, b: int)
    requires
        0 <= a < vs.len(),
        0 <= b < vs.len(),
        vs.len() < usize::MAX,
        !cache.contains_key(edge_key(a, b)),
    ensures
        ({
            let (vs1, cache1) = request_edge((vs, cache), a, b);
            &&& vs1 == vs.push(
                if a < b {
                    SphereVertex::Midpoint(a as usize, b as usize)
                } else {
                    SphereVertex::Midpoint(b as usize, a as usize)
                },
            )
            &&& cache1.contains_key(edge_key(a, b))
            &&& cache1[edge_key(a, b)] == vs.len()
            &&& request_edge((vs1, cache1), a, b) == (vs1, cache1)
            &&& request_edge((vs1, cache1), b, a) == (vs1, cache1)
        }),
{
    assert(edge_key(b, a) == edge_key(a, b));
}

/// Cache keys of the three edges of facet `f`.
pub open spec fn facet_keys(f: [usize; 3]) -> Set<u128> {
    set![edge_key(f[0] as int, f[1] as int), edge_key(f[0] as int, f[2] as int), edge_key(f[1] as int, f[2] as int)]
}

/// Cache keys of every edge of `facets`, each undirected edge once.
pub open spec fn edge_keys(facets: Seq<[usize; 3]>) -> Set<u128>
    decreases facets.len(),
{
    if facets.len() == 0 {
        Set::empty()
    } else {
        edge_keys(facets.drop_last()).union(facet_keys(facets.last()))
    }
}

proof fn lemma_request_edge_count(state: (Seq<SphereVertex>, Map<u128, usize>), a: int, b: int)
    requires
        state.1.dom().finite(),
    ensures
        ({
            let next = request_edge(state, a, b);
            &&& next.1.dom() == state.1.dom().insert(edge_key(a, b))
            &&& next.1.dom().finite()
            &&& next.0.len() + state.1.dom().len() == state.0.len() + next.1.dom().len()
        }),
{
    let k = edge_key(a, b);
    if state.1.contains_key(k) {
        assert(state.1.dom().insert(k) =~= state.1.dom());
    }
}

/// Asking for the midpoints of the edges of `facets` caches every edge key of
/// them and appends one vertex per key not cached before.
proof fn lemma_request_all_count(state: (Seq<SphereVertex>, Map<u128, usize>), facets: Seq<[usize; 3]>)
    requires
        state.1.dom().finite(),
    ensures
        ({
            let next = request_all(state, facets);
            &&& next.1.dom() == state.1.dom().union(edge_keys(facets))
            &&& next.1.dom().finite()
            &&& next.0.len() + state.1.dom().len() == state.0.len() + next.1.dom().len()
        }),
    decreases facets.len(),
{
    if facets.len() > 0 {
        let f = facets.last();
        lemma_request_all_count(state, facets.drop_last());
        let s0 = request_all(state, facets.drop_last());
        let s1 = request_edge(s0, f[0] as int, f[1] as int);
        let s2 = request_edge(s1, f[0] as int, f[2] as int);
        lemma_request_edge_count(s0, f[0] as int, f[1] as int);
        lemma_request_edge_count(s1, f[0] as int, f[2] as int);
        lemma_request_edge_count(s2, f[1] as int, f[2] as int);
        let next = request_all(state, facets);
        assert(next.1.dom() =~= state.1.dom().union(edge_keys(facets)));
    }
}

/// Each split adds exactly one vertex per undirected edge of the facets it
/// splits: the number of vertices grows by the number of distinct edge keys.
pub proof fn lemma_split_adds_one_vertex_per_edge(k: nat)
    ensures
        subdivided(k + 1).0.len() == subdivided(k).0.len() + edge_keys(subdivided(k).1).len(),
        edge_keys(subdivided(k).1).finite(),
{
    let (vs, fs) = subdivided(k);
    let empty = Map::<u128, usize>::empty();
    lemma_request_all_count((vs, empty), fs);
    assert(empty.dom() =~= Set::<u128>::empty());
    assert(Set::<u128>::empty().union(edge_keys(fs)) =~= edge_keys(fs));
    assert(subdivided(k + 1) == ({
        let (vs2, cache) = request_all((vs, empty), fs);
        (vs2, split_all(fs, cache))
    }));
}

/// The directed edges of triangle `t`: corner 0 to 1, 1 to 2, 2 to 0.
pub open spec fn triangle_edges(t: [usize; 3]) -> Seq<(usize, usize)> {
    seq![(t[0], t[1]), (t[1], t[2]), (t[2], t[0])]
}

/// The directed edges of four triangles, in order.
pub open spec fn children_edges(r: Seq<[usize; 3]>) -> Seq<(usize, usize)> {
    triangle_edges(r[0]) + triangle_edges(r[1]) + triangle_edges(r[2]) + triangle_edges(r[3])
}

/// Splitting keeps orientation. For a facet `a, b, c` whose edge midpoints
/// `ab, ac, bc` are cached (six distinct vertices in all), the four children
/// together walk each half of the parent's edges in the parent's direction
/// (`a → ab → b`, `b → bc → c`, `c → ac → a`) and each inner edge between
/// two midpoints once in each direction, and no directed edge twice: every
/// child is wound like its parent.
pub proof fn lemma_split_keeps_orientation(f: [usize; 3], cache: Map<u128, usize>)
    requires
        facet_edges_cached(f, cache),
        ({
            let (a, b, c) = (f[0], f[1], f[2]);
            let ab = cache[edge_key(a as int, b as int)];
            let ac = cache[edge_key(a as int, c as int)];
            let bc = cache[edge_key(b as int, c as int)];
            seq![a, b, c, ab, ac, bc].no_duplicates()
        }),
    ensures
        ({
            let (a, b, c) = (f[0], f[1], f[2]);
            let ab = cache[edge_key(a as int, b as int)];
            let ac = cache[edge_key(a as int, c as int)];
            let bc = cache[edge_key(b as int, c as int)];
            let e = children_edges(split_pattern(f, cache));
            &&& e.len() == 12
            &&& e.no_duplicates()
            &&& e.contains((a, ab)) && e.contains((ab, b))
            &&& e.contains((b, bc)) && e.contains((bc, c))
            &&& e.contains((c, ac)) && e.contains((ac, a))
            &&& e.contains((ab, bc)) && e.contains((bc, ab))
            &&& e.contains((bc, ac)) && e.contains((ac, bc))
            &&& e.contains((ac, ab)) && e.contains((ab, ac))
        }),
{
    let (a, b, c) = (f[0], f[1], f[2]);
    let ab = cache[edge_key(a as int, b as int)];
    let ac = cache[edge_key(a as int, c as int)];
    let bc = cache[edge_key(b as int, c as int)];
    let d = seq![a, b, c, ab, ac, bc];
    assert(d[0] == a && d[1] == b && d[2] == c && d[3] == ab && d[4] == ac && d[5] == bc);
    assert(a != b && a != c && b != c && a != ab && a != ac && a != bc);
    assert(b != ab && b != ac && b != bc && c != ab && c != ac && c != bc);
    assert(ab != ac && ab != bc && ac != bc);
    let e = children_edges(split_pattern(f, cache));
    assert(e.len() == 12);
    assert(e[0] == (a, ab));
    assert(e[1] == (ab, ac));
    assert(e[2] == (ac, a));
    assert(e[3] == (b, bc));
    assert(e[4] == (bc, ab));
    assert(e[5] == (ab, b));
    assert(e[6] == (c, ac));
    assert(e[7] == (ac, bc));
    assert(e[8] == (bc, c));
    assert(e[9] == (ab, bc));
    assert(e[10] == (bc, ac));
    assert(e[11] == (ac, ab));
    assert forall|i: int, j: int| 0 <= i < e.len() && 0 <= j < e.len() && i != j implies e[i] != e[j] by {
        assert(0 <= i < 12 && 0 <= j < 12);
    }
}

/// Vertices and facets after `k` splits of the octahedron: each split asks
/// for the midpoints of every facet's edges with a fresh cache, then cuts
/// every facet in four.
pub open spec fn subdivided(k: nat) -> (Seq<SphereVertex>, Seq<[usize; 3]>)
    decreases k,
{
    if k == 0 {
        (Seq::new(6, |j: int| SphereVertex::Corner(j as usize)), octahedron_facets())
    } else {
        let (vs, fs) = subdivided((k - 1) as nat);
        let (vs2, cache) = request_all((vs, Map::<u128, usize>::empty()), fs);
        (vs2, split_all(fs, cache))
    }
}

/// Unit sphere mesh: the octahedron split `splits` times. It has
/// `8 · 4^splits` facets.
pub fn sphere(splits: usize) -> (mesh: IndexedMesh<SphereVertex>)
    requires
        8 * pow(4, splits as nat) + 3 < usize::MAX,
    ensures
        (mesh.spec_vertices(), mesh.spec_facets()) == subdivided(splits as nat),
        mesh.spec_facets().len() == 8 * pow(4, splits as nat),
        facets_in_range(mesh.spec_facets(), mesh.spec_vertices().len() as int),
        vertices_well_founded(mesh.spec_vertices()),
{
    let mut splitter = OctaSplitter::new();
    let mut k: usize = 0;
    proof {
        vstd::arithmetic::power::lemma_pow0(4);
    }
    while k < splits
        invariant
            splitter.wf(),
            k <= splits,
            (splitter.spec_vertices(), splitter.spec_facets()) == subdivided(k as nat),
            splitter.spec_facets().len() == 8 * pow(4, k as nat),
            splitter.spec_vertices().len() <= splitter.spec_facets().len(),
            8 * pow(4, splits as nat) + 3 < usize::MAX,
        decreases splits - k,
    {
        proof {
            vstd::arithmetic::power::lemma_pow_adds(4, k as nat, 1);
            vstd::arithmetic::power::lemma_pow1(4);
            vstd::arithmetic::power::lemma_pow_increases(4, (k + 1) as nat, splits as nat);
        }
        splitter.split_facets();
        k = k + 1;
    }
    splitter.build()
}

} // verus!
