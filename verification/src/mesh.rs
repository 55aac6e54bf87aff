//! Indexed triangle meshes: a vertex list plus facets given as three vertex
//! indices each, in counter-clockwise order seen from outside.

use vstd::prelude::*;

verus! {

/// Triangle mesh over vertex descriptions of type `V`; facet corners index
/// into `vertices`.
#[derive(Clone, Debug)]
pub struct IndexedMesh<V> {
    vertices: Vec<V>,
    facets: Vec<[usize; 3]>,
}

/// Every facet corner indexes an existing vertex.
pub open spec fn facets_in_range(facets: Seq<[usize; 3]>, vertex_count: int) -> bool {
    forall|k: int, c: int| 0 <= k < facets.len() && 0 <= c < 3 ==> #[trigger] facets[k][c] < vertex_count
}

impl<V> IndexedMesh<V> {
    pub closed spec fn spec_vertices(&self) -> Seq<V> {
        self.vertices@
    }

    pub closed spec fn spec_facets(&self) -> Seq<[usize; 3]> {
        self.facets@
    }

    /// Assembles a mesh from its parts.
    pub fn new(vertices: Vec<V>, facets: Vec<[usize; 3]>) -> (m: IndexedMesh<V>)
        ensures
            m.spec_vertices() == vertices@,
            m.spec_facets() == facets@,
    {
        IndexedMesh { vertices, facets }
    }

    /// The vertex descriptions.
    pub fn vertices(&self) -> (v: &[V])
        ensures
            v@ == self.spec_vertices(),
    {
        self.vertices.as_slice()
    }

    /// The facets, three vertex indices each.
    pub fn facets(&self) -> (f: &[[usize; 3]])
        ensures
            f@ == self.spec_facets(),
    {
        self.facets.as_slice()
    }

    /// The vertex list and the facet list, handed over.
    pub fn into_parts(self) -> (parts: (Vec<V>, Vec<[usize; 3]>))
        ensures
            parts.0@ == self.spec_vertices(),
            parts.1@ == self.spec_facets(),
    {
        (self.vertices, self.facets)
    }
}

/// The three undirected edges of a facet, walking its corners in order:
/// `v[0]–v[1]`, `v[1]–v[2]`, `v[2]–v[0]`.
pub fn facet_edges(v: [usize; 3]) -> (e: [(usize, usize); 3])
    ensures
        e@ == seq![(v[0], v[1]), (v[1], v[2]), (v[2], v[0])],
{
    let e = [(v[0], v[1]), (v[1], v[2]), (v[2], v[0])];
    assert(e@ =~= seq![(v[0], v[1]), (v[1], v[2]), (v[2], v[0])]);
    e
}

/// The four edges of a quad, following its winding:
/// `(v0, v1), (v1, v2), (v2, v3), (v3, v0)`.
pub fn quad_edges(v: [usize; 4]) -> (e: [(usize, usize); 4])
    ensures
        e@ == seq![(v[0], v[1]), (v[1], v[2]), (v[2], v[3]), (v[3], v[0])],
{
    let e = [(v[0], v[1]), (v[1], v[2]), (v[2], v[3]), (v[3], v[0])];
    assert(e@ =~= seq![(v[0], v[1]), (v[1], v[2]), (v[2], v[3]), (v[3], v[0])]);
    e
}

} // verus!
