use thorus_forge::cube::{cube, facets_from_quad_ccw_corner, AxisNormal};
use thorus_forge::mesh::{facet_edges, quad_edges};
use thorus_forge::sphere::{sphere, SphereVertex};
use thorus_forge::torus::{torus, TorusSample};

#[test]
fn torus_vertex_and_facet_counts() {
    let mesh = torus(12, 8);
    assert_eq!(12 * 8, mesh.vertices().len());
    assert_eq!(12 * 8 * 2, mesh.facets().len());
}

#[test]
fn torus_vertices_walk_ring_then_tube() {
    let mesh = torus(4, 3);
    assert_eq!(mesh.vertices()[0], TorusSample { ring: 0, tube: 0 });
    assert_eq!(mesh.vertices()[5], TorusSample { ring: 1, tube: 2 });
    assert_eq!(mesh.vertices()[11], TorusSample { ring: 3, tube: 2 });
}

#[test]
fn torus_facets_split_each_cell_and_wrap_around() {
    let mesh = torus(4, 3);
    // Cell (0, 0): vertices (0,0)=0, (1,0)=3, (1,1)=4, (0,1)=1.
    assert_eq!(mesh.facets()[0], [0, 3, 4]);
    assert_eq!(mesh.facets()[1], [0, 4, 1]);
    // Last cell (3, 2) wraps to ring 0 and tube 0.
    assert_eq!(mesh.facets()[22], [11, 2, 0]);
    assert_eq!(mesh.facets()[23], [11, 0, 9]);
    assert!(mesh.facets().iter().all(|f| f.iter().all(|&v| v < 12)));
}

#[test]
fn initial_unit_sphere_vertices_and_facets() {
    let mesh = sphere(0);

    assert_eq!(6, mesh.vertices().len());
    assert_eq!(8, mesh.facets().len());
}

#[test]
fn unit_sphere_with_one_split() {
    let mesh = sphere(1);
    assert_eq!(32, mesh.facets().len());
    assert_eq!(18, mesh.vertices().len());
}

#[test]
fn unit_sphere_with_two_splits() {
    let mesh = sphere(2);
    assert_eq!(128, mesh.facets().len());
    assert_eq!(66, mesh.vertices().len());
}

#[test]
fn initial_sphere_vertices_and_facets() {
    let mesh = sphere(0);

    assert_eq!(6, mesh.vertices().len());
    assert_eq!(8, mesh.facets().len());
}

#[test]
fn sphere_with_one_split() {
    let mesh = sphere(1);
    assert_eq!(32, mesh.facets().len());
    assert_eq!(18, mesh.vertices().len());
}

#[test]
fn sphere_with_two_splits() {
    let mesh = sphere(2);
    assert_eq!(128, mesh.facets().len());
    assert_eq!(66, mesh.vertices().len());
}

#[test]
fn sphere_octahedron_facets_and_corners() {
    let mesh = sphere(0);
    assert_eq!(
        mesh.facets(),
        &[[0, 1, 2], [2, 1, 3], [1, 4, 3], [4, 1, 0], [0, 2, 5], [5, 2, 3], [5, 3, 4], [4, 0, 5]]
    );
    for (k, v) in mesh.vertices().iter().enumerate() {
        assert_eq!(*v, SphereVertex::Corner(k));
    }
}

#[test]
fn sphere_split_shares_edge_midpoints() {
    let mesh = sphere(1);
    // The six corners come first, then one midpoint per octahedron edge.
    let midpoints: Vec<_> = mesh.vertices()[6..].to_vec();
    assert_eq!(midpoints.len(), 12);
    for v in &midpoints {
        match *v {
            SphereVertex::Midpoint(a, b) => assert!(a < 6 && b < 6 && a != b),
            SphereVertex::Corner(_) => panic!("corner after the octahedron corners"),
        }
    }
    for (i, a) in midpoints.iter().enumerate() {
        for b in &midpoints[i + 1..] {
            let key = |v: &SphereVertex| match *v {
                SphereVertex::Midpoint(x, y) => (x.min(y), x.max(y)),
                SphereVertex::Corner(c) => (c, c),
            };
            assert_ne!(key(a), key(b));
        }
    }
    assert!(mesh.facets().iter().all(|f| f.iter().all(|&v| v < 18)));
}

#[test]
fn unit_cube_corner_and_face_counts() {
    let mesh = cube();
    assert_eq!(mesh.vertices.len(), 8);
    assert_eq!(mesh.facets.len(), 12);
    assert!(mesh.vertices.iter().all(|p| {
        let (x, y, z) = (p.x as f32 / 2.0, p.y as f32 / 2.0, p.z as f32 / 2.0);
        x.abs() <= 0.5 && y.abs() <= 0.5 && z.abs() <= 0.5
    }));
}

#[test]
fn cube_corner_and_facet_counts() {
    let mesh = cube();
    assert_eq!(mesh.vertices.len(), 8);
    assert_eq!(mesh.facets.len(), 12);
    assert!(mesh.vertices.iter().all(|p| {
        let (x, y, z) = (p.x as f32 / 2.0, p.y as f32 / 2.0, p.z as f32 / 2.0);
        x.abs() <= 0.5 && y.abs() <= 0.5 && z.abs() <= 0.5
    }));
}

#[test]
fn cube_facets_wind_outward() {
    // (v1 - v0) × (v2 - v0) points along the facet's outward normal.
    let mesh = cube();
    for f in &mesh.facets {
        let p = |k: usize| {
            let c = mesh.vertices[f.verts[k]];
            (c.x as i32, c.y as i32, c.z as i32)
        };
        let (a, b, c) = (p(0), p(1), p(2));
        let u = (b.0 - a.0, b.1 - a.1, b.2 - a.2);
        let v = (c.0 - a.0, c.1 - a.1, c.2 - a.2);
        let n = (u.1 * v.2 - u.2 * v.1, u.2 * v.0 - u.0 * v.2, u.0 * v.1 - u.1 * v.0);
        let expected = match f.normal {
            AxisNormal::X => (4, 0, 0),
            AxisNormal::NegX => (-4, 0, 0),
            AxisNormal::Y => (0, 4, 0),
            AxisNormal::NegY => (0, -4, 0),
            AxisNormal::Z => (0, 0, 4),
            AxisNormal::NegZ => (0, 0, -4),
        };
        assert_eq!(n, expected);
    }
}

#[test]
fn quad_splits_into_two_triangles_sharing_the_diagonal() {
    let [a, b] = facets_from_quad_ccw_corner(AxisNormal::Y, [3, 7, 6, 2]);
    assert_eq!(a.verts, [3, 7, 6]);
    assert_eq!(b.verts, [3, 6, 2]);
    assert_eq!(a.normal, AxisNormal::Y);
    assert_eq!(b.normal, AxisNormal::Y);
}

#[test]
fn facet_edges_walk_triangle_boundary_in_ccw_order() {
    assert_eq!(facet_edges([1, 2, 7]).to_vec(), vec![(1, 2), (2, 7), (7, 1)]);
}

#[test]
fn edges_walk_quad_boundary_in_order() {
    assert_eq!(quad_edges([1, 2, 3, 4]).to_vec(), vec![(1, 2), (2, 3), (3, 4), (4, 1)]);
}
