//! Scenario tests for the subdivision engine: the single-triangle and shared
//! edge scenarios, the counting laws, manifold closure, determinism and step
//! composability.

use geodesic::algorithms::TopologyError;
use geodesic::half_edge::{create_vertices, Face, HalfEdge, Mesh, Position};
use geodesic::midpoint::{LinearMidpoint, ProjectedMidpoint};

/// Builds a mesh from a vertex list and triangles given as index triples,
/// wiring `adjacent` by matching each directed edge with its reverse.
fn build_mesh(positions: Vec<Position>, tris: &[[usize; 3]]) -> Mesh {
    let mut edges: Vec<HalfEdge> = Vec::new();
    let mut faces: Vec<Face> = Vec::new();
    for (f, tri) in tris.iter().enumerate() {
        let base = 3 * f;
        edges.push(HalfEdge::new_boundary(tri[0], f, base + 1));
        edges.push(HalfEdge::new_boundary(tri[1], f, base + 2));
        edges.push(HalfEdge::new_boundary(tri[2], f, base));
        faces.push(Face::new(base));
    }
    let endpoints: Vec<(usize, usize)> = (0..edges.len())
        .map(|i| {
            let f = i / 3;
            let s = i % 3;
            (tris[f][s], tris[f][(s + 1) % 3])
        })
        .collect();
    for i in 0..edges.len() {
        for j in 0..edges.len() {
            if endpoints[i].0 == endpoints[j].1 && endpoints[i].1 == endpoints[j].0 {
                edges[i].adjacent = Some(j);
            }
        }
    }
    Mesh { positions, faces, edges }
}

fn single_triangle() -> Mesh {
    build_mesh(
        vec![
            Position::new(0, 0, 0),
            Position::new(2, 0, 0),
            Position::new(0, 2, 0),
        ],
        &[[0, 1, 2]],
    )
}

/// Two triangles sharing the edge between vertices 1 and 3 (a quad split in
/// two).
fn quad() -> Mesh {
    build_mesh(
        vec![
            Position::new(0, 0, 0),
            Position::new(2, 0, 0),
            Position::new(2, 2, 0),
            Position::new(0, 2, 0),
        ],
        &[[0, 1, 3], [1, 2, 3]],
    )
}

/// A closed octahedron with vertices on the axes at distance `r`.
fn octahedron(r: i64) -> Mesh {
    build_mesh(
        vec![
            Position::new(r, 0, 0),
            Position::new(-r, 0, 0),
            Position::new(0, r, 0),
            Position::new(0, -r, 0),
            Position::new(0, 0, r),
            Position::new(0, 0, -r),
        ],
        &[
            [4, 0, 2],
            [4, 2, 1],
            [4, 1, 3],
            [4, 3, 0],
            [5, 2, 0],
            [5, 1, 2],
            [5, 3, 1],
            [5, 0, 3],
        ],
    )
}

#[test]
fn single_triangle_one_step() {
    let mesh = single_triangle();
    let out = mesh.subdivide_once(&LinearMidpoint).unwrap();

    assert_eq!(out.faces.len(), 4);
    assert_eq!(out.edges.len(), 12);
    // 3 original positions plus one midpoint per distinct edge.
    assert_eq!(out.positions.len(), 6);

    // Original positions are preserved at the same indices.
    assert_eq!(out.positions[0], Position::new(0, 0, 0));
    assert_eq!(out.positions[1], Position::new(2, 0, 0));
    assert_eq!(out.positions[2], Position::new(0, 2, 0));

    // One midpoint per edge, in edge order.
    assert_eq!(out.positions[3], Position::new(1, 0, 0));
    assert_eq!(out.positions[4], Position::new(1, 1, 0));
    assert_eq!(out.positions[5], Position::new(0, 1, 0));

    // Winding order: (p0,p3,p5) (p3,p1,p4) (p3,p4,p5) (p5,p4,p2).
    let expected_positions = [0, 3, 5, 3, 1, 4, 3, 4, 5, 5, 4, 2];
    for (k, &p) in expected_positions.iter().enumerate() {
        assert_eq!(out.edges[k].position, p, "slot {}", k);
    }

    // Face roots and the 3-cycles.
    for j in 0..4 {
        assert_eq!(out.faces[j].root, 3 * j);
        assert_eq!(out.edges[3 * j].next, 3 * j + 1);
        assert_eq!(out.edges[3 * j + 1].next, 3 * j + 2);
        assert_eq!(out.edges[3 * j + 2].next, 3 * j);
        for s in 0..3 {
            assert_eq!(out.edges[3 * j + s].face, j);
        }
    }

    // The six halves of the three boundary edges stay boundary.
    for &k in [0usize, 3, 4, 10, 11, 2].iter() {
        assert!(out.edges[k].is_boundary(), "slot {}", k);
    }

    // The three interior edges around the central face are mutually adjacent
    // in their pairs.
    assert_eq!(out.edges[1].adjacent, Some(8));
    assert_eq!(out.edges[8].adjacent, Some(1));
    assert_eq!(out.edges[5].adjacent, Some(6));
    assert_eq!(out.edges[6].adjacent, Some(5));
    assert_eq!(out.edges[7].adjacent, Some(9));
    assert_eq!(out.edges[9].adjacent, Some(7));

    assert!(out.validate().is_ok());
}

#[test]
fn quad_shared_edge_midpoint_deduplicated() {
    let mesh = quad();
    // Edge 1 runs 1 -> 3 inside face 0; edge 5 runs 3 -> 1 inside face 1.
    assert_eq!(mesh.edges[1].adjacent, Some(5));
    assert_eq!(mesh.edges[5].adjacent, Some(1));

    let out = mesh.subdivide_once(&LinearMidpoint).unwrap();

    // 4 original corners + 5 distinct edges (the shared edge counts once).
    assert_eq!(out.positions.len(), 9);
    assert_eq!(out.faces.len(), 8);
    assert_eq!(out.edges.len(), 24);

    // Midpoints in edge order: edge 0 (0-1), edge 1 (1-3, shared), edge 2
    // (3-0), edge 3 (1-2), edge 4 (2-3); edge 5 reuses the shared one.
    assert_eq!(out.positions[4], Position::new(1, 0, 0));
    assert_eq!(out.positions[5], Position::new(1, 1, 0));
    assert_eq!(out.positions[6], Position::new(0, 1, 0));
    assert_eq!(out.positions[7], Position::new(2, 1, 0));
    assert_eq!(out.positions[8], Position::new(1, 2, 0));

    // Both faces' blocks reference the shared midpoint through the same
    // position index 5, not a duplicate. In block 0 the midpoint of its
    // second cycle edge sits in slots 5, 7 and 10; in block 1 the midpoint
    // of its third cycle edge sits in slots 2, 8 and 9.
    for &k in [5usize, 7, 10].iter() {
        assert_eq!(out.edges[k].position, 5, "block 0 slot {}", k);
    }
    for &k in [14usize, 20, 21].iter() {
        assert_eq!(out.edges[k].position, 5, "block 1 slot {}", k);
    }

    // Crossed pairing over the shared edge: the start-side half of edge 1
    // pairs with the end-side half of edge 5 and vice versa.
    assert_eq!(out.edges[4].adjacent, Some(14));
    assert_eq!(out.edges[14].adjacent, Some(4));
    assert_eq!(out.edges[10].adjacent, Some(23));
    assert_eq!(out.edges[23].adjacent, Some(10));

    assert!(out.validate().is_ok());
}

#[test]
fn triangle_count_law() {
    let mesh = octahedron(100);
    assert_eq!(mesh.faces.len(), 8);
    let out = mesh.subdivide_once(&LinearMidpoint).unwrap();
    assert_eq!(out.faces.len(), 4 * 8);
    assert_eq!(out.edges.len(), 12 * 8);

    let out2 = out.subdivide_once(&LinearMidpoint).unwrap();
    assert_eq!(out2.faces.len(), 4 * 32);
    assert_eq!(out2.edges.len(), 12 * 32);
}

#[test]
fn vertex_count_law() {
    // The octahedron has 12 distinct edges; every one contributes exactly one
    // new position.
    let mesh = octahedron(100);
    let out = mesh.subdivide_once(&LinearMidpoint).unwrap();
    assert_eq!(out.positions.len(), 6 + 12);

    // A mesh with boundary: the single triangle's 3 boundary edges also
    // contribute one each.
    let tri = single_triangle();
    let out = tri.subdivide_once(&LinearMidpoint).unwrap();
    assert_eq!(out.positions.len(), 3 + 3);

    // Mixed boundary and interior: the refined triangle has 3 shared edges
    // around the central face and 6 boundary halves — 9 distinct edges.
    let out2 = out.subdivide_once(&LinearMidpoint).unwrap();
    assert_eq!(out2.positions.len(), 6 + 9);
}

#[test]
fn seed_preservation() {
    // Original positions reappear unchanged at the same indices, even under
    // the projecting policy.
    let mesh = octahedron(1 << 16);
    let out = mesh
        .subdivide_once(&ProjectedMidpoint { radius: 1 << 16 })
        .unwrap();
    for i in 0..mesh.positions.len() {
        assert_eq!(out.positions[i], mesh.positions[i], "seed {}", i);
    }
}

#[test]
fn manifold_closure() {
    let mesh = octahedron(100);
    for e in &mesh.edges {
        assert!(!e.is_boundary());
    }
    let out = mesh.subdivide_once(&LinearMidpoint).unwrap();
    // Boundary-free in, boundary-free out; adjacency mutual and oppositely
    // oriented for every pair.
    for (k, e) in out.edges.iter().enumerate() {
        let a = e.adjacent.expect("closed mesh must stay closed");
        assert_eq!(out.edges[a].adjacent, Some(k));
        assert_ne!(a, k);
        assert_eq!(
            out.edges[a].position,
            out.edges[out.edges[k].next].position
        );
        assert_eq!(
            out.edges[k].position,
            out.edges[out.edges[a].next].position
        );
    }
    assert!(out.validate().is_ok());
}

#[test]
fn determinism() {
    let mesh = octahedron(1 << 16);
    let policy = ProjectedMidpoint { radius: 1 << 16 };
    let once = mesh.subdivide(3, &policy).unwrap();
    let again = mesh.subdivide(3, &policy).unwrap();
    assert_eq!(once, again);
}

#[test]
fn repeated_refinement() {
    let mesh = octahedron(64);
    let two_steps = mesh.subdivide(2, &LinearMidpoint).unwrap();
    let one_then_one = mesh
        .subdivide(1, &LinearMidpoint)
        .unwrap()
        .subdivide(1, &LinearMidpoint)
        .unwrap();
    assert_eq!(two_steps, one_then_one);

    let stepwise = mesh
        .subdivide_once(&LinearMidpoint)
        .unwrap()
        .subdivide_once(&LinearMidpoint)
        .unwrap();
    assert_eq!(two_steps, stepwise);
}

#[test]
fn subdivide_zero_returns_copy() {
    let mesh = quad();
    let copy = mesh.subdivide(0, &LinearMidpoint).unwrap();
    assert_eq!(copy, mesh);
}

#[test]
fn projected_octahedron_midpoints_land_on_sphere() {
    let mesh = octahedron(100);
    let out = mesh.subdivide_once(&ProjectedMidpoint { radius: 100 }).unwrap();
    // Midpoint of (100,0,0) and (0,100,0) is (50,50,0); its length rounds to
    // 70, and scaling onto radius 100 gives (71,71,0).
    let expected = Position::new(71, 71, 0);
    assert!(
        out.positions[6..].iter().any(|p| *p == expected),
        "projected midpoint missing"
    );
    // Every new vertex has squared length close to 100^2 (within rounding).
    for p in &out.positions[6..] {
        let n2 = p.x * p.x + p.y * p.y + p.z * p.z;
        assert!((9200..=10100).contains(&n2), "off the sphere: {:?}", p);
    }
}

#[test]
fn flattened_vertex_stream() {
    let mesh = single_triangle();
    let flat = create_vertices(&mesh);
    assert_eq!(
        flat,
        vec![
            Position::new(0, 0, 0),
            Position::new(2, 0, 0),
            Position::new(0, 2, 0),
        ]
    );

    let out = mesh.subdivide_once(&LinearMidpoint).unwrap();
    let flat = create_vertices(&out);
    assert_eq!(flat.len(), 3 * 4);
    // The first refined face is (p0, p3, p5).
    assert_eq!(flat[0], Position::new(0, 0, 0));
    assert_eq!(flat[1], Position::new(1, 0, 0));
    assert_eq!(flat[2], Position::new(0, 1, 0));
}

#[test]
fn subdivide_arc_matches_projected_policy() {
    let mesh = octahedron(1 << 16);
    let by_name = mesh.subdivide_arc(1 << 16, 2).unwrap();
    let by_policy = mesh
        .subdivide(2, &ProjectedMidpoint { radius: 1 << 16 })
        .unwrap();
    assert_eq!(by_name, by_policy);
    assert_eq!(by_name.faces.len(), 8 * 16);
}

#[test]
fn non_manifold_adjacency_is_rejected() {
    let mut mesh = single_triangle();
    mesh.edges[0].adjacent = Some(1);
    assert_eq!(
        mesh.subdivide_once(&LinearMidpoint),
        Err(TopologyError::NonManifoldAdjacency { edge: 0 })
    );
}
