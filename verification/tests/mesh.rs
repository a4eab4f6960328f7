//! Tests of the half-edge data model: constructors, face assembly, the
//! midpoint accessor, cloning, and the structural validator's error
//! reporting.

use geodesic::algorithms::TopologyError;
use geodesic::half_edge::{make_face, Face, HalfEdge, Mesh, Position};
use geodesic::midpoint::LinearMidpoint;

fn lone_triangle() -> Mesh {
    Mesh {
        positions: vec![
            Position::new(0, 0, 0),
            Position::new(4, 0, 0),
            Position::new(0, 4, 0),
        ],
        faces: vec![Face::new(0)],
        edges: vec![
            HalfEdge::new_boundary(0, 0, 1),
            HalfEdge::new_boundary(1, 0, 2),
            HalfEdge::new_boundary(2, 0, 0),
        ],
    }
}

#[test]
fn half_edge_constructors() {
    let he = HalfEdge::new(7, 2, 9, 4);
    assert_eq!(he.position, 7);
    assert_eq!(he.face, 2);
    assert_eq!(he.next, 9);
    assert_eq!(he.adjacent, Some(4));
    assert!(!he.is_boundary());

    let hb = HalfEdge::new_boundary(7, 2, 9);
    assert_eq!(hb.position, 7);
    assert_eq!(hb.face, 2);
    assert_eq!(hb.next, 9);
    assert_eq!(hb.adjacent, None);
    assert!(hb.is_boundary());

    let face = Face::new(5);
    assert_eq!(face.root, 5);
}

#[test]
fn make_face_pushes_three_boundary_edges() {
    let mut edges: Vec<HalfEdge> = Vec::new();
    let face = make_face(3, 6, 7, 8, 10, 11, 12, &mut edges);
    assert_eq!(face.root, 6);
    assert_eq!(edges.len(), 3);
    assert_eq!(edges[0], HalfEdge::new_boundary(10, 3, 7));
    assert_eq!(edges[1], HalfEdge::new_boundary(11, 3, 8));
    assert_eq!(edges[2], HalfEdge::new_boundary(12, 3, 6));
}

#[test]
fn edge_midpoint_follows_the_policy() {
    let mesh = lone_triangle();
    // Edge 0 runs from vertex 0 to vertex 1.
    let edge = mesh.edges[0];
    let mid = mesh.edge_midpoint(&edge, &LinearMidpoint);
    assert_eq!(mid, Position::new(2, 0, 0));
    // Edge 1 runs from vertex 1 to vertex 2.
    let edge = mesh.edges[1];
    let mid = mesh.edge_midpoint(&edge, &LinearMidpoint);
    assert_eq!(mid, Position::new(2, 2, 0));
}

#[test]
fn clone_is_a_deep_equal_copy() {
    let mesh = lone_triangle();
    let copy = mesh.clone();
    assert_eq!(copy, mesh);
    let mut altered = mesh.clone();
    altered.positions[0] = Position::new(9, 9, 9);
    assert_ne!(altered, mesh);
    assert_eq!(mesh.positions[0], Position::new(0, 0, 0));
}

#[test]
fn validate_accepts_a_well_formed_mesh() {
    assert_eq!(lone_triangle().validate(), Ok(()));
}

#[test]
fn validate_reports_out_of_bounds_edge() {
    let mut mesh = lone_triangle();
    mesh.edges[1].next = 17;
    assert_eq!(
        mesh.validate(),
        Err(TopologyError::MalformedEdge { edge: 1 })
    );
    let mut mesh = lone_triangle();
    mesh.edges[2].adjacent = Some(99);
    assert_eq!(
        mesh.validate(),
        Err(TopologyError::MalformedEdge { edge: 2 })
    );
}

#[test]
fn validate_reports_non_triangle_face() {
    // A two-edge loop: the cycle closes too early.
    let mesh = Mesh {
        positions: vec![Position::new(0, 0, 0), Position::new(1, 0, 0)],
        faces: vec![Face::new(0)],
        edges: vec![
            HalfEdge::new_boundary(0, 0, 1),
            HalfEdge::new_boundary(1, 0, 0),
        ],
    };
    assert_eq!(
        mesh.validate(),
        Err(TopologyError::MalformedFace { face: 0 })
    );

    // A cycle that does not return to the root.
    let mut mesh = lone_triangle();
    mesh.edges[2].next = 1;
    assert_eq!(
        mesh.validate(),
        Err(TopologyError::MalformedFace { face: 0 })
    );
}

#[test]
fn validate_reports_stray_edge() {
    let mut mesh = lone_triangle();
    // A fourth half-edge tagged with face 0 but not on its cycle.
    mesh.edges.push(HalfEdge::new_boundary(0, 0, 0));
    assert_eq!(mesh.validate(), Err(TopologyError::StrayEdge { edge: 3 }));
}

#[test]
fn validate_reports_asymmetric_adjacency() {
    let mut mesh = lone_triangle();
    mesh.edges[0].adjacent = Some(2);
    assert_eq!(
        mesh.validate(),
        Err(TopologyError::NonManifoldAdjacency { edge: 0 })
    );
}

#[test]
fn subdivision_rejects_malformed_meshes() {
    let mut mesh = lone_triangle();
    mesh.edges[0].position = 42;
    assert_eq!(
        mesh.subdivide_once(&LinearMidpoint),
        Err(TopologyError::MalformedEdge { edge: 0 })
    );
    assert_eq!(
        mesh.subdivide(3, &LinearMidpoint),
        Err(TopologyError::MalformedEdge { edge: 0 })
    );
}
