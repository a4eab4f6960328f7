//! The half-edge connectivity structure: positions, faces and directed
//! half-edges, all referring to one another by plain integer indices that are
//! meaningful only relative to the owning [`Mesh`].

use vstd::prelude::*;
use crate::midpoint::MidpointPolicy;

verus! {

/// Index of a half-edge in a mesh's edge array.
pub type EdgeIndex = usize;

/// Index of a position in a mesh's position array.
pub type PositionIndex = usize;

/// Index of a face in a mesh's face array.
pub type FaceIndex = usize;

/// A 3D point with integer coordinates (a fixed-point lattice; the scale is
/// the caller's convention). A value type with no identity beyond its
/// coordinates.
#[derive(Clone, Copy, Debug, PartialEq, Eq)]
pub struct Position {
    pub x: i64,
    pub y: i64,
    pub z: i64,
}

impl Position {
    pub fn new(x: i64, y: i64, z: i64) -> (p: Position)
        ensures
            p == (Position { x, y, z }),
    {
        Position { x, y, z }
    }
}

/// A face holds only the index of one of its half-edges; the other two are
/// reached by following `next` twice.
#[derive(Clone, Copy, Debug, PartialEq, Eq)]
pub struct Face {
    /// The index of the first edge to define this face.
    pub root: EdgeIndex,
}

impl Face {
    pub fn new(root: EdgeIndex) -> (face: Face)
        ensures
            face.root == root,
    {
        Face { root }
    }
}

/// One directed traversal of one side of an edge, tagged with the face it
/// borders, the next half-edge around that face, and the oppositely oriented
/// half-edge on the neighbouring face (absent on a boundary edge).
#[derive(Clone, Copy, Debug, PartialEq, Eq)]
pub struct HalfEdge {
    /// Attribute index for the vertex this half-edge originates from.
    pub position: PositionIndex,

    /// The face that this edge is associated with.
    pub face: FaceIndex,

    /// The index of the next edge around the face.
    pub next: EdgeIndex,

    /// Oppositely oriented adjacent half-edge, `None` on a boundary edge.
    pub adjacent: Option<EdgeIndex>,
}

impl HalfEdge {
    pub fn new(point: PositionIndex, face: FaceIndex, next: EdgeIndex, adjacent: EdgeIndex) -> (he:
        HalfEdge)
        ensures
            he == (HalfEdge { position: point, face, next, adjacent: Some(adjacent) }),
    {
        HalfEdge { position: point, face, next, adjacent: Some(adjacent) }
    }

    pub fn new_boundary(point: PositionIndex, face: FaceIndex, next: EdgeIndex) -> (he: HalfEdge)
        ensures
            he == (HalfEdge { position: point, face, next, adjacent: None }),
    {
        HalfEdge { position: point, face, next, adjacent: None }
    }

    pub fn is_boundary(&self) -> (r: bool)
        ensures
            r == (self.adjacent is None),
    {
        self.adjacent.is_none()
    }
}

/// The central bucket of attributes and connectivity information.
#[derive(Debug, PartialEq)]
pub struct Mesh {
    /// Vertex attributes.
    pub positions: Vec<Position>,

    /// Connectivity: one record per face.
    pub faces: Vec<Face>,

    /// Connectivity: one record per half-edge.
    pub edges: Vec<HalfEdge>,
}

/// The mathematical value of a [`Mesh`]: its three arrays as sequences.
#[verifier::ext_equal]
pub ghost struct MeshModel {
    pub positions: Seq<Position>,
    pub faces: Seq<Face>,
    pub edges: Seq<HalfEdge>,
}

impl View for Mesh {
    type V = MeshModel;

    open spec fn view(&self) -> MeshModel {
        MeshModel { positions: self.positions@, faces: self.faces@, edges: self.edges@ }
    }
}

impl MeshModel {
    /// Every index stored in the half-edge record `e` refers into the arrays.
    pub open spec fn edge_wf(self, e: int) -> bool {
        let he = self.edges[e];
        &&& he.position < self.positions.len()
        &&& he.face < self.faces.len()
        &&& he.next < self.edges.len()
        &&& (he.adjacent matches Some(a) ==> a < self.edges.len())
    }

    pub open spec fn edges_wf(self) -> bool {
        forall|e: int| 0 <= e < self.edges.len() ==> self.edge_wf(e)
    }

    /// First half-edge of face `f`'s cycle.
    pub open spec fn face_e0(self, f: int) -> int {
        self.faces[f].root as int
    }

    /// Second half-edge of face `f`'s cycle.
    pub open spec fn face_e1(self, f: int) -> int {
        self.edges[self.face_e0(f)].next as int
    }

    /// Third half-edge of face `f`'s cycle.
    pub open spec fn face_e2(self, f: int) -> int {
        self.edges[self.face_e1(f)].next as int
    }

    /// Face `f`'s half-edges form an exact 3-cycle under `next`, all tagged
    /// with `f` itself.
    pub open spec fn face_wf(self, f: int) -> bool {
        let e0 = self.face_e0(f);
        let e1 = self.face_e1(f);
        let e2 = self.face_e2(f);
        &&& 0 <= e0 < self.edges.len()
        &&& 0 <= e1 < self.edges.len()
        &&& 0 <= e2 < self.edges.len()
        &&& self.edges[e2].next as int == e0
        &&& e0 != e1 && e1 != e2 && e2 != e0
        &&& self.edges[e0].face as int == f
        &&& self.edges[e1].face as int == f
        &&& self.edges[e2].face as int == f
    }

    pub open spec fn faces_wf(self) -> bool {
        forall|f: int| 0 <= f < self.faces.len() ==> self.face_wf(f)
    }

    /// Half-edge `e` lies on the cycle of the face it is tagged with.
    pub open spec fn edge_on_own_face(self, e: int) -> bool {
        let f = self.edges[e].face as int;
        e == self.face_e0(f) || e == self.face_e1(f) || e == self.face_e2(f)
    }

    pub open spec fn edges_on_own_faces(self) -> bool {
        forall|e: int| 0 <= e < self.edges.len() ==> self.edge_on_own_face(e)
    }

    /// Adjacency is symmetric and oppositely oriented: `e` and its adjacent
    /// half-edge traverse the same undirected edge in opposite directions.
    pub open spec fn adjacency_wf(self, e: int) -> bool {
        match self.edges[e].adjacent {
            None => true,
            Some(a) => {
                &&& a < self.edges.len()
                &&& a as int != e
                &&& self.edges[a as int].adjacent == Some(e as EdgeIndex)
                &&& self.edges[a as int].position == self.edges[self.edges[e].next as int].position
                &&& self.edges[e].position == self.edges[self.edges[a as int].next as int].position
            },
        }
    }

    pub open spec fn adjacencies_wf(self) -> bool {
        forall|e: int| 0 <= e < self.edges.len() ==> self.adjacency_wf(e)
    }

    /// The structural invariant of a triangle mesh: all stored indices are in
    /// bounds, every face is an exact 3-cycle, every half-edge lies on its own
    /// face's cycle, and adjacency pairs up oppositely oriented half-edges.
    pub open spec fn is_valid(self) -> bool {
        &&& self.edges_wf()
        &&& self.faces_wf()
        &&& self.edges_on_own_faces()
        &&& self.adjacencies_wf()
    }

    /// A closed (boundary-free) mesh: no half-edge is a boundary.
    pub open spec fn is_closed(self) -> bool {
        forall|e: int| 0 <= e < self.edges.len() ==> self.edges[e].adjacent is Some
    }

    /// The index arithmetic of one subdivision step stays within `usize`.
    pub open spec fn within_size_limits(self) -> bool {
        &&& 12 * self.faces.len() <= usize::MAX
        &&& self.positions.len() + self.edges.len() <= usize::MAX
    }

    /// Corner `c` (0, 1 or 2) of face `f`, as a position value.
    pub open spec fn face_corner(self, f: int, c: int) -> Position {
        let e = if c == 0 {
            self.face_e0(f)
        } else if c == 1 {
            self.face_e1(f)
        } else {
            self.face_e2(f)
        };
        self.positions[self.edges[e].position as int]
    }

    /// The corners of the faces below `f`, three per face, in face order and
    /// winding order.
    pub open spec fn flattened_below(self, f: int) -> Seq<Position>
        decreases f,
    {
        if f <= 0 {
            Seq::<Position>::empty()
        } else {
            self.flattened_below(f - 1) + seq![
                self.face_corner(f - 1, 0),
                self.face_corner(f - 1, 1),
                self.face_corner(f - 1, 2),
            ]
        }
    }

    /// The flat vertex stream of the whole mesh: every face's three corner
    /// positions in order, duplicated per face, with no index sharing.
    pub open spec fn flattened_vertices(self) -> Seq<Position> {
        self.flattened_below(self.faces.len() as int)
    }
}

/// Walks every face's three half-edges, looks up the corresponding positions,
/// and emits one flat ordered vertex stream for a rendering backend: one
/// vertex per half-edge instance, duplicated per face.
pub fn create_vertices(mesh: &Mesh) -> (r: Vec<Position>)
    requires
        mesh@.edges_wf(),
        mesh@.faces_wf(),
        3 * mesh@.faces.len() <= usize::MAX,
    ensures
        r@ == mesh@.flattened_vertices(),
        r@.len() == 3 * mesh@.faces.len(),
{
    let face_count = mesh.faces.len();
    let mut vertices: Vec<Position> = Vec::new();
    proof {
        assert(vertices@ =~= mesh@.flattened_below(0));
    }
    let mut f: usize = 0;
    while f < face_count
        invariant
            face_count == mesh@.faces.len(),
            mesh@.edges_wf(),
            mesh@.faces_wf(),
            f <= face_count,
            vertices@ == mesh@.flattened_below(f as int),
            vertices@.len() == 3 * f,
        decreases face_count - f,
    {
        proof {
            assert(mesh@.face_wf(f as int));
            assert(mesh@.edge_wf(mesh@.face_e0(f as int)));
            assert(mesh@.edge_wf(mesh@.face_e1(f as int)));
            assert(mesh@.edge_wf(mesh@.face_e2(f as int)));
        }
        let e0 = mesh.faces[f].root;
        let e1 = mesh.edges[e0].next;
        let e2 = mesh.edges[e1].next;

        vertices.push(mesh.positions[mesh.edges[e0].position]);
        vertices.push(mesh.positions[mesh.edges[e1].position]);
        vertices.push(mesh.positions[mesh.edges[e2].position]);
        proof {
            assert(vertices@ =~= mesh@.flattened_below(f + 1));
        }
        f += 1;
    }
    vertices
}

impl Mesh {
    /// The midpoint of the segment from `edge`'s own vertex to the vertex of
    /// its `next` half-edge, as placed by `midpoint_fn`. Pure; performs no
    /// validation — in-bounds indices are the caller's responsibility.
    pub fn edge_midpoint<M: MidpointPolicy>(&self, edge: &HalfEdge, midpoint_fn: &M) -> (r:
        Position)
        requires
            edge.position < self@.positions.len(),
            edge.next < self@.edges.len(),
            self@.edges[edge.next as int].position < self@.positions.len(),
        ensures
            r == midpoint_fn.midpoint_spec(
                self@.positions[edge.position as int],
                self@.positions[self@.edges[edge.next as int].position as int],
            ),
    {
        let p0 = self.positions[edge.position];
        let p1 = self.positions[self.edges[edge.next].position];
        midpoint_fn.midpoint(&p0, &p1)
    }
}

impl Clone for Mesh {
    /// A clone is a fully independent deep copy of all three arrays, equal to
    /// the original by value.
    fn clone(&self) -> (r: Mesh)
        ensures
            r@ == self@,
    {
        let r = Mesh {
            positions: self.positions.clone(),
            faces: self.faces.clone(),
            edges: self.edges.clone(),
        };
        proof {
            assert(r.positions@ =~= self.positions@);
            assert(r.faces@ =~= self.faces@);
            assert(r.edges@ =~= self.edges@);
            assert(r@ =~= self@);
        }
        r
    }
}

/// Pushes the three half-edges of a fresh triangular face onto `edges`, in
/// winding order `p0 -> p1 -> p2`, wired as the cycle `e0 -> e1 -> e2 -> e0`
/// with no adjacency yet, and returns the face record rooted at `e0`.
pub fn make_face(
    f: FaceIndex,
    e0: EdgeIndex,
    e1: EdgeIndex,
    e2: EdgeIndex,
    p0: PositionIndex,
    p1: PositionIndex,
    p2: PositionIndex,
    edges: &mut Vec<HalfEdge>,
) -> (face: Face)
    ensures
        final(edges)@ == old(edges)@ + seq![
            HalfEdge { position: p0, face: f, next: e1, adjacent: None },
            HalfEdge { position: p1, face: f, next: e2, adjacent: None },
            HalfEdge { position: p2, face: f, next: e0, adjacent: None },
        ],
        face.root == e0,
{
    edges.push(HalfEdge::new_boundary(p0, f, e1));
    edges.push(HalfEdge::new_boundary(p1, f, e2));
    edges.push(HalfEdge::new_boundary(p2, f, e0));
    Face::new(e0)
}

} // verus!
