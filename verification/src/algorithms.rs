//! The subdivision engine: a topology-preserving one-to-four refinement of a
//! triangle mesh, parameterized by a midpoint placement policy.

use vstd::prelude::*;
use crate::half_edge::{EdgeIndex, FaceIndex, HalfEdge, Face, Mesh, MeshModel, Position,
    PositionIndex, make_face};
use crate::midpoint::{MidpointPolicy, ProjectedMidpoint};

verus! {

/// Why a mesh was rejected as malformed, carrying the offending index.
#[derive(Clone, Copy, Debug, PartialEq, Eq)]
pub enum TopologyError {
    /// A half-edge record stores an index beyond one of the arrays.
    MalformedEdge { edge: EdgeIndex },
    /// A face's root is out of bounds, its half-edges do not form an exact
    /// 3-cycle, or a half-edge on the cycle is not tagged with the face.
    MalformedFace { face: FaceIndex },
    /// A half-edge does not lie on the cycle of the face it is tagged with.
    StrayEdge { edge: EdgeIndex },
    /// A half-edge's adjacency is not mirrored by its partner, or the pair do
    /// not traverse the same undirected edge in opposite directions.
    NonManifoldAdjacency { edge: EdgeIndex },
    /// The refined mesh's index arithmetic would not fit in `usize`.
    MeshTooLarge,
}

impl TopologyError {
    /// The error names a real violation in `m` (or, for `MeshTooLarge`, that
    /// the size limits are exceeded).
    pub open spec fn witnesses(self, m: MeshModel) -> bool {
        match self {
            TopologyError::MalformedEdge { edge } => {
                0 <= edge < m.edges.len() && !m.edge_wf(edge as int)
            },
            TopologyError::MalformedFace { face } => {
                0 <= face < m.faces.len() && !m.face_wf(face as int)
            },
            TopologyError::StrayEdge { edge } => {
                0 <= edge < m.edges.len() && !m.edge_on_own_face(edge as int)
            },
            TopologyError::NonManifoldAdjacency { edge } => {
                0 <= edge < m.edges.len() && !m.adjacency_wf(edge as int)
            },
            TopologyError::MeshTooLarge => !m.within_size_limits(),
        }
    }
}

impl Mesh {
    /// Checks the whole structural invariant, reporting the first violation
    /// found (edge bounds, then face cycles, then stray edges, then
    /// adjacency).
    pub fn validate(&self) -> (r: Result<(), TopologyError>)
        ensures
            r is Ok <==> self@.is_valid(),
            r matches Err(e) ==> e.witnesses(self@),
    {
        let edge_count = self.edges.len();
        let face_count = self.faces.len();
        let position_count = self.positions.len();

        let mut e: usize = 0;
        while e < edge_count
            invariant
                edge_count == self@.edges.len(),
                face_count == self@.faces.len(),
                position_count == self@.positions.len(),
                forall|k: int| 0 <= k < e ==> self@.edge_wf(k),
            decreases edge_count - e,
        {
            let he = self.edges[e];
            if !(he.position < position_count && he.face < face_count && he.next < edge_count) {
                proof {
                    assert(!self@.edge_wf(e as int));
                }
                return Err(TopologyError::MalformedEdge { edge: e });
            }
            match he.adjacent {
                Some(a) => {
                    if !(a < edge_count) {
                        proof {
                            assert(!self@.edge_wf(e as int));
                        }
                        return Err(TopologyError::MalformedEdge { edge: e });
                    }
                },
                None => {},
            }
            proof {
                assert(self@.edge_wf(e as int));
            }
            e += 1;
        }

        let mut f: usize = 0;
        while f < face_count
            invariant
                edge_count == self@.edges.len(),
                face_count == self@.faces.len(),
                self@.edges_wf(),
                forall|k: int| 0 <= k < f ==> self@.face_wf(k),
            decreases face_count - f,
        {
            let e0 = self.faces[f].root;
            if !(e0 < edge_count) {
                proof {
                    assert(!self@.face_wf(f as int));
                }
                return Err(TopologyError::MalformedFace { face: f });
            }
            let e1 = self.edges[e0].next;
            if !(e1 < edge_count) {
                proof {
                    assert(!self@.face_wf(f as int));
                }
                return Err(TopologyError::MalformedFace { face: f });
            }
            let e2 = self.edges[e1].next;
            if !(e2 < edge_count) {
                proof {
                    assert(!self@.face_wf(f as int));
                }
                return Err(TopologyError::MalformedFace { face: f });
            }
            let cycle_closes = self.edges[e2].next == e0;
            let distinct = e0 != e1 && e1 != e2 && e2 != e0;
            let tagged = self.edges[e0].face == f && self.edges[e1].face == f && self.edges[e2].face
                == f;
            if !(cycle_closes && distinct && tagged) {
                proof {
                    assert(!self@.face_wf(f as int));
                }
                return Err(TopologyError::MalformedFace { face: f });
            }
            proof {
                assert(self@.face_wf(f as int));
            }
            f += 1;
        }

        let mut e: usize = 0;
        while e < edge_count
            invariant
                edge_count == self@.edges.len(),
                face_count == self@.faces.len(),
                self@.edges_wf(),
                self@.faces_wf(),
                forall|k: int| 0 <= k < e ==> self@.edge_on_own_face(k),
            decreases edge_count - e,
        {
            proof {
                assert(self@.edge_wf(e as int));
            }
            let he_face = self.edges[e].face;
            proof {
                assert(self@.face_wf(he_face as int));
            }
            let e0 = self.faces[he_face].root;
            let e1 = self.edges[e0].next;
            let e2 = self.edges[e1].next;
            if !(e == e0 || e == e1 || e == e2) {
                proof {
                    assert(!self@.edge_on_own_face(e as int));
                }
                return Err(TopologyError::StrayEdge { edge: e });
            }
            e += 1;
        }

        let mut e: usize = 0;
        while e < edge_count
            invariant
                edge_count == self@.edges.len(),
                face_count == self@.faces.len(),
                self@.edges_wf(),
                self@.faces_wf(),
                self@.edges_on_own_faces(),
                forall|k: int| 0 <= k < e ==> self@.adjacency_wf(k),
            decreases edge_count - e,
        {
            proof {
                assert(self@.edge_wf(e as int));
            }
            match self.edges[e].adjacent {
                None => {},
                Some(a) => {
                    proof {
                        assert(self@.edge_wf(a as int));
                    }
                    let mirrored = match self.edges[a].adjacent {
                        Some(back) => back == e,
                        None => false,
                    };
                    let opposite = a != e && self.edges[a].position == self.edges[self.edges[e].next].position
                        && self.edges[e].position == self.edges[self.edges[a].next].position;
                    if !(mirrored && opposite) {
                        proof {
                            assert(!self@.adjacency_wf(e as int));
                        }
                        return Err(TopologyError::NonManifoldAdjacency { edge: e });
                    }
                },
            }
            e += 1;
        }

        Ok(())
    }
}

/// The six slots of a refined face block that cover half of an original edge
/// (as opposed to the six interior slots bordering the central face).
pub open spec fn perimeter_slot(t: int) -> bool {
    t == 0 || t == 2 || t == 3 || t == 4 || t == 10 || t == 11
}

/// The slot following `t` around its own refined triangle.
pub open spec fn next_slot(t: int) -> int {
    if t == 2 {
        0
    } else if t == 5 {
        3
    } else if t == 8 {
        6
    } else if t == 11 {
        9
    } else {
        t + 1
    }
}

/// The perimeter slot holding the start-side half of a face's cycle edge
/// number `c`.
pub open spec fn start_slot(c: int) -> int {
    if c == 0 {
        0
    } else if c == 1 {
        4
    } else {
        11
    }
}

/// The perimeter slot holding the end-side half of a face's cycle edge
/// number `c`.
pub open spec fn end_slot(c: int) -> int {
    if c == 0 {
        3
    } else if c == 1 {
        10
    } else {
        2
    }
}

/// Which of the four refined triangles (0..4) slot `t` belongs to.
pub open spec fn slot_triangle(t: int) -> int {
    if t < 3 {
        0
    } else if t < 6 {
        1
    } else if t < 9 {
        2
    } else {
        3
    }
}

impl MeshModel {
    /// The side of edge `e`'s undirected edge that computes the midpoint: the
    /// lower-indexed one of an adjacent pair, or `e` itself on a boundary.
    pub open spec fn canonical_edge(self, e: int) -> int {
        match self.edges[e].adjacent {
            None => e,
            Some(a) => if a < e {
                a as int
            } else {
                e
            },
        }
    }

    pub open spec fn is_canonical(self, e: int) -> bool {
        self.canonical_edge(e) == e
    }

    /// How many canonical edges have index below `e`.
    pub open spec fn canonical_count(self, e: int) -> int
        decreases e,
    {
        if e <= 0 {
            0
        } else {
            self.canonical_count(e - 1) + if self.is_canonical(e - 1) {
                1int
            } else {
                0int
            }
        }
    }

    /// The number of distinct undirected edges of the mesh: an adjacent pair
    /// counts once, a boundary half-edge counts once.
    pub open spec fn distinct_edge_count(self) -> int {
        self.canonical_count(self.edges.len() as int)
    }

    /// Index in the refined mesh's position array of the midpoint vertex
    /// introduced on input edge `e`; two adjacent half-edges share one index.
    pub open spec fn midpoint_index(self, e: int) -> int {
        self.positions.len() + self.canonical_count(self.canonical_edge(e))
    }

    /// The midpoint vertex introduced on input edge `e`: the policy applied to
    /// the edge's endpoints, in the canonical side's direction.
    pub open spec fn midpoint_value<M: MidpointPolicy>(self, policy: M, e: int) -> Position {
        let c = self.canonical_edge(e);
        policy.midpoint_spec(
            self.positions[self.edges[c].position as int],
            self.positions[self.edges[self.edges[c].next as int].position as int],
        )
    }

    /// The midpoint vertices appended for edges with index below `e`, in
    /// order of the canonical edge's index.
    pub open spec fn midpoints_below<M: MidpointPolicy>(self, policy: M, e: int) -> Seq<Position>
        decreases e,
    {
        if e <= 0 {
            Seq::<Position>::empty()
        } else {
            self.midpoints_below(policy, e - 1) + if self.is_canonical(e - 1) {
                seq![self.midpoint_value(policy, e - 1)]
            } else {
                Seq::<Position>::empty()
            }
        }
    }

    /// Where input edge `i` stands on its face's cycle: 0, 1 or 2.
    pub open spec fn cycle_slot(self, i: int) -> int {
        let f = self.edges[i].face as int;
        if i == self.face_e0(f) {
            0
        } else if i == self.face_e1(f) {
            1
        } else {
            2
        }
    }

    /// Refined-mesh index of the half of input edge `i` nearer its start
    /// vertex.
    pub open spec fn start_half(self, i: int) -> int {
        let f = self.edges[i].face as int;
        12 * f + start_slot(self.cycle_slot(i))
    }

    /// Refined-mesh index of the half of input edge `i` nearer its end
    /// vertex.
    pub open spec fn end_half(self, i: int) -> int {
        let f = self.edges[i].face as int;
        12 * f + end_slot(self.cycle_slot(i))
    }

    /// The position index stored in slot `t` of input face `f`'s refined
    /// block: the face's own corners `p0, p1, p2` and the edge midpoints
    /// `p3, p4, p5`, arranged as the four triangles
    /// `(p0,p3,p5) (p3,p1,p4) (p3,p4,p5) (p5,p4,p2)`.
    pub open spec fn refined_position(self, f: int, t: int) -> int {
        let p0 = self.edges[self.face_e0(f)].position as int;
        let p1 = self.edges[self.face_e1(f)].position as int;
        let p2 = self.edges[self.face_e2(f)].position as int;
        let p3 = self.midpoint_index(self.face_e0(f));
        let p4 = self.midpoint_index(self.face_e1(f));
        let p5 = self.midpoint_index(self.face_e2(f));
        if t == 0 {
            p0
        } else if t == 1 {
            p3
        } else if t == 2 {
            p5
        } else if t == 3 {
            p3
        } else if t == 4 {
            p1
        } else if t == 5 {
            p4
        } else if t == 6 {
            p3
        } else if t == 7 {
            p4
        } else if t == 8 {
            p5
        } else if t == 9 {
            p5
        } else if t == 10 {
            p4
        } else {
            p2
        }
    }

    /// Adjacency within one refined block, before cross-face restitching:
    /// only the six half-edges bordering the central triangle are wired, in
    /// the pairs `1-8`, `5-6`, `7-9`.
    pub open spec fn interior_adjacent(self, f: int, t: int) -> Option<EdgeIndex> {
        if t == 1 {
            Some((12 * f + 8) as EdgeIndex)
        } else if t == 8 {
            Some((12 * f + 1) as EdgeIndex)
        } else if t == 5 {
            Some((12 * f + 6) as EdgeIndex)
        } else if t == 6 {
            Some((12 * f + 5) as EdgeIndex)
        } else if t == 7 {
            Some((12 * f + 9) as EdgeIndex)
        } else if t == 9 {
            Some((12 * f + 7) as EdgeIndex)
        } else {
            None
        }
    }

    /// The input edge whose split produces perimeter slot `t` of face `f`.
    pub open spec fn slot_source(self, f: int, t: int) -> int {
        if t == 0 || t == 3 {
            self.face_e0(f)
        } else if t == 4 || t == 10 {
            self.face_e1(f)
        } else {
            self.face_e2(f)
        }
    }

    /// Final adjacency of slot `t` of face `f`: a perimeter half inherits its
    /// source edge's boundary-ness, and an internal source edge `i` with
    /// partner `j` pairs crosswise — the start-side half of `i` with the
    /// end-side half of `j`, and vice versa.
    pub open spec fn refined_adjacent(self, f: int, t: int) -> Option<EdgeIndex> {
        if perimeter_slot(t) {
            let i = self.slot_source(f, t);
            match self.edges[i].adjacent {
                None => None,
                Some(j) => if t == 0 || t == 4 || t == 11 {
                    Some(self.end_half(j as int) as EdgeIndex)
                } else {
                    Some(self.start_half(j as int) as EdgeIndex)
                },
            }
        } else {
            self.interior_adjacent(f, t)
        }
    }

    /// The refined half-edge in slot `t` (0..12) of input face `f`'s block.
    /// With `stitched` false this is the record as first emitted, before
    /// cross-face restitching.
    pub open spec fn refined_edge(self, f: int, t: int, stitched: bool) -> HalfEdge {
        HalfEdge {
            position: self.refined_position(f, t) as PositionIndex,
            face: (4 * f + slot_triangle(t)) as FaceIndex,
            next: (12 * f + next_slot(t)) as EdgeIndex,
            adjacent: if stitched {
                self.refined_adjacent(f, t)
            } else {
                self.interior_adjacent(f, t)
            },
        }
    }

    /// The block of twelve refined half-edges of input face `f`.
    pub open spec fn refined_face_block(self, f: int, stitched: bool) -> Seq<HalfEdge> {
        Seq::new(12, |t: int| self.refined_edge(f, t, stitched))
    }

    /// The refined half-edges of the input faces below `f`, in face order.
    pub open spec fn refined_edges_below(self, f: int, stitched: bool) -> Seq<HalfEdge>
        decreases f,
    {
        if f <= 0 {
            Seq::<HalfEdge>::empty()
        } else {
            self.refined_edges_below(f - 1, stitched) + self.refined_face_block(f - 1, stitched)
        }
    }

    /// The four refined face records of input face `f`, rooted at the first
    /// slot of each refined triangle.
    pub open spec fn refined_face_quad(self, f: int) -> Seq<Face> {
        seq![
            Face { root: (12 * f) as EdgeIndex },
            Face { root: (12 * f + 3) as EdgeIndex },
            Face { root: (12 * f + 6) as EdgeIndex },
            Face { root: (12 * f + 9) as EdgeIndex },
        ]
    }

    /// The refined face records of the input faces below `f`, in face order.
    pub open spec fn refined_faces_below(self, f: int) -> Seq<Face>
        decreases f,
    {
        if f <= 0 {
            Seq::<Face>::empty()
        } else {
            self.refined_faces_below(f - 1) + self.refined_face_quad(f - 1)
        }
    }
}

/// Overwrites `edges[k]`'s adjacency with `v`, leaving its other fields and
/// every other record alone.
fn set_adjacent(edges: &mut Vec<HalfEdge>, k: EdgeIndex, v: EdgeIndex)
    requires
        k < old(edges).len(),
    ensures
        final(edges)@ == old(edges)@.update(
            k as int,
            (HalfEdge {
                position: old(edges)@[k as int].position,
                face: old(edges)@[k as int].face,
                next: old(edges)@[k as int].next,
                adjacent: Some(v),
            }),
        ),
{
    let he = edges[k];
    edges.set(
        k,
        HalfEdge { position: he.position, face: he.face, next: he.next, adjacent: Some(v) },
    );
}

/// Wires `a` and `b` as each other's adjacent half-edges.
fn make_adjacent(edges: &mut Vec<HalfEdge>, a: EdgeIndex, b: EdgeIndex)
    requires
        a < old(edges).len(),
        b < old(edges).len(),
        a != b,
    ensures
        final(edges)@ == old(edges)@.update(
            a as int,
            (HalfEdge {
                position: old(edges)@[a as int].position,
                face: old(edges)@[a as int].face,
                next: old(edges)@[a as int].next,
                adjacent: Some(b),
            }),
        ).update(
            b as int,
            (HalfEdge {
                position: old(edges)@[b as int].position,
                face: old(edges)@[b as int].face,
                next: old(edges)@[b as int].next,
                adjacent: Some(a),
            }),
        ),
{
    set_adjacent(edges, a, b);
    set_adjacent(edges, b, a);
}

impl Mesh {
    /// The refined-mesh indices of the two halves of input edge `i`: the half
    /// nearer `i`'s start vertex, then the half nearer its end vertex.
    fn split_halves(&self, i: EdgeIndex) -> (r: (EdgeIndex, EdgeIndex))
        requires
            self@.is_valid(),
            12 * self@.faces.len() <= usize::MAX,
            i < self@.edges.len(),
        ensures
            r.0 as int == self@.start_half(i as int),
            r.1 as int == self@.end_half(i as int),
    {
        proof {
            assert(self@.edge_wf(i as int));
        }
        let f = self.edges[i].face;
        proof {
            assert(self@.face_wf(f as int));
            assert(self@.edge_on_own_face(i as int));
        }
        let r0 = self.faces[f].root;
        let r1 = self.edges[r0].next;
        let base = 12 * f;
        if i == r0 {
            (base, base + 3)
        } else if i == r1 {
            (base + 4, base + 10)
        } else {
            (base + 11, base + 2)
        }
    }
}

/// The whole refined mesh: every field of one subdivision step's output, as a
/// function of the input mesh and the midpoint policy alone.
pub open spec fn spec_subdivide_once<M: MidpointPolicy>(m: MeshModel, policy: M) -> MeshModel {
    MeshModel {
        positions: m.positions + m.midpoints_below(policy, m.edges.len() as int),
        faces: m.refined_faces_below(m.faces.len() as int),
        edges: m.refined_edges_below(m.faces.len() as int, true),
    }
}

/// `count` refinement steps, each feeding the previous step's output back in.
pub open spec fn spec_subdivide<M: MidpointPolicy>(m: MeshModel, policy: M, count: nat) -> MeshModel
    decreases count,
{
    if count == 0 {
        m
    } else {
        spec_subdivide(spec_subdivide_once(m, policy), policy, (count - 1) as nat)
    }
}

impl Mesh {
    /// One topology-preserving 1-to-4 subdivision step. Every input triangle
    /// becomes four, preserving winding order; original positions keep their
    /// indices; one midpoint vertex is introduced per distinct undirected
    /// edge (shared edges are deduplicated); adjacency is restitched
    /// crosswise over every split edge, and boundary edges propagate
    /// boundary-ness. The input mesh is left untouched; the output is pinned
    /// field-for-field by [`spec_subdivide_once`].
    ///
    /// A structurally malformed mesh is rejected with the offending index; a
    /// mesh whose refinement would overflow `usize` index arithmetic is
    /// rejected as too large.
    pub fn subdivide_once<M: MidpointPolicy>(&self, midpoint_fn: &M) -> (r: Result<
        Mesh,
        TopologyError,
    >)
        ensures
            match r {
                Ok(out) => {
                    &&& self@.is_valid()
                    &&& self@.within_size_limits()
                    &&& out@ == spec_subdivide_once(self@, *midpoint_fn)
                    &&& out@.faces.len() == 4 * self@.faces.len()
                    &&& out@.edges.len() == 12 * self@.faces.len()
                    &&& out@.positions.len() == self@.positions.len()
                        + self@.distinct_edge_count()
                    &&& forall|i: int|
                        0 <= i < self@.positions.len() ==> out@.positions[i]
                            == self@.positions[i]
                    &&& out@.is_valid()
                    &&& (self@.is_closed() ==> out@.is_closed())
                },
                Err(e) => !(self@.is_valid() && self@.within_size_limits()) && e.witnesses(self@),
            },
    {
        match self.validate() {
            Err(e) => {
                return Err(e);
            },
            Ok(()) => {},
        }
        let face_count = self.faces.len();
        let edge_count = self.edges.len();
        let position_count = self.positions.len();

        if face_count > usize::MAX / 12 || position_count > usize::MAX - edge_count {
            proof {
                vstd::arithmetic::div_mod::lemma_fundamental_div_mod(usize::MAX as int, 12);
                vstd::arithmetic::div_mod::lemma_mod_bound(usize::MAX as int, 12);
                assert(!self@.within_size_limits());
            }
            return Err(TopologyError::MeshTooLarge);
        }
        proof {
            vstd::arithmetic::div_mod::lemma_fundamental_div_mod(usize::MAX as int, 12);
            vstd::arithmetic::div_mod::lemma_mod_bound(usize::MAX as int, 12);
            assert(self@.within_size_limits());
        }

        let ghost policy = *midpoint_fn;

        // Pass 1: seed the output positions with a copy of the input's, then
        // append one midpoint vertex per distinct undirected edge, recording
        // for every half-edge the index of its midpoint. The lower-indexed
        // side of an adjacent pair computes the vertex; the other side reuses
        // it.
        let mut positions: Vec<Position> = self.positions.clone();
        let mut midpoint_of: Vec<PositionIndex> = Vec::new();
        proof {
            assert(positions@ =~= self@.positions + self@.midpoints_below(policy, 0));
        }
        let mut e: usize = 0;
        while e < edge_count
            invariant
                policy == *midpoint_fn,
                self@.is_valid(),
                edge_count == self@.edges.len(),
                position_count == self@.positions.len(),
                position_count + edge_count <= usize::MAX,
                e <= edge_count,
                midpoint_of@.len() == e,
                positions@ == self@.positions + self@.midpoints_below(policy, e as int),
                positions@.len() == position_count + self@.canonical_count(e as int),
                forall|k: int| 0 <= k < e ==> #[trigger] midpoint_of@[k] == self@.midpoint_index(k),
            decreases edge_count - e,
        {
            proof {
                assert(self@.edge_wf(e as int));
                assert(self@.adjacency_wf(e as int));
            }
            let he = self.edges[e];
            let reuse: Option<PositionIndex> = match he.adjacent {
                Some(a) => if a < e {
                    Some(midpoint_of[a])
                } else {
                    None
                },
                None => None,
            };
            match reuse {
                Some(idx) => {
                    midpoint_of.push(idx);
                    proof {
                        let a = he.adjacent->Some_0 as int;
                        assert(self@.adjacency_wf(a));
                        assert(self@.canonical_edge(e as int) == a);
                        assert(self@.canonical_edge(a) == a);
                        assert(idx == self@.midpoint_index(e as int));
                        assert(!self@.is_canonical(e as int));
                        assert(self@.midpoints_below(policy, e + 1) =~= self@.midpoints_below(
                            policy,
                            e as int,
                        ));
                    }
                },
                None => {
                    proof {
                        assert(self@.canonical_edge(e as int) == e as int);
                        assert(self@.edge_wf(he.next as int));
                    }
                    let mp = self.edge_midpoint(&he, midpoint_fn);
                    midpoint_of.push(positions.len());
                    positions.push(mp);
                    proof {
                        assert(self@.is_canonical(e as int));
                        assert(he == self@.edges[e as int]);
                        assert(mp == midpoint_fn.midpoint_spec(
                            self@.positions[he.position as int],
                            self@.positions[self@.edges[he.next as int].position as int],
                        ));
                        assert(mp == policy.midpoint_spec(
                            self@.positions[self@.edges[e as int].position as int],
                            self@.positions[self@.edges[self@.edges[e as int].next as int].position
                                as int],
                        ));
                        assert(mp == self@.midpoint_value(policy, e as int));
                        assert(positions@ =~= self@.positions + self@.midpoints_below(
                            policy,
                            e + 1,
                        ));
                    }
                },
            }
            e += 1;
        }

        // Pass 2: emit four faces and twelve half-edges per input triangle,
        // wiring the six interior half-edges around each central face.
        let mut new_faces: Vec<Face> = Vec::new();
        let mut new_edges: Vec<HalfEdge> = Vec::new();
        let mut f: usize = 0;
        while f < face_count
            invariant
                self@.is_valid(),
                face_count == self@.faces.len(),
                edge_count == self@.edges.len(),
                12 * face_count <= usize::MAX,
                f <= face_count,
                midpoint_of@.len() == edge_count,
                forall|k: int| 0 <= k < edge_count ==> #[trigger] midpoint_of@[k]
                    == self@.midpoint_index(k),
                new_edges@ == self@.refined_edges_below(f as int, false),
                new_faces@ == self@.refined_faces_below(f as int),
            decreases face_count - f,
        {
            let ghost fi = f as int;
            proof {
                assert(self@.face_wf(fi));
                self@.lemma_refined_below_len(fi, false);
                self@.lemma_refined_below_len(fi + 1, false);
            }
            let i0 = self.faces[f].root;
            let i1 = self.edges[i0].next;
            let i2 = self.edges[i1].next;

            let p0 = self.edges[i0].position;
            let p1 = self.edges[i1].position;
            let p2 = self.edges[i2].position;
            let p3 = midpoint_of[i0];
            let p4 = midpoint_of[i1];
            let p5 = midpoint_of[i2];

            let e0 = new_edges.len();
            let f0 = new_faces.len();
            let ghost pre_edges = new_edges@;
            let ghost pre_faces = new_faces@;

            let face0 = make_face(f0, e0, e0 + 1, e0 + 2, p0, p3, p5, &mut new_edges);
            new_faces.push(face0);
            let face1 = make_face(f0 + 1, e0 + 3, e0 + 4, e0 + 5, p3, p1, p4, &mut new_edges);
            new_faces.push(face1);
            let face2 = make_face(f0 + 2, e0 + 6, e0 + 7, e0 + 8, p3, p4, p5, &mut new_edges);
            new_faces.push(face2);
            let face3 = make_face(f0 + 3, e0 + 9, e0 + 10, e0 + 11, p5, p4, p2, &mut new_edges);
            new_faces.push(face3);

            make_adjacent(&mut new_edges, e0 + 1, e0 + 8);
            make_adjacent(&mut new_edges, e0 + 5, e0 + 6);
            make_adjacent(&mut new_edges, e0 + 7, e0 + 9);

            proof {
                assert(i0 as int == self@.face_e0(fi));
                assert(i1 as int == self@.face_e1(fi));
                assert(i2 as int == self@.face_e2(fi));
                assert forall|t: int| 0 <= t < 12 implies new_edges@[12 * fi + t]
                    == self@.refined_edge(fi, t, false) by {
                    assert(new_edges@.len() == 12 * fi + 12);
                }
                assert forall|k: int| 0 <= k < 12 * fi implies new_edges@[k] == pre_edges[k] by {}
                assert(new_edges@ =~= self@.refined_edges_below(fi + 1, false));
                assert(new_faces@ =~= self@.refined_faces_below(fi + 1));
            }
            f += 1;
        }

        // Pass 3: restitch adjacency across every split input edge. The two
        // halves of edge `i` pair crosswise with the two halves of its
        // partner; the halves of a boundary edge stay boundary.
        proof {
            self@.lemma_refined_below_len(face_count as int, false);
            assert forall|k: int| 0 <= k < 12 * (face_count as int) implies new_edges@[k]
                == self@.restitch_partial(0, k) by {
                vstd::arithmetic::div_mod::lemma_fundamental_div_mod(k, 12);
                vstd::arithmetic::div_mod::lemma_mod_bound(k, 12);
                self@.lemma_refined_edge_at(face_count as int, k / 12, k % 12, false);
            }
        }
        let mut i: usize = 0;
        while i < edge_count
            invariant
                self@.is_valid(),
                face_count == self@.faces.len(),
                edge_count == self@.edges.len(),
                12 * face_count <= usize::MAX,
                i <= edge_count,
                new_edges@.len() == 12 * face_count,
                forall|k: int| 0 <= k < 12 * (face_count as int) ==> new_edges@[k]
                    == self@.restitch_partial(i as int, k),
            decreases edge_count - i,
        {
            let ghost ii = i as int;
            let ghost pre = new_edges@;
            proof {
                assert(self@.edge_wf(ii));
                assert(self@.adjacency_wf(ii));
                self@.lemma_slot_source_inverse(ii);
            }
            match self.edges[i].adjacent {
                None => {
                    proof {
                        assert forall|k: int| 0 <= k < 12 * (face_count as int) implies
                            new_edges@[k] == self@.restitch_partial(ii + 1, k) by {
                            vstd::arithmetic::div_mod::lemma_fundamental_div_mod(k, 12);
                            vstd::arithmetic::div_mod::lemma_mod_bound(k, 12);
                        }
                    }
                },
                Some(j) => {
                    proof {
                        assert(self@.adjacency_wf(j as int));
                        self@.lemma_slot_source_inverse(j as int);
                    }
                    let (i_start, i_end) = self.split_halves(i);
                    let (j_start, j_end) = self.split_halves(j);
                    set_adjacent(&mut new_edges, i_start, j_end);
                    set_adjacent(&mut new_edges, i_end, j_start);
                    proof {
                        vstd::arithmetic::div_mod::lemma_fundamental_div_mod_converse(
                            i_start as int,
                            12,
                            self@.edges[ii].face as int,
                            start_slot(self@.cycle_slot(ii)),
                        );
                        vstd::arithmetic::div_mod::lemma_fundamental_div_mod_converse(
                            i_end as int,
                            12,
                            self@.edges[ii].face as int,
                            end_slot(self@.cycle_slot(ii)),
                        );
                        assert forall|k: int| 0 <= k < 12 * (face_count as int) implies
                            new_edges@[k] == self@.restitch_partial(ii + 1, k) by {
                            vstd::arithmetic::div_mod::lemma_fundamental_div_mod(k, 12);
                            vstd::arithmetic::div_mod::lemma_mod_bound(k, 12);
                        }
                    }
                },
            }
            i += 1;
        }

        let out = Mesh { positions, faces: new_faces, edges: new_edges };
        proof {
            self@.lemma_refined_below_len(face_count as int, true);
            self@.lemma_midpoints_below_len(policy, edge_count as int);
            assert forall|k: int| 0 <= k < 12 * (face_count as int) implies new_edges@[k]
                == self@.refined_edges_below(face_count as int, true)[k] by {
                vstd::arithmetic::div_mod::lemma_fundamental_div_mod(k, 12);
                vstd::arithmetic::div_mod::lemma_mod_bound(k, 12);
                let kf = k / 12;
                let kt = k % 12;
                assert(self@.face_wf(kf));
                self@.lemma_refined_edge_at(face_count as int, kf, kt, true);
            }
            assert(out@ =~= spec_subdivide_once(self@, policy));
            lemma_subdivide_once_preserves_validity(self@, policy);
        }
        Ok(out)
    }
}

impl MeshModel {
    /// Shared prelude for the refinement lemmas: the lengths of the refined
    /// arrays, that each appended count is bounded, and that every refined
    /// half-edge record is the block/slot record of its index.
    proof fn lemma_refined_indexing<M: MidpointPolicy>(self, policy: M)
        requires
            self.is_valid(),
            self.within_size_limits(),
        ensures
            ({
                let out = spec_subdivide_once(self, policy);
                &&& out.edges.len() == 12 * self.faces.len()
                &&& out.faces.len() == 4 * self.faces.len()
                &&& out.positions.len() == self.positions.len() + self.distinct_edge_count()
                &&& 0 <= self.distinct_edge_count() <= self.edges.len()
                &&& forall|k: int|
                    0 <= k < 12 * self.faces.len() ==> #[trigger] out.edges[k]
                        == self.refined_edge(k / 12, k % 12, true) && 0 <= k / 12
                        < self.faces.len() && 0 <= k % 12 < 12 && k == 12 * (k / 12) + k % 12
                &&& forall|j: int|
                    0 <= j < 4 * self.faces.len() ==> #[trigger] out.faces[j] == (Face {
                        root: (3 * j) as EdgeIndex,
                    })
            }),
    {
        let out = spec_subdivide_once(self, policy);
        let fc = self.faces.len() as int;
        let ec = self.edges.len() as int;
        self.lemma_refined_below_len(fc, true);
        self.lemma_midpoints_below_len(policy, ec);
        self.lemma_canonical_count_monotonic(0, ec);
        assert(self.canonical_count(0) == 0);
        assert forall|k: int| 0 <= k < 12 * self.faces.len() implies #[trigger] out.edges[k]
            == self.refined_edge(k / 12, k % 12, true) && 0 <= k / 12 < self.faces.len() && 0 <= k
            % 12 < 12 && k == 12 * (k / 12) + k % 12 by {
            vstd::arithmetic::div_mod::lemma_fundamental_div_mod(k, 12);
            vstd::arithmetic::div_mod::lemma_mod_bound(k, 12);
            self.lemma_refined_edge_at(fc, k / 12, k % 12, true);
        }
        assert forall|j: int| 0 <= j < 4 * self.faces.len() implies #[trigger] out.faces[j]
            == (Face { root: (3 * j) as EdgeIndex }) by {
            self.lemma_refined_face_at(fc, j);
        }
    }

    /// Every index stored in a refined half-edge record is in bounds.
    proof fn lemma_refined_edges_wf<M: MidpointPolicy>(self, policy: M)
        requires
            self.is_valid(),
            self.within_size_limits(),
        ensures
            spec_subdivide_once(self, policy).edges_wf(),
    {
        let out = spec_subdivide_once(self, policy);
        let fc = self.faces.len() as int;
        let ec = self.edges.len() as int;
        self.lemma_refined_indexing(policy);
        assert forall|k: int| 0 <= k < out.edges.len() implies out.edge_wf(k) by {
            let f = k / 12;
            let t = k % 12;
            assert(self.face_wf(f));
            let i0 = self.face_e0(f);
            let i1 = self.face_e1(f);
            let i2 = self.face_e2(f);
            assert(self.edge_wf(i0));
            assert(self.edge_wf(i1));
            assert(self.edge_wf(i2));
            self.lemma_canonical_props(i0);
            self.lemma_canonical_props(i1);
            self.lemma_canonical_props(i2);
            if perimeter_slot(t) {
                let i = self.slot_source(f, t);
                assert(self.adjacency_wf(i));
                match self.edges[i].adjacent {
                    None => {},
                    Some(j) => {
                        assert(self.edge_wf(j as int));
                        assert(0 <= self.cycle_slot(j as int) < 3);
                    },
                }
            }
        }
    }

    /// Every refined face is an exact 3-cycle of its own three slots, tagged
    /// with itself.
    proof fn lemma_refined_faces_wf<M: MidpointPolicy>(self, policy: M)
        requires
            self.is_valid(),
            self.within_size_limits(),
        ensures
            spec_subdivide_once(self, policy).faces_wf(),
    {
        let out = spec_subdivide_once(self, policy);
        let fc = self.faces.len() as int;
        self.lemma_refined_indexing(policy);
        assert forall|j: int| 0 <= j < out.faces.len() implies out.face_wf(j) by {
            vstd::arithmetic::div_mod::lemma_fundamental_div_mod(j, 4);
            vstd::arithmetic::div_mod::lemma_mod_bound(j, 4);
            let f = j / 4;
            let s = j % 4;
            vstd::arithmetic::div_mod::lemma_fundamental_div_mod_converse(3 * j, 12, f, 3 * s);
            vstd::arithmetic::div_mod::lemma_fundamental_div_mod_converse(
                3 * j + 1,
                12,
                f,
                3 * s + 1,
            );
            vstd::arithmetic::div_mod::lemma_fundamental_div_mod_converse(
                3 * j + 2,
                12,
                f,
                3 * s + 2,
            );
            assert(out.edges[3 * j] == self.refined_edge(f, 3 * s, true));
            assert(out.edges[3 * j + 1] == self.refined_edge(f, 3 * s + 1, true));
            assert(out.edges[3 * j + 2] == self.refined_edge(f, 3 * s + 2, true));
        }
    }

    /// Every refined half-edge lies on the cycle of the face it is tagged
    /// with.
    proof fn lemma_refined_edges_on_own_faces<M: MidpointPolicy>(self, policy: M)
        requires
            self.is_valid(),
            self.within_size_limits(),
        ensures
            spec_subdivide_once(self, policy).edges_on_own_faces(),
    {
        let out = spec_subdivide_once(self, policy);
        let fc = self.faces.len() as int;
        self.lemma_refined_indexing(policy);
        assert forall|k: int| 0 <= k < out.edges.len() implies out.edge_on_own_face(k) by {
            let f = k / 12;
            let t = k % 12;
            let j = 4 * f + slot_triangle(t);
            assert(out.faces[j] == (Face { root: (3 * j) as EdgeIndex }));
            vstd::arithmetic::div_mod::lemma_fundamental_div_mod_converse(
                3 * j,
                12,
                f,
                3 * slot_triangle(t),
            );
            vstd::arithmetic::div_mod::lemma_fundamental_div_mod_converse(
                3 * j + 1,
                12,
                f,
                3 * slot_triangle(t) + 1,
            );
            assert(out.edges[3 * j] == self.refined_edge(f, 3 * slot_triangle(t), true));
            assert(out.edges[3 * j + 1] == self.refined_edge(f, 3 * slot_triangle(t) + 1, true));
        }
    }
}

impl MeshModel {
    /// Record-level adjacency consistency of one refined slot: a record
    /// without a partner sits on a perimeter slot (over a boundary edge); if
    /// the record names a partner, the partner's record (read off by block
    /// and slot) names it back, and the two records traverse the same pair of
    /// position indices in opposite directions. On a closed mesh every slot
    /// has a partner.
    #[verifier::spinoff_prover]
    proof fn lemma_refined_slot_adjacency(self, f: int, t: int)
        requires
            self.is_valid(),
            self.within_size_limits(),
            0 <= f < self.faces.len(),
            0 <= t < 12,
        ensures
            ({
                let rec = self.refined_edge(f, t, true);
                match rec.adjacent {
                    None => perimeter_slot(t),
                    Some(a) => {
                        let af = a as int / 12;
                        let at = a as int % 12;
                        let partner = self.refined_edge(af, at, true);
                        &&& 0 <= a < 12 * self.faces.len()
                        &&& 0 <= af < self.faces.len()
                        &&& 0 <= at < 12
                        &&& a == 12 * af + at
                        &&& a as int != 12 * f + t
                        &&& partner.adjacent == Some((12 * f + t) as EdgeIndex)
                        &&& partner.position == self.refined_edge(f, next_slot(t), true).position
                        &&& rec.position == self.refined_edge(af, next_slot(at), true).position
                    },
                }
            }),
            self.is_closed() ==> self.refined_edge(f, t, true).adjacent is Some,
    {
        assert(self.face_wf(f));
        if perimeter_slot(t) {
            let i = self.slot_source(f, t);
            assert(self.edge_wf(i));
            assert(self.adjacency_wf(i));
            self.lemma_slot_source_inverse(i);
            self.lemma_half_positions(i);
            match self.edges[i].adjacent {
                None => {},
                Some(j0) => {
                    let j = j0 as int;
                    assert(self.edge_wf(j));
                    assert(self.adjacency_wf(j));
                    self.lemma_slot_source_inverse(j);
                    self.lemma_canonical_props(i);
                    self.lemma_canonical_props(j);
                    self.lemma_half_positions(j);
                    let fj = self.edges[j].face as int;
                    let cj = self.cycle_slot(j);
                    assert(self.face_wf(fj));
                    if t == 0 || t == 4 || t == 11 {
                        vstd::arithmetic::div_mod::lemma_fundamental_div_mod_converse(
                            self.end_half(j),
                            12,
                            fj,
                            end_slot(cj),
                        );
                    } else {
                        vstd::arithmetic::div_mod::lemma_fundamental_div_mod_converse(
                            self.start_half(j),
                            12,
                            fj,
                            start_slot(cj),
                        );
                    }
                },
            }
        }
    }

    /// Adjacency of the refined mesh is symmetric and oppositely oriented,
    /// and a closed mesh stays closed.
    #[verifier::rlimit(100)]
    #[verifier::spinoff_prover]
    proof fn lemma_refined_adjacencies_wf<M: MidpointPolicy>(self, policy: M)
        requires
            self.is_valid(),
            self.within_size_limits(),
        ensures
            spec_subdivide_once(self, policy).adjacencies_wf(),
            self.is_closed() ==> spec_subdivide_once(self, policy).is_closed(),
    {
        let out = spec_subdivide_once(self, policy);
        let fc = self.faces.len() as int;
        self.lemma_refined_indexing(policy);
        if self.is_closed() {
            assert forall|k: int| 0 <= k < out.edges.len() implies out.edges[k].adjacent
                is Some by {
                vstd::arithmetic::div_mod::lemma_fundamental_div_mod(k, 12);
                vstd::arithmetic::div_mod::lemma_mod_bound(k, 12);
                self.lemma_refined_slot_adjacency(k / 12, k % 12);
            }
        }
        assert forall|k: int| 0 <= k < out.edges.len() implies out.adjacency_wf(k) && (
        self.is_closed() ==> out.edges[k].adjacent is Some) by {
            let f = k / 12;
            let t = k % 12;
            self.lemma_refined_slot_adjacency(f, t);
            match self.refined_edge(f, t, true).adjacent {
                None => {},
                Some(a) => {
                    let af = a as int / 12;
                    let at = a as int % 12;
                    assert(out.edges[a as int] == self.refined_edge(af, at, true));
                    vstd::arithmetic::div_mod::lemma_fundamental_div_mod_converse(
                        12 * f + next_slot(t),
                        12,
                        f,
                        next_slot(t),
                    );
                    vstd::arithmetic::div_mod::lemma_fundamental_div_mod_converse(
                        12 * af + next_slot(at),
                        12,
                        af,
                        next_slot(at),
                    );
                    assert(out.edges[12 * f + next_slot(t)] == self.refined_edge(
                        f,
                        next_slot(t),
                        true,
                    ));
                    assert(out.edges[12 * af + next_slot(at)] == self.refined_edge(
                        af,
                        next_slot(at),
                        true,
                    ));
                },
            }
        }
    }
}

/// Midpoint deduplication: the two half-edges of a shared input edge name the
/// same midpoint vertex of the refined mesh — one index, never two — and that
/// vertex holds exactly the policy's midpoint of the edge's endpoints,
/// computed from the canonical (lower-indexed) side.
pub proof fn lemma_midpoint_vertex_shared<M: MidpointPolicy>(m: MeshModel, policy: M, e: int)
    requires
        m.is_valid(),
        m.within_size_limits(),
        0 <= e < m.edges.len(),
    ensures
        m.edges[e].adjacent matches Some(a) ==> m.midpoint_index(a as int) == m.midpoint_index(e),
        spec_subdivide_once(m, policy).positions[m.midpoint_index(e)] == m.midpoint_value(
            policy,
            e,
        ),
{
    m.lemma_canonical_props(e);
    let c = m.canonical_edge(e);
    m.lemma_midpoints_below_index(policy, c, m.edges.len() as int);
    m.lemma_midpoints_below_len(policy, m.edges.len() as int);
    assert(m.midpoint_value(policy, e) == m.midpoint_value(policy, c));
    let out = spec_subdivide_once(m, policy);
    assert(out.positions[m.midpoint_index(c)] == m.midpoints_below(
        policy,
        m.edges.len() as int,
    )[m.canonical_count(c)]);
}

/// Manifold closure: one subdivision step of a valid triangle mesh yields a
/// valid triangle mesh — in particular, adjacency is symmetric and oppositely
/// oriented for every internal edge pair of the output — and a closed
/// (boundary-free) input yields a closed output.
pub proof fn lemma_subdivide_once_preserves_validity<M: MidpointPolicy>(m: MeshModel, policy: M)
    requires
        m.is_valid(),
        m.within_size_limits(),
    ensures
        spec_subdivide_once(m, policy).is_valid(),
        m.is_closed() ==> spec_subdivide_once(m, policy).is_closed(),
{
    m.lemma_refined_edges_wf(policy);
    m.lemma_refined_faces_wf(policy);
    m.lemma_refined_edges_on_own_faces(policy);
    m.lemma_refined_adjacencies_wf(policy);
}

/// Every mesh along `count` refinement steps from `m` is valid and within the
/// size limits, so every step is owed success.
pub open spec fn spec_steps_ok<M: MidpointPolicy>(m: MeshModel, policy: M, count: nat) -> bool
    decreases count,
{
    count == 0 || {
        &&& m.is_valid()
        &&& m.within_size_limits()
        &&& spec_steps_ok(spec_subdivide_once(m, policy), policy, (count - 1) as nat)
    }
}

/// After `k` of `count` healthy steps, the remaining `count - k` steps are
/// still healthy.
pub proof fn lemma_steps_ok_shift<M: MidpointPolicy>(m: MeshModel, policy: M, k: nat, count: nat)
    requires
        k <= count,
        spec_steps_ok(m, policy, count),
    ensures
        spec_steps_ok(spec_subdivide(m, policy, k), policy, (count - k) as nat),
    decreases k,
{
    if k > 0 {
        lemma_steps_ok_shift(
            spec_subdivide_once(m, policy),
            policy,
            (k - 1) as nat,
            (count - 1) as nat,
        );
    }
}

/// `k` healthy steps followed by one more healthy mesh make `k + 1` healthy
/// steps.
pub proof fn lemma_steps_ok_extend<M: MidpointPolicy>(m: MeshModel, policy: M, k: nat)
    requires
        spec_steps_ok(m, policy, k),
        spec_subdivide(m, policy, k).is_valid(),
        spec_subdivide(m, policy, k).within_size_limits(),
    ensures
        spec_steps_ok(m, policy, k + 1),
    decreases k,
{
    if k > 0 {
        assert(spec_subdivide(m, policy, k) == spec_subdivide(
            spec_subdivide_once(m, policy),
            policy,
            (k - 1) as nat,
        ));
        lemma_steps_ok_extend(spec_subdivide_once(m, policy), policy, (k - 1) as nat);
        assert(spec_steps_ok(spec_subdivide_once(m, policy), policy, ((k - 1) + 1) as nat));
        assert(((k - 1) + 1) as nat == (k + 1 - 1) as nat);
    } else {
        assert(spec_subdivide(m, policy, 0) == m);
        assert(spec_steps_ok(spec_subdivide_once(m, policy), policy, 0));
    }
}

/// Peeling the last step off an iteration: `k + 1` steps are one step applied
/// to the result of `k` steps.
pub proof fn lemma_subdivide_unfold_last<M: MidpointPolicy>(m: MeshModel, policy: M, k: nat)
    ensures
        spec_subdivide(m, policy, (k + 1) as nat) == spec_subdivide_once(
            spec_subdivide(m, policy, k),
            policy,
        ),
    decreases k,
{
    if k > 0 {
        lemma_subdivide_unfold_last(spec_subdivide_once(m, policy), policy, (k - 1) as nat);
        assert(spec_subdivide(m, policy, (k + 1) as nat) == spec_subdivide(
            spec_subdivide_once(m, policy),
            policy,
            ((k - 1) + 1) as nat,
        ));
        assert(spec_subdivide(m, policy, k) == spec_subdivide(
            spec_subdivide_once(m, policy),
            policy,
            (k - 1) as nat,
        ));
    } else {
        assert(spec_subdivide(m, policy, 0) == m);
        assert(spec_subdivide(m, policy, 1) == spec_subdivide(
            spec_subdivide_once(m, policy),
            policy,
            0,
        ));
    }
}

/// Step composability: `a + b` refinement steps equal `b` steps applied to
/// the result of `a` steps. In particular two steps on any mesh equal one
/// step applied to the result of one step.
pub proof fn lemma_subdivide_composes<M: MidpointPolicy>(m: MeshModel, policy: M, a: nat, b: nat)
    ensures
        spec_subdivide(m, policy, a + b) == spec_subdivide(spec_subdivide(m, policy, a), policy, b),
    decreases a,
{
    if a > 0 {
        lemma_subdivide_composes(spec_subdivide_once(m, policy), policy, (a - 1) as nat, b);
    }
}

/// Determinism: a subdivision step is a function of the input mesh and the
/// midpoint policy alone — any two meshes that both satisfy
/// [`Mesh::subdivide_once`]'s contract for the same input and the same policy
/// are equal, array for array. No internal iteration order leaks into the
/// output.
pub proof fn lemma_subdivide_once_deterministic<M: MidpointPolicy>(
    m: MeshModel,
    policy: M,
    r1: MeshModel,
    r2: MeshModel,
)
    requires
        r1 == spec_subdivide_once(m, policy),
        r2 == spec_subdivide_once(m, policy),
    ensures
        r1 == r2,
        r1.positions == r2.positions,
        r1.faces == r2.faces,
        r1.edges == r2.edges,
{
}

impl Mesh {
    /// `count` subdivision steps, each feeding the previous step's output
    /// back in; `count = 0` returns an unmodified copy. Succeeds exactly when
    /// every mesh along the way is well-formed and within the size limits.
    pub fn subdivide<M: MidpointPolicy>(&self, count: usize, midpoint_fn: &M) -> (r: Result<
        Mesh,
        TopologyError,
    >)
        ensures
            match r {
                Ok(out) => {
                    &&& spec_steps_ok(self@, *midpoint_fn, count as nat)
                    &&& out@ == spec_subdivide(self@, *midpoint_fn, count as nat)
                    &&& count > 0 ==> out@.is_valid()
                },
                Err(e) => !spec_steps_ok(self@, *midpoint_fn, count as nat),
            },
    {
        let ghost policy = *midpoint_fn;
        let mut acc = self.clone();
        let mut k: usize = 0;
        while k < count
            invariant
                policy == *midpoint_fn,
                k <= count,
                spec_steps_ok(self@, policy, k as nat),
                acc@ == spec_subdivide(self@, policy, k as nat),
                k > 0 ==> acc@.is_valid(),
            decreases count - k,
        {
            match acc.subdivide_once(midpoint_fn) {
                Ok(next) => {
                    proof {
                        lemma_steps_ok_extend(self@, policy, k as nat);
                        lemma_subdivide_unfold_last(self@, policy, k as nat);
                    }
                    acc = next;
                },
                Err(e) => {
                    proof {
                        if spec_steps_ok(self@, policy, count as nat) {
                            lemma_steps_ok_shift(self@, policy, k as nat, count as nat);
                        }
                    }
                    return Err(e);
                },
            }
            k += 1;
        }
        Ok(acc)
    }

    /// `count` subdivision steps with the projected midpoint policy: refines
    /// a polyhedron into a geodesic sphere of the given fixed-point radius.
    pub fn subdivide_arc(&self, radius: u32, count: usize) -> (r: Result<Mesh, TopologyError>)
        ensures
            ({
                let policy = ProjectedMidpoint { radius };
                match r {
                    Ok(out) => {
                        &&& spec_steps_ok(self@, policy, count as nat)
                        &&& out@ == spec_subdivide(self@, policy, count as nat)
                        &&& count > 0 ==> out@.is_valid()
                    },
                    Err(e) => !spec_steps_ok(self@, policy, count as nat),
                }
            }),
    {
        self.subdivide(count, &(ProjectedMidpoint { radius }))
    }
}

impl MeshModel {
    /// `canonical_count` grows by at most one per index and is monotonic;
    /// it strictly grows across a canonical index.
    pub proof fn lemma_canonical_count_monotonic(self, a: int, b: int)
        requires
            a <= b,
        ensures
            self.canonical_count(a) <= self.canonical_count(b),
            a >= 0 ==> self.canonical_count(b) - self.canonical_count(a) <= b - a,
            0 <= a < b && self.is_canonical(a) ==> self.canonical_count(a) < self.canonical_count(
                b,
            ),
        decreases b - a,
    {
        if a < b {
            self.lemma_canonical_count_monotonic(a, b - 1);
        }
    }

    /// The midpoint list for edges below `e` has one entry per canonical edge.
    pub proof fn lemma_midpoints_below_len<M: MidpointPolicy>(self, policy: M, e: int)
        ensures
            self.midpoints_below(policy, e).len() == if e >= 0 {
                self.canonical_count(e)
            } else {
                0int
            },
        decreases e,
    {
        if e > 0 {
            self.lemma_midpoints_below_len(policy, e - 1);
        }
    }

    /// The midpoint of canonical edge `c` stands at offset
    /// `canonical_count(c)` in the midpoint list of any longer prefix.
    pub proof fn lemma_midpoints_below_index<M: MidpointPolicy>(self, policy: M, c: int, e: int)
        requires
            0 <= c < e,
            self.is_canonical(c),
        ensures
            self.midpoints_below(policy, e)[self.canonical_count(c)] == self.midpoint_value(
                policy,
                c,
            ),
        decreases e,
    {
        self.lemma_midpoints_below_len(policy, e - 1);
        self.lemma_canonical_count_monotonic(c, e - 1);
        self.lemma_canonical_count_monotonic(0, c);
        assert(self.canonical_count(0) == 0);
        let prefix = self.midpoints_below(policy, e - 1);
        let tail = if self.is_canonical(e - 1) {
            seq![self.midpoint_value(policy, e - 1)]
        } else {
            Seq::<Position>::empty()
        };
        assert(self.midpoints_below(policy, e) =~= prefix + tail);
        if c < e - 1 {
            self.lemma_midpoints_below_index(policy, c, e - 1);
            assert(self.canonical_count(c) < self.canonical_count(e - 1));
            assert((prefix + tail)[self.canonical_count(c)] == prefix[self.canonical_count(c)]);
        } else {
            assert(prefix.len() == self.canonical_count(c));
            assert((prefix + tail)[self.canonical_count(c)] == tail[0]);
        }
    }

    /// Lengths of the refined edge and face sequences.
    pub proof fn lemma_refined_below_len(self, f: int, stitched: bool)
        requires
            f >= 0,
        ensures
            self.refined_edges_below(f, stitched).len() == 12 * f,
            self.refined_faces_below(f).len() == 4 * f,
        decreases f,
    {
        if f > 0 {
            self.lemma_refined_below_len(f - 1, stitched);
        }
    }

    /// Indexing into the refined edge sequence: block `f`, slot `t`.
    pub proof fn lemma_refined_edge_at(self, n: int, f: int, t: int, stitched: bool)
        requires
            0 <= f < n,
            0 <= t < 12,
        ensures
            self.refined_edges_below(n, stitched)[12 * f + t] == self.refined_edge(f, t, stitched),
        decreases n,
    {
        self.lemma_refined_below_len(f, stitched);
        if f == n - 1 {
            self.lemma_refined_below_len(n - 1, stitched);
        } else {
            self.lemma_refined_edge_at(n - 1, f, t, stitched);
            self.lemma_refined_below_len(n - 1, stitched);
        }
    }

    /// The refined half-edge at index `k` while cross-face restitching has
    /// handled input edges below `upto`: a perimeter half whose source edge
    /// has not been handled yet still carries its pre-restitch record.
    pub open spec fn restitch_partial(self, upto: int, k: int) -> HalfEdge {
        let f = k / 12;
        let t = k % 12;
        if perimeter_slot(t) && self.slot_source(f, t) >= upto {
            self.refined_edge(f, t, false)
        } else {
            self.refined_edge(f, t, true)
        }
    }

    /// On a valid mesh, input edge `i` produces exactly the two perimeter
    /// slots `start_slot(c)` and `end_slot(c)` of its own face's block, where
    /// `c` is `i`'s place on the cycle; no other block or slot names `i` as
    /// its source.
    pub proof fn lemma_slot_source_inverse(self, i: int)
        requires
            self.is_valid(),
            0 <= i < self.edges.len(),
        ensures
            0 <= self.edges[i].face < self.faces.len(),
            0 <= self.cycle_slot(i) < 3,
            self.start_half(i) == 12 * (self.edges[i].face as int) + start_slot(self.cycle_slot(i)),
            self.end_half(i) == 12 * (self.edges[i].face as int) + end_slot(self.cycle_slot(i)),
            self.slot_source(self.edges[i].face as int, start_slot(self.cycle_slot(i))) == i,
            self.slot_source(self.edges[i].face as int, end_slot(self.cycle_slot(i))) == i,
            forall|f: int, t: int|
                0 <= f < self.faces.len() && perimeter_slot(t) && self.slot_source(f, t) == i
                    ==> f == self.edges[i].face as int && (t == start_slot(self.cycle_slot(i))
                    || t == end_slot(self.cycle_slot(i))),
    {
        assert(self.edge_wf(i));
        assert(self.edge_on_own_face(i));
        let fi = self.edges[i].face as int;
        assert(self.face_wf(fi));
        assert forall|f: int, t: int|
            0 <= f < self.faces.len() && perimeter_slot(t) && self.slot_source(f, t)
                == i implies f == fi && (t == start_slot(self.cycle_slot(i)) || t == end_slot(
            self.cycle_slot(i),
        )) by {
            assert(self.face_wf(f));
        }
    }

    /// The canonical side of an undirected edge is itself canonical, both
    /// sides of an adjacent pair share it, and the midpoint vertex index it
    /// determines lies in the appended range of the refined position array.
    pub proof fn lemma_canonical_props(self, e: int)
        requires
            self.is_valid(),
            self.edges.len() <= usize::MAX,
            0 <= e < self.edges.len(),
        ensures
            0 <= self.canonical_edge(e) <= e,
            self.is_canonical(self.canonical_edge(e)),
            self.midpoint_index(e) == self.midpoint_index(self.canonical_edge(e)),
            self.positions.len() <= self.midpoint_index(e) < self.positions.len()
                + self.distinct_edge_count(),
            self.edges[e].adjacent matches Some(a) ==> self.canonical_edge(a as int)
                == self.canonical_edge(e) && self.midpoint_index(a as int) == self.midpoint_index(
                e,
            ),
    {
        assert(self.edge_wf(e));
        assert(self.adjacency_wf(e));
        match self.edges[e].adjacent {
            None => {},
            Some(a) => {
                assert(self.adjacency_wf(a as int));
                assert(self.edges[a as int].adjacent == Some(e as EdgeIndex));
                if a < e {
                    assert(self.canonical_edge(e) == a as int);
                    assert(self.canonical_edge(a as int) == a as int);
                } else {
                    assert(self.canonical_edge(e) == e);
                    assert(self.canonical_edge(a as int) == e);
                }
            },
        }
        let c = self.canonical_edge(e);
        self.lemma_canonical_count_monotonic(0, c);
        assert(self.canonical_count(0) == 0);
        self.lemma_canonical_count_monotonic(c, self.edges.len() as int);
    }

    /// The four position indices around the two halves of input edge `i` in
    /// its face's refined block: the start half runs from `i`'s own vertex to
    /// the midpoint, the end half from the midpoint to `i`'s end vertex.
    pub proof fn lemma_half_positions(self, i: int)
        requires
            self.is_valid(),
            0 <= i < self.edges.len(),
        ensures
            ({
                let f = self.edges[i].face as int;
                let c = self.cycle_slot(i);
                &&& self.refined_position(f, start_slot(c)) == self.edges[i].position as int
                &&& self.refined_position(f, next_slot(start_slot(c))) == self.midpoint_index(i)
                &&& self.refined_position(f, end_slot(c)) == self.midpoint_index(i)
                &&& self.refined_position(f, next_slot(end_slot(c)))
                    == self.edges[self.edges[i].next as int].position as int
            }),
    {
        assert(self.edge_wf(i));
        assert(self.edge_on_own_face(i));
        assert(self.face_wf(self.edges[i].face as int));
    }

    /// Every refined face record is rooted at three times its own index.
    pub proof fn lemma_refined_face_at(self, n: int, j: int)
        requires
            0 <= j < 4 * n,
        ensures
            self.refined_faces_below(n)[j] == (Face { root: (3 * j) as EdgeIndex }),
        decreases n,
    {
        self.lemma_refined_below_len(n - 1, true);
        if j < 4 * (n - 1) {
            self.lemma_refined_face_at(n - 1, j);
        }
    }
}

} // verus!

