//! Reconstruction-time data model: vertices with incident-edge lists, directed
//! front edges linked into cyclic loops, faces, and the well-formedness
//! predicates that seed creation, `join` and `glue` preserve.
//!
//! Vertices and edges live in arenas (`Vec`s) and refer to each other by
//! index, so the cyclic point/edge graph needs no shared mutable ownership.

use vstd::prelude::*;

use crate::vec3::Vec3Fix;
use crate::{COORD_MAX, VEC_MAX};

verus! {

/// An input sample: a position and a caller-supplied oriented normal.
#[derive(Clone, Copy, Debug, PartialEq, Eq, Structural)]
pub struct Point {
    /// Position of the point.
    pub pos: Vec3Fix,
    /// Normal of the point.
    pub normal: Vec3Fix,
}

impl Point {
    pub fn new(pos: Vec3Fix, normal: Vec3Fix) -> (p: Point)
        ensures
            p.pos == pos && p.normal == normal,
    {
        Point { pos, normal }
    }
}

/// An output triangle: three absolute positions.
#[derive(Clone, Copy, Debug, PartialEq, Eq)]
pub struct Triangle(pub [Vec3Fix; 3]);

/// A reconstruction-time vertex: position, normal, whether it has been
/// incorporated into an emitted triangle, and its incident edges (indices
/// into the edge arena; the list only ever grows).
#[derive(Debug)]
pub struct MeshPoint {
    pub pos: Vec3Fix,
    pub normal: Vec3Fix,
    pub used: bool,
    pub edges: Vec<usize>,
}

impl MeshPoint {
    /// A fresh vertex without a normal; handy for building faces directly.
    pub fn new(pos: Vec3Fix) -> (p: MeshPoint)
        ensures
            p.pos == pos,
            p.normal == Vec3Fix::spec_zero(),
            !p.used,
            p.edges@ == Seq::<usize>::empty(),
    {
        MeshPoint { pos, normal: Vec3Fix { x: 0, y: 0, z: 0 }, used: false, edges: Vec::new() }
    }

    /// The vertex a grid cell stores for an input point.
    pub fn from_point(point: &Point) -> (p: MeshPoint)
        ensures
            p.pos == point.pos,
            p.normal == point.normal,
            !p.used,
            p.edges@ == Seq::<usize>::empty(),
    {
        MeshPoint { pos: point.pos, normal: point.normal, used: false, edges: Vec::new() }
    }

    /// Register one more incident edge.
    pub fn add_edge(&mut self, e: usize)
        ensures
            final(self).edges@ == old(self).edges@.push(e),
            final(self).pos == old(self).pos,
            final(self).normal == old(self).normal,
            final(self).used == old(self).used,
    {
        self.edges.push(e);
    }
}

/// State of a front edge: still eligible for pivoting, consumed into the
/// mesh interior, or permanently failed to extend.
#[derive(Clone, Copy, Debug, PartialEq, Eq, Structural)]
pub enum EdgeStatus {
    Active,
    Inner,
    Boundary,
}

/// A directed front edge `a -> b`, remembering the third vertex of the
/// triangle that created it and that triangle's ball center, linked into a
/// doubly-linked cyclic loop through `prev`/`next` (edge-arena indices).
#[derive(Clone, Copy, Debug)]
pub struct MeshEdge {
    pub a: usize,
    pub b: usize,
    pub opposite: usize,
    pub center: Vec3Fix,
    pub prev: Option<usize>,
    pub next: Option<usize>,
    pub status: EdgeStatus,
}

impl MeshEdge {
    pub fn new(a: usize, b: usize, opposite: usize, center: Vec3Fix) -> (e: MeshEdge)
        ensures
            e.a == a && e.b == b && e.opposite == opposite && e.center == center,
            e.prev is None && e.next is None,
            e.status == EdgeStatus::Active,
    {
        MeshEdge { a, b, opposite, center, prev: None, next: None, status: EdgeStatus::Active }
    }
}

/// A transient triple of vertices, used to compute a normal and a ball center.
#[derive(Debug)]
pub struct MeshFace(pub [MeshPoint; 3]);

/// Positions of the mesh vertices.
pub open spec fn pos_view(points: Seq<MeshPoint>) -> Seq<Vec3Fix> {
    points.map_values(|p: MeshPoint| p.pos)
}

/// Normals of the mesh vertices.
pub open spec fn nrm_view(points: Seq<MeshPoint>) -> Seq<Vec3Fix> {
    points.map_values(|p: MeshPoint| p.normal)
}

/// Does the index list hold the (edge) index `j`?
pub open spec fn list_has(list: Seq<usize>, j: int) -> bool {
    exists|k: int| 0 <= k < list.len() && list[k] as int == j
}

/// Every vertex position and normal is within the accepted input range.
pub open spec fn points_geom_wf(points: Seq<MeshPoint>) -> bool {
    forall|i: int| 0 <= i < points.len() ==> {
        &&& (#[trigger] points[i]).pos.in_bound(COORD_MAX as int)
        &&& points[i].normal.in_bound(COORD_MAX as int)
    }
}

/// Every edge's endpoints name vertices, and its ball center is bounded.
pub open spec fn edges_vals_wf(points: Seq<MeshPoint>, edges: Seq<MeshEdge>) -> bool {
    forall|j: int| 0 <= j < edges.len() ==> {
        let e = #[trigger] edges[j];
        &&& (e.a as int) < points.len()
        &&& (e.b as int) < points.len()
        &&& (e.opposite as int) < points.len()
        &&& e.center.in_bound(VEC_MAX as int)
    }
}

/// Every edge is registered on the incident-edge lists of both endpoints.
pub open spec fn edges_registered(points: Seq<MeshPoint>, edges: Seq<MeshEdge>) -> bool {
    forall|j: int| 0 <= j < edges.len() ==> {
        let e = #[trigger] edges[j];
        list_has(points[e.a as int].edges@, j) && list_has(points[e.b as int].edges@, j)
    }
}

/// Every entry of a vertex's incident-edge list names an edge that really has
/// that vertex as an endpoint.
pub open spec fn lists_sound(points: Seq<MeshPoint>, edges: Seq<MeshEdge>) -> bool {
    forall|i: int, k: int|
        0 <= i < points.len() && 0 <= k < points[i].edges@.len() ==> {
            let g = (#[trigger] points[i].edges@[k]) as int;
            &&& g < edges.len()
            &&& (edges[g].a as int == i || edges[g].b as int == i)
        }
}

/// The front invariant at one edge: a non-`Inner` edge has both links set,
/// they point at non-`Inner` edges that link back, the loop is continuous
/// (`next` starts where this edge ends) and the edge is not degenerate.
pub open spec fn edge_ok(edges: Seq<MeshEdge>, j: int) -> bool {
    let e = edges[j];
    e.status != EdgeStatus::Inner ==> {
        &&& e.prev is Some
        &&& e.next is Some
        &&& 0 <= e.prev->0 < edges.len()
        &&& 0 <= e.next->0 < edges.len()
        &&& edges[e.prev->0 as int].status != EdgeStatus::Inner
        &&& edges[e.next->0 as int].status != EdgeStatus::Inner
        &&& edges[e.next->0 as int].prev is Some
        &&& edges[e.next->0 as int].prev->0 as int == j
        &&& edges[e.prev->0 as int].next is Some
        &&& edges[e.prev->0 as int].next->0 as int == j
        &&& edges[e.next->0 as int].a == e.b
        &&& edges[e.prev->0 as int].b == e.a
        &&& e.a != e.b
    }
}

/// The front invariant over the whole edge arena.
pub open spec fn front_wf(edges: Seq<MeshEdge>) -> bool {
    forall|j: int| 0 <= j < edges.len() ==> #[trigger] edge_ok(edges, j)
}

/// Everything `join`, `glue` and the driver maintain about the arenas.
pub open spec fn mesh_wf(points: Seq<MeshPoint>, edges: Seq<MeshEdge>) -> bool {
    &&& points_geom_wf(points)
    &&& edges_vals_wf(points, edges)
    &&& edges_registered(points, edges)
    &&& lists_sound(points, edges)
    &&& front_wf(edges)
}

/// Relinking and status changes leave registration, soundness and value
/// bounds intact: they only read endpoints, centers and list membership.
pub proof fn lemma_wf_edges_reshaped(points: Seq<MeshPoint>, e1: Seq<MeshEdge>, e2: Seq<MeshEdge>)
    requires
        e1.len() == e2.len(),
        forall|j: int|
            0 <= j < e1.len() ==> {
                &&& (#[trigger] e2[j]).a == e1[j].a
                &&& e2[j].b == e1[j].b
                &&& e2[j].opposite == e1[j].opposite
                &&& e2[j].center == e1[j].center
            },
        edges_vals_wf(points, e1),
        edges_registered(points, e1),
        lists_sound(points, e1),
    ensures
        edges_vals_wf(points, e2),
        edges_registered(points, e2),
        lists_sound(points, e2),
{
    assert forall|j: int| 0 <= j < e2.len() implies {
        let e = #[trigger] e2[j];
        &&& (e.a as int) < points.len()
        &&& (e.b as int) < points.len()
        &&& (e.opposite as int) < points.len()
        &&& e.center.in_bound(VEC_MAX as int)
    } by {
        assert(e1[j].a == e2[j].a);
    }
    assert forall|j: int| 0 <= j < e2.len() implies {
        let e = #[trigger] e2[j];
        list_has(points[e.a as int].edges@, j) && list_has(points[e.b as int].edges@, j)
    } by {
        assert(e1[j].a == e2[j].a);
        assert(list_has(points[e1[j].a as int].edges@, j));
        assert(list_has(points[e1[j].b as int].edges@, j));
    }
    assert forall|i: int, k: int|
        0 <= i < points.len() && 0 <= k < points[i].edges@.len() implies {
        let g = (#[trigger] points[i].edges@[k]) as int;
        &&& g < e2.len()
        &&& (e2[g].a as int == i || e2[g].b as int == i)
    } by {
        let g = points[i].edges@[k] as int;
        assert(g < e1.len() && (e1[g].a as int == i || e1[g].b as int == i));
    }
}

/// A vertex lies on the front when some incident edge is still `Active`.
pub open spec fn point_on_front(p: MeshPoint, edges: Seq<MeshEdge>) -> bool {
    exists|k: int|
        0 <= k < p.edges@.len() && edges[p.edges@[k] as int].status == EdgeStatus::Active
}

/// Whether the vertex has not been incorporated into any triangle yet.
pub fn not_used(p: &MeshPoint) -> (r: bool)
    ensures
        r == !p.used,
{
    !p.used
}

/// Whether the vertex still has an `Active` incident edge.
pub fn on_front(p: &MeshPoint, edges: &Vec<MeshEdge>) -> (r: bool)
    requires
        forall|k: int| 0 <= k < p.edges@.len() ==> (#[trigger] p.edges@[k]) < edges@.len(),
    ensures
        r == point_on_front(*p, edges@),
{
    let n = p.edges.len();
    let mut k: usize = 0;
    while k < n
        invariant
            n == p.edges@.len(),
            0 <= k <= n,
            forall|m: int| 0 <= m < p.edges@.len() ==> (#[trigger] p.edges@[m]) < edges@.len(),
            forall|m: int|
                0 <= m < k ==> edges@[(#[trigger] p.edges@[m]) as int].status
                    != EdgeStatus::Active,
        decreases n - k,
    {
        let g = p.edges[k];
        if edges[g].status == EdgeStatus::Active {
            return true;
        }
        k += 1;
    }
    false
}

} // verus!
