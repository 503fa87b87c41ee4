//! Topological entities consumed read-only by the kernel's algorithms:
//! vertices, curve-bounded edges, closed cycles of edges, and faces bounded
//! by an exterior cycle plus interior hole cycles.

use vstd::prelude::*;

use crate::geometry::{Curve, SurfacePoint};

verus! {

/// A 0-dimensional topological entity, identified by its position.
#[derive(Clone, Copy, Debug)]
pub struct Vertex {
    pub point: SurfacePoint,
}

/// A curve restricted to an optional ordered pair of bounding vertices.
///
/// `None` means the edge is the curve's full extent (for example a whole
/// circle); the algorithms of this core do not support such edges and report
/// `Unimplemented` for them.
#[derive(Clone, Copy, Debug)]
pub struct Edge {
    pub curve: Curve,
    pub vertices: Option<(Vertex, Vertex)>,
}

/// An ordered, closed sequence of edges bounding a face or a hole.
///
/// The closure invariant (each edge's end vertex coincides with the next
/// edge's start vertex) is established by the upstream construction layer;
/// `cycle_closed` states it for the lemmas that rely on it.
#[derive(Clone, Debug)]
pub struct Cycle {
    pub edges: Vec<Edge>,
}

/// A face: one exterior cycle plus zero or more interior (hole) cycles, all
/// expressed in the owning surface's local 2D parametrization.
#[derive(Clone, Debug)]
pub struct Face {
    pub exterior: Cycle,
    pub interiors: Vec<Cycle>,
}

/// Whether an edge is of the shape this core's algorithms support: a line
/// segment with explicit bounding vertices.
pub open spec fn edge_supported(e: Edge) -> bool {
    e.curve is Line && e.vertices is Some
}

/// The canonical position of a supported edge's start vertex.
pub open spec fn edge_start(e: Edge) -> SurfacePoint
    recommends
        e.vertices is Some,
{
    e.vertices->Some_0.0.point
}

/// The canonical position of a supported edge's end vertex.
pub open spec fn edge_end(e: Edge) -> SurfacePoint
    recommends
        e.vertices is Some,
{
    e.vertices->Some_0.1.point
}

/// Closure of a sequence of edges: every edge's end vertex sits at the same
/// canonical position as the next edge's start vertex, and the last edge
/// closes back to the first.
pub open spec fn edges_closed(edges: Seq<Edge>) -> bool {
    &&& forall|i: int|
        0 <= i < edges.len() - 1 ==> edge_end(#[trigger] edges[i]).canonical == edge_start(
            edges[i + 1],
        ).canonical
    &&& edges.len() > 0 ==> edge_end(edges[edges.len() - 1]).canonical == edge_start(
        edges[0],
    ).canonical
}

/// The face's whole boundary, exterior and interior cycles together, as one
/// unordered collection of edges.
pub open spec fn boundary_edges(face: Face) -> Seq<Edge>
    decreases face.interiors.len(),
{
    face.exterior.edges@ + interior_edges(face.interiors@)
}

/// All edges of a sequence of cycles, concatenated in order.
pub open spec fn interior_edges(cycles: Seq<Cycle>) -> Seq<Edge>
    decreases cycles.len(),
{
    if cycles.len() == 0 {
        Seq::empty()
    } else {
        interior_edges(cycles.drop_last()) + cycles.last().edges@
    }
}

} // verus!
