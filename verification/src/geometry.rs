//! Geometric leaf types: points in local (parametric) and canonical
//! (embedding) space, lines, and the recognized curve kinds.
//!
//! All coordinates are exact integers. The kernel's algorithms work on an
//! integer lattice, so geometric predicates (orientation, intersection,
//! degeneracy) are decided exactly, with no rounding.

use vstd::prelude::*;

verus! {

/// Largest coordinate magnitude accepted by the intersection routine.
///
/// Cross products of differences of bounded coordinates fit comfortably in
/// `i64`: differences stay below `2 * COORD_LIMIT` and their products below
/// `8 * COORD_LIMIT^2`.
pub const COORD_LIMIT: i64 = 1_000_000;

/// A point in a 2-dimensional local (parametric) space, for example a face's
/// surface coordinates.
#[derive(Clone, Copy, Debug, PartialEq, Eq, Hash, Structural)]
pub struct Point2 {
    pub u: i64,
    pub v: i64,
}

/// A point in the 3-dimensional canonical (embedding) space.
#[derive(Clone, Copy, Debug, PartialEq, Eq, Hash, Structural)]
pub struct Point3 {
    pub x: i64,
    pub y: i64,
    pub z: i64,
}

/// A point carrying both a local coordinate on its owning surface and the
/// canonical coordinate of the same physical point.
///
/// The invariant that both coordinates describe the same physical point under
/// the owning surface's mapping is established by the upstream construction
/// layer; this core carries both through unchanged.
#[derive(Clone, Copy, Debug, PartialEq, Eq, Hash, Structural)]
pub struct SurfacePoint {
    pub local: Point2,
    pub canonical: Point3,
}

/// A line in local 2D space: all points `origin + t * direction`.
#[derive(Clone, Copy, Debug, PartialEq, Eq, Structural)]
pub struct Line2 {
    pub origin: Point2,
    pub direction: Point2,
}

/// A circle in local 2D space.
///
/// Recognized as a curve kind, but not supported by approximation or
/// intersection: every algorithm reports `Unimplemented` for it.
#[derive(Clone, Copy, Debug, PartialEq, Eq, Structural)]
pub struct Circle2 {
    pub center: Point2,
    pub radius: i64,
}

/// The curve kinds this kernel recognizes.
///
/// The variant set is open: algorithms match on it exhaustively and report
/// `Unimplemented` for every kind they do not support, rather than guessing.
#[derive(Clone, Copy, Debug)]
pub enum Curve {
    Line(Line2),
    Circle(Circle2),
}

/// Whether a local coordinate is within the range the intersection routine
/// accepts.
pub open spec fn point2_bounded(p: Point2) -> bool {
    -COORD_LIMIT <= p.u <= COORD_LIMIT && -COORD_LIMIT <= p.v <= COORD_LIMIT
}

/// Decide whether a local coordinate is within the range the intersection
/// and triangulation routines accept.
pub fn point2_bounded_exec(p: &Point2) -> (r: bool)
    ensures
        r == point2_bounded(*p),
{
    -COORD_LIMIT <= p.u && p.u <= COORD_LIMIT && -COORD_LIMIT <= p.v && p.v <= COORD_LIMIT
}

/// Whether a canonical coordinate is within the range the mesh's degeneracy
/// test accepts.
pub open spec fn point3_bounded(p: Point3) -> bool {
    &&& -COORD_LIMIT <= p.x <= COORD_LIMIT
    &&& -COORD_LIMIT <= p.y <= COORD_LIMIT
    &&& -COORD_LIMIT <= p.z <= COORD_LIMIT
}

/// Twice the signed area of the triangle `a`, `b`, `c` in local 2D space.
///
/// Positive for counter-clockwise winding, negative for clockwise, zero for
/// degenerate (colinear or coincident) points.
pub open spec fn doubled_area2(a: Point2, b: Point2, c: Point2) -> int {
    (b.u - a.u) * (c.v - a.v) - (b.v - a.v) * (c.u - a.u)
}

} // verus!
