//! Geometric core of a boundary-representation modeling kernel.
//!
//! Converts closed loops of curve-bounded edges into tolerance-bounded
//! polygonal approximations, intersects probe lines against face boundaries,
//! triangulates 2D-parameterized point sets, and assembles indexed triangle
//! meshes.

use vstd::prelude::*;

pub mod approx;
pub mod geometry;
pub mod intersection;
pub mod mesh;
pub mod topology;
pub mod triangulation;

verus! {

/// Errors reported by the kernel's algorithms.
///
/// None of these is recovered from internally: each algorithm reports the
/// violated assumption to its caller.
#[derive(Clone, Copy, Debug, PartialEq, Eq, Structural)]
pub enum GeometryError {
    /// A curve or edge kind that this core does not support yet.
    Unimplemented,
    /// Degenerate or out-of-range geometry where valid geometry is required.
    InvalidGeometry,
    /// A violated topological invariant: an odd crossing count or a
    /// constraint edge that crosses another constraint.
    BoundaryInconsistency,
}

} // verus!
