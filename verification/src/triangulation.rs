//! Verified core of the Delaunay triangulation engine.
//!
//! The low-level Delaunay solver is an external black box (it accepts a point
//! set and constraint edges and returns triangular faces). Everything the
//! engine decides around that box is verified here:
//!
//! - enumeration of the constraint edges of a boundary loop as consecutive
//!   point pairs;
//! - the decision taken for each constraint edge (skip it, add it, or reject
//!   the boundary as inconsistent);
//! - filtering of degenerate (zero-area) sliver faces out of the solver's
//!   output;
//! - normalization of every remaining face to counter-clockwise winding.

use vstd::prelude::*;

use crate::geometry::{doubled_area2, point2_bounded, SurfacePoint, COORD_LIMIT};

verus! {

/// A triangle produced by the triangulation engine: three points carrying
/// both their local 2D coordinate (used by the solver's geometric
/// predicates) and their canonical coordinate (carried through untouched).
#[derive(Clone, Copy, Debug, PartialEq, Eq, Structural)]
pub struct SurfaceTriangle {
    pub a: SurfacePoint,
    pub b: SurfacePoint,
    pub c: SurfacePoint,
}

/// Twice the signed area of a face in local coordinates.
pub open spec fn face_doubled_area(t: SurfaceTriangle) -> int {
    doubled_area2(t.a.local, t.b.local, t.c.local)
}

/// Whether a face is counter-clockwise in local coordinates.
pub open spec fn face_ccw(t: SurfaceTriangle) -> bool {
    face_doubled_area(t) > 0
}

/// The counter-clockwise version of a non-degenerate face: the face itself if
/// it is already counter-clockwise, else the face with its second and third
/// vertices swapped.
pub open spec fn orient_ccw(t: SurfaceTriangle) -> SurfaceTriangle {
    if face_ccw(t) {
        t
    } else {
        SurfaceTriangle { a: t.a, b: t.c, c: t.b }
    }
}

/// The engine's post-processing of the solver's faces: degenerate (zero
/// area) slivers are dropped, every other face is normalized to
/// counter-clockwise winding, and the order of the kept faces is preserved.
pub open spec fn process_faces_spec(faces: Seq<SurfaceTriangle>) -> Seq<SurfaceTriangle>
    decreases faces.len(),
{
    if faces.len() == 0 {
        Seq::empty()
    } else {
        let rest = process_faces_spec(faces.drop_last());
        if face_doubled_area(faces.last()) == 0 {
            rest
        } else {
            rest.push(orient_ccw(faces.last()))
        }
    }
}

/// Swapping two vertices of a face negates its signed area.
pub proof fn lemma_swap_negates_area(t: SurfaceTriangle)
    ensures
        face_doubled_area(SurfaceTriangle { a: t.a, b: t.c, c: t.b }) == -face_doubled_area(t),
{
    let au = t.a.local.u as int;
    let av = t.a.local.v as int;
    let bu = t.b.local.u as int;
    let bv = t.b.local.v as int;
    let cu = t.c.local.u as int;
    let cv = t.c.local.v as int;
    assert((cu - au) * (bv - av) - (cv - av) * (bu - au) == -((bu - au) * (cv - av) - (bv - av) * (
    cu - au))) by (nonlinear_arith);
}

/// Swapping the second and third vertices of a clockwise face makes it
/// counter-clockwise: the swap negates the signed area.
pub proof fn lemma_orient_ccw(t: SurfaceTriangle)
    requires
        face_doubled_area(t) != 0,
    ensures
        face_ccw(orient_ccw(t)),
        orient_ccw(t).a == t.a,
        face_doubled_area(orient_ccw(t)) == if face_ccw(t) {
            face_doubled_area(t)
        } else {
            -face_doubled_area(t)
        },
{
    lemma_swap_negates_area(t);
}

/// Winding normalization: every face the engine returns is counter-clockwise
/// in local coordinates, whatever order the solver produced.
pub proof fn lemma_processed_faces_ccw(faces: Seq<SurfaceTriangle>)
    ensures
        forall|i: int|
            0 <= i < process_faces_spec(faces).len() ==> face_ccw(
                #[trigger] process_faces_spec(faces)[i],
            ),
    decreases faces.len(),
{
    if faces.len() > 0 {
        lemma_processed_faces_ccw(faces.drop_last());
        let rest = process_faces_spec(faces.drop_last());
        if face_doubled_area(faces.last()) == 0 {
            assert(process_faces_spec(faces) == rest);
        } else {
            lemma_orient_ccw(faces.last());
            let whole = process_faces_spec(faces);
            assert(whole == rest.push(orient_ccw(faces.last())));
            assert forall|i: int| 0 <= i < whole.len() implies face_ccw(whole[i]) by {
                if i < rest.len() {
                    assert(whole[i] == rest[i]);
                } else {
                    assert(whole[i] == orient_ccw(faces.last()));
                }
            }
        }
    }
}

/// Whether all three local coordinates of a face are within the range the
/// engine accepts.
pub open spec fn face_bounded(t: SurfaceTriangle) -> bool {
    point2_bounded(t.a.local) && point2_bounded(t.b.local) && point2_bounded(t.c.local)
}

/// Compute twice the signed area of a face, exactly.
fn face_doubled_area_exec(t: &SurfaceTriangle) -> (r: i64)
    requires
        face_bounded(*t),
    ensures
        r == face_doubled_area(*t),
{
    let du1: i64 = t.b.local.u - t.a.local.u;
    let dv1: i64 = t.b.local.v - t.a.local.v;
    let du2: i64 = t.c.local.u - t.a.local.u;
    let dv2: i64 = t.c.local.v - t.a.local.v;
    proof {
        lemma_cross_bounds(du1 as int, dv1 as int, du2 as int, dv2 as int);
    }
    du1 * dv2 - dv1 * du2
}

/// Products of differences of bounded coordinates stay well inside `i64`.
proof fn lemma_cross_bounds(du1: int, dv1: int, du2: int, dv2: int)
    requires
        -2 * COORD_LIMIT <= du1 <= 2 * COORD_LIMIT,
        -2 * COORD_LIMIT <= dv1 <= 2 * COORD_LIMIT,
        -2 * COORD_LIMIT <= du2 <= 2 * COORD_LIMIT,
        -2 * COORD_LIMIT <= dv2 <= 2 * COORD_LIMIT,
    ensures
        -4 * COORD_LIMIT * COORD_LIMIT <= du1 * dv2 <= 4 * COORD_LIMIT * COORD_LIMIT,
        -4 * COORD_LIMIT * COORD_LIMIT <= dv1 * du2 <= 4 * COORD_LIMIT * COORD_LIMIT,
{
    assert(-4 * COORD_LIMIT * COORD_LIMIT <= du1 * dv2 <= 4 * COORD_LIMIT * COORD_LIMIT)
        by (nonlinear_arith)
        requires
            -2 * COORD_LIMIT <= du1 <= 2 * COORD_LIMIT,
            -2 * COORD_LIMIT <= dv2 <= 2 * COORD_LIMIT,
    ;
    assert(-4 * COORD_LIMIT * COORD_LIMIT <= dv1 * du2 <= 4 * COORD_LIMIT * COORD_LIMIT)
        by (nonlinear_arith)
        requires
            -2 * COORD_LIMIT <= dv1 <= 2 * COORD_LIMIT,
            -2 * COORD_LIMIT <= du2 <= 2 * COORD_LIMIT,
    ;
}

/// Drop the solver's degenerate sliver faces and normalize every remaining
/// face to counter-clockwise winding.
///
/// A face whose doubled area is zero is a numerical sliver (or a degenerate
/// face) and must not appear in the output; a valid face is kept, with its
/// second and third vertices swapped when the solver handed it out
/// clockwise. Filtering the face list leaves all other faces and their
/// vertices untouched, so no valid face is corrupted by the removal.
pub fn process_faces(faces: &Vec<SurfaceTriangle>) -> (r: Vec<SurfaceTriangle>)
    requires
        forall|i: int| 0 <= i < faces@.len() ==> face_bounded(#[trigger] faces@[i]),
    ensures
        r@ == process_faces_spec(faces@),
        forall|i: int| 0 <= i < r@.len() ==> face_ccw(#[trigger] r@[i]),
{
    let mut out: Vec<SurfaceTriangle> = Vec::new();
    let n: usize = faces.len();
    for i in 0..n
        invariant
            n == faces@.len(),
            forall|j: int| 0 <= j < faces@.len() ==> face_bounded(#[trigger] faces@[j]),
            out@ == process_faces_spec(faces@.take(i as int)),
    {
        assert(faces@.take(i + 1).drop_last() == faces@.take(i as int));
        assert(faces@.take(i + 1).last() == faces@[i as int]);
        let t = faces[i];
        let area = face_doubled_area_exec(&t);
        if area != 0 {
            if area > 0 {
                out.push(t);
            } else {
                out.push(SurfaceTriangle { a: t.a, b: t.c, c: t.b });
            }
        }
    }
    assert(faces@.take(n as int) == faces@);
    proof {
        lemma_processed_faces_ccw(faces@);
    }
    out
}

/// The constraint edges of one boundary loop: the consecutive point pairs of
/// the loop, in order.
pub open spec fn consecutive_pairs_spec(points: Seq<SurfacePoint>) -> Seq<
    (SurfacePoint, SurfacePoint),
>
    decreases points.len(),
{
    if points.len() < 2 {
        Seq::empty()
    } else {
        consecutive_pairs_spec(points.drop_last()).push(
            (points[points.len() - 2], points[points.len() - 1]),
        )
    }
}

/// Enumerate the constraint edges of a boundary loop: each pair of
/// consecutive points, in traversal order.
pub fn consecutive_pairs(points: &Vec<SurfacePoint>) -> (r: Vec<(SurfacePoint, SurfacePoint)>)
    ensures
        r@ == consecutive_pairs_spec(points@),
        r@.len() == if points@.len() < 2 {
            0int
        } else {
            points@.len() - 1
        },
        forall|i: int| 0 <= i < r@.len() ==> r@[i] == (points@[i], points@[i + 1]),
{
    proof {
        lemma_consecutive_pairs_index(points@);
    }
    let mut out: Vec<(SurfacePoint, SurfacePoint)> = Vec::new();
    let n: usize = points.len();
    if n < 2 {
        return out;
    }
    for i in 1..n
        invariant
            n == points@.len(),
            1 <= i <= n,
            out@ == consecutive_pairs_spec(points@.take(i as int)),
    {
        assert(points@.take(i + 1).drop_last() == points@.take(i as int));
        out.push((points[i - 1], points[i]));
        assert(out@ =~= consecutive_pairs_spec(points@.take(i + 1)));
    }
    assert(points@.take(n as int) == points@);
    out
}

/// Index characterization of `consecutive_pairs_spec`.
pub proof fn lemma_consecutive_pairs_index(points: Seq<SurfacePoint>)
    ensures
        consecutive_pairs_spec(points).len() == if points.len() < 2 {
            0int
        } else {
            points.len() - 1
        },
        forall|i: int|
            0 <= i < consecutive_pairs_spec(points).len() ==> #[trigger] consecutive_pairs_spec(
                points,
            )[i] == (points[i], points[i + 1]),
    decreases points.len(),
{
    if points.len() >= 2 {
        lemma_consecutive_pairs_index(points.drop_last());
    }
}

/// What the engine does with one constraint edge.
#[derive(Clone, Copy, Debug, PartialEq, Eq, Structural)]
pub enum ConstraintAction {
    /// The endpoints are already directly connected by an edge of the current
    /// triangulation; no explicit constraint is needed.
    Skip,
    /// The constraint edge is inserted.
    Add,
    /// The constraint edge would cross an existing constraint: the boundary
    /// loops overlap or self-intersect, and the triangulation fails with
    /// `BoundaryInconsistency`.
    Reject,
}

/// Decide what to do with one constraint edge, from what the solver reports
/// about the current triangulation.
///
/// `connected` states whether the edge's endpoints are already joined by an
/// edge of the triangulation; `addable` states whether the constraint could
/// be inserted without crossing an existing constraint edge.
pub fn constraint_action(connected: bool, addable: bool) -> (r: ConstraintAction)
    ensures
        r == ConstraintAction::Skip <==> connected,
        r == ConstraintAction::Add <==> (!connected && addable),
        r == ConstraintAction::Reject <==> (!connected && !addable),
{
    if connected {
        ConstraintAction::Skip
    } else if addable {
        ConstraintAction::Add
    } else {
        ConstraintAction::Reject
    }
}

} // verus!
