//! Tolerance-bounded approximation of a closed cycle of edges into an
//! ordered, deduplicated polyline of canonical points.

use vstd::prelude::*;

use crate::geometry::Point3;
use crate::topology::{edge_end, edge_start, edge_supported, edges_closed, Cycle, Edge};
use crate::GeometryError;

verus! {

/// A strictly positive bound on the deviation allowed between an
/// approximation and the true geometry.
#[derive(Clone, Copy, Debug, PartialEq, Eq, Structural)]
pub struct Tolerance {
    value: i64,
}

impl Tolerance {
    /// The bound as a scalar distance.
    pub closed spec fn value_spec(self) -> int {
        self.value as int
    }

    /// Construct a tolerance; a zero or negative bound is rejected.
    pub fn from_scalar(value: i64) -> (r: Result<Tolerance, GeometryError>)
        ensures
            value > 0 <==> r is Ok,
            r matches Ok(t) ==> t.value_spec() == value,
            r matches Err(e) ==> e == GeometryError::InvalidGeometry,
    {
        if value > 0 {
            Ok(Tolerance { value })
        } else {
            Err(GeometryError::InvalidGeometry)
        }
    }

    /// The bound as a scalar distance.
    pub fn value(&self) -> (r: i64)
        ensures
            r == self.value_spec(),
    {
        self.value
    }
}

/// The points with which one supported edge is approximated: a line segment
/// deviates nowhere from the chord between its two bounding vertices, so its
/// exact endpoint positions suffice for every tolerance.
pub open spec fn edge_points_spec(e: Edge) -> Seq<Point3> {
    seq![edge_start(e).canonical, edge_end(e).canonical]
}

/// The approximations of all edges of a cycle, concatenated in traversal
/// order.
pub open spec fn cycle_points_spec(edges: Seq<Edge>) -> Seq<Point3>
    decreases edges.len(),
{
    if edges.len() == 0 {
        Seq::empty()
    } else {
        cycle_points_spec(edges.drop_last()) + edge_points_spec(edges.last())
    }
}

/// Whether every edge of a cycle can be approximated by this core.
pub open spec fn all_edges_supported(edges: Seq<Edge>) -> bool {
    forall|i: int| 0 <= i < edges.len() ==> edge_supported(#[trigger] edges[i])
}

/// A point sequence with consecutive duplicates removed: of every run of
/// equal consecutive points, the first is kept; order is preserved.
pub open spec fn dedup_points(s: Seq<Point3>) -> Seq<Point3>
    decreases s.len(),
{
    if s.len() == 0 {
        Seq::empty()
    } else {
        let rest = dedup_points(s.drop_last());
        if rest.len() > 0 && rest.last() == s.last() {
            rest
        } else {
            rest.push(s.last())
        }
    }
}

/// The point sequence with which a cycle is approximated: the edges'
/// approximations concatenated in traversal order, with consecutive
/// duplicate points removed.
pub open spec fn approx_points_spec(edges: Seq<Edge>) -> Seq<Point3> {
    dedup_points(cycle_points_spec(edges))
}

/// A non-empty point sequence keeps its last point through deduplication.
pub proof fn lemma_dedup_last(s: Seq<Point3>)
    requires
        s.len() > 0,
    ensures
        dedup_points(s).len() > 0,
        dedup_points(s).last() == s.last(),
    decreases s.len(),
{
    if s.len() > 1 {
        lemma_dedup_last(s.drop_last());
    }
}

/// Deduplication leaves no two equal consecutive points.
pub proof fn lemma_dedup_no_consecutive_duplicates(s: Seq<Point3>)
    ensures
        forall|i: int|
            0 <= i < dedup_points(s).len() - 1 ==> #[trigger] dedup_points(s)[i] != dedup_points(
                s,
            )[i + 1],
    decreases s.len(),
{
    if s.len() > 0 {
        lemma_dedup_no_consecutive_duplicates(s.drop_last());
        let rest = dedup_points(s.drop_last());
        let whole = dedup_points(s);
        if rest.len() > 0 && rest.last() == s.last() {
            assert(whole == rest);
        } else {
            assert(whole == rest.push(s.last()));
            assert forall|i: int| 0 <= i < whole.len() - 1 implies #[trigger] whole[i] != whole[i + 1] by {
                if i < rest.len() - 1 {
                    assert(whole[i] == rest[i] && whole[i + 1] == rest[i + 1]);
                } else {
                    assert(whole[i] == rest.last() && whole[i + 1] == s.last());
                }
            }
        }
    }
}

/// A sequence without equal consecutive points is left unchanged by
/// deduplication.
pub proof fn lemma_dedup_of_distinct(s: Seq<Point3>)
    requires
        forall|i: int| 0 <= i < s.len() - 1 ==> #[trigger] s[i] != s[i + 1],
    ensures
        dedup_points(s) == s,
    decreases s.len(),
{
    if s.len() > 0 {
        lemma_dedup_of_distinct(s.drop_last());
        if s.len() > 1 {
            lemma_dedup_last(s.drop_last());
            assert(s.drop_last().last() == s[s.len() - 2]);
        }
        assert(dedup_points(s) =~= s);
    } else {
        assert(dedup_points(s) =~= s);
    }
}

/// Removing consecutive duplicates is idempotent: a second pass over an
/// approximation's points changes nothing, so approximating a cycle twice
/// with the same tolerance yields identical point sequences.
pub proof fn lemma_dedup_idempotent(s: Seq<Point3>)
    ensures
        dedup_points(dedup_points(s)) == dedup_points(s),
{
    lemma_dedup_no_consecutive_duplicates(s);
    lemma_dedup_of_distinct(dedup_points(s));
}

/// Every consecutive pair of deduplicated points is a consecutive pair of
/// distinct points of the source sequence.
pub proof fn lemma_dedup_adjacent_pairs(s: Seq<Point3>)
    ensures
        forall|i: int|
            0 <= i < dedup_points(s).len() - 1 ==> exists|j: int|
                1 <= j < s.len() && s[j - 1] != #[trigger] s[j] && #[trigger] dedup_points(s)[i]
                    == s[j - 1] && dedup_points(s)[i + 1] == s[j],
    decreases s.len(),
{
    if s.len() > 0 {
        lemma_dedup_adjacent_pairs(s.drop_last());
        let prefix = s.drop_last();
        let rest = dedup_points(prefix);
        let whole = dedup_points(s);
        assert forall|i: int| 0 <= i < dedup_points(s).len() - 1 implies exists|j: int|
            1 <= j < s.len() && s[j - 1] != #[trigger] s[j] && #[trigger] dedup_points(s)[i]
                == s[j - 1] && dedup_points(s)[i + 1] == s[j] by {
            if rest.len() > 0 && rest.last() == s.last() {
                assert(whole == rest);
                let j = choose|j: int|
                    1 <= j < prefix.len() && prefix[j - 1] != #[trigger] prefix[j] && rest[i]
                        == prefix[j - 1] && rest[i + 1] == prefix[j];
                assert(s[j - 1] == prefix[j - 1] && s[j] == prefix[j]);
                assert(1 <= j < s.len() && s[j - 1] != s[j] && whole[i] == s[j - 1] && whole[i + 1]
                    == s[j]);
            } else {
                assert(whole == rest.push(s.last()));
                if i < rest.len() - 1 {
                    let j = choose|j: int|
                        1 <= j < prefix.len() && prefix[j - 1] != #[trigger] prefix[j] && rest[i]
                            == prefix[j - 1] && rest[i + 1] == prefix[j];
                    assert(s[j - 1] == prefix[j - 1] && s[j] == prefix[j]);
                    assert(whole[i] == rest[i] && whole[i + 1] == rest[i + 1]);
                    assert(1 <= j < s.len() && s[j - 1] != s[j] && whole[i] == s[j - 1] && whole[i
                        + 1] == s[j]);
                } else {
                    lemma_dedup_last(prefix);
                    let j = s.len() - 1;
                    assert(whole[i] == rest.last() && rest.last() == prefix.last());
                    assert(prefix.last() == s[j - 1]);
                    assert(whole[i + 1] == s.last() && s.last() == s[j]);
                    assert(s[j - 1] != s[j]);
                    assert(1 <= j < s.len() && s[j - 1] != s[j] && whole[i] == s[j - 1] && whole[i
                        + 1] == s[j]);
                }
            }
        }
    }
}

/// Index characterization of the concatenated edge approximations: edge `k`
/// contributes the points at positions `2k` and `2k + 1`.
pub proof fn lemma_cycle_points_index(edges: Seq<Edge>)
    ensures
        cycle_points_spec(edges).len() == 2 * edges.len(),
        forall|k: int|
            0 <= k < edges.len() ==> cycle_points_spec(edges)[2 * k] == edge_start(
                #[trigger] edges[k],
            ).canonical,
        forall|k: int|
            0 <= k < edges.len() ==> cycle_points_spec(edges)[2 * k + 1] == edge_end(
                #[trigger] edges[k],
            ).canonical,
    decreases edges.len(),
{
    if edges.len() > 0 {
        lemma_cycle_points_index(edges.drop_last());
        let front = cycle_points_spec(edges.drop_last());
        let whole = cycle_points_spec(edges);
        let n = edges.len();
        assert(whole == front + edge_points_spec(edges.last()));
        assert(front.len() == 2 * (n - 1));
        assert forall|k: int| 0 <= k < n implies whole[2 * k] == edge_start(
            #[trigger] edges[k],
        ).canonical && whole[2 * k + 1] == edge_end(edges[k]).canonical by {
            if k < n - 1 {
                assert(whole[2 * k] == front[2 * k]);
                assert(whole[2 * k + 1] == front[2 * k + 1]);
                assert(edges.drop_last()[k] == edges[k]);
            } else {
                assert(whole[2 * k] == edge_points_spec(edges.last())[0]);
                assert(whole[2 * k + 1] == edge_points_spec(edges.last())[1]);
            }
        }
    }
}

/// Tolerance bound: every consecutive pair of points of a closed cycle's
/// approximation is the ordered endpoint pair of one of the cycle's edges.
///
/// Each polyline segment therefore coincides with the chord of the line
/// segment edge it approximates, so the deviation between the polyline and
/// the true cycle geometry is zero over every span, within every tolerance.
pub proof fn lemma_approx_segments_lie_on_edges(edges: Seq<Edge>)
    requires
        all_edges_supported(edges),
        edges_closed(edges),
    ensures
        forall|i: int|
            0 <= i < approx_points_spec(edges).len() - 1 ==> exists|k: int|
                0 <= k < edges.len() && #[trigger] approx_points_spec(edges)[i] == edge_start(
                    #[trigger] edges[k],
                ).canonical && approx_points_spec(edges)[i + 1] == edge_end(edges[k]).canonical,
{
    let s = cycle_points_spec(edges);
    let d = approx_points_spec(edges);
    lemma_dedup_adjacent_pairs(s);
    lemma_cycle_points_index(edges);
    assert forall|i: int| 0 <= i < d.len() - 1 implies exists|k: int|
        0 <= k < edges.len() && #[trigger] d[i] == edge_start(#[trigger] edges[k]).canonical && d[i
        + 1] == edge_end(edges[k]).canonical by {
        let j = choose|j: int|
            1 <= j < s.len() && s[j - 1] != #[trigger] s[j] && d[i] == s[j - 1] && d[i + 1] == s[j];
        if j % 2 == 1 {
            let k = (j - 1) / 2;
            assert(j - 1 == 2 * k && j == 2 * k + 1);
            assert(s[2 * k] == edge_start(edges[k]).canonical);
            assert(s[2 * k + 1] == edge_end(edges[k]).canonical);
        } else {
            let k = j / 2;
            assert(j - 1 == 2 * (k - 1) + 1 && j == 2 * k);
            assert(s[j - 1] == edge_end(edges[k - 1]).canonical);
            assert(s[j] == edge_start(edges[k]).canonical);
            assert(edge_end(edges[k - 1]).canonical == edge_start(edges[k]).canonical);
            assert(false);
        }
    }
}

/// A straight line segment between two canonical points.
#[derive(Clone, Copy, Debug, PartialEq, Eq, Structural)]
pub struct Segment {
    pub a: Point3,
    pub b: Point3,
}

/// An approximation of a cycle: an ordered, deduplicated sequence of
/// canonical points whose consecutive connections form a polyline within
/// tolerance of the true cycle geometry.
///
/// The first and last point need not be equal: closure of the polyline is
/// implicit in the closedness of the source cycle, and callers needing a
/// closed polyline must wrap around explicitly.
#[derive(Clone, Debug, PartialEq, Eq)]
pub struct CycleApprox {
    /// The points that approximate the cycle.
    pub points: Vec<Point3>,
}

impl CycleApprox {
    /// Compute the approximation of a cycle.
    ///
    /// `tolerance` defines how far the approximation is allowed to deviate
    /// from the actual cycle; every supported edge is a line segment, which
    /// its two exact endpoints approximate with zero deviation.
    ///
    /// Fails with `Unimplemented` if and only if some edge of the cycle is
    /// not a line segment with explicit bounding vertices.
    #[allow(unused_variables)]
    pub fn new(cycle: &Cycle, tolerance: Tolerance) -> (r: Result<CycleApprox, GeometryError>)
        ensures
            all_edges_supported(cycle.edges@) <==> r is Ok,
            r matches Ok(approx) ==> approx.points@ == approx_points_spec(cycle.edges@),
            r matches Err(e) ==> e == GeometryError::Unimplemented,
    {
        let mut points: Vec<Point3> = Vec::new();
        let n: usize = cycle.edges.len();
        for i in 0..n
            invariant
                n == cycle.edges@.len(),
                points@ == cycle_points_spec(cycle.edges@.take(i as int)),
                forall|j: int| 0 <= j < i ==> edge_supported(#[trigger] cycle.edges@[j]),
        {
            assert(cycle.edges@.take(i + 1).drop_last() == cycle.edges@.take(i as int));
            let edge = &cycle.edges[i];
            match edge.curve {
                crate::geometry::Curve::Line(_) => {},
                _ => {
                    assert(!edge_supported(cycle.edges@[i as int]));
                    return Err(GeometryError::Unimplemented);
                },
            }
            match &edge.vertices {
                Some((v0, v1)) => {
                    points.push(v0.point.canonical);
                    points.push(v1.point.canonical);
                },
                None => {
                    assert(!edge_supported(cycle.edges@[i as int]));
                    return Err(GeometryError::Unimplemented);
                },
            }
            assert(points@ =~= cycle_points_spec(cycle.edges@.take(i + 1)));
        }
        assert(cycle.edges@.take(n as int) == cycle.edges@);

        let mut deduped: Vec<Point3> = Vec::new();
        let m: usize = points.len();
        for i in 0..m
            invariant
                m == points@.len(),
                deduped@ == dedup_points(points@.take(i as int)),
        {
            assert(points@.take(i + 1).drop_last() == points@.take(i as int));
            let keep = if deduped.len() == 0 {
                true
            } else {
                deduped[deduped.len() - 1] != points[i]
            };
            if keep {
                deduped.push(points[i]);
            }
        }
        assert(points@.take(m as int) == points@);

        Ok(CycleApprox { points: deduped })
    }

    /// Construct the segments that connect consecutive approximation points.
    ///
    /// An approximation of N points yields exactly N - 1 segments, each equal
    /// to a consecutive point pair in order; the loop is not closed back to
    /// the first point.
    pub fn segments(&self) -> (r: Vec<Segment>)
        ensures
            r@.len() == if self.points@.len() == 0 {
                0int
            } else {
                self.points@.len() - 1
            },
            forall|i: int|
                0 <= i < r@.len() ==> #[trigger] r@[i] == (Segment {
                    a: self.points@[i],
                    b: self.points@[i + 1],
                }),
    {
        let mut segments: Vec<Segment> = Vec::new();
        let n: usize = self.points.len();
        if n == 0 {
            return segments;
        }
        for i in 1..n
            invariant
                n == self.points@.len(),
                segments@.len() == i - 1,
                forall|j: int|
                    0 <= j < segments@.len() ==> #[trigger] segments@[j] == (Segment {
                        a: self.points@[j],
                        b: self.points@[j + 1],
                    }),
        {
            segments.push(Segment { a: self.points[i - 1], b: self.points[i] });
        }
        segments
    }
}

} // verus!
