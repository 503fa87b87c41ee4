use fj_kernel::approx::{CycleApprox, Segment, Tolerance};
use fj_kernel::geometry::{Circle2, Curve, Line2, Point2, Point3, SurfacePoint};
use fj_kernel::topology::{Cycle, Edge, Vertex};
use fj_kernel::GeometryError;

fn sp(u: i64, v: i64) -> SurfacePoint {
    SurfacePoint { local: Point2 { u, v }, canonical: Point3 { x: u, y: v, z: 0 } }
}

fn segment_edge(a: SurfacePoint, b: SurfacePoint) -> Edge {
    Edge {
        curve: Curve::Line(Line2 {
            origin: a.local,
            direction: Point2 { u: b.local.u - a.local.u, v: b.local.v - a.local.v },
        }),
        vertices: Some((Vertex { point: a }, Vertex { point: b })),
    }
}

fn square_cycle() -> Cycle {
    let corners = [(0, 0), (2, 0), (2, 2), (0, 2)];
    let mut edges = Vec::new();
    for i in 0..corners.len() {
        let (au, av) = corners[i];
        let (bu, bv) = corners[(i + 1) % corners.len()];
        edges.push(segment_edge(sp(au, av), sp(bu, bv)));
    }
    Cycle { edges }
}

fn p3(x: i64, y: i64, z: i64) -> Point3 {
    Point3 { x, y, z }
}

#[test]
fn tolerance_must_be_positive() {
    assert_eq!(Tolerance::from_scalar(0).err(), Some(GeometryError::InvalidGeometry));
    assert_eq!(Tolerance::from_scalar(-3).err(), Some(GeometryError::InvalidGeometry));
    let t = Tolerance::from_scalar(5).unwrap();
    assert_eq!(t.value(), 5);
}

#[test]
fn square_cycle_is_approximated_by_its_corners() {
    let tolerance = Tolerance::from_scalar(1).unwrap();
    let approx = CycleApprox::new(&square_cycle(), tolerance).unwrap();
    // Junction duplicates are removed; the closing edge returns to the first
    // corner, which is not merged with it.
    assert_eq!(
        approx.points,
        vec![p3(0, 0, 0), p3(2, 0, 0), p3(2, 2, 0), p3(0, 2, 0), p3(0, 0, 0)],
    );
}

#[test]
fn approximation_is_deterministic() {
    let tolerance = Tolerance::from_scalar(1).unwrap();
    let first = CycleApprox::new(&square_cycle(), tolerance).unwrap();
    let second = CycleApprox::new(&square_cycle(), tolerance).unwrap();
    assert_eq!(first.points, second.points);
}

#[test]
fn segments_connect_consecutive_points() {
    let tolerance = Tolerance::from_scalar(1).unwrap();
    let approx = CycleApprox::new(&square_cycle(), tolerance).unwrap();
    let segments = approx.segments();
    // N points yield exactly N - 1 segments, in order.
    assert_eq!(segments.len(), approx.points.len() - 1);
    for (i, segment) in segments.iter().enumerate() {
        assert_eq!(*segment, Segment { a: approx.points[i], b: approx.points[i + 1] });
    }
}

#[test]
fn approximated_segments_lie_on_cycle_edges() {
    // Every polyline segment is the exact chord of one line edge, so the
    // deviation from the true cycle is zero, within any tolerance.
    let cycle = square_cycle();
    let tolerance = Tolerance::from_scalar(1).unwrap();
    let approx = CycleApprox::new(&cycle, tolerance).unwrap();
    for segment in approx.segments() {
        let found = cycle.edges.iter().any(|edge| {
            let (v0, v1) = edge.vertices.as_ref().unwrap();
            v0.point.canonical == segment.a && v1.point.canonical == segment.b
        });
        assert!(found);
    }
}

#[test]
fn circle_edge_is_unimplemented() {
    let mut cycle = square_cycle();
    cycle.edges.push(Edge {
        curve: Curve::Circle(Circle2 { center: Point2 { u: 0, v: 0 }, radius: 1 }),
        vertices: Some((Vertex { point: sp(1, 0) }, Vertex { point: sp(1, 0) })),
    });
    let tolerance = Tolerance::from_scalar(1).unwrap();
    assert_eq!(
        CycleApprox::new(&cycle, tolerance).err(),
        Some(GeometryError::Unimplemented),
    );
}

#[test]
fn unbounded_edge_is_unimplemented() {
    let cycle = Cycle {
        edges: vec![Edge {
            curve: Curve::Line(Line2 {
                origin: Point2 { u: 0, v: 0 },
                direction: Point2 { u: 1, v: 0 },
            }),
            vertices: None,
        }],
    };
    let tolerance = Tolerance::from_scalar(1).unwrap();
    assert_eq!(
        CycleApprox::new(&cycle, tolerance).err(),
        Some(GeometryError::Unimplemented),
    );
}

#[test]
fn zero_length_edges_leave_no_degenerate_segment() {
    let a = sp(0, 0);
    let b = sp(3, 0);
    let cycle = Cycle {
        edges: vec![
            segment_edge(a, b),
            segment_edge(b, b),
            segment_edge(b, a),
        ],
    };
    let tolerance = Tolerance::from_scalar(1).unwrap();
    let approx = CycleApprox::new(&cycle, tolerance).unwrap();
    assert_eq!(approx.points, vec![p3(0, 0, 0), p3(3, 0, 0), p3(0, 0, 0)]);
}

#[test]
fn degenerate_single_edge_cycle_yields_its_point() {
    // A single zero-length edge is not rejected: the approximation is
    // whatever points the edge yields, deduplicated.
    let a = sp(1, 1);
    let cycle = Cycle { edges: vec![segment_edge(a, a)] };
    let tolerance = Tolerance::from_scalar(1).unwrap();
    let approx = CycleApprox::new(&cycle, tolerance).unwrap();
    assert_eq!(approx.points, vec![p3(1, 1, 0)]);
    assert_eq!(approx.segments().len(), 0);
}
