use fj_kernel::geometry::{Curve, Line2, Point2, Point3, SurfacePoint};
use fj_kernel::intersection::Interval;
use fj_kernel::topology::{Cycle, Edge, Face, Vertex};
use fj_kernel::GeometryError;

fn sp(u: i64, v: i64) -> SurfacePoint {
    SurfacePoint { local: Point2 { u, v }, canonical: Point3 { x: u, y: v, z: 0 } }
}

fn segment_edge(a: SurfacePoint, b: SurfacePoint) -> Edge {
    Edge {
        curve: Curve::Line(Line2 {
            origin: a.local,
            direction: Point2 { u: b.local.u - a.local.u, v: b.local.v - a.local.v },
        }),
        vertices: Some((Vertex { point: a }, Vertex { point: b })),
    }
}

fn polygon_cycle(corners: &[(i64, i64)]) -> Cycle {
    let mut edges = Vec::new();
    for i in 0..corners.len() {
        let (au, av) = corners[i];
        let (bu, bv) = corners[(i + 1) % corners.len()];
        edges.push(segment_edge(sp(au, av), sp(bu, bv)));
    }
    Cycle { edges }
}

fn as_value(interval: &Interval) -> (f64, f64) {
    (
        interval.start.num as f64 / interval.start.den as f64,
        interval.end.num as f64 / interval.end.den as f64,
    )
}

#[test]
fn curve_face() {
    let curve = Curve::Line(Line2 {
        origin: Point2 { u: -3, v: 0 },
        direction: Point2 { u: 1, v: 0 },
    });

    let exterior = [
        (-2, -2),
        ( 2, -2),
        ( 2,  2),
        (-2,  2),
    ];
    let interior = [
        (-1, -1),
        ( 1, -1),
        ( 1,  1),
        (-1,  1),
    ];

    let face = Face {
        exterior: polygon_cycle(&exterior),
        interiors: vec![polygon_cycle(&interior)],
    };

    let intervals = unwrap_intervals(fj_kernel::intersection::curve_face(&curve, &face));
    let values: Vec<(f64, f64)> = intervals.iter().map(as_value).collect();
    assert_eq!(values, vec![(1.0, 2.0), (4.0, 5.0)]);
}

fn unwrap_intervals(r: Result<Vec<Interval>, GeometryError>) -> Vec<Interval> {
    match r {
        Ok(intervals) => intervals,
        Err(e) => panic!("intersection failed: {:?}", e),
    }
}

#[test]
fn crossing_count_is_even_and_intervals_are_disjoint() {
    // A triangle probed along a line that misses no vertex.
    let curve = Curve::Line(Line2 {
        origin: Point2 { u: -10, v: 1 },
        direction: Point2 { u: 1, v: 0 },
    });
    let face = Face {
        exterior: polygon_cycle(&[(0, 0), (8, 0), (4, 6)]),
        interiors: vec![],
    };
    let intervals = unwrap_intervals(fj_kernel::intersection::curve_face(&curve, &face));
    assert_eq!(intervals.len(), 1);
    let (start, end) = as_value(&intervals[0]);
    assert!(start < end);
}

#[test]
fn probe_through_shared_vertex_counts_once() {
    // A square probed exactly through two opposite corners: each corner is
    // shared by two edges but contributes one crossing.
    let curve = Curve::Line(Line2 {
        origin: Point2 { u: -1, v: -1 },
        direction: Point2 { u: 1, v: 1 },
    });
    let face = Face {
        exterior: polygon_cycle(&[(0, 0), (4, 0), (4, 4), (0, 4)]),
        interiors: vec![],
    };
    let intervals = unwrap_intervals(fj_kernel::intersection::curve_face(&curve, &face));
    let values: Vec<(f64, f64)> = intervals.iter().map(as_value).collect();
    assert_eq!(values, vec![(1.0, 5.0)]);
}

#[test]
fn non_line_probe_is_unimplemented() {
    let curve = Curve::Circle(fj_kernel::geometry::Circle2 {
        center: Point2 { u: 0, v: 0 },
        radius: 1,
    });
    let face = Face {
        exterior: polygon_cycle(&[(0, 0), (4, 0), (4, 4)]),
        interiors: vec![],
    };
    assert_eq!(fj_kernel::intersection::curve_face(&curve, &face), Err(GeometryError::Unimplemented));
}

#[test]
fn unbounded_boundary_edge_is_unimplemented() {
    let curve = Curve::Line(Line2 {
        origin: Point2 { u: 0, v: 0 },
        direction: Point2 { u: 1, v: 0 },
    });
    let unbounded = Edge {
        curve: Curve::Line(Line2 {
            origin: Point2 { u: 0, v: 0 },
            direction: Point2 { u: 0, v: 1 },
        }),
        vertices: None,
    };
    let face = Face {
        exterior: Cycle { edges: vec![unbounded] },
        interiors: vec![],
    };
    assert_eq!(fj_kernel::intersection::curve_face(&curve, &face), Err(GeometryError::Unimplemented));
}

#[test]
fn odd_crossing_count_is_a_boundary_inconsistency() {
    // An open "boundary" of a single segment crossed once.
    let curve = Curve::Line(Line2 {
        origin: Point2 { u: -1, v: 0 },
        direction: Point2 { u: 1, v: 0 },
    });
    let face = Face {
        exterior: Cycle { edges: vec![segment_edge(sp(0, -1), sp(0, 1))] },
        interiors: vec![],
    };
    assert_eq!(fj_kernel::intersection::curve_face(&curve, &face), Err(GeometryError::BoundaryInconsistency));
}

#[test]
fn colinear_boundary_edge_contributes_no_crossing() {
    // The probe runs along the square's bottom edge. The coincident edge
    // contributes no crossing; the two vertical edges cross the probe at the
    // corners, and those two crossings pair up.
    let curve = Curve::Line(Line2 {
        origin: Point2 { u: -2, v: 0 },
        direction: Point2 { u: 1, v: 0 },
    });
    let face = Face {
        exterior: polygon_cycle(&[(0, 0), (4, 0), (4, 4), (0, 4)]),
        interiors: vec![],
    };
    let intervals = unwrap_intervals(fj_kernel::intersection::curve_face(&curve, &face));
    let values: Vec<(f64, f64)> = intervals.iter().map(as_value).collect();
    assert_eq!(values, vec![(2.0, 6.0)]);
}
