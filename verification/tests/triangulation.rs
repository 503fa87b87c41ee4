use fj_kernel::geometry::{Point2, Point3, SurfacePoint};
use spade::Triangulation;
use fj_kernel::triangulation::{
    constraint_action, consecutive_pairs, process_faces, ConstraintAction, SurfaceTriangle,
};

fn sp(u: i64, v: i64) -> SurfacePoint {
    SurfacePoint { local: Point2 { u, v }, canonical: Point3 { x: u, y: v, z: 0 } }
}

fn doubled_area(t: &SurfaceTriangle) -> i64 {
    (t.b.local.u - t.a.local.u) * (t.c.local.v - t.a.local.v)
        - (t.b.local.v - t.a.local.v) * (t.c.local.u - t.a.local.u)
}

#[test]
fn winding_is_normalized_to_counter_clockwise() {
    let ccw = SurfaceTriangle { a: sp(0, 0), b: sp(2, 0), c: sp(0, 2) };
    let cw = SurfaceTriangle { a: sp(0, 0), b: sp(0, 2), c: sp(2, 0) };
    let faces = vec![ccw, cw];
    let processed = process_faces(&faces);
    assert_eq!(processed.len(), 2);
    for t in &processed {
        assert!(doubled_area(t) > 0);
    }
    // The counter-clockwise face passes through unchanged; the clockwise one
    // has its second and third vertices swapped.
    assert_eq!(processed[0], ccw);
    assert_eq!(processed[1], SurfaceTriangle { a: sp(0, 0), b: sp(2, 0), c: sp(0, 2) });
}

#[test]
fn zero_area_slivers_are_removed() {
    let valid = SurfaceTriangle { a: sp(0, 0), b: sp(4, 0), c: sp(0, 4) };
    let sliver = SurfaceTriangle { a: sp(0, 0), b: sp(2, 2), c: sp(4, 4) };
    let coincident = SurfaceTriangle { a: sp(1, 1), b: sp(1, 1), c: sp(1, 1) };
    let processed = process_faces(&vec![sliver, valid, coincident]);
    assert_eq!(processed, vec![valid]);
}

#[test]
fn canonical_coordinates_are_carried_through() {
    let a = SurfacePoint { local: Point2 { u: 0, v: 0 }, canonical: Point3 { x: 7, y: 8, z: 9 } };
    let b = SurfacePoint { local: Point2 { u: 0, v: 3 }, canonical: Point3 { x: 1, y: 2, z: 3 } };
    let c = SurfacePoint { local: Point2 { u: 3, v: 0 }, canonical: Point3 { x: 4, y: 5, z: 6 } };
    // Clockwise in local coordinates: the canonical data moves with the swap.
    let processed = process_faces(&vec![SurfaceTriangle { a, b, c }]);
    assert_eq!(processed, vec![SurfaceTriangle { a, b: c, c: b }]);
}

#[test]
fn constraint_edges_are_consecutive_pairs() {
    let points = vec![sp(0, 0), sp(1, 0), sp(1, 1)];
    let pairs = consecutive_pairs(&points);
    assert_eq!(pairs, vec![(sp(0, 0), sp(1, 0)), (sp(1, 0), sp(1, 1))]);
    assert_eq!(consecutive_pairs(&vec![]), vec![]);
    assert_eq!(consecutive_pairs(&vec![sp(5, 5)]), vec![]);
}

#[test]
fn constraint_decisions() {
    assert_eq!(constraint_action(true, true), ConstraintAction::Skip);
    assert_eq!(constraint_action(true, false), ConstraintAction::Skip);
    assert_eq!(constraint_action(false, true), ConstraintAction::Add);
    assert_eq!(constraint_action(false, false), ConstraintAction::Reject);
}

#[test]
fn solver_faces_are_normalized_end_to_end() {
    // Run the real Delaunay solver over a small point set, hand its faces to
    // the engine's verified post-processing, and check the output invariant.
    let points = vec![sp(0, 0), sp(10, 0), sp(10, 10), sp(0, 10), sp(5, 5)];
    let spade_points: Vec<spade::Point2<f64>> = points
        .iter()
        .map(|p| spade::Point2::new(p.local.u as f64, p.local.v as f64))
        .collect();
    let triangulation =
        spade::DelaunayTriangulation::<spade::Point2<f64>>::bulk_load(spade_points).unwrap();

    let mut faces = Vec::new();
    for face in triangulation.inner_faces() {
        let [v0, v1, v2] = face.vertices().map(|v| *v.data());
        let lookup = |v: spade::Point2<f64>| {
            points
                .iter()
                .copied()
                .find(|p| p.local.u as f64 == v.x && p.local.v as f64 == v.y)
                .unwrap()
        };
        faces.push(SurfaceTriangle { a: lookup(v0), b: lookup(v1), c: lookup(v2) });
    }
    assert_eq!(faces.len(), 4);

    let processed = process_faces(&faces);
    assert_eq!(processed.len(), 4);
    for t in &processed {
        assert!(doubled_area(t) > 0);
    }
}

#[test]
fn constrained_triangulation_end_to_end() {
    // A square with a square hole: bulk-load the points, apply the boundary
    // loops as constraint edges with the library deciding each step, then
    // post-process with the verified engine.
    let exterior = vec![sp(0, 0), sp(6, 0), sp(6, 6), sp(0, 6), sp(0, 0)];
    let interior = vec![sp(2, 2), sp(4, 2), sp(4, 4), sp(2, 4), sp(2, 2)];
    let mut all_points = exterior.clone();
    all_points.extend(interior.iter().copied());

    let spade_points: Vec<spade::Point2<f64>> = all_points
        .iter()
        .map(|p| spade::Point2::new(p.local.u as f64, p.local.v as f64))
        .collect();
    let mut cdt =
        spade::ConstrainedDelaunayTriangulation::<spade::Point2<f64>>::bulk_load(spade_points)
            .unwrap();

    for loop_points in [&exterior, &interior] {
        for (a, b) in consecutive_pairs(loop_points) {
            let from = cdt
                .insert(spade::Point2::new(a.local.u as f64, a.local.v as f64))
                .unwrap();
            let to = cdt
                .insert(spade::Point2::new(b.local.u as f64, b.local.v as f64))
                .unwrap();
            let connected = cdt.get_edge_from_neighbors(from, to).is_some();
            let addable = cdt.can_add_constraint(from, to);
            match constraint_action(connected, addable) {
                ConstraintAction::Skip => {}
                ConstraintAction::Add => {
                    cdt.add_constraint(from, to);
                }
                ConstraintAction::Reject => panic!("constraint edges cross"),
            }
        }
    }

    let mut faces = Vec::new();
    for face in cdt.inner_faces() {
        let [v0, v1, v2] = face.vertices().map(|v| *v.data());
        let lookup = |v: spade::Point2<f64>| {
            all_points
                .iter()
                .copied()
                .find(|p| p.local.u as f64 == v.x && p.local.v as f64 == v.y)
                .unwrap()
        };
        faces.push(SurfaceTriangle { a: lookup(v0), b: lookup(v1), c: lookup(v2) });
    }

    let processed = process_faces(&faces);
    assert!(!processed.is_empty());
    for t in &processed {
        assert!(doubled_area(t) > 0);
    }
}
