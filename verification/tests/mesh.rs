use fj_kernel::geometry::Point3;
use fj_kernel::mesh::{Mesh, Quad, Triangle};

fn p3(x: i64, y: i64, z: i64) -> Point3 {
    Point3 { x, y, z }
}

#[test]
fn test_contains_quad() {
    let a = p3(0, 0, 0);
    let b = p3(1, 0, 0);
    let c = p3(1, 1, 0);
    let d = p3(0, 1, 0);

    // Quad 1
    let abc = Triangle::new(a, b, c).unwrap();
    let acd = Triangle::new(a, c, d).unwrap();

    // Quad 2
    let abd = Triangle::new(a, b, d).unwrap();
    let bcd = Triangle::new(b, c, d).unwrap();

    let quad = Quad::new(a, b, c, d).unwrap();

    let mut mesh = Mesh::new();
    assert!(!mesh.contains_quad(&quad));
    mesh.triangle(abc);
    assert!(!mesh.contains_quad(&quad));
    mesh.triangle(acd);
    assert!(mesh.contains_quad(&quad));

    let mut mesh = Mesh::new();
    assert!(!mesh.contains_quad(&quad));
    mesh.triangle(abd);
    assert!(!mesh.contains_quad(&quad));
    mesh.triangle(bcd);
    assert!(mesh.contains_quad(&quad));
}

#[test]
fn degenerate_triangles_are_rejected() {
    // Coincident points.
    assert!(Triangle::new(p3(1, 1, 1), p3(1, 1, 1), p3(2, 0, 0)).is_none());
    // Distinct but colinear points.
    assert!(Triangle::new(p3(0, 0, 0), p3(1, 1, 1), p3(3, 3, 3)).is_none());
    // All equal.
    assert!(Triangle::new(p3(5, 5, 5), p3(5, 5, 5), p3(5, 5, 5)).is_none());
    // A proper triangle passes.
    assert!(Triangle::new(p3(0, 0, 0), p3(1, 0, 0), p3(0, 1, 0)).is_some());
}

#[test]
fn degenerate_points_never_enter_a_mesh() {
    // No triangle value exists for colinear points, so the mesh stays empty.
    let mut mesh = Mesh::new();
    if let Some(t) = Triangle::new(p3(0, 0, 0), p3(2, 2, 0), p3(4, 4, 0)) {
        mesh.triangle(t);
    }
    assert_eq!(mesh.triangle_indices().len(), 0);
    assert_eq!(mesh.vertices().len(), 0);
}

#[test]
fn vertex_interning_reuses_indices() {
    let a = p3(0, 0, 0);
    let b = p3(1, 0, 0);
    let c = p3(1, 1, 0);
    let d = p3(0, 1, 0);

    let mut mesh = Mesh::new();
    mesh.triangle(Triangle::new(a, b, c).unwrap());
    mesh.triangle(Triangle::new(a, c, d).unwrap());

    // Four distinct canonical points were inserted, via two triangles.
    assert_eq!(mesh.vertices().len(), 4);

    let indices = mesh.triangle_indices();
    assert_eq!(indices.len(), 2);
    let (i_a1, _i_b, i_c1) = indices[0];
    let (i_a2, i_c2, _i_d) = indices[1];
    // The shared points a and c got the same index both times.
    assert_eq!(i_a1, i_a2);
    assert_eq!(i_c1, i_c2);

    let vertices = mesh.vertices();
    assert_eq!(vertices[i_a1], a);
    assert_eq!(vertices[i_c1], c);
}

#[test]
fn reinserting_a_triangle_overwrites_idempotently() {
    let a = p3(0, 0, 0);
    let b = p3(1, 0, 0);
    let c = p3(1, 1, 0);

    let mut mesh = Mesh::new();
    mesh.triangle(Triangle::new(a, b, c).unwrap());
    // The same point set in another order is the same triangle.
    mesh.triangle(Triangle::new(c, a, b).unwrap());

    assert_eq!(mesh.triangle_indices().len(), 1);
    assert_eq!(mesh.vertices().len(), 3);
    // The entry carries the latest insertion's orientation.
    let (i0, i1, i2) = mesh.triangle_indices()[0];
    let vertices = mesh.vertices();
    assert_eq!(vertices[i0], c);
    assert_eq!(vertices[i1], a);
    assert_eq!(vertices[i2], b);
}

#[test]
fn iteration_is_consistent() {
    let a = p3(0, 0, 0);
    let b = p3(2, 0, 0);
    let c = p3(0, 2, 0);
    let mut mesh = Mesh::new();
    mesh.triangle(Triangle::new(a, b, c).unwrap());

    assert_eq!(mesh.indices(), vec![0, 1, 2]);
    let tris = mesh.triangle_vertices();
    assert_eq!(tris.len(), 1);
    assert_eq!(tris[0].points(), (a, b, c));
    assert_eq!(mesh.triangle_indices(), vec![(0, 1, 2)]);
}
