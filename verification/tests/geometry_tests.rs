use delaunay::geometry::{Edge, Point, Triangle};
use delaunay::TriangulationError;

fn tri(a: (i32, i32), b: (i32, i32), c: (i32, i32)) -> Triangle {
    Triangle::new([Point::new(a.0, a.1), Point::new(b.0, b.1), Point::new(c.0, c.1)])
}

#[test]
fn point_accessors() {
    let p = Point::new(3, -4);
    assert_eq!(p.x(), 3);
    assert_eq!(p.y(), -4);
    assert_eq!(p, Point::new(3, -4));
    assert_ne!(p, Point::new(-4, 3));
}

#[test]
fn point_order_is_lexicographic() {
    assert!(Point::new(1, 5) < Point::new(2, 0));
    assert!(Point::new(1, 5) < Point::new(1, 6));
    assert!(Point::new(2, 0) > Point::new(1, 9));
    assert!(Point::new(3, 3) <= Point::new(3, 3));
}

#[test]
fn error_messages_name_each_failure() {
    assert_eq!(
        TriangulationError::InsufficientPoints.message(),
        "fewer than 3 points were supplied"
    );
    assert_eq!(
        TriangulationError::DegenerateTriangle.message(),
        "degenerate geometry: collinear triangle vertices"
    );
    assert_eq!(
        TriangulationError::EmptyTriangulation.message(),
        "the triangle collection is empty"
    );
}

#[test]
fn edge_accessors() {
    let e = Edge::new(Point::new(1, 2), Point::new(3, 4));
    assert_eq!(e.a(), Point::new(1, 2));
    assert_eq!(e.b(), Point::new(3, 4));
}

#[test]
fn edge_equality_is_symmetric() {
    let p = Point::new(1, 2);
    let q = Point::new(3, 4);
    assert_eq!(Edge::new(p, q), Edge::new(q, p));
    assert_eq!(Edge::new(p, q), Edge::new(p, q));
    assert_ne!(Edge::new(p, q), Edge::new(p, Point::new(5, 6)));
}

#[test]
fn triangle_accessors() {
    let t = tri((0, 0), (10, 0), (0, 10));
    assert_eq!(t.a(), Point::new(0, 0));
    assert_eq!(t.b(), Point::new(10, 0));
    assert_eq!(t.c(), Point::new(0, 10));
    let ps = t.points();
    assert_eq!(ps[0], Point::new(0, 0));
    assert_eq!(ps[1], Point::new(10, 0));
    assert_eq!(ps[2], Point::new(0, 10));
}

#[test]
fn triangle_equality_is_permutation_invariant() {
    let t = tri((0, 0), (10, 0), (0, 10));
    assert_eq!(t, tri((0, 0), (10, 0), (0, 10)));
    assert_eq!(t, tri((0, 0), (0, 10), (10, 0)));
    assert_eq!(t, tri((10, 0), (0, 0), (0, 10)));
    assert_eq!(t, tri((10, 0), (0, 10), (0, 0)));
    assert_eq!(t, tri((0, 10), (0, 0), (10, 0)));
    assert_eq!(t, tri((0, 10), (10, 0), (0, 0)));
    assert_ne!(t, tri((0, 0), (10, 0), (0, 11)));
}

#[test]
fn triangle_edges_are_its_sides() {
    let t = tri((0, 0), (10, 0), (0, 10));
    let es = t.edges();
    assert_eq!(es[0], Edge::new(Point::new(0, 0), Point::new(10, 0)));
    assert_eq!(es[1], Edge::new(Point::new(10, 0), Point::new(0, 10)));
    assert_eq!(es[2], Edge::new(Point::new(0, 10), Point::new(0, 0)));
}

#[test]
fn contains_edge_matches_sides_symmetrically() {
    let t = tri((0, 0), (10, 0), (0, 10));
    assert!(t.contains_edge(&Edge::new(Point::new(0, 0), Point::new(10, 0))));
    assert!(t.contains_edge(&Edge::new(Point::new(10, 0), Point::new(0, 0))));
    assert!(t.contains_edge(&Edge::new(Point::new(0, 10), Point::new(10, 0))));
    assert!(!t.contains_edge(&Edge::new(Point::new(0, 0), Point::new(10, 10))));
}

#[test]
fn circumcenter_of_right_triangle() {
    let t = tri((0, 0), (10, 0), (0, 10));
    assert_eq!(t.circumcenter(), Ok(Point::new(5, 5)));
}

#[test]
fn circumcenter_of_collinear_triangle_fails() {
    let t = tri((0, 0), (1, 1), (2, 2));
    assert_eq!(t.circumcenter(), Err(TriangulationError::DegenerateTriangle));
}

#[test]
fn point_in_circumcircle_inside_outside_boundary() {
    let t = tri((0, 0), (10, 0), (0, 10));
    // The circumcircle has center (5, 5) and squared radius 50.
    assert_eq!(t.point_in_circumcircle(&Point::new(5, 5)), Ok(true));
    assert_eq!(t.point_in_circumcircle(&Point::new(100, 100)), Ok(false));
    // (10, 10) lies exactly on the circle; the boundary is inclusive.
    assert_eq!(t.point_in_circumcircle(&Point::new(10, 10)), Ok(true));
    assert_eq!(t.point_in_circumcircle(&Point::new(11, 11)), Ok(false));
}

#[test]
fn point_in_circumcircle_of_collinear_triangle_fails() {
    let t = tri((0, 0), (1, 1), (2, 2));
    assert_eq!(
        t.point_in_circumcircle(&Point::new(0, 1)),
        Err(TriangulationError::DegenerateTriangle)
    );
}
