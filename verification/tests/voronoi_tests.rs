use delaunay::delaunay::bowyer_watson;
use delaunay::geometry::{Edge, Point, Triangle};
use delaunay::voronoi::voronoi;
use delaunay::TriangulationError;

fn pts(coords: &[(i32, i32)]) -> Vec<Point> {
    let mut v: Vec<Point> = Vec::new();
    for &(x, y) in coords {
        v.push(Point::new(x, y));
    }
    v
}

fn tri(a: (i32, i32), b: (i32, i32), c: (i32, i32)) -> Triangle {
    Triangle::new([Point::new(a.0, a.1), Point::new(b.0, b.1), Point::new(c.0, c.1)])
}

fn edge(a: (i32, i32), b: (i32, i32)) -> Edge {
    Edge::new(Point::new(a.0, a.1), Point::new(b.0, b.1))
}

#[test]
fn voronoi_of_two_square_triangles_is_one_edge() {
    let r = bowyer_watson(&pts(&[(0, 0), (10, 0), (10, 10), (0, 10)])).unwrap();
    assert_eq!(r.len(), 2);
    let v = voronoi(&r).unwrap();
    // The two triangles are mutual neighbors across the diagonal; the square's
    // corners are cocircular, so both circumcenters are (5, 5) and the single
    // deduplicated dual edge connects the center to itself.
    assert_eq!(v.len(), 1);
    assert_eq!(v[0], edge((5, 5), (5, 5)));
}

#[test]
fn voronoi_of_six_point_triangulation() {
    let r = bowyer_watson(&pts(&[(0, 0), (10, 0), (10, 10), (0, 10), (5, 3), (2, 8)])).unwrap();
    let v = voronoi(&r).unwrap();
    let expected = [
        edge((5, -2), (9, 5)),
        edge((5, -2), (1, 4)),
        edge((9, 5), (6, 7)),
        edge((-3, 5), (1, 4)),
        edge((-3, 5), (5, 13)),
        edge((1, 4), (6, 7)),
        edge((5, 13), (6, 7)),
    ];
    assert_eq!(v.len(), expected.len());
    for (got, want) in v.iter().zip(expected.iter()) {
        assert_eq!(got, want);
    }
}

#[test]
fn voronoi_output_has_no_duplicate_edges() {
    let r = bowyer_watson(&pts(&[(0, 0), (10, 0), (10, 10), (0, 10), (5, 3), (2, 8)])).unwrap();
    let v = voronoi(&r).unwrap();
    for i in 0..v.len() {
        for j in (i + 1)..v.len() {
            assert_ne!(v[i], v[j]);
        }
    }
}

#[test]
fn voronoi_of_empty_collection_fails() {
    let empty: Vec<Triangle> = Vec::new();
    assert_eq!(voronoi(&empty), Err(TriangulationError::EmptyTriangulation));
}

#[test]
fn voronoi_of_degenerate_triangle_fails() {
    let input = vec![tri((0, 0), (1, 1), (2, 2))];
    assert_eq!(voronoi(&input), Err(TriangulationError::DegenerateTriangle));
}
