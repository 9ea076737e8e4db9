use delaunay::delaunay::{bowyer_watson, super_triangle};
use delaunay::geometry::{Point, Triangle};
use delaunay::TriangulationError;

fn pts(coords: &[(i32, i32)]) -> Vec<Point> {
    let mut v: Vec<Point> = Vec::new();
    for &(x, y) in coords {
        v.push(Point::new(x, y));
    }
    v
}

fn tri(a: (i32, i32), b: (i32, i32), c: (i32, i32)) -> Triangle {
    Triangle::new([Point::new(a.0, a.1), Point::new(b.0, b.1), Point::new(c.0, c.1)])
}

fn orient_i64(a: Point, b: Point, c: Point) -> i64 {
    (b.x() as i64 - a.x() as i64) * (c.y() as i64 - a.y() as i64)
        - (b.y() as i64 - a.y() as i64) * (c.x() as i64 - a.x() as i64)
}

fn strictly_inside(q: Point, t: Triangle) -> bool {
    let o: i64 = orient_i64(t.a(), t.b(), t.c());
    let s1: i64 = orient_i64(t.a(), t.b(), q);
    let s2: i64 = orient_i64(t.b(), t.c(), q);
    let s3: i64 = orient_i64(t.c(), t.a(), q);
    if o > 0 {
        s1 > 0 && s2 > 0 && s3 > 0
    } else {
        o < 0 && s1 < 0 && s2 < 0 && s3 < 0
    }
}

/// Whether `q` is strictly inside the circumcircle of `t`, in exact
/// integer arithmetic.
fn strictly_in_circumcircle(t: Triangle, q: Point) -> bool {
    let ax: i128 = t.a().x() as i128;
    let ay: i128 = t.a().y() as i128;
    let bx: i128 = t.b().x() as i128;
    let by: i128 = t.b().y() as i128;
    let cx: i128 = t.c().x() as i128;
    let cy: i128 = t.c().y() as i128;
    let d: i128 = 2 * (ax * (by - cy) + bx * (cy - ay) + cx * (ay - by));
    assert_ne!(d, 0);
    let ma: i128 = ax * ax + ay * ay;
    let mb: i128 = bx * bx + by * by;
    let mc: i128 = cx * cx + cy * cy;
    let uxn: i128 = ma * (by - cy) + mb * (cy - ay) + mc * (ay - by);
    let uyn: i128 = ma * (cx - bx) + mb * (ax - cx) + mc * (bx - ax);
    let qx: i128 = (q.x() as i128) * d - uxn;
    let qy: i128 = (q.y() as i128) * d - uyn;
    let rx: i128 = ax * d - uxn;
    let ry: i128 = ay * d - uyn;
    qx * qx + qy * qy < rx * rx + ry * ry
}

fn edge_count(tris: &[Triangle], a: Point, b: Point) -> usize {
    let e = delaunay::geometry::Edge::new(a, b);
    let mut n: usize = 0;
    for t in tris {
        if t.contains_edge(&e) {
            n += 1;
        }
    }
    n
}

#[test]
fn super_triangle_strictly_contains_bounding_box() {
    let r = super_triangle(&pts(&[(0, 0), (10, 0), (0, 10)])).unwrap();
    assert_eq!(r, tri((-11, -11), (43, -11), (-11, 43)));
    for corner in [(0, 0), (10, 0), (0, 10), (10, 10)] {
        assert!(strictly_inside(Point::new(corner.0, corner.1), r));
    }
}

#[test]
fn super_triangle_contains_every_input_point() {
    let input = pts(&[(-7, 3), (4, -9), (12, 15), (0, 0), (-3, -3)]);
    let r = super_triangle(&input).unwrap();
    for p in &input {
        assert!(strictly_inside(*p, r));
    }
}

#[test]
fn super_triangle_needs_three_points() {
    assert_eq!(
        super_triangle(&pts(&[(0, 0), (1, 1)])),
        Err(TriangulationError::InsufficientPoints)
    );
    assert_eq!(super_triangle(&pts(&[])), Err(TriangulationError::InsufficientPoints));
}

#[test]
fn bowyer_watson_on_square_gives_two_triangles() {
    let input = pts(&[(0, 0), (10, 0), (10, 10), (0, 10)]);
    let r = bowyer_watson(&input).unwrap();
    assert_eq!(r.len(), 2);
    assert_eq!(r[0], tri((0, 0), (10, 0), (0, 10)));
    assert_eq!(r[1], tri((10, 0), (10, 10), (0, 10)));
    // Empty-circumcircle property: no input point strictly inside either
    // triangle's circumcircle.
    for t in &r {
        for p in &input {
            assert!(!strictly_in_circumcircle(*t, *p));
        }
    }
}

#[test]
fn bowyer_watson_square_edge_sharing() {
    let input = pts(&[(0, 0), (10, 0), (10, 10), (0, 10)]);
    let r = bowyer_watson(&input).unwrap();
    // The diagonal is shared by exactly 2 triangles, each hull side by 1.
    assert_eq!(edge_count(&r, Point::new(10, 0), Point::new(0, 10)), 2);
    assert_eq!(edge_count(&r, Point::new(0, 0), Point::new(10, 0)), 1);
    assert_eq!(edge_count(&r, Point::new(10, 0), Point::new(10, 10)), 1);
    assert_eq!(edge_count(&r, Point::new(10, 10), Point::new(0, 10)), 1);
    assert_eq!(edge_count(&r, Point::new(0, 10), Point::new(0, 0)), 1);
}

#[test]
fn bowyer_watson_six_points() {
    let input = pts(&[(0, 0), (10, 0), (10, 10), (0, 10), (5, 3), (2, 8)]);
    let r = bowyer_watson(&input).unwrap();
    assert_eq!(r.len(), 6);
    let expected = [
        tri((0, 0), (10, 0), (5, 3)),
        tri((10, 0), (10, 10), (5, 3)),
        tri((0, 10), (0, 0), (2, 8)),
        tri((0, 0), (5, 3), (2, 8)),
        tri((10, 10), (0, 10), (2, 8)),
        tri((5, 3), (10, 10), (2, 8)),
    ];
    for (got, want) in r.iter().zip(expected.iter()) {
        assert_eq!(got, want);
    }
    // Empty-circumcircle property over the whole triangulation.
    for t in &r {
        for p in &input {
            assert!(!strictly_in_circumcircle(*t, *p));
        }
    }
    // Manifold property: every edge is a side of one or two triangles.
    for t in &r {
        for e in t.edges() {
            let n = edge_count(&r, e.a(), e.b());
            assert!(n == 1 || n == 2);
        }
    }
}

#[test]
fn bowyer_watson_needs_three_points() {
    assert_eq!(
        bowyer_watson(&pts(&[(0, 0), (1, 1)])),
        Err(TriangulationError::InsufficientPoints)
    );
    assert_eq!(bowyer_watson(&pts(&[])), Err(TriangulationError::InsufficientPoints));
}

#[test]
fn bowyer_watson_collinear_points_fail_as_degenerate() {
    // Three collinear points admit no triangle: the call fails with the
    // degenerate-geometry error.
    assert_eq!(
        bowyer_watson(&pts(&[(0, 0), (1, 1), (2, 2)])),
        Err(TriangulationError::DegenerateTriangle)
    );
}

#[test]
fn bowyer_watson_is_deterministic() {
    let input = pts(&[(0, 0), (10, 0), (10, 10), (0, 10), (5, 3), (2, 8)]);
    let r1 = bowyer_watson(&input).unwrap();
    let r2 = bowyer_watson(&input).unwrap();
    assert_eq!(r1.len(), r2.len());
    for (t1, t2) in r1.iter().zip(r2.iter()) {
        assert_eq!(t1, t2);
    }
}
