//! Geometric value types: points, unordered edges and triangles, together
//! with the exact circumcircle predicate and the circumcenter.

use crate::TriangulationError;
use vstd::prelude::*;

verus! {

/// Largest magnitude allowed for a coordinate of a point handed to the
/// triangulator. The bound keeps the bootstrap triangle's coordinates, and
/// every intermediate value of the exact in-circumcircle test, inside `i128`.
pub const MAX_COORD: i32 = 65536;

/// Largest coordinate magnitude that can occur inside a triangulation run:
/// the bootstrap triangle extends the bounding box of the inputs, and its
/// vertices stay within `7 * MAX_COORD + 3`.
pub const WORK_COORD: i32 = 7 * MAX_COORD + 3;

/// A point of the plane with exact integer coordinates. The derived order
/// is lexicographic by x, then y; it serves canonicalization only and has no
/// geometric meaning.
#[derive(Copy, Clone, Debug, PartialEq, Eq, PartialOrd, Ord, Structural)]
pub struct Point {
    pub x: i32,
    pub y: i32,
}

/// An unordered pair of points. Equality is symmetric: `{a, b} == {b, a}`.
#[derive(Copy, Clone, Debug)]
pub struct Edge {
    pub a: Point,
    pub b: Point,
}

/// A triangle given by its three vertices. Equality is invariant under
/// permutation of the vertices.
#[derive(Copy, Clone, Debug)]
pub struct Triangle {
    pub a: Point,
    pub b: Point,
    pub c: Point,
}

/// The x coordinate of a point as a mathematical integer.
pub open spec fn xi(p: Point) -> int {
    p.x as int
}

/// The y coordinate of a point as a mathematical integer.
pub open spec fn yi(p: Point) -> int {
    p.y as int
}

/// Both coordinates of `p` have magnitude at most `n`.
pub open spec fn bounded_pt(p: Point, n: int) -> bool {
    -n <= xi(p) <= n && -n <= yi(p) <= n
}

/// All three vertices of `t` are bounded by `n`.
pub open spec fn bounded_tri(t: Triangle, n: int) -> bool {
    bounded_pt(t.a, n) && bounded_pt(t.b, n) && bounded_pt(t.c, n)
}

/// Symmetric equality of unordered edges.
pub open spec fn edges_equal(e1: Edge, e2: Edge) -> bool {
    (e1.a == e2.a && e1.b == e2.b) || (e1.a == e2.b && e1.b == e2.a)
}

/// Canonical equality of triangles: the vertex multisets match.
pub open spec fn tris_equal(t1: Triangle, t2: Triangle) -> bool {
    ||| (t1.a == t2.a && t1.b == t2.b && t1.c == t2.c)
    ||| (t1.a == t2.a && t1.b == t2.c && t1.c == t2.b)
    ||| (t1.a == t2.b && t1.b == t2.a && t1.c == t2.c)
    ||| (t1.a == t2.b && t1.b == t2.c && t1.c == t2.a)
    ||| (t1.a == t2.c && t1.b == t2.a && t1.c == t2.b)
    ||| (t1.a == t2.c && t1.b == t2.b && t1.c == t2.a)
}

/// The three sides of `t`, in enumeration order.
pub open spec fn tri_edges(t: Triangle) -> Seq<Edge> {
    seq![Edge { a: t.a, b: t.b }, Edge { a: t.b, b: t.c }, Edge { a: t.c, b: t.a }]
}

/// Some side of `t` equals `e` under symmetric edge equality.
pub open spec fn tri_contains_edge(t: Triangle, e: Edge) -> bool {
    edges_equal(tri_edges(t)[0], e) || edges_equal(tri_edges(t)[1], e) || edges_equal(
        tri_edges(t)[2],
        e,
    )
}

/// `t` and `u` share at least one vertex.
pub open spec fn tris_share_vertex(t: Triangle, u: Triangle) -> bool {
    ||| t.a == u.a || t.a == u.b || t.a == u.c
    ||| t.b == u.a || t.b == u.b || t.b == u.c
    ||| t.c == u.a || t.c == u.b || t.c == u.c
}

/// Twice the signed area of the triangle `(a, b, c)`: positive when the
/// vertices are in counter-clockwise order, zero exactly when collinear.
pub open spec fn orient(a: Point, b: Point, c: Point) -> int {
    (xi(b) - xi(a)) * (yi(c) - yi(a)) - (yi(b) - yi(a)) * (xi(c) - xi(a))
}

/// `q` lies strictly inside the triangle `t`: it is strictly on the same
/// side of each of the three sides as the opposite vertex.
pub open spec fn strictly_inside(q: Point, t: Triangle) -> bool {
    let o = orient(t.a, t.b, t.c);
    if o > 0 {
        orient(t.a, t.b, q) > 0 && orient(t.b, t.c, q) > 0 && orient(t.c, t.a, q) > 0
    } else if o < 0 {
        orient(t.a, t.b, q) < 0 && orient(t.b, t.c, q) < 0 && orient(t.c, t.a, q) < 0
    } else {
        false
    }
}

/// The denominator of the circumcenter formulas:
/// `d = 2 * (ax*(by-cy) + bx*(cy-ay) + cx*(ay-by))`.
/// It is zero exactly when the three vertices are collinear.
pub open spec fn tri_d(t: Triangle) -> int {
    2 * (xi(t.a) * (yi(t.b) - yi(t.c)) + xi(t.b) * (yi(t.c) - yi(t.a)) + xi(t.c) * (yi(t.a) - yi(
        t.b,
    )))
}

/// The triangle has no circumcircle: its vertices are collinear.
pub open spec fn degenerate(t: Triangle) -> bool {
    tri_d(t) == 0
}

/// Squared magnitude of a point seen as a vector.
pub open spec fn mag2(p: Point) -> int {
    xi(p) * xi(p) + yi(p) * yi(p)
}

/// Numerator of the circumcenter's x coordinate; the exact circumcenter is
/// `(circum_x_num(t) / tri_d(t), circum_y_num(t) / tri_d(t))` over the
/// rationals.
pub open spec fn circum_x_num(t: Triangle) -> int {
    mag2(t.a) * (yi(t.b) - yi(t.c)) + mag2(t.b) * (yi(t.c) - yi(t.a)) + mag2(t.c) * (yi(t.a) - yi(
        t.b,
    ))
}

/// Numerator of the circumcenter's y coordinate.
pub open spec fn circum_y_num(t: Triangle) -> int {
    mag2(t.a) * (xi(t.c) - xi(t.b)) + mag2(t.b) * (xi(t.a) - xi(t.c)) + mag2(t.c) * (xi(t.b) - xi(
        t.a,
    ))
}

/// Squared distance from `q` to the circumcenter of `t`, scaled by
/// `tri_d(t)^2` so that it stays an integer.
pub open spec fn scaled_circum_dist2(t: Triangle, q: Point) -> int {
    let d = tri_d(t);
    (xi(q) * d - circum_x_num(t)) * (xi(q) * d - circum_x_num(t)) + (yi(q) * d - circum_y_num(t))
        * (yi(q) * d - circum_y_num(t))
}

/// `q` lies inside or on the circumcircle of `t`: its distance to the
/// circumcenter is at most the circumradius (the distance from the
/// circumcenter to the vertex `t.a`). The boundary is inclusive. Meaningful
/// only when `t` is not degenerate.
pub open spec fn in_circumcircle(t: Triangle, q: Point) -> bool {
    scaled_circum_dist2(t, q) <= scaled_circum_dist2(t, t.a)
}

/// Absolute value of a mathematical integer.
pub open spec fn abs_i(x: int) -> int {
    if x < 0 {
        -x
    } else {
        x
    }
}

/// Quotient of `n` by `d`, rounded toward zero.
pub open spec fn div_trunc(n: int, d: int) -> int
    recommends
        d != 0,
{
    if (n >= 0) == (d >= 0) {
        abs_i(n) / abs_i(d)
    } else {
        -(abs_i(n) / abs_i(d))
    }
}

/// Saturate a mathematical integer into the range of `i32`.
pub open spec fn clamp_coord(v: int) -> int {
    if v < -2147483648 {
        -2147483648
    } else if v > 2147483647 {
        2147483647
    } else {
        v
    }
}

/// The circumcenter of `t` as a point: the exact rational circumcenter with
/// each coordinate rounded toward zero, then saturated into `i32`.
/// Meaningful only when `t` is not degenerate.
pub open spec fn circumcenter_of(t: Triangle) -> Point {
    Point {
        x: clamp_coord(div_trunc(circum_x_num(t), tri_d(t))) as i32,
        y: clamp_coord(div_trunc(circum_y_num(t), tri_d(t))) as i32,
    }
}

/// Bound on the magnitude of a product from bounds on the factors.
proof fn lemma_mul_bounds(x: int, y: int, bx: int, by: int) by (nonlinear_arith)
    requires
        -bx <= x <= bx,
        -by <= y <= by,
        0 <= bx,
        0 <= by,
    ensures
        -(bx * by) <= x * y <= bx * by,
{
}

impl Point {
    /// Make a point from its two coordinates.
    pub fn new(x: i32, y: i32) -> (r: Self)
        ensures
            r == (Point { x, y }),
    {
        Point { x, y }
    }

    /// The x coordinate.
    pub fn x(&self) -> (r: i32)
        ensures
            r == self.x,
    {
        self.x
    }

    /// The y coordinate.
    pub fn y(&self) -> (r: i32)
        ensures
            r == self.y,
    {
        self.y
    }
}

impl Edge {
    /// Make an edge from its two endpoints.
    pub fn new(a: Point, b: Point) -> (r: Self)
        ensures
            r == (Edge { a, b }),
    {
        Edge { a, b }
    }

    /// The first endpoint, in construction order.
    pub fn a(&self) -> (r: Point)
        ensures
            r == self.a,
    {
        self.a
    }

    /// The second endpoint, in construction order.
    pub fn b(&self) -> (r: Point)
        ensures
            r == self.b,
    {
        self.b
    }
}

impl PartialEq for Edge {
    fn eq(&self, other: &Edge) -> (r: bool) {
        (self.a == other.a && self.b == other.b) || (self.a == other.b && self.b == other.a)
    }
}

impl vstd::std_specs::cmp::PartialEqSpecImpl for Edge {
    open spec fn obeys_eq_spec() -> bool {
        true
    }

    open spec fn eq_spec(&self, other: &Edge) -> bool {
        edges_equal(*self, *other)
    }
}

impl PartialEq for Triangle {
    fn eq(&self, other: &Triangle) -> (r: bool) {
        (self.a == other.a && ((self.b == other.b && self.c == other.c) || (self.b == other.c
            && self.c == other.b))) || (self.a == other.b && ((self.b == other.a && self.c
            == other.c) || (self.b == other.c && self.c == other.a))) || (self.a == other.c && ((
        self.b == other.a && self.c == other.b) || (self.b == other.b && self.c == other.a)))
    }
}

impl vstd::std_specs::cmp::PartialEqSpecImpl for Triangle {
    open spec fn obeys_eq_spec() -> bool {
        true
    }

    open spec fn eq_spec(&self, other: &Triangle) -> bool {
        tris_equal(*self, *other)
    }
}

impl Triangle {
    /// Make a triangle from its three vertices, kept in the given order.
    pub fn new(vertices: [Point; 3]) -> (r: Self)
        ensures
            r == (Triangle { a: vertices[0], b: vertices[1], c: vertices[2] }),
    {
        Triangle { a: vertices[0], b: vertices[1], c: vertices[2] }
    }

    /// The three vertices, in construction order.
    pub fn points(&self) -> (r: [Point; 3])
        ensures
            r@ == seq![self.a, self.b, self.c],
    {
        let r = [self.a, self.b, self.c];
        proof {
            assert(r@ =~= seq![self.a, self.b, self.c]);
        }
        r
    }

    /// The first vertex.
    pub fn a(&self) -> (r: Point)
        ensures
            r == self.a,
    {
        self.a
    }

    /// The second vertex.
    pub fn b(&self) -> (r: Point)
        ensures
            r == self.b,
    {
        self.b
    }

    /// The third vertex.
    pub fn c(&self) -> (r: Point)
        ensures
            r == self.c,
    {
        self.c
    }

    /// The three sides, in enumeration order.
    pub fn edges(&self) -> (r: [Edge; 3])
        ensures
            r@ == tri_edges(*self),
    {
        let r = [
            Edge { a: self.a, b: self.b },
            Edge { a: self.b, b: self.c },
            Edge { a: self.c, b: self.a },
        ];
        proof {
            assert(r@ =~= tri_edges(*self));
        }
        r
    }

    /// Whether some side of the triangle equals `other_edge` under symmetric
    /// edge equality.
    pub fn contains_edge(&self, other_edge: &Edge) -> (r: bool)
        ensures
            r == tri_contains_edge(*self, *other_edge),
    {
        let e0 = Edge { a: self.a, b: self.b };
        let e1 = Edge { a: self.b, b: self.c };
        let e2 = Edge { a: self.c, b: self.a };
        e0 == *other_edge || e1 == *other_edge || e2 == *other_edge
    }

    /// Whether the two triangles have the same vertex multiset.
    pub fn same_triangle(&self, other: &Triangle) -> (r: bool)
        ensures
            r == tris_equal(*self, *other),
    {
        *self == *other
    }

    /// Whether the two triangles share at least one vertex.
    pub fn shares_vertex(&self, other: &Triangle) -> (r: bool)
        ensures
            r == tris_share_vertex(*self, *other),
    {
        self.a == other.a || self.a == other.b || self.a == other.c || self.b == other.a || self.b
            == other.b || self.b == other.c || self.c == other.a || self.c == other.b || self.c
            == other.c
    }

    /// The exact denominator and circumcenter numerators of the triangle,
    /// evaluated without overflow in `i128`.
    fn circum_terms(&self) -> (r: (i128, i128, i128))
        ensures
            r.0 as int == tri_d(*self),
            r.1 as int == circum_x_num(*self),
            r.2 as int == circum_y_num(*self),
    {
        let ax: i128 = self.a.x as i128;
        let ay: i128 = self.a.y as i128;
        let bx: i128 = self.b.x as i128;
        let by: i128 = self.b.y as i128;
        let cx: i128 = self.c.x as i128;
        let cy: i128 = self.c.y as i128;
        proof {
            lemma_mul_bounds(ax as int, by - cy, 2147483648, 4294967296);
            lemma_mul_bounds(bx as int, cy - ay, 2147483648, 4294967296);
            lemma_mul_bounds(cx as int, ay - by, 2147483648, 4294967296);
            lemma_mul_bounds(ax as int, ax as int, 2147483648, 2147483648);
            lemma_mul_bounds(ay as int, ay as int, 2147483648, 2147483648);
            lemma_mul_bounds(bx as int, bx as int, 2147483648, 2147483648);
            lemma_mul_bounds(by as int, by as int, 2147483648, 2147483648);
            lemma_mul_bounds(cx as int, cx as int, 2147483648, 2147483648);
            lemma_mul_bounds(cy as int, cy as int, 2147483648, 2147483648);
        }
        let d: i128 = 2 * (ax * (by - cy) + bx * (cy - ay) + cx * (ay - by));
        let ma: i128 = ax * ax + ay * ay;
        let mb: i128 = bx * bx + by * by;
        let mc: i128 = cx * cx + cy * cy;
        proof {
            lemma_mul_bounds(ma as int, by - cy, 9223372036854775808, 4294967296);
            lemma_mul_bounds(mb as int, cy - ay, 9223372036854775808, 4294967296);
            lemma_mul_bounds(mc as int, ay - by, 9223372036854775808, 4294967296);
            lemma_mul_bounds(ma as int, cx - bx, 9223372036854775808, 4294967296);
            lemma_mul_bounds(mb as int, ax - cx, 9223372036854775808, 4294967296);
            lemma_mul_bounds(mc as int, bx - ax, 9223372036854775808, 4294967296);
        }
        let uxn: i128 = ma * (by - cy) + mb * (cy - ay) + mc * (ay - by);
        let uyn: i128 = ma * (cx - bx) + mb * (ax - cx) + mc * (bx - ax);
        (d, uxn, uyn)
    }

    /// Exact in-circumcircle test: whether `point` lies inside or on the
    /// circumcircle of the triangle (the boundary counts as inside). Fails
    /// when the triangle is degenerate, that is, its vertices are collinear.
    pub fn point_in_circumcircle(&self, point: &Point) -> (r: Result<bool, TriangulationError>)
        requires
            bounded_tri(*self, WORK_COORD as int),
            bounded_pt(*point, WORK_COORD as int),
        ensures
            match r {
                Ok(inside) => !degenerate(*self) && inside == in_circumcircle(*self, *point),
                Err(e) => degenerate(*self) && e == TriangulationError::DegenerateTriangle,
            },
    {
        let (d, uxn, uyn) = self.circum_terms();
        if d == 0 {
            return Err(TriangulationError::DegenerateTriangle);
        }
        proof {
            lemma_circum_magnitudes(*self, WORK_COORD as int);
            lemma_mul_bounds(xi(*point), tri_d(*self), 458755, 2525473800300);
            lemma_mul_bounds(yi(*point), tri_d(*self), 458755, 2525473800300);
            lemma_mul_bounds(xi(self.a), tri_d(*self), 458755, 2525473800300);
            lemma_mul_bounds(yi(self.a), tri_d(*self), 458755, 2525473800300);
        }
        let px: i128 = point.x as i128;
        let py: i128 = point.y as i128;
        let qx: i128 = px * d - uxn;
        let qy: i128 = py * d - uyn;
        let rx: i128 = (self.a.x as i128) * d - uxn;
        let ry: i128 = (self.a.y as i128) * d - uyn;
        proof {
            lemma_mul_bounds(qx as int, qx as int, 2317147466513253000, 2317147466513253000);
            lemma_mul_bounds(qy as int, qy as int, 2317147466513253000, 2317147466513253000);
            lemma_mul_bounds(rx as int, rx as int, 2317147466513253000, 2317147466513253000);
            lemma_mul_bounds(ry as int, ry as int, 2317147466513253000, 2317147466513253000);
        }
        let lhs: i128 = qx * qx + qy * qy;
        let rhs: i128 = rx * rx + ry * ry;
        Ok(lhs <= rhs)
    }

    /// The circumcenter of the triangle: the exact rational circumcenter with
    /// each coordinate rounded toward zero and saturated into the coordinate
    /// range. Fails when the triangle is degenerate.
    pub fn circumcenter(&self) -> (r: Result<Point, TriangulationError>)
        ensures
            match r {
                Ok(c) => !degenerate(*self) && c == circumcenter_of(*self),
                Err(e) => degenerate(*self) && e == TriangulationError::DegenerateTriangle,
            },
    {
        let (d, uxn, uyn) = self.circum_terms();
        if d == 0 {
            return Err(TriangulationError::DegenerateTriangle);
        }
        proof {
            lemma_circum_magnitudes(*self, 2147483648);
        }
        let x = clamp_to_i32(div_trunc_i128(uxn, d));
        let y = clamp_to_i32(div_trunc_i128(uyn, d));
        Ok(Point { x, y })
    }
}

/// Magnitude bounds for the circumcircle terms of a triangle whose
/// coordinates are bounded by `w`.
proof fn lemma_circum_magnitudes(t: Triangle, w: int)
    requires
        0 <= w,
        bounded_tri(t, w),
    ensures
        -(6 * (w * (2 * w))) <= tri_d(t) <= 6 * (w * (2 * w)),
        -(3 * ((2 * (w * w)) * (2 * w))) <= circum_x_num(t) <= 3 * ((2 * (w * w)) * (2 * w)),
        -(3 * ((2 * (w * w)) * (2 * w))) <= circum_y_num(t) <= 3 * ((2 * (w * w)) * (2 * w)),
{
    assert(w * w >= 0) by (nonlinear_arith)
        requires
            w >= 0,
    ;
    lemma_mul_bounds(xi(t.a), yi(t.b) - yi(t.c), w, 2 * w);
    lemma_mul_bounds(xi(t.b), yi(t.c) - yi(t.a), w, 2 * w);
    lemma_mul_bounds(xi(t.c), yi(t.a) - yi(t.b), w, 2 * w);
    lemma_mul_bounds(xi(t.a), xi(t.a), w, w);
    lemma_mul_bounds(yi(t.a), yi(t.a), w, w);
    lemma_mul_bounds(xi(t.b), xi(t.b), w, w);
    lemma_mul_bounds(yi(t.b), yi(t.b), w, w);
    lemma_mul_bounds(xi(t.c), xi(t.c), w, w);
    lemma_mul_bounds(yi(t.c), yi(t.c), w, w);
    lemma_mul_bounds(mag2(t.a), yi(t.b) - yi(t.c), 2 * (w * w), 2 * w);
    lemma_mul_bounds(mag2(t.b), yi(t.c) - yi(t.a), 2 * (w * w), 2 * w);
    lemma_mul_bounds(mag2(t.c), yi(t.a) - yi(t.b), 2 * (w * w), 2 * w);
    lemma_mul_bounds(mag2(t.a), xi(t.c) - xi(t.b), 2 * (w * w), 2 * w);
    lemma_mul_bounds(mag2(t.b), xi(t.a) - xi(t.c), 2 * (w * w), 2 * w);
    lemma_mul_bounds(mag2(t.c), xi(t.b) - xi(t.a), 2 * (w * w), 2 * w);
}

/// Quotient rounded toward zero, computed through unsigned division.
fn div_trunc_i128(n: i128, d: i128) -> (q: i128)
    requires
        d != 0,
        n > i128::MIN,
        d > i128::MIN,
    ensures
        q as int == div_trunc(n as int, d as int),
        0 <= q ==> q <= abs_i(n as int),
        q < 0 ==> -q <= abs_i(n as int),
{
    let nn: u128 = if n < 0 {
        (-n) as u128
    } else {
        n as u128
    };
    let dd: u128 = if d < 0 {
        (-d) as u128
    } else {
        d as u128
    };
    let qq: u128 = nn / dd;
    proof {
        assert(qq <= nn) by (nonlinear_arith)
            requires
                dd >= 1,
                qq == nn / dd,
        ;
    }
    if (n < 0) != (d < 0) {
        -(qq as i128)
    } else {
        qq as i128
    }
}

/// Saturate an `i128` into the range of `i32`.
fn clamp_to_i32(v: i128) -> (r: i32)
    ensures
        r as int == clamp_coord(v as int),
{
    if v < -2147483648 {
        -2147483648
    } else if v > 2147483647 {
        2147483647
    } else {
        v as i32
    }
}

} // verus!
