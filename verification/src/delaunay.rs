//! Incremental Bowyer-Watson triangulation.
//!
//! The returned triangulation is pinned exactly: `bowyer_watson` returns the
//! value of the mathematical function `spec_bowyer_watson` of the input
//! sequence, which models the insertion loop step by step. The bootstrap
//! triangle built by `super_triangle` is proved to strictly contain every
//! input point.

use crate::geometry::{
    bounded_pt, bounded_tri, degenerate, in_circumcircle, strictly_inside,
    tri_contains_edge, tri_edges, tris_equal, tris_share_vertex, xi, yi, Edge, Point, Triangle,
    MAX_COORD, WORK_COORD,
};
use crate::TriangulationError;
use vstd::prelude::*;

verus! {

/// Least x coordinate of a non-empty point sequence.
pub open spec fn min_x(pts: Seq<Point>) -> int
    recommends
        pts.len() >= 1,
    decreases pts.len(),
{
    if pts.len() <= 1 {
        xi(pts[0])
    } else {
        let m = min_x(pts.drop_last());
        if xi(pts.last()) < m {
            xi(pts.last())
        } else {
            m
        }
    }
}

/// Greatest x coordinate of a non-empty point sequence.
pub open spec fn max_x(pts: Seq<Point>) -> int
    recommends
        pts.len() >= 1,
    decreases pts.len(),
{
    if pts.len() <= 1 {
        xi(pts[0])
    } else {
        let m = max_x(pts.drop_last());
        if xi(pts.last()) > m {
            xi(pts.last())
        } else {
            m
        }
    }
}

/// Least y coordinate of a non-empty point sequence.
pub open spec fn min_y(pts: Seq<Point>) -> int
    recommends
        pts.len() >= 1,
    decreases pts.len(),
{
    if pts.len() <= 1 {
        yi(pts[0])
    } else {
        let m = min_y(pts.drop_last());
        if yi(pts.last()) < m {
            yi(pts.last())
        } else {
            m
        }
    }
}

/// Greatest y coordinate of a non-empty point sequence.
pub open spec fn max_y(pts: Seq<Point>) -> int
    recommends
        pts.len() >= 1,
    decreases pts.len(),
{
    if pts.len() <= 1 {
        yi(pts[0])
    } else {
        let m = max_y(pts.drop_last());
        if yi(pts.last()) > m {
            yi(pts.last())
        } else {
            m
        }
    }
}

/// The bootstrap triangle of a point set: a right triangle that extends the
/// bounding box on every side by one box width or height plus one, so that it
/// strictly contains every input point.
pub open spec fn spec_super_triangle(pts: Seq<Point>) -> Triangle {
    let lox = min_x(pts);
    let hix = max_x(pts);
    let loy = min_y(pts);
    let hiy = max_y(pts);
    let mx = hix - lox + 1;
    let my = hiy - loy + 1;
    Triangle {
        a: Point { x: (lox - mx) as i32, y: (loy - my) as i32 },
        b: Point { x: (hix + 3 * mx) as i32, y: (loy - my) as i32 },
        c: Point { x: (lox - mx) as i32, y: (hiy + 3 * my) as i32 },
    }
}

/// The triangles of `tris` whose circumcircle contains `q`, in order.
pub open spec fn bad_triangles(tris: Seq<Triangle>, q: Point) -> Seq<Triangle>
    decreases tris.len(),
{
    if tris.len() == 0 {
        Seq::empty()
    } else {
        let rest = bad_triangles(tris.drop_last(), q);
        if in_circumcircle(tris.last(), q) {
            rest.push(tris.last())
        } else {
            rest
        }
    }
}

/// Some triangle of `tris` is degenerate.
pub open spec fn has_degenerate(tris: Seq<Triangle>) -> bool {
    exists|i: int| 0 <= i < tris.len() && degenerate(tris[i])
}

/// How many triangles of `tris` have `e` as a side.
pub open spec fn count_with_edge(tris: Seq<Triangle>, e: Edge) -> nat
    decreases tris.len(),
{
    if tris.len() == 0 {
        0
    } else {
        count_with_edge(tris.drop_last(), e) + if tri_contains_edge(tris.last(), e) {
            1nat
        } else {
            0nat
        }
    }
}

/// The sides of `t` that occur in exactly one triangle of `bad`, in
/// enumeration order.
pub open spec fn boundary_edges_of(t: Triangle, bad: Seq<Triangle>) -> Seq<Edge> {
    let e0 = tri_edges(t)[0];
    let e1 = tri_edges(t)[1];
    let e2 = tri_edges(t)[2];
    (if count_with_edge(bad, e0) == 1 {
        seq![e0]
    } else {
        Seq::empty()
    }) + (if count_with_edge(bad, e1) == 1 {
        seq![e1]
    } else {
        Seq::empty()
    }) + (if count_with_edge(bad, e2) == 1 {
        seq![e2]
    } else {
        Seq::empty()
    })
}

/// The boundary of the cavity left by the triangles of `bad`: for each bad
/// triangle in order, its sides that no other bad triangle shares.
pub open spec fn hole_boundary(upto: Seq<Triangle>, bad: Seq<Triangle>) -> Seq<Edge>
    decreases upto.len(),
{
    if upto.len() == 0 {
        Seq::empty()
    } else {
        hole_boundary(upto.drop_last(), bad) + boundary_edges_of(upto.last(), bad)
    }
}

/// `t` is canonically equal to some triangle of `tris`.
pub open spec fn contains_triangle(tris: Seq<Triangle>, t: Triangle) -> bool {
    exists|i: int| 0 <= i < tris.len() && tris_equal(tris[i], t)
}

/// The triangles of `tris` canonically equal to none of `bad`, in order.
pub open spec fn remove_triangles(tris: Seq<Triangle>, bad: Seq<Triangle>) -> Seq<Triangle>
    decreases tris.len(),
{
    if tris.len() == 0 {
        Seq::empty()
    } else {
        let rest = remove_triangles(tris.drop_last(), bad);
        if contains_triangle(bad, tris.last()) {
            rest
        } else {
            rest.push(tris.last())
        }
    }
}

/// One new triangle per boundary edge, connecting the edge to `q`.
pub open spec fn fill_hole(poly: Seq<Edge>, q: Point) -> Seq<Triangle>
    decreases poly.len(),
{
    if poly.len() == 0 {
        Seq::empty()
    } else {
        fill_hole(poly.drop_last(), q).push(Triangle { a: poly.last().a, b: poly.last().b, c: q })
    }
}

/// One insertion step of the Bowyer-Watson loop: remove the triangles whose
/// circumcircle contains `q` and re-fill the cavity with triangles from its
/// boundary edges to `q`.
pub open spec fn insert_point(tris: Seq<Triangle>, q: Point) -> Seq<Triangle> {
    let bad = bad_triangles(tris, q);
    remove_triangles(tris, bad) + fill_hole(hole_boundary(bad, bad), q)
}

/// The working triangulation after the first `n` input points are inserted,
/// starting from the bootstrap triangle alone.
pub open spec fn working_set(pts: Seq<Point>, n: int) -> Seq<Triangle>
    decreases n,
{
    if n <= 0 {
        seq![spec_super_triangle(pts)]
    } else {
        insert_point(working_set(pts, n - 1), pts[n - 1])
    }
}

/// Some insertion scan hits a degenerate working triangle.
pub open spec fn hits_degenerate(pts: Seq<Point>) -> bool {
    exists|j: int| 0 <= j < pts.len() && has_degenerate(working_set(pts, j))
}

/// The triangles of `tris` sharing no vertex with `st`, in order.
pub open spec fn drop_super_vertices(tris: Seq<Triangle>, st: Triangle) -> Seq<Triangle>
    decreases tris.len(),
{
    if tris.len() == 0 {
        Seq::empty()
    } else {
        let rest = drop_super_vertices(tris.drop_last(), st);
        if tris_share_vertex(tris.last(), st) {
            rest
        } else {
            rest.push(tris.last())
        }
    }
}

/// The whole triangulation as a function of the input sequence alone. An
/// empty final triangulation means the input admitted no triangle at all
/// (as with exactly collinear points, whose every working triangle keeps a
/// bootstrap vertex): that degenerate geometry is reported as
/// `DegenerateTriangle`, so a successful run always returns triangles.
pub open spec fn spec_bowyer_watson(pts: Seq<Point>) -> Result<Seq<Triangle>, TriangulationError> {
    if pts.len() < 3 {
        Err(TriangulationError::InsufficientPoints)
    } else if hits_degenerate(pts) {
        Err(TriangulationError::DegenerateTriangle)
    } else if drop_super_vertices(working_set(pts, pts.len() as int), spec_super_triangle(pts)).len()
        == 0 {
        Err(TriangulationError::DegenerateTriangle)
    } else {
        Ok(drop_super_vertices(working_set(pts, pts.len() as int), spec_super_triangle(pts)))
    }
}

/// All triangles of a sequence are bounded by `n`.
pub open spec fn bounded_tris(tris: Seq<Triangle>, n: int) -> bool {
    forall|i: int| 0 <= i < tris.len() ==> bounded_tri(#[trigger] tris[i], n)
}

/// All edges of a sequence have endpoints bounded by `n`.
pub open spec fn bounded_edges(es: Seq<Edge>, n: int) -> bool {
    forall|i: int|
        0 <= i < es.len() ==> bounded_pt(#[trigger] es[i].a, n) && bounded_pt(es[i].b, n)
}

/// The bounding box extrema lie between the extreme coordinates of the points.
proof fn lemma_bbox_bounds(pts: Seq<Point>, i: int)
    requires
        0 <= i < pts.len(),
    ensures
        min_x(pts) <= xi(pts[i]),
        xi(pts[i]) <= max_x(pts),
        min_y(pts) <= yi(pts[i]),
        yi(pts[i]) <= max_y(pts),
    decreases pts.len(),
{
    if pts.len() > 1 && i < pts.len() - 1 {
        lemma_bbox_bounds(pts.drop_last(), i);
    }
}

/// The bounding box of points bounded by `n` is itself bounded by `n`.
proof fn lemma_bbox_range(pts: Seq<Point>, n: int)
    requires
        pts.len() >= 1,
        forall|i: int| 0 <= i < pts.len() ==> bounded_pt(#[trigger] pts[i], n),
    ensures
        -n <= min_x(pts) <= n,
        -n <= max_x(pts) <= n,
        -n <= min_y(pts) <= n,
        -n <= max_y(pts) <= n,
        min_x(pts) <= max_x(pts),
        min_y(pts) <= max_y(pts),
    decreases pts.len(),
{
    if pts.len() <= 1 {
    } else {
        lemma_bbox_range(pts.drop_last(), n);
    }
    lemma_bbox_bounds(pts, 0);
}

/// Law: the bootstrap triangle strictly contains every input point.
pub proof fn lemma_super_triangle_contains(pts: Seq<Point>, i: int)
    requires
        pts.len() >= 1,
        0 <= i < pts.len(),
        forall|k: int| 0 <= k < pts.len() ==> bounded_pt(#[trigger] pts[k], MAX_COORD as int),
    ensures
        strictly_inside(pts[i], spec_super_triangle(pts)),
{
    lemma_bbox_range(pts, MAX_COORD as int);
    lemma_bbox_bounds(pts, i);
    let lox = min_x(pts);
    let hix = max_x(pts);
    let loy = min_y(pts);
    let hiy = max_y(pts);
    let mx = hix - lox + 1;
    let my = hiy - loy + 1;
    let st = spec_super_triangle(pts);
    let q = pts[i];
    assert(xi(st.a) == lox - mx && yi(st.a) == loy - my);
    assert(xi(st.b) == hix + 3 * mx && yi(st.b) == loy - my);
    assert(xi(st.c) == lox - mx && yi(st.c) == hiy + 3 * my);
    assert((xi(st.b) - xi(st.a)) * (yi(st.c) - yi(st.a)) - (yi(st.b) - yi(st.a)) * (xi(st.c) - xi(
        st.a,
    )) > 0) by (nonlinear_arith)
        requires
            xi(st.a) == lox - mx,
            yi(st.a) == loy - my,
            xi(st.b) == hix + 3 * mx,
            yi(st.b) == loy - my,
            xi(st.c) == lox - mx,
            yi(st.c) == hiy + 3 * my,
            mx == hix - lox + 1,
            my == hiy - loy + 1,
            lox <= hix,
            loy <= hiy,
    ;
    assert((xi(st.b) - xi(st.a)) * (yi(q) - yi(st.a)) - (yi(st.b) - yi(st.a)) * (xi(q) - xi(st.a))
        > 0) by (nonlinear_arith)
        requires
            xi(st.a) == lox - mx,
            yi(st.a) == loy - my,
            xi(st.b) == hix + 3 * mx,
            yi(st.b) == loy - my,
            mx == hix - lox + 1,
            my == hiy - loy + 1,
            lox <= xi(q) <= hix,
            loy <= yi(q) <= hiy,
    ;
    assert((xi(st.c) - xi(st.b)) * (yi(q) - yi(st.b)) - (yi(st.c) - yi(st.b)) * (xi(q) - xi(st.b))
        > 0) by (nonlinear_arith)
        requires
            xi(st.b) == hix + 3 * mx,
            yi(st.b) == loy - my,
            xi(st.c) == lox - mx,
            yi(st.c) == hiy + 3 * my,
            mx == hix - lox + 1,
            my == hiy - loy + 1,
            lox <= xi(q) <= hix,
            loy <= yi(q) <= hiy,
    ;
    assert((xi(st.a) - xi(st.c)) * (yi(q) - yi(st.c)) - (yi(st.a) - yi(st.c)) * (xi(q) - xi(st.c))
        > 0) by (nonlinear_arith)
        requires
            xi(st.a) == lox - mx,
            yi(st.a) == loy - my,
            xi(st.c) == lox - mx,
            yi(st.c) == hiy + 3 * my,
            mx == hix - lox + 1,
            my == hiy - loy + 1,
            lox <= xi(q) <= hix,
            loy <= yi(q) <= hiy,
    ;
}

/// The bootstrap triangle of points bounded by `MAX_COORD` is bounded by
/// `WORK_COORD` and is not degenerate.
proof fn lemma_super_triangle_bounded(pts: Seq<Point>)
    requires
        pts.len() >= 1,
        forall|k: int| 0 <= k < pts.len() ==> bounded_pt(#[trigger] pts[k], MAX_COORD as int),
    ensures
        bounded_tri(spec_super_triangle(pts), WORK_COORD as int),
{
    lemma_bbox_range(pts, MAX_COORD as int);
}

/// The triangles whose circumcircle contains a point are among the given
/// triangles, so they stay bounded.
proof fn lemma_bad_bounded(tris: Seq<Triangle>, q: Point, n: int)
    requires
        bounded_tris(tris, n),
    ensures
        bounded_tris(bad_triangles(tris, q), n),
    decreases tris.len(),
{
    if tris.len() > 0 {
        assert(bounded_tris(tris.drop_last(), n));
        lemma_bad_bounded(tris.drop_last(), q, n);
    }
}

/// Removal keeps only given triangles, so the result stays bounded.
proof fn lemma_remove_bounded(tris: Seq<Triangle>, bad: Seq<Triangle>, n: int)
    requires
        bounded_tris(tris, n),
    ensures
        bounded_tris(remove_triangles(tris, bad), n),
    decreases tris.len(),
{
    if tris.len() > 0 {
        assert(bounded_tris(tris.drop_last(), n));
        lemma_remove_bounded(tris.drop_last(), bad, n);
    }
}

/// Cavity boundary edges take their endpoints from the bad triangles.
proof fn lemma_boundary_bounded(upto: Seq<Triangle>, bad: Seq<Triangle>, n: int)
    requires
        bounded_tris(upto, n),
    ensures
        bounded_edges(hole_boundary(upto, bad), n),
    decreases upto.len(),
{
    if upto.len() > 0 {
        assert(bounded_tris(upto.drop_last(), n));
        lemma_boundary_bounded(upto.drop_last(), bad, n);
        assert(bounded_tri(upto.last(), n));
    }
}

/// Re-filling the cavity from bounded edges and a bounded point yields
/// bounded triangles.
proof fn lemma_fill_bounded(poly: Seq<Edge>, q: Point, n: int)
    requires
        bounded_edges(poly, n),
        bounded_pt(q, n),
    ensures
        bounded_tris(fill_hole(poly, q), n),
    decreases poly.len(),
{
    if poly.len() > 0 {
        assert(bounded_edges(poly.drop_last(), n));
        lemma_fill_bounded(poly.drop_last(), q, n);
    }
}

/// One insertion step keeps every working triangle bounded.
proof fn lemma_insert_point_bounded(tris: Seq<Triangle>, q: Point, n: int)
    requires
        bounded_tris(tris, n),
        bounded_pt(q, n),
    ensures
        bounded_tris(insert_point(tris, q), n),
{
    let bad = bad_triangles(tris, q);
    lemma_bad_bounded(tris, q, n);
    lemma_remove_bounded(tris, bad, n);
    lemma_boundary_bounded(bad, bad, n);
    lemma_fill_bounded(hole_boundary(bad, bad), q, n);
}

/// Law: the triangulation is a function of the input sequence alone, so
/// re-running it on the same points in the same order yields the same
/// triangle sequence, and in particular a canonically equal triangle set.
pub proof fn lemma_bowyer_watson_idempotent(pts: Seq<Point>, r1: Seq<Triangle>, r2: Seq<Triangle>)
    requires
        spec_bowyer_watson(pts) == Ok::<Seq<Triangle>, TriangulationError>(r1),
        spec_bowyer_watson(pts) == Ok::<Seq<Triangle>, TriangulationError>(r2),
    ensures
        r1 == r2,
        r1.len() == r2.len(),
        forall|i: int| 0 <= i < r1.len() ==> tris_equal(#[trigger] r1[i], r2[i]),
{
}

/// `v` occurs among the points of `pts`.
pub open spec fn point_of(pts: Seq<Point>, v: Point) -> bool {
    exists|k: int| 0 <= k < pts.len() && pts[k] == v
}

/// `v` is an input point of `pts` or a vertex of `st`.
pub open spec fn vertex_from(v: Point, pts: Seq<Point>, st: Triangle) -> bool {
    point_of(pts, v) || v == st.a || v == st.b || v == st.c
}

/// Every vertex of every triangle of `tris` is an input point or a vertex of
/// `st`.
pub open spec fn tri_vertices_from(tris: Seq<Triangle>, pts: Seq<Point>, st: Triangle) -> bool {
    forall|i: int| #![trigger tris[i]]
        0 <= i < tris.len() ==> vertex_from(tris[i].a, pts, st) && vertex_from(tris[i].b, pts, st)
            && vertex_from(tris[i].c, pts, st)
}

/// Every endpoint of every edge of `es` is an input point or a vertex of
/// `st`.
pub open spec fn edge_vertices_from(es: Seq<Edge>, pts: Seq<Point>, st: Triangle) -> bool {
    forall|i: int| #![trigger es[i]]
        0 <= i < es.len() ==> vertex_from(es[i].a, pts, st) && vertex_from(es[i].b, pts, st)
}

proof fn lemma_bad_vertices(tris: Seq<Triangle>, q: Point, pts: Seq<Point>, st: Triangle)
    requires
        tri_vertices_from(tris, pts, st),
    ensures
        tri_vertices_from(bad_triangles(tris, q), pts, st),
    decreases tris.len(),
{
    if tris.len() > 0 {
        assert(tri_vertices_from(tris.drop_last(), pts, st));
        lemma_bad_vertices(tris.drop_last(), q, pts, st);
    }
}

proof fn lemma_remove_vertices(tris: Seq<Triangle>, bad: Seq<Triangle>, pts: Seq<Point>, st: Triangle)
    requires
        tri_vertices_from(tris, pts, st),
    ensures
        tri_vertices_from(remove_triangles(tris, bad), pts, st),
    decreases tris.len(),
{
    if tris.len() > 0 {
        assert(tri_vertices_from(tris.drop_last(), pts, st));
        lemma_remove_vertices(tris.drop_last(), bad, pts, st);
    }
}

proof fn lemma_boundary_vertices(upto: Seq<Triangle>, bad: Seq<Triangle>, pts: Seq<Point>, st: Triangle)
    requires
        tri_vertices_from(upto, pts, st),
    ensures
        edge_vertices_from(hole_boundary(upto, bad), pts, st),
    decreases upto.len(),
{
    if upto.len() > 0 {
        assert(tri_vertices_from(upto.drop_last(), pts, st));
        lemma_boundary_vertices(upto.drop_last(), bad, pts, st);
        assert(vertex_from(upto[upto.len() - 1].a, pts, st) && vertex_from(
            upto[upto.len() - 1].b,
            pts,
            st,
        ) && vertex_from(upto[upto.len() - 1].c, pts, st));
    }
}

proof fn lemma_fill_vertices(poly: Seq<Edge>, q: Point, pts: Seq<Point>, st: Triangle)
    requires
        edge_vertices_from(poly, pts, st),
        point_of(pts, q),
    ensures
        tri_vertices_from(fill_hole(poly, q), pts, st),
    decreases poly.len(),
{
    if poly.len() > 0 {
        assert(edge_vertices_from(poly.drop_last(), pts, st));
        lemma_fill_vertices(poly.drop_last(), q, pts, st);
    }
}

/// Every vertex of every triangle of the working set is an input point or a
/// vertex of the bootstrap triangle.
proof fn lemma_working_set_vertices(pts: Seq<Point>, n: int)
    requires
        0 <= n <= pts.len(),
    ensures
        tri_vertices_from(working_set(pts, n), pts, spec_super_triangle(pts)),
    decreases n,
{
    let st = spec_super_triangle(pts);
    if n <= 0 {
        assert(tri_vertices_from(seq![st], pts, st));
    } else {
        lemma_working_set_vertices(pts, n - 1);
        let tris = working_set(pts, n - 1);
        let q = pts[n - 1];
        assert(point_of(pts, q));
        let bad = bad_triangles(tris, q);
        lemma_bad_vertices(tris, q, pts, st);
        lemma_remove_vertices(tris, bad, pts, st);
        lemma_boundary_vertices(bad, bad, pts, st);
        lemma_fill_vertices(hole_boundary(bad, bad), q, pts, st);
    }
}

/// Each element of the filtered sequence comes from the original one.
proof fn lemma_drop_super_member(tris: Seq<Triangle>, st: Triangle, i: int)
    requires
        0 <= i < drop_super_vertices(tris, st).len(),
    ensures
        !tris_share_vertex(drop_super_vertices(tris, st)[i], st),
        exists|j: int|
            0 <= j < tris.len() && tris[j] == drop_super_vertices(tris, st)[i],
    decreases tris.len(),
{
    if tris.len() > 0 {
        let rest = drop_super_vertices(tris.drop_last(), st);
        if tris_share_vertex(tris.last(), st) || i < rest.len() {
            lemma_drop_super_member(tris.drop_last(), st, i);
            let j = choose|j: int|
                0 <= j < tris.drop_last().len() && tris.drop_last()[j] == rest[i];
            assert(tris[j] == drop_super_vertices(tris, st)[i]);
        } else {
            assert(tris[tris.len() - 1] == drop_super_vertices(tris, st)[i]);
        }
    }
}

/// Law: every vertex of a returned triangle is one of the input points; in
/// particular no returned triangle shares a vertex with the bootstrap
/// triangle of the input.
pub proof fn lemma_result_vertices_are_inputs(pts: Seq<Point>, r: Seq<Triangle>, i: int)
    requires
        spec_bowyer_watson(pts) == Ok::<Seq<Triangle>, TriangulationError>(r),
        0 <= i < r.len(),
    ensures
        !tris_share_vertex(r[i], spec_super_triangle(pts)),
        point_of(pts, r[i].a),
        point_of(pts, r[i].b),
        point_of(pts, r[i].c),
{
    let st = spec_super_triangle(pts);
    let working = working_set(pts, pts.len() as int);
    lemma_working_set_vertices(pts, pts.len() as int);
    lemma_drop_super_member(working, st, i);
    let j = choose|j: int| 0 <= j < working.len() && working[j] == r[i];
    assert(vertex_from(working[j].a, pts, st));
    assert(vertex_from(working[j].b, pts, st));
    assert(vertex_from(working[j].c, pts, st));
}

/// How many triangles of `tris` have `e` as a side.
#[verifier::loop_isolation(false)]
fn count_edge_in(tris: &Vec<Triangle>, e: &Edge) -> (c: usize)
    ensures
        c as nat == count_with_edge(tris@, *e),
{
    let mut c: usize = 0;
    let mut j: usize = 0;
    while j < tris.len()
        invariant
            0 <= j <= tris@.len(),
            c <= j,
            c as nat == count_with_edge(tris@.take(j as int), *e),
        decreases tris@.len() - j,
    {
        proof {
            assert(tris@.take(j as int + 1).drop_last() =~= tris@.take(j as int));
        }
        if tris[j].contains_edge(e) {
            c = c + 1;
        }
        j = j + 1;
    }
    proof {
        assert(tris@.take(tris@.len() as int) =~= tris@);
    }
    c
}

/// Whether `t` is canonically equal to some triangle of `tris`.
#[verifier::loop_isolation(false)]
fn contains_triangle_in(tris: &Vec<Triangle>, t: &Triangle) -> (r: bool)
    ensures
        r == contains_triangle(tris@, *t),
{
    let mut j: usize = 0;
    while j < tris.len()
        invariant
            0 <= j <= tris@.len(),
            forall|k: int| 0 <= k < j ==> !tris_equal(#[trigger] tris@[k], *t),
        decreases tris@.len() - j,
    {
        if tris[j].same_triangle(t) {
            return true;
        }
        j = j + 1;
    }
    false
}

/// Compute the bootstrap triangle of the input points: one triangle that
/// strictly contains every input point in its interior. Fails exactly when
/// fewer than 3 points are supplied.
#[verifier::loop_isolation(false)]
pub fn super_triangle(points: &[Point]) -> (r: Result<Triangle, TriangulationError>)
    requires
        forall|i: int|
            0 <= i < points@.len() ==> bounded_pt(#[trigger] points@[i], MAX_COORD as int),
    ensures
        points@.len() < 3 <==> r == Err::<Triangle, TriangulationError>(
            TriangulationError::InsufficientPoints,
        ),
        points@.len() >= 3 ==> r == Ok::<Triangle, TriangulationError>(
            spec_super_triangle(points@),
        ),
        points@.len() >= 3 ==> bounded_tri(spec_super_triangle(points@), WORK_COORD as int),
        points@.len() >= 3 ==> forall|i: int|
            0 <= i < points@.len() ==> strictly_inside(
                #[trigger] points@[i],
                spec_super_triangle(points@),
            ),
{
    if points.len() < 3 {
        return Err(TriangulationError::InsufficientPoints);
    }
    let p0 = points[0];
    let mut lox: i32 = p0.x;
    let mut hix: i32 = p0.x;
    let mut loy: i32 = p0.y;
    let mut hiy: i32 = p0.y;
    let mut i: usize = 1;
    while i < points.len()
        invariant
            1 <= i <= points@.len(),
            lox as int == min_x(points@.take(i as int)),
            hix as int == max_x(points@.take(i as int)),
            loy as int == min_y(points@.take(i as int)),
            hiy as int == max_y(points@.take(i as int)),
        decreases points@.len() - i,
    {
        proof {
            assert(points@.take(i as int + 1).drop_last() =~= points@.take(i as int));
        }
        let p = points[i];
        if p.x < lox {
            lox = p.x;
        }
        if p.x > hix {
            hix = p.x;
        }
        if p.y < loy {
            loy = p.y;
        }
        if p.y > hiy {
            hiy = p.y;
        }
        i = i + 1;
    }
    proof {
        assert(points@.take(points@.len() as int) =~= points@);
        lemma_bbox_range(points@, MAX_COORD as int);
    }
    let mx: i32 = hix - lox + 1;
    let my: i32 = hiy - loy + 1;
    let st = Triangle {
        a: Point { x: lox - mx, y: loy - my },
        b: Point { x: hix + 3 * mx, y: loy - my },
        c: Point { x: lox - mx, y: hiy + 3 * my },
    };
    proof {
        assert(st == spec_super_triangle(points@));
        lemma_super_triangle_bounded(points@);
        assert forall|k: int| 0 <= k < points@.len() implies strictly_inside(
            #[trigger] points@[k],
            spec_super_triangle(points@),
        ) by {
            lemma_super_triangle_contains(points@, k);
        }
    }
    Ok(st)
}

/// Compute the Delaunay triangulation of the input points by incremental
/// Bowyer-Watson insertion, in input order. The result is exactly the value
/// of `spec_bowyer_watson` on the input sequence. Fails with
/// `InsufficientPoints` exactly when fewer than 3 points are supplied, and
/// with `DegenerateTriangle` exactly when some insertion scan meets a
/// collinear working triangle or the surviving triangulation is empty
/// because the input admits no triangle (as with exactly collinear points).
/// A successful call returns at least one triangle.
#[verifier::loop_isolation(false)]
#[verifier::rlimit(100)]
pub fn bowyer_watson(points: &Vec<Point>) -> (r: Result<Vec<Triangle>, TriangulationError>)
    requires
        forall|i: int|
            0 <= i < points@.len() ==> bounded_pt(#[trigger] points@[i], MAX_COORD as int),
    ensures
        match r {
            Ok(v) => spec_bowyer_watson(points@) == Ok::<Seq<Triangle>, TriangulationError>(v@),
            Err(e) => spec_bowyer_watson(points@) == Err::<Seq<Triangle>, TriangulationError>(e),
        },
        r is Ok <==> points@.len() >= 3 && !hits_degenerate(points@) && drop_super_vertices(
            working_set(points@, points@.len() as int),
            spec_super_triangle(points@),
        ).len() > 0,
        r matches Ok(v) ==> v@.len() > 0,
        r == Err::<Vec<Triangle>, TriangulationError>(TriangulationError::InsufficientPoints)
            <==> points@.len() < 3,
{
    if points.len() < 3 {
        return Err(TriangulationError::InsufficientPoints);
    }
    let st = match super_triangle(points.as_slice()) {
        Ok(t) => t,
        Err(e) => {
            return Err(e);
        },
    };
    let mut tris: Vec<Triangle> = Vec::new();
    tris.push(st);
    proof {
        assert(tris@ =~= working_set(points@, 0));
    }
    let mut i: usize = 0;
    while i < points.len()
        invariant
            0 <= i <= points@.len(),
            tris@ == working_set(points@, i as int),
            forall|j: int| 0 <= j < i ==> !has_degenerate(working_set(points@, j)),
            bounded_tris(tris@, WORK_COORD as int),
        decreases points@.len() - i,
    {
        let p = points[i];
        // Bad-triangle scan: collect the triangles whose circumcircle
        // contains the point; a collinear working triangle aborts the run.
        let mut bad: Vec<Triangle> = Vec::new();
        let mut j: usize = 0;
        while j < tris.len()
            invariant
                0 <= j <= tris@.len(),
                bad@ == bad_triangles(tris@.take(j as int), p),
                forall|k: int| 0 <= k < j ==> !degenerate(#[trigger] tris@[k]),
            decreases tris@.len() - j,
        {
            let t = tris[j];
            match t.point_in_circumcircle(&p) {
                Err(e) => {
                    proof {
                        assert(degenerate(working_set(points@, i as int)[j as int]));
                        assert(has_degenerate(working_set(points@, i as int)));
                        assert(hits_degenerate(points@));
                    }
                    return Err(e);
                },
                Ok(inside) => {
                    proof {
                        assert(tris@.take(j as int + 1).drop_last() =~= tris@.take(j as int));
                    }
                    if inside {
                        bad.push(t);
                    }
                },
            }
            j = j + 1;
        }
        proof {
            assert(tris@.take(tris@.len() as int) =~= tris@);
            assert(!has_degenerate(working_set(points@, i as int)));
        }
        // Hole-boundary extraction: keep the sides that occur in exactly one
        // bad triangle.
        let mut poly: Vec<Edge> = Vec::new();
        let mut m: usize = 0;
        while m < bad.len()
            invariant
                0 <= m <= bad@.len(),
                poly@ == hole_boundary(bad@.take(m as int), bad@),
            decreases bad@.len() - m,
        {
            let t = bad[m];
            let e0 = Edge { a: t.a, b: t.b };
            let e1 = Edge { a: t.b, b: t.c };
            let e2 = Edge { a: t.c, b: t.a };
            let c0 = count_edge_in(&bad, &e0);
            if c0 == 1 {
                poly.push(e0);
            }
            let c1 = count_edge_in(&bad, &e1);
            if c1 == 1 {
                poly.push(e1);
            }
            let c2 = count_edge_in(&bad, &e2);
            if c2 == 1 {
                poly.push(e2);
            }
            proof {
                assert(bad@.take(m as int + 1).drop_last() =~= bad@.take(m as int));
                assert(poly@ =~= hole_boundary(bad@.take(m as int + 1), bad@));
            }
            m = m + 1;
        }
        proof {
            assert(bad@.take(bad@.len() as int) =~= bad@);
        }
        // Removal: keep the triangles canonically equal to no bad triangle.
        let mut kept: Vec<Triangle> = Vec::new();
        let mut m2: usize = 0;
        while m2 < tris.len()
            invariant
                0 <= m2 <= tris@.len(),
                kept@ == remove_triangles(tris@.take(m2 as int), bad@),
            decreases tris@.len() - m2,
        {
            let t = tris[m2];
            let is_bad = contains_triangle_in(&bad, &t);
            proof {
                assert(tris@.take(m2 as int + 1).drop_last() =~= tris@.take(m2 as int));
            }
            if !is_bad {
                kept.push(t);
            }
            m2 = m2 + 1;
        }
        proof {
            assert(tris@.take(tris@.len() as int) =~= tris@);
            assert(kept@ =~= kept@ + fill_hole(poly@.take(0), p));
        }
        // Re-fill: one new triangle per boundary edge.
        let ghost removed = kept@;
        let mut m3: usize = 0;
        while m3 < poly.len()
            invariant
                0 <= m3 <= poly@.len(),
                kept@ == removed + fill_hole(poly@.take(m3 as int), p),
            decreases poly@.len() - m3,
        {
            let e = poly[m3];
            proof {
                assert(poly@.take(m3 as int + 1).drop_last() =~= poly@.take(m3 as int));
            }
            kept.push(Triangle { a: e.a, b: e.b, c: p });
            m3 = m3 + 1;
        }
        proof {
            assert(poly@.take(poly@.len() as int) =~= poly@);
            assert(kept@ == insert_point(tris@, p));
            assert(working_set(points@, i as int + 1) == insert_point(
                working_set(points@, i as int),
                points@[i as int],
            ));
            lemma_insert_point_bounded(tris@, p, WORK_COORD as int);
        }
        tris = kept;
        i = i + 1;
    }
    // Finalize: discard every triangle sharing a vertex with the bootstrap
    // triangle.
    let mut out: Vec<Triangle> = Vec::new();
    let mut m4: usize = 0;
    while m4 < tris.len()
        invariant
            0 <= m4 <= tris@.len(),
            out@ == drop_super_vertices(tris@.take(m4 as int), spec_super_triangle(points@)),
        decreases tris@.len() - m4,
    {
        let t = tris[m4];
        proof {
            assert(tris@.take(m4 as int + 1).drop_last() =~= tris@.take(m4 as int));
        }
        if !t.shares_vertex(&st) {
            out.push(t);
        }
        m4 = m4 + 1;
    }
    proof {
        assert(tris@.take(tris@.len() as int) =~= tris@);
        assert(!hits_degenerate(points@));
    }
    // An empty remainder means the input admitted no triangle: degenerate
    // input geometry.
    if out.len() == 0 {
        return Err(TriangulationError::DegenerateTriangle);
    }
    Ok(out)
}

} // verus!
