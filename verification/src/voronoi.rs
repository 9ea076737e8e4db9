//! The Voronoi dual of a triangulation: one edge between the circumcenters
//! of every pair of triangles that share a side, each dual edge emitted once.

use crate::delaunay::has_degenerate;
use crate::geometry::{
    circumcenter_of, degenerate, edges_equal, tri_contains_edge, tri_edges, tris_equal, Edge,
    Point, Triangle,
};
use crate::TriangulationError;
use vstd::prelude::*;

verus! {

/// `e` is canonically equal to some edge of `es`.
pub open spec fn contains_edge_canon(es: Seq<Edge>, e: Edge) -> bool {
    exists|i: int| 0 <= i < es.len() && edges_equal(es[i], e)
}

/// No two edges of `es` are canonically equal.
pub open spec fn no_duplicate_edges(es: Seq<Edge>) -> bool {
    forall|i: int, j: int| 0 <= i < j < es.len() ==> !edges_equal(es[i], es[j])
}

/// The diagram grown from `acc` by scanning, for the side `e` of triangle
/// `i`, the first `j` triangles as candidate neighbors: each neighbor across
/// `e` contributes an edge between the two circumcenters, unless a
/// canonically equal edge is already present.
pub open spec fn scan_neighbors(
    tris: Seq<Triangle>,
    i: int,
    e: Edge,
    j: int,
    acc: Seq<Edge>,
) -> Seq<Edge>
    decreases j,
{
    if j <= 0 {
        acc
    } else {
        let acc2 = scan_neighbors(tris, i, e, j - 1, acc);
        if tri_contains_edge(tris[j - 1], e) && !tris_equal(tris[j - 1], tris[i]) {
            let dual = Edge { a: circumcenter_of(tris[i]), b: circumcenter_of(tris[j - 1]) };
            if contains_edge_canon(acc2, dual) {
                acc2
            } else {
                acc2.push(dual)
            }
        } else {
            acc2
        }
    }
}

/// The diagram grown from `acc` by scanning the first `k` sides of triangle
/// `i` against all triangles.
pub open spec fn scan_sides(tris: Seq<Triangle>, i: int, k: int, acc: Seq<Edge>) -> Seq<Edge>
    decreases k,
{
    if k <= 0 {
        acc
    } else {
        scan_neighbors(
            tris,
            i,
            tri_edges(tris[i])[k - 1],
            tris.len() as int,
            scan_sides(tris, i, k - 1, acc),
        )
    }
}

/// The diagram grown from `acc` by processing the first `i` triangles.
pub open spec fn scan_triangles(tris: Seq<Triangle>, i: int, acc: Seq<Edge>) -> Seq<Edge>
    decreases i,
{
    if i <= 0 {
        acc
    } else {
        scan_sides(tris, i - 1, 3, scan_triangles(tris, i - 1, acc))
    }
}

/// The Voronoi dual as a function of the triangle sequence alone.
pub open spec fn spec_voronoi(tris: Seq<Triangle>) -> Result<Seq<Edge>, TriangulationError> {
    if tris.len() == 0 {
        Err(TriangulationError::EmptyTriangulation)
    } else if has_degenerate(tris) {
        Err(TriangulationError::DegenerateTriangle)
    } else {
        Ok(scan_triangles(tris, tris.len() as int, Seq::empty()))
    }
}

proof fn lemma_scan_neighbors_nodup(tris: Seq<Triangle>, i: int, e: Edge, j: int, acc: Seq<Edge>)
    requires
        no_duplicate_edges(acc),
    ensures
        no_duplicate_edges(scan_neighbors(tris, i, e, j, acc)),
    decreases j,
{
    if j > 0 {
        lemma_scan_neighbors_nodup(tris, i, e, j - 1, acc);
    }
}

proof fn lemma_scan_sides_nodup(tris: Seq<Triangle>, i: int, k: int, acc: Seq<Edge>)
    requires
        no_duplicate_edges(acc),
    ensures
        no_duplicate_edges(scan_sides(tris, i, k, acc)),
    decreases k,
{
    if k > 0 {
        lemma_scan_sides_nodup(tris, i, k - 1, acc);
        lemma_scan_neighbors_nodup(
            tris,
            i,
            tri_edges(tris[i])[k - 1],
            tris.len() as int,
            scan_sides(tris, i, k - 1, acc),
        );
    }
}

proof fn lemma_scan_triangles_nodup(tris: Seq<Triangle>, i: int, acc: Seq<Edge>)
    requires
        no_duplicate_edges(acc),
    ensures
        no_duplicate_edges(scan_triangles(tris, i, acc)),
    decreases i,
{
    if i > 0 {
        lemma_scan_triangles_nodup(tris, i - 1, acc);
        lemma_scan_sides_nodup(tris, i - 1, 3, scan_triangles(tris, i - 1, acc));
    }
}

/// Law: the Voronoi dual is deduplicated under symmetric edge equality; no
/// two returned edges are canonically equal.
pub proof fn lemma_voronoi_deduplicated(tris: Seq<Triangle>, r: Seq<Edge>)
    requires
        spec_voronoi(tris) == Ok::<Seq<Edge>, TriangulationError>(r),
    ensures
        no_duplicate_edges(r),
{
    lemma_scan_triangles_nodup(tris, tris.len() as int, Seq::empty());
}

proof fn lemma_scan_neighbors_mono(
    tris: Seq<Triangle>,
    i: int,
    e: Edge,
    j: int,
    acc: Seq<Edge>,
    ed: Edge,
)
    requires
        contains_edge_canon(acc, ed),
    ensures
        contains_edge_canon(scan_neighbors(tris, i, e, j, acc), ed),
    decreases j,
{
    if j > 0 {
        lemma_scan_neighbors_mono(tris, i, e, j - 1, acc, ed);
        let acc2 = scan_neighbors(tris, i, e, j - 1, acc);
        let kk = choose|kk: int| 0 <= kk < acc2.len() && edges_equal(acc2[kk], ed);
        let res = scan_neighbors(tris, i, e, j, acc);
        assert(edges_equal(res[kk], ed));
    }
}

proof fn lemma_scan_sides_mono(tris: Seq<Triangle>, i: int, k: int, acc: Seq<Edge>, ed: Edge)
    requires
        contains_edge_canon(acc, ed),
    ensures
        contains_edge_canon(scan_sides(tris, i, k, acc), ed),
    decreases k,
{
    if k > 0 {
        lemma_scan_sides_mono(tris, i, k - 1, acc, ed);
        lemma_scan_neighbors_mono(
            tris,
            i,
            tri_edges(tris[i])[k - 1],
            tris.len() as int,
            scan_sides(tris, i, k - 1, acc),
            ed,
        );
    }
}

/// Scanning through candidate `j` against side `e` of triangle `i` records
/// the dual edge of the pair, when `j` is a neighbor across `e`.
proof fn lemma_scan_neighbors_adds(
    tris: Seq<Triangle>,
    i: int,
    e: Edge,
    j: int,
    m: int,
    acc: Seq<Edge>,
)
    requires
        0 <= j < m <= tris.len(),
        tri_contains_edge(tris[j], e),
        !tris_equal(tris[j], tris[i]),
    ensures
        contains_edge_canon(
            scan_neighbors(tris, i, e, m, acc),
            Edge { a: circumcenter_of(tris[i]), b: circumcenter_of(tris[j]) },
        ),
    decreases m,
{
    let dual = Edge { a: circumcenter_of(tris[i]), b: circumcenter_of(tris[j]) };
    let prev = scan_neighbors(tris, i, e, m - 1, acc);
    if m - 1 == j {
        if contains_edge_canon(prev, dual) {
        } else {
            assert(edges_equal(prev.push(dual)[prev.len() as int], dual));
        }
    } else {
        lemma_scan_neighbors_adds(tris, i, e, j, m - 1, acc);
        let kk = choose|kk: int| 0 <= kk < prev.len() && edges_equal(prev[kk], dual);
        let res = scan_neighbors(tris, i, e, m, acc);
        assert(edges_equal(res[kk], dual));
    }
}

proof fn lemma_scan_sides_up(tris: Seq<Triangle>, i: int, m0: int, m: int, acc: Seq<Edge>, ed: Edge)
    requires
        0 <= m0 <= m <= 3,
        contains_edge_canon(scan_sides(tris, i, m0, acc), ed),
    ensures
        contains_edge_canon(scan_sides(tris, i, m, acc), ed),
    decreases m - m0,
{
    if m > m0 {
        lemma_scan_sides_up(tris, i, m0, m - 1, acc, ed);
        lemma_scan_neighbors_mono(
            tris,
            i,
            tri_edges(tris[i])[m - 1],
            tris.len() as int,
            scan_sides(tris, i, m - 1, acc),
            ed,
        );
    }
}

proof fn lemma_scan_triangles_up(tris: Seq<Triangle>, m0: int, m: int, ed: Edge)
    requires
        0 <= m0 <= m,
        contains_edge_canon(scan_triangles(tris, m0, Seq::empty()), ed),
    ensures
        contains_edge_canon(scan_triangles(tris, m, Seq::empty()), ed),
    decreases m - m0,
{
    if m > m0 {
        lemma_scan_triangles_up(tris, m0, m - 1, ed);
        lemma_scan_sides_mono(tris, m - 1, 3, scan_triangles(tris, m - 1, Seq::empty()), ed);
    }
}

/// Law: the Voronoi dual is complete. Whenever a triangle of the input has a
/// side that another, canonically distinct, triangle of the input also has,
/// the edge connecting the two circumcenters occurs in the result, up to
/// symmetric edge equality.
pub proof fn lemma_voronoi_complete(tris: Seq<Triangle>, r: Seq<Edge>, i: int, k: int, j: int)
    requires
        spec_voronoi(tris) == Ok::<Seq<Edge>, TriangulationError>(r),
        0 <= i < tris.len(),
        0 <= k < 3,
        0 <= j < tris.len(),
        tri_contains_edge(tris[j], tri_edges(tris[i])[k]),
        !tris_equal(tris[j], tris[i]),
    ensures
        contains_edge_canon(r, Edge { a: circumcenter_of(tris[i]), b: circumcenter_of(tris[j]) }),
{
    let base = scan_triangles(tris, i, Seq::empty());
    lemma_scan_neighbors_adds(
        tris,
        i,
        tri_edges(tris[i])[k],
        j,
        tris.len() as int,
        scan_sides(tris, i, k, base),
    );
    let ed = Edge { a: circumcenter_of(tris[i]), b: circumcenter_of(tris[j]) };
    assert(contains_edge_canon(scan_sides(tris, i, k + 1, base), ed));
    lemma_scan_sides_up(tris, i, k + 1, 3, base, ed);
    assert(contains_edge_canon(scan_triangles(tris, i + 1, Seq::empty()), ed));
    lemma_scan_triangles_up(tris, i + 1, tris.len() as int, ed);
}

/// Whether some edge of `es` is canonically equal to `e`.
#[verifier::loop_isolation(false)]
fn edge_in_list(es: &Vec<Edge>, e: &Edge) -> (r: bool)
    ensures
        r == contains_edge_canon(es@, *e),
{
    let mut j: usize = 0;
    while j < es.len()
        invariant
            0 <= j <= es@.len(),
            forall|k: int| 0 <= k < j ==> !edges_equal(#[trigger] es@[k], *e),
        decreases es@.len() - j,
    {
        if es[j] == *e {
            return true;
        }
        j = j + 1;
    }
    false
}

/// Compute the Voronoi dual of a triangulation: for each pair of triangles
/// sharing a side, one edge connecting their circumcenters, deduplicated
/// under symmetric edge equality. The result is exactly the value of
/// `spec_voronoi` on the input sequence. Fails with `EmptyTriangulation`
/// exactly when the input is empty, and with `DegenerateTriangle` exactly
/// when some input triangle is collinear.
#[verifier::loop_isolation(false)]
#[verifier::rlimit(50)]
pub fn voronoi(delaunay: &Vec<Triangle>) -> (r: Result<Vec<Edge>, TriangulationError>)
    ensures
        match r {
            Ok(v) => spec_voronoi(delaunay@) == Ok::<Seq<Edge>, TriangulationError>(v@),
            Err(e) => spec_voronoi(delaunay@) == Err::<Seq<Edge>, TriangulationError>(e),
        },
        r is Ok <==> delaunay@.len() > 0 && !has_degenerate(delaunay@),
        r == Err::<Vec<Edge>, TriangulationError>(TriangulationError::EmptyTriangulation)
            <==> delaunay@.len() == 0,
{
    if delaunay.len() == 0 {
        return Err(TriangulationError::EmptyTriangulation);
    }
    // Circumcenters first: a collinear triangle aborts the whole call.
    let mut centers: Vec<Point> = Vec::new();
    let mut i: usize = 0;
    while i < delaunay.len()
        invariant
            0 <= i <= delaunay@.len(),
            centers@.len() == i,
            forall|k: int|
                0 <= k < i ==> centers@[k] == circumcenter_of(#[trigger] delaunay@[k])
                    && !degenerate(delaunay@[k]),
        decreases delaunay@.len() - i,
    {
        match delaunay[i].circumcenter() {
            Ok(c) => {
                centers.push(c);
            },
            Err(e) => {
                proof {
                    assert(has_degenerate(delaunay@));
                }
                return Err(e);
            },
        }
        i = i + 1;
    }
    // Walk the adjacency: every other triangle containing one of this
    // triangle's sides is a neighbor; connect the two circumcenters.
    let mut diagram: Vec<Edge> = Vec::new();
    let mut ti: usize = 0;
    while ti < delaunay.len()
        invariant
            0 <= ti <= delaunay@.len(),
            diagram@ == scan_triangles(delaunay@, ti as int, Seq::empty()),
        decreases delaunay@.len() - ti,
    {
        let t = delaunay[ti];
        let mut k: usize = 0;
        while k < 3
            invariant
                0 <= k <= 3,
                diagram@ == scan_sides(
                    delaunay@,
                    ti as int,
                    k as int,
                    scan_triangles(delaunay@, ti as int, Seq::empty()),
                ),
            decreases 3 - k,
        {
            let e = if k == 0 {
                Edge { a: t.a, b: t.b }
            } else if k == 1 {
                Edge { a: t.b, b: t.c }
            } else {
                Edge { a: t.c, b: t.a }
            };
            proof {
                assert(e == tri_edges(delaunay@[ti as int])[k as int]);
            }
            let ghost side_base = diagram@;
            let mut j: usize = 0;
            while j < delaunay.len()
                invariant
                    0 <= j <= delaunay@.len(),
                    diagram@ == scan_neighbors(delaunay@, ti as int, e, j as int, side_base),
                decreases delaunay@.len() - j,
            {
                let o = delaunay[j];
                if o.contains_edge(&e) && !o.same_triangle(&t) {
                    let dual = Edge { a: centers[ti], b: centers[j] };
                    if !edge_in_list(&diagram, &dual) {
                        diagram.push(dual);
                    }
                }
                j = j + 1;
            }
            k = k + 1;
        }
        ti = ti + 1;
    }
    Ok(diagram)
}

} // verus!
