//! Planar Delaunay triangulation of integer-coordinate points by incremental
//! Bowyer-Watson insertion, together with the dual Voronoi diagram derived
//! from the triangulation's adjacency.
//!
//! All geometric predicates are evaluated in exact integer arithmetic, so the
//! in-circumcircle test and the circumcenter are free of rounding error.

use vstd::prelude::*;
use vstd::string::StringExecFns;

pub mod delaunay;
pub mod geometry;
pub mod voronoi;

verus! {

/// The failure modes of the triangulation and Voronoi operations.
#[derive(Clone, Copy, Debug, PartialEq, Eq, Structural)]
pub enum TriangulationError {
    /// Fewer than 3 points were supplied.
    InsufficientPoints,
    /// Degenerate geometry: a triangle's three vertices are exactly
    /// collinear, so it has no circumcircle; also reported by the
    /// triangulator when the input points admit no triangle at all.
    DegenerateTriangle,
    /// The Voronoi builder was given an empty triangle collection.
    EmptyTriangulation,
}

impl TriangulationError {
    /// A short description of the failure, in place of a `Display`
    /// implementation.
    pub fn message(&self) -> (r: String)
        ensures
            *self == TriangulationError::InsufficientPoints ==> r@
                == "fewer than 3 points were supplied"@,
            *self == TriangulationError::DegenerateTriangle ==> r@
                == "degenerate geometry: collinear triangle vertices"@,
            *self == TriangulationError::EmptyTriangulation ==> r@
                == "the triangle collection is empty"@,
    {
        match self {
            TriangulationError::InsufficientPoints => String::from_str(
                "fewer than 3 points were supplied",
            ),
            TriangulationError::DegenerateTriangle => String::from_str(
                "degenerate geometry: collinear triangle vertices",
            ),
            TriangulationError::EmptyTriangulation => String::from_str(
                "the triangle collection is empty",
            ),
        }
    }
}

} // verus!
