//! The arithmetic that a mesh needs done on its coordinates.
//!
//! What a mesh is made of is decided in this crate; sums and products of coordinates are
//! computed by the functions that a caller hands in.
use crate::scalar::Point;
use vstd::prelude::*;

verus! {

/// A question that every pair of points answers, such as where a ray enters a box.
pub trait OfPair<R>: Sized {
    /// Whether the question can be asked of every pair.
    spec fn total(&self) -> bool;

    spec fn spec_of_pair(&self, a: Point, b: Point) -> R;

    fn of_pair(&self, a: Point, b: Point) -> (result: R)
        requires
            self.total(),
        ensures
            result == self.spec_of_pair(a, b),
    ;
}

/// A question that every triangle answers, such as where a ray meets it.
pub trait OfTriangle<R>: Sized {
    /// Whether the question can be asked of every triangle.
    spec fn total(&self) -> bool;

    spec fn spec_of_triangle(&self, a: Point, b: Point, c: Point) -> R;

    fn of_triangle(&self, a: Point, b: Point, c: Point) -> (result: R)
        requires
            self.total(),
        ensures
            result == self.spec_of_triangle(a, b, c),
    ;
}

/// Whether a function can be called on everything, and gives each argument one result.
pub open spec fn answers<A, R, F: Fn(A) -> R>(function: F) -> bool {
    &&& forall|a: A| #[trigger] function.requires((a,))
    &&& forall|a: A, r: R, s: R|
        #[trigger] function.ensures((a,), r) && #[trigger] function.ensures((a,), s) ==> r == s
}

/// What such a function gives.
pub open spec fn of<A, R, F: Fn(A) -> R>(function: F, a: A) -> R {
    choose|r: R| function.ensures((a,), r)
}

/// The arithmetic by which faces are judged, given normals and sorted into a tree.
pub trait Geometry: Sized {
    /// Whether every function can be called, and gives equal arguments equal results.
    spec fn total(&self) -> bool;

    spec fn spec_well_shaped(&self, a: Point, b: Point, c: Point) -> bool;

    spec fn spec_cross(&self, a: Point, b: Point, c: Point) -> Point;

    spec fn spec_opposed(&self, u: Point, v: Point) -> bool;

    spec fn spec_direction(&self, vectors: Seq<Point>) -> Point;

    spec fn spec_centroid(&self, a: Point, b: Point, c: Point) -> Point;

    spec fn spec_extent(&self, min: Point, max: Point) -> Point;

    /// Whether a triangle has more than a negligible area.
    fn well_shaped(&self, a: Point, b: Point, c: Point) -> (result: bool)
        requires
            self.total(),
        ensures
            result == self.spec_well_shaped(a, b, c),
    ;

    /// The normal of a triangle, as long as twice its area.
    fn cross(&self, a: Point, b: Point, c: Point) -> (result: Point)
        requires
            self.total(),
        ensures
            result == self.spec_cross(a, b, c),
    ;

    /// Whether two vectors point against each other.
    fn opposed(&self, u: Point, v: Point) -> (result: bool)
        requires
            self.total(),
        ensures
            result == self.spec_opposed(u, v),
    ;

    /// The unit vector along the sum of vectors, or zero where it has no direction.
    fn direction(&self, vectors: &Vec<Point>) -> (result: Point)
        requires
            self.total(),
        ensures
            result == self.spec_direction(vectors@),
    ;

    fn centroid(&self, a: Point, b: Point, c: Point) -> (result: Point)
        requires
            self.total(),
        ensures
            result == self.spec_centroid(a, b, c),
    ;

    /// The size of a box in each direction.
    fn extent(&self, min: Point, max: Point) -> (result: Point)
        requires
            self.total(),
        ensures
            result == self.spec_extent(min, max),
    ;
}

} // verus!
