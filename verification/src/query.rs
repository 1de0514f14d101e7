//! Asking a mesh where a ray meets it, which of its points is nearest, and how large it is.
use crate::arithmetic;
use crate::arithmetic::Arithmetic;
use crate::bvh;
use crate::enclosure;
use crate::geometry::{OfPair, OfTriangle};
use crate::mesh;
use crate::mesh::Mesh;
use crate::scalar;
use crate::scalar::Point;
use crate::search;
use crate::search::{FaceHit, NearPoint, ParityRayIntersection, RayIntersectionCount};
use crate::shapes;
use crate::walk;
use crate::wide;
use crate::wide::WideArithmetic;
use vstd::prelude::*;

verus! {

/// Where a ray meets a mesh.
#[derive(Clone, Copy, Debug, PartialEq, Eq, Structural)]
pub struct RayHit {
    pub position: Point,
    pub normal: Point,
    pub triangle: u32,
    pub distance: u32,
    pub barycentric: Point,
}

/// The point of a surface that is nearest to a given point.
#[derive(Clone, Copy, Debug, PartialEq, Eq, Structural)]
pub struct ClosestSurfacePoint {
    pub triangle: u32,
    pub point: Point,
    pub barycentric: Point,
    pub distance: u32,
}

/// What the normal at a point of a face is made of: the normals and positions of the corners, and
/// the point's barycentric weights.
#[derive(Clone, Copy, Debug)]
pub struct Shading {
    pub normals: (Point, Point, Point),
    pub corners: (Point, Point, Point),
    pub barycentric: Point,
}

pub open spec fn shading_of(mesh: Mesh, face: u32, barycentric: Point) -> Shading {
    let triangle = mesh.triangles@[face as int];
    Shading {
        normals: (
            mesh.normals@[triangle@[0] as int],
            mesh.normals@[triangle@[1] as int],
            mesh.normals@[triangle@[2] as int],
        ),
        corners: (
            mesh.positions@[triangle@[0] as int],
            mesh.positions@[triangle@[1] as int],
            mesh.positions@[triangle@[2] as int],
        ),
        barycentric,
    }
}

/// The smallest box around the finite ones of some points.
pub open spec fn bounds_of(points: Seq<Point>) -> Option<(Point, Point)>
    decreases points.len(),
{
    if points.len() == 0 {
        None
    } else {
        let point = points.last();
        match bounds_of(points.drop_last()) {
            Some((min, max)) => if point.finite() {
                Some((min.least(point), max.greatest(point)))
            } else {
                Some((min, max))
            },
            None => if point.finite() {
                Some((point, point))
            } else {
                None
            },
        }
    }
}

/// The bounds have every finite point in them, are themselves finite, and are there exactly where
/// some point is finite.
pub proof fn bounds_enclose_the_finite_points(points: Seq<Point>)
    ensures
        bounds_of(points) is Some <==> exists|i: int|
            0 <= i < points.len() && (#[trigger] points[i]).finite(),
        bounds_of(points) matches Some((min, max)) ==> min.finite() && max.finite() && forall|i: int|
            0 <= i < points.len() && (#[trigger] points[i]).finite() ==> enclosure::in_box(
                points[i],
                min,
                max,
            ),
    decreases points.len(),
{
    if points.len() > 0 {
        let front = points.drop_last();
        bounds_enclose_the_finite_points(front);
        if exists|i: int| 0 <= i < front.len() && (#[trigger] front[i]).finite() {
            let i = choose|i: int| 0 <= i < front.len() && (#[trigger] front[i]).finite();
            assert(points[i].finite());
        }
        if points.last().finite() {
            assert(points[points.len() - 1].finite());
        }
        if exists|i: int| 0 <= i < points.len() && (#[trigger] points[i]).finite() {
            let i = choose|i: int| 0 <= i < points.len() && (#[trigger] points[i]).finite();
            if i < front.len() {
                assert(front[i].finite());
            }
        }
        if let Some((min, max)) = bounds_of(points) {
            assert forall|i: int|
                0 <= i < points.len() && (
                #[trigger] points[i]).finite() implies enclosure::in_box(points[i], min, max) by {
                if i < front.len() {
                    assert(front[i].finite());
                }
            }
        }
    }
}

impl Mesh {
    /// The smallest box around the finite vertices.
    pub fn bounds(&self) -> (result: Option<(Point, Point)>)
        ensures
            result == bounds_of(self.positions@),
    {
        let mut bounds: Option<(Point, Point)> = None;
        let mut i: usize = 0;
        assert(self.positions@.take(0) =~= Seq::<Point>::empty());
        while i < self.positions.len()
            invariant
                i <= self.positions@.len(),
                bounds == bounds_of(self.positions@.take(i as int)),
            decreases self.positions@.len() - i,
        {
            let position = self.positions[i];
            assert(self.positions@.take(i + 1).drop_last() =~= self.positions@.take(i as int));
            if position.is_finite() {
                bounds = match bounds {
                    Some((min, max)) => Some((min.min(&position), max.max(&position))),
                    None => Some((position, position)),
                };
            }
            i += 1;
        }
        assert(self.positions@.take(i as int) =~= self.positions@);
        bounds
    }

    /// The middle of the box around the finite vertices.
    pub fn center<O: Arithmetic>(&self, ops: &O) -> (result: Option<Point>)
        requires
            ops.total(),
        ensures
            result == match bounds_of(self.positions@) {
                Some((min, max)) => Some(
                    arithmetic::spec_times(
                        ops,
                        arithmetic::spec_plus(ops, min, max),
                        scalar::HALF,
                    ),
                ),
                None => None,
            },
    {
        match self.bounds() {
            Some((min, max)) => Some(
                arithmetic::times(ops, arithmetic::plus(ops, min, max), scalar::HALF),
            ),
            None => None,
        }
    }

    /// The length of the diagonal of the box around the finite vertices.
    pub fn diagonal<O: Arithmetic>(&self, ops: &O) -> (result: u32)
        requires
            ops.total(),
        ensures
            result == match bounds_of(self.positions@) {
                Some((min, max)) => arithmetic::spec_length(
                    ops,
                    arithmetic::spec_minus(ops, max, min),
                ),
                None => scalar::ZERO,
            },
    {
        match self.bounds() {
            Some((min, max)) => arithmetic::length(ops, arithmetic::minus(ops, max, min)),
            None => scalar::ZERO,
        }
    }

    /// Finds where a ray meets the mesh first, if it starts at a finite point and has a direction.
    pub fn raycast<O: Arithmetic>(&self, origin: Point, direction: Point, ops: &O) -> (result:
        Option<RayHit>)
        requires
            self.well_formed(),
            ops.total(),
        ensures
            result == hit_by(*self, ops, origin, direction),
            match arithmetic::spec_direction(ops, direction) {
                Some(unit) => if origin.finite() {
                    ray_answered(*self, ops, origin, unit, result)
                } else {
                    result is None
                },
                None => result is None,
            },
    {
        let direction = match arithmetic::direction(ops, direction) {
            Some(unit) => unit,
            None => return None,
        };
        if !origin.is_finite() {
            return None;
        }
        proof {
            mesh::lemma_indexed(self.triangles@, self.positions@.len());
        }
        let enter = RayBoxes { ops, origin, direction };
        let hit = RayFaces { ops, origin, direction };
        match self.topology.bvh.raycast(&self.positions, &self.triangles, &enter, &hit) {
            Some(found) => {
                let triangle = self.triangles[found.triangle as usize];
                assert(self.triangles@[found.triangle as int] == triangle);
                let shading = Shading {
                    normals: (
                        self.normals[triangle[0] as usize],
                        self.normals[triangle[1] as usize],
                        self.normals[triangle[2] as usize],
                    ),
                    corners: (
                        self.positions[triangle[0] as usize],
                        self.positions[triangle[1] as usize],
                        self.positions[triangle[2] as usize],
                    ),
                    barycentric: found.barycentric,
                };
                Some(
                    RayHit {
                        position: shapes::point_on_ray(ops, origin, direction, found.distance),
                        normal: shapes::shade(ops, direction, &shading),
                        triangle: found.triangle,
                        distance: found.distance,
                        barycentric: found.barycentric,
                    },
                )
            },
            None => None,
        }
    }

    /// Finds the point of the surface that is nearest to a finite point; of equally near ones that
    /// of the face of lowest index.
    pub fn closest_surface_point<O: Arithmetic>(&self, point: Point, ops: &O) -> (result: Option<
        ClosestSurfacePoint,
    >)
        requires
            self.well_formed(),
            ops.total(),
        ensures
            result == nearest_of(*self, ops, point),
            nearest_answered(*self, ops, point, result),
    {
        if !point.is_finite() {
            return None;
        }
        proof {
            mesh::lemma_indexed(self.triangles@, self.positions@.len());
        }
        let away = PointBoxes { ops, point };
        let nearest = PointFaces { ops, point };
        let found = self.topology.bvh.closest_surface_point(
            &self.positions,
            &self.triangles,
            &away,
            &nearest,
        );
        match found {
            Some(near) => {
                let result = ClosestSurfacePoint {
                    triangle: near.triangle,
                    point: near.point,
                    barycentric: near.barycentric,
                    distance: ops.root(near.distance_squared),
                };
                assert(closest_is(*self, ops, point, Some(result), Some(near)));
                Some(result)
            },
            None => {
                assert(closest_is(
                    *self,
                    ops,
                    point,
                    None::<ClosestSurfacePoint>,
                    None::<NearPoint>,
                ));
                None
            },
        }
    }

    /// The face on which the nearest point of the surface lies.
    pub fn nearest_triangle<O: Arithmetic>(&self, point: Point, ops: &O) -> (result: Option<u32>)
        requires
            self.well_formed(),
            ops.total(),
        ensures
            result == nearest_face(*self, ops, point),
            exists|closest: Option<ClosestSurfacePoint>| #[trigger]
                nearest_answered(*self, ops, point, closest) && result == match closest {
                    Some(found) => Some(found.triangle),
                    None => None,
                },
    {
        match self.closest_surface_point(point, ops) {
            Some(closest) => Some(closest.triangle),
            None => None,
        }
    }

    /// Counts how often a ray crosses the surface, if it starts at a finite point and has a
    /// direction.
    pub fn ray_intersection_count<O: Arithmetic, W: WideArithmetic>(
        &self,
        origin: Point,
        direction: Point,
        ops: &O,
        wide: &W,
    ) -> (result: Option<RayIntersectionCount>)
        requires
            self.well_formed(),
            ops.total(),
            wide.total(),
        ensures
            result == crossed(*self, ops, wide, origin, direction),
    {
        let direction = match arithmetic::direction(ops, direction) {
            Some(unit) => unit,
            None => return None,
        };
        if !origin.is_finite() {
            return None;
        }
        proof {
            mesh::lemma_indexed(self.triangles@, self.positions@.len());
        }
        let enter = RayBoxes { ops, origin, direction };
        let parity = RayCrossings { ops: wide, origin, direction };
        Some(
            self.topology.bvh.ray_intersection_count(
                &self.positions,
                &self.triangles,
                &enter,
                &parity,
            ),
        )
    }
}

/// Where a ray enters a box.
pub struct RayBoxes<'a, O> {
    pub ops: &'a O,
    pub origin: Point,
    pub direction: Point,
}

impl<'a, O: Arithmetic> OfPair<Option<u32>> for RayBoxes<'a, O> {
    open spec fn total(&self) -> bool {
        self.ops.total()
    }

    open spec fn spec_of_pair(&self, min: Point, max: Point) -> Option<u32> {
        shapes::enters(self.ops, self.origin, self.direction, min, max)
    }

    fn of_pair(&self, min: Point, max: Point) -> Option<u32> {
        shapes::ray_aabb(self.ops, self.origin, self.direction, min, max)
    }
}

/// Where a ray meets a triangle.
pub struct RayFaces<'a, O> {
    pub ops: &'a O,
    pub origin: Point,
    pub direction: Point,
}

impl<'a, O: Arithmetic> OfTriangle<Option<(u32, Point)>> for RayFaces<'a, O> {
    open spec fn total(&self) -> bool {
        self.ops.total()
    }

    open spec fn spec_of_triangle(&self, a: Point, b: Point, c: Point) -> Option<(u32, Point)> {
        shapes::meets(self.ops, self.origin, self.direction, a, b, c)
    }

    fn of_triangle(&self, a: Point, b: Point, c: Point) -> Option<(u32, Point)> {
        shapes::ray_triangle(self.ops, self.origin, self.direction, a, b, c)
    }
}

/// What a ray does to a triangle where crossings are counted.
pub struct RayCrossings<'a, O> {
    pub ops: &'a O,
    pub origin: Point,
    pub direction: Point,
}

impl<'a, O: WideArithmetic> OfTriangle<ParityRayIntersection> for RayCrossings<'a, O> {
    open spec fn total(&self) -> bool {
        self.ops.total()
    }

    open spec fn spec_of_triangle(&self, a: Point, b: Point, c: Point) -> ParityRayIntersection {
        wide::parity_of(self.ops, self.origin, self.direction, a, b, c)
    }

    fn of_triangle(&self, a: Point, b: Point, c: Point) -> ParityRayIntersection {
        wide::ray_triangle_for_parity(self.ops, self.origin, self.direction, a, b, c)
    }
}

/// How far a box is from a point, squared.
pub struct PointBoxes<'a, O> {
    pub ops: &'a O,
    pub point: Point,
}

impl<'a, O: Arithmetic> OfPair<u32> for PointBoxes<'a, O> {
    open spec fn total(&self) -> bool {
        self.ops.total()
    }

    open spec fn spec_of_pair(&self, min: Point, max: Point) -> u32 {
        shapes::away_squared(self.ops, self.point, min, max)
    }

    fn of_pair(&self, min: Point, max: Point) -> u32 {
        shapes::point_aabb_distance_squared(self.ops, self.point, min, max)
    }
}

/// How far a triangle is from a point, squared, where it is nearest, and with which weights of the
/// corners.
pub struct PointFaces<'a, O> {
    pub ops: &'a O,
    pub point: Point,
}

impl<'a, O: Arithmetic> OfTriangle<(u32, Point, Point)> for PointFaces<'a, O> {
    open spec fn total(&self) -> bool {
        self.ops.total()
    }

    open spec fn spec_of_triangle(&self, a: Point, b: Point, c: Point) -> (u32, Point, Point) {
        let (near, weights) = shapes::nearest_on(self.ops, self.point, a, b, c);
        (arithmetic::spec_distance_squared(self.ops, self.point, near), near, weights)
    }

    fn of_triangle(&self, a: Point, b: Point, c: Point) -> (u32, Point, Point) {
        let (near, weights) = shapes::closest_point_on_triangle(self.ops, self.point, a, b, c);
        (arithmetic::distance_squared(self.ops, self.point, near), near, weights)
    }
}

/// Where a ray meets a mesh first, as a search of its tree finds it.
pub open spec fn hit_by<O: Arithmetic>(
    mesh: Mesh,
    ops: &O,
    origin: Point,
    direction: Point,
) -> Option<RayHit> {
    match arithmetic::spec_direction(ops, direction) {
        Some(unit) => if origin.finite() {
            let found = walk::first_hit(
                mesh.topology.bvh,
                mesh.positions@,
                mesh.triangles@,
                RayBoxes { ops, origin, direction: unit },
                RayFaces { ops, origin, direction: unit },
            );
            match found {
                Some(hit) => Some(
                    RayHit {
                        position: arithmetic::spec_plus(
                            ops,
                            origin,
                            arithmetic::spec_times(ops, unit, hit.distance),
                        ),
                        normal: shapes::shaded(
                            ops,
                            unit,
                            shading_of(mesh, hit.triangle, hit.barycentric),
                        ),
                        triangle: hit.triangle,
                        distance: hit.distance,
                        barycentric: hit.barycentric,
                    },
                ),
                None => None,
            }
        } else {
            None
        },
        None => None,
    }
}

/// The point of a surface that is nearest to a point, as a search of its tree finds it.
pub open spec fn nearest_of<O: Arithmetic>(mesh: Mesh, ops: &O, point: Point) -> Option<
    ClosestSurfacePoint,
> {
    if point.finite() {
        let found = walk::nearest_point(
            mesh.topology.bvh,
            mesh.positions@,
            mesh.triangles@,
            PointBoxes { ops, point },
            PointFaces { ops, point },
        );
        match found {
            Some(near) => Some(
                ClosestSurfacePoint {
                    triangle: near.triangle,
                    point: near.point,
                    barycentric: near.barycentric,
                    distance: ops.spec_root(near.distance_squared),
                },
            ),
            None => None,
        }
    } else {
        None
    }
}

/// The face on which that point lies.
pub open spec fn nearest_face<O: Arithmetic>(mesh: Mesh, ops: &O, point: Point) -> Option<u32> {
    match nearest_of(mesh, ops, point) {
        Some(closest) => Some(closest.triangle),
        None => None,
    }
}

/// How often a ray crosses a surface, where it starts at a finite point and has a direction.
pub open spec fn crossed<O: Arithmetic, W: WideArithmetic>(
    mesh: Mesh,
    ops: &O,
    wide: &W,
    origin: Point,
    direction: Point,
) -> Option<RayIntersectionCount> {
    match arithmetic::spec_direction(ops, direction) {
        Some(unit) => if origin.finite() {
            Some(counted(mesh, ops, wide, origin, unit))
        } else {
            None
        },
        None => None,
    }
}

/// What a hit tells of the face that it is on.
pub open spec fn face_hit(result: Option<RayHit>) -> Option<FaceHit> {
    match result {
        Some(hit) => Some(
            FaceHit {
                triangle: hit.triangle,
                distance: hit.distance,
                barycentric: hit.barycentric,
            },
        ),
        None => None,
    }
}

/// Whether a hit is one that a ray makes, with no face nearer so far as the boxes tell, and with
/// the point and the normal that belong to it.
pub open spec fn ray_answered<O: Arithmetic>(
    mesh: Mesh,
    ops: &O,
    origin: Point,
    direction: Point,
    result: Option<RayHit>,
) -> bool {
    let enter = RayBoxes { ops, origin, direction };
    let hit = RayFaces { ops, origin, direction };
    let found = face_hit(result);
    &&& search::genuine(mesh.positions@, mesh.triangles@, hit, found)
    &&& forall|f: u32|
        f < mesh.triangles@.len() ==> #[trigger] mesh.topology.bvh.settled(
            mesh.positions@,
            mesh.triangles@,
            enter,
            hit,
            f,
            search::limit_of(found),
        )
    &&& result matches Some(hit) ==> {
        &&& hit.position == arithmetic::spec_plus(
            ops,
            origin,
            arithmetic::spec_times(ops, direction, hit.distance),
        )
        &&& hit.normal == shapes::shaded(
            ops,
            direction,
            shading_of(mesh, hit.triangle, hit.barycentric),
        )
    }
}

/// How often a ray crosses the faces in the boxes that it enters.
pub open spec fn counted<O: Arithmetic, W: WideArithmetic>(
    mesh: Mesh,
    ops: &O,
    wide: &W,
    origin: Point,
    direction: Point,
) -> RayIntersectionCount {
    let parity = RayCrossings { ops: wide, origin, direction };
    let faces = search::faces_entered(
        mesh.topology.bvh.nodes@,
        mesh.topology.bvh.leaf_faces@,
        RayBoxes { ops, origin, direction },
        0,
    );
    RayIntersectionCount {
        intersections: search::crossings(mesh.positions@, mesh.triangles@, parity, faces) as usize,
        ambiguous: search::doubts(mesh.positions@, mesh.triangles@, parity, faces),
    }
}

/// Whether a point is the nearest, given by its squared distance.
pub open spec fn closest_is<O: Arithmetic>(
    mesh: Mesh,
    ops: &O,
    point: Point,
    result: Option<ClosestSurfacePoint>,
    near: Option<NearPoint>,
) -> bool {
    let away = PointBoxes { ops, point };
    let nearest = PointFaces { ops, point };
    &&& search::measured(mesh.positions@, mesh.triangles@, nearest, near)
    &&& forall|f: u32|
        f < mesh.triangles@.len() ==> #[trigger] mesh.topology.bvh.outdone(
            mesh.positions@,
            mesh.triangles@,
            away,
            nearest,
            f,
            near,
        )
    &&& result is Some <==> near is Some
    &&& result matches Some(closest) ==> {
        &&& closest.triangle == near->0.triangle
        &&& closest.point == near->0.point
        &&& closest.barycentric == near->0.barycentric
        &&& closest.distance == ops.spec_root(near->0.distance_squared)
    }
}

/// Whether a point is the nearest, so far as the boxes tell; a point that is not finite has none.
pub open spec fn nearest_answered<O: Arithmetic>(
    mesh: Mesh,
    ops: &O,
    point: Point,
    result: Option<ClosestSurfacePoint>,
) -> bool {
    if point.finite() {
        exists|near: Option<NearPoint>| #[trigger] closest_is(mesh, ops, point, result, near)
    } else {
        result is None
    }
}

} // verus!
