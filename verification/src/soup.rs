//! Making an indexed mesh of triangles that come one by one with their corners.
use crate::collections::TripleMap;
use crate::geometry::Geometry;
use crate::mesh;
use crate::mesh::{CleanupReport, Mesh, MeshError};
use crate::orientation;
use crate::scalar;
use crate::scalar::Point;
use crate::topology;
use crate::topology::MeshTopology;
use vstd::prelude::*;

verus! {

/// Collects triangles and gives corners of identical bit patterns one vertex.
pub struct TriangleSoupBuilder {
    positions: Vec<Point>,
    triangles: Vec<[u32; 3]>,
    vertices: TripleMap,
    input_vertices: usize,
    input_triangles: usize,
}

/// The point that three patterns stand for.
pub open spec fn point_of(patterns: [u32; 3]) -> Point {
    Point { x: patterns@[0], y: patterns@[1], z: patterns@[2] }
}

/// The vertices after one more corner: the corner is added where no vertex is there yet.
pub open spec fn with_corner(vertices: Seq<Point>, corner: Point) -> Seq<Point> {
    if vertices.contains(corner) {
        vertices
    } else {
        vertices.push(corner)
    }
}

/// The vertices after several more corners.
pub open spec fn with_corners(vertices: Seq<Point>, corners: Seq<Point>) -> Seq<Point>
    decreases corners.len(),
{
    if corners.len() == 0 {
        vertices
    } else {
        with_corner(with_corners(vertices, corners.drop_last()), corners.last())
    }
}

/// Whether indices pick out given points.
pub open spec fn picks(vertices: Seq<Point>, triangle: [u32; 3], corners: Seq<Point>) -> bool {
    &&& mesh::corners_exist(triangle, vertices.len())
    &&& vertices[triangle@[0] as int] == corners[0]
    &&& vertices[triangle@[1] as int] == corners[1]
    &&& vertices[triangle@[2] as int] == corners[2]
}

/// Whether a new vertex for the corner would have no index left.
pub open spec fn no_index_left(vertices: Seq<Point>, corner: Point) -> bool {
    !vertices.contains(corner) && vertices.len() > u32::MAX
}

impl TriangleSoupBuilder {
    pub closed spec fn vertices(self) -> Seq<Point> {
        self.positions@
    }

    pub closed spec fn faces(self) -> Seq<[u32; 3]> {
        self.triangles@
    }

    /// The number of corners of the triangles taken.
    pub closed spec fn corner_count(self) -> nat {
        self.input_vertices as nat
    }

    pub closed spec fn well_formed(self) -> bool {
        &&& self.positions@.no_duplicates()
        &&& forall|key: [u32; 3]| #[trigger]
            self.vertices@.contains_key(key) <==> self.positions@.contains(point_of(key))
        &&& forall|key: [u32; 3]| #[trigger]
            self.vertices@.contains_key(key) ==> self.vertices@[key] < self.positions@.len()
                && self.positions@[self.vertices@[key] as int] == point_of(key)
        &&& self.input_vertices == 3 * self.triangles@.len()
        &&& self.input_triangles == self.triangles@.len()
        &&& self.input_vertices <= u32::MAX
    }

    /// A builder without triangles.
    pub fn new() -> (result: TriangleSoupBuilder)
        ensures
            result.well_formed(),
            result.vertices() == Seq::<Point>::empty(),
            result.faces() == Seq::<[u32; 3]>::empty(),
            result.corner_count() == 0,
    {
        TriangleSoupBuilder {
            positions: Vec::new(),
            triangles: Vec::new(),
            vertices: TripleMap::new(),
            input_vertices: 0,
            input_triangles: 0,
        }
    }

    /// A builder without triangles that has room for some.
    pub fn with_triangle_capacity(triangle_count: usize) -> (result: TriangleSoupBuilder)
        ensures
            result.well_formed(),
            result.vertices() == Seq::<Point>::empty(),
            result.faces() == Seq::<[u32; 3]>::empty(),
            result.corner_count() == 0,
    {
        TriangleSoupBuilder {
            positions: Vec::with_capacity(triangle_count),
            triangles: Vec::with_capacity(triangle_count),
            vertices: TripleMap::new(),
            input_vertices: 0,
            input_triangles: 0,
        }
    }

    /// Finds or makes the vertex of a corner.
    fn weld(&mut self, corner: Point) -> (result: Option<u32>)
        requires
            old(self).well_formed(),
        ensures
            final(self).well_formed(),
            final(self).faces() == old(self).faces(),
            final(self).corner_count() == old(self).corner_count(),
            result is None <==> no_index_left(old(self).vertices(), corner),
            result is None ==> final(self).vertices() == old(self).vertices(),
            result is Some ==> final(self).vertices() == with_corner(old(self).vertices(), corner)
                && result->0 < final(self).vertices().len() && final(
                self).vertices()[result->0 as int] == corner,
    {
        let key: [u32; 3] = [corner.x, corner.y, corner.z];
        assert(point_of(key) == corner);
        let ghost before = *self;
        assert(before.vertices@.contains_key(key) <==> before.positions@.contains(corner));
        match self.vertices.get(key) {
            Some(index) => Some(index),
            None => {
                if self.positions.len() > u32::MAX as usize {
                    return None;
                }
                let index = self.positions.len() as u32;
                self.vertices.insert(key, index);
                self.positions.push(corner);
                proof {
                    let after = *self;
                    assert(after.positions@[before.positions@.len() as int] == corner);
                    assert forall|other: [u32; 3]| #[trigger]
                        after.vertices@.contains_key(other) <==> after.positions@.contains(
                            point_of(other),
                        ) by {
                        if other != key {
                            assert(point_of(other) != corner) by {
                                if point_of(other) == corner {
                                    assert(other@[0] == key@[0] && other@[1] == key@[1] && other@[2]
                                        == key@[2]);
                                    assert(other@ =~= key@);
                                    assert(other == key);
                                }
                            }
                        }
                        if before.vertices@.contains_key(other) {
                            let i = choose|i: int|
                                0 <= i < before.positions@.len() && before.positions@[i]
                                    == point_of(other);
                            assert(after.positions@[i] == point_of(other));
                        }
                        if after.positions@.contains(point_of(other)) && other != key {
                            let i = choose|i: int|
                                0 <= i < after.positions@.len() && after.positions@[i] == point_of(
                                    other,
                                );
                            assert(before.positions@[i] == point_of(other));
                            assert(before.positions@.contains(point_of(other)));
                        }
                    }
                }
                Some(index)
            },
        }
    }

    /// Takes a triangle.
    ///
    /// A triangle with a corner that is not finite is refused; the vertices of the corners before
    /// it stay.
    pub fn push_triangle(&mut self, triangle: [Point; 3]) -> (result: Result<(), MeshError>)
        requires
            old(self).well_formed(),
        ensures
            final(self).well_formed(),
            result is Ok ==> {
                &&& old(self).corner_count() <= u32::MAX - 3
                &&& triangle@[0].finite() && triangle@[1].finite() && triangle@[2].finite()
                &&& final(self).vertices() == with_corners(old(self).vertices(), triangle@)
                &&& final(self).faces().len() == old(self).faces().len() + 1
                &&& final(self).faces().drop_last() == old(self).faces()
                &&& picks(final(self).vertices(), final(self).faces().last(), triangle@)
                &&& final(self).corner_count() == old(self).corner_count() + 3
            },
            result is Err ==> {
                &&& final(self).faces() == old(self).faces()
                &&& final(self).corner_count() == old(self).corner_count()
            },
            result matches Err(error) ==> match error {
                MeshError::NonFiniteVertex { index } => {
                    let corner = index - old(self).corner_count();
                    &&& old(self).corner_count() <= u32::MAX - 3
                    &&& 0 <= corner < 3
                    &&& !triangle@[corner].finite()
                    &&& forall|k: int| 0 <= k < corner ==> (#[trigger] triangle@[k]).finite()
                    &&& final(self).vertices() == with_corners(
                        old(self).vertices(),
                        triangle@.take(corner),
                    )
                },
                MeshError::TooManyVertices => {
                    ||| old(self).corner_count() > u32::MAX - 3 && final(self).vertices() == old(
                        self).vertices()
                    ||| exists|corner: int|
                        0 <= corner < 3 && #[trigger] no_index_left(
                            with_corners(old(self).vertices(), triangle@.take(corner)),
                            triangle@[corner],
                        ) && final(self).vertices() == with_corners(
                            old(self).vertices(),
                            triangle@.take(corner),
                        )
                },
                _ => false,
            },
    {
        if self.input_vertices > u32::MAX as usize - 3 {
            return Err(MeshError::TooManyVertices);
        }
        let ghost begun = *self;
        let mut indices: [u32; 3] = [0, 0, 0];
        let mut corner: usize = 0;
        assert(triangle@.take(0) =~= Seq::<Point>::empty());
        while corner < 3
            invariant
                corner <= 3,
                self.well_formed(),
                begun == *old(self),
                begun.input_vertices <= u32::MAX - 3,
                self.triangles@ == begun.triangles@,
                self.input_vertices == begun.input_vertices,
                self.positions@ == with_corners(begun.positions@, triangle@.take(corner as int)),
                forall|k: int| 0 <= k < corner ==> (#[trigger] triangle@[k]).finite(),
                forall|k: int|
                    0 <= k < corner ==> #[trigger] indices@[k] < self.positions@.len()
                        && self.positions@[indices@[k] as int] == triangle@[k],
            decreases 3 - corner,
        {
            let position = triangle[corner];
            if !position.is_finite() {
                return Err(MeshError::NonFiniteVertex { index: self.input_vertices + corner });
            }
            let ghost before = self.positions@;
            proof {
                assert(triangle@.take(corner + 1).drop_last() =~= triangle@.take(corner as int));
            }
            match self.weld(position) {
                Some(index) => {
                    let ghost chosen = indices@;
                    indices[corner] = index;
                    proof {
                        assert forall|k: int| 0 <= k < corner + 1 implies #[trigger] indices@[k]
                            < self.positions@.len() && self.positions@[indices@[k] as int]
                            == triangle@[k] by {
                            if k < corner {
                                assert(indices@[k] == chosen[k]);
                                assert(before[chosen[k] as int] == triangle@[k]);
                            }
                        }
                    }
                },
                None => {
                    assert(no_index_left(
                        with_corners(begun.vertices(), triangle@.take(corner as int)),
                        triangle@[corner as int],
                    ));
                    return Err(MeshError::TooManyVertices);
                },
            }
            corner += 1;
        }
        assert(triangle@.take(3) =~= triangle@);
        self.triangles.push(indices);
        self.input_triangles += 1;
        self.input_vertices += 3;
        proof {
            assert(self.triangles@.drop_last() =~= begun.triangles@);
            assert(indices@[0] < self.positions@.len());
            assert(indices@[1] < self.positions@.len());
            assert(indices@[2] < self.positions@.len());
        }
        Ok(())
    }

    /// Makes a cleaned-up mesh of the triangles taken.
    pub fn finish<G: Geometry>(self, geometry: &G) -> (result: (Mesh, CleanupReport))
        requires
            geometry.total(),
            self.well_formed(),
            self.vertices().len() <= u32::MAX,
        ensures
            finished(geometry, self.vertices(), self.faces(), self.corner_count(), result),
    {
        let unique_vertices = self.positions.len();
        let mut mesh = Mesh {
            positions: self.positions,
            triangles: self.triangles,
            normals: Vec::new(),
            mask: vec![scalar::ZERO; unique_vertices],
            topology: MeshTopology::default(),
        };
        let ghost begun = mesh;
        let mut report = mesh.rebuild(geometry);
        let ghost first = report;
        report.input_vertices = self.input_vertices;
        report.input_triangles = self.input_triangles;
        report.welded_vertices = if self.input_vertices > unique_vertices {
            self.input_vertices - unique_vertices
        } else {
            0
        };
        proof {
            let flips = choose|flips: Seq<bool>| #[trigger]
                mesh::rebuilt(geometry, begun, mesh, first, flips);
            let kept = mesh::kept_faces(geometry, self.positions@, self.triangles@);
            assert(orientation::follows_routes(kept, flips));
            assert(mesh.mask@ =~= Seq::new(self.positions@.len(), |i: int| scalar::ZERO));
        }
        (mesh, report)
    }
}

/// Whether a mesh is made of welded triangles, and whether the report says how.
pub open spec fn finished<G: Geometry>(
    geometry: &G,
    vertices: Seq<Point>,
    faces: Seq<[u32; 3]>,
    corner_count: nat,
    result: (Mesh, CleanupReport),
) -> bool {
    let mesh = result.0;
    let report = result.1;
    let kept = mesh::kept_faces(geometry, vertices, faces);
    &&& mesh.positions@ == vertices
    &&& exists|flips: Seq<bool>| #[trigger]
        orientation::follows_routes(kept, flips) && orientation::flipped(
            kept,
            flips,
            mesh.triangles@,
        ) && report.flipped_faces == orientation::count_flips(flips)
    &&& mesh.mask@ == Seq::new(vertices.len(), |i: int| scalar::ZERO)
    &&& mesh.well_formed()
    &&& mesh.smooth(geometry)
    &&& mesh.topology.bvh.fits(mesh.positions@, mesh.triangles@)
    &&& report.input_vertices == corner_count
    &&& report.input_triangles == faces.len()
    &&& report.welded_vertices == if corner_count > vertices.len() {
        corner_count - vertices.len()
    } else {
        0
    }
    &&& report.removed_invalid_faces == mesh::count_judged(
        geometry,
        vertices,
        faces,
        mesh::Verdict::Invalid,
    )
    &&& report.removed_degenerate_faces == mesh::count_judged(
        geometry,
        vertices,
        faces,
        mesh::Verdict::Degenerate,
    )
    &&& report.removed_duplicate_faces == mesh::count_judged(
        geometry,
        vertices,
        faces,
        mesh::Verdict::Duplicate,
    )
    &&& report.output_vertices == vertices.len()
    &&& report.output_triangles == mesh.triangles@.len()
    &&& report.boundary_edges == topology::boundary_edges(mesh.topology.edge_faces@).len()
    &&& report.boundary_vertices == topology::count_set(mesh.topology.boundary_vertices@)
    &&& report.non_manifold_edges == topology::crowded_edges(mesh.topology.edge_faces@).len()
    &&& report.non_manifold_vertices == topology::count_set(mesh.topology.non_manifold_vertices@)
}

/// The vertices of triangles that are welded one after the other.
pub open spec fn welded(soup: Seq<[Point; 3]>) -> Seq<Point>
    decreases soup.len(),
{
    if soup.len() == 0 {
        Seq::empty()
    } else {
        with_corners(welded(soup.drop_last()), soup.last()@)
    }
}

/// Whether faces pick out the corners of triangles.
pub open spec fn faces_pick(
    vertices: Seq<Point>,
    faces: Seq<[u32; 3]>,
    soup: Seq<[Point; 3]>,
) -> bool {
    &&& faces.len() == soup.len()
    &&& forall|i: int| 0 <= i < soup.len() ==> picks(vertices, #[trigger] faces[i], soup[i]@)
}

pub open spec fn finite_triangle(triangle: [Point; 3]) -> bool {
    triangle@[0].finite() && triangle@[1].finite() && triangle@[2].finite()
}

/// Adding corners keeps the vertices that are there, adds no duplicate, and has every corner.
pub proof fn welding_keeps_vertices(vertices: Seq<Point>, corners: Seq<Point>)
    ensures
        vertices.len() <= with_corners(vertices, corners).len() <= vertices.len() + corners.len(),
        forall|i: int|
            0 <= i < vertices.len() ==> #[trigger] with_corners(vertices, corners)[i]
                == vertices[i],
        forall|k: int|
            0 <= k < corners.len() ==> with_corners(vertices, corners).contains(
                #[trigger] corners[k],
            ),
        vertices.no_duplicates() ==> with_corners(vertices, corners).no_duplicates(),
    decreases corners.len(),
{
    if corners.len() > 0 {
        let front = corners.drop_last();
        welding_keeps_vertices(vertices, front);
        let before = with_corners(vertices, front);
        let after = with_corners(vertices, corners);
        assert forall|k: int| 0 <= k < corners.len() implies after.contains(
            #[trigger] corners[k],
        ) by {
            if k < front.len() {
                assert(before.contains(front[k]));
                let i = choose|i: int| 0 <= i < before.len() && before[i] == front[k];
                assert(after[i] == corners[k]);
            } else if !before.contains(corners.last()) {
                assert(after[before.len() as int] == corners[k]);
            }
        }
    }
}

impl Mesh {
    /// Makes a cleaned-up mesh of triangles, with corners of identical bit patterns welded.
    pub fn from_triangle_soup<G: Geometry>(
        soup: &Vec<[Point; 3]>,
        geometry: &G,
    ) -> (result: Result<(Mesh, CleanupReport), MeshError>)
        requires
            geometry.total(),
        ensures
            3 * soup@.len() > u32::MAX <==> result == Err::<(Mesh, CleanupReport), MeshError>(
                MeshError::TooManyVertices,
            ),
            result matches Err(error) ==> match error {
                MeshError::TooManyVertices => true,
                MeshError::NonFiniteVertex { index } => {
                    let face = index as int / 3;
                    let corner = index as int % 3;
                    &&& index < 3 * soup@.len()
                    &&& !soup@[face]@[corner].finite()
                    &&& forall|k: int| 0 <= k < corner ==> (#[trigger] soup@[face]@[k]).finite()
                    &&& forall|i: int| 0 <= i < face ==> finite_triangle(#[trigger] soup@[i])
                },
                _ => false,
            },
            result is Ok ==> {
                &&& forall|i: int| 0 <= i < soup@.len() ==> finite_triangle(#[trigger] soup@[i])
                &&& exists|faces: Seq<[u32; 3]>| #[trigger]
                    faces_pick(welded(soup@), faces, soup@) && finished(
                        geometry,
                        welded(soup@),
                        faces,
                        3 * soup@.len(),
                        result->Ok_0,
                    )
            },
    {
        if soup.len() > (u32::MAX / 3) as usize {
            return Err(MeshError::TooManyVertices);
        }
        let mut builder = TriangleSoupBuilder::with_triangle_capacity(soup.len());
        let mut i: usize = 0;
        proof {
            assert(soup@.take(0) =~= Seq::<[Point; 3]>::empty());
        }
        while i < soup.len()
            invariant
                i <= soup@.len(),
                3 * soup@.len() <= u32::MAX,
                builder.well_formed(),
                builder.corner_count() == 3 * i,
                builder.vertices() == welded(soup@.take(i as int)),
                builder.vertices().len() <= 3 * i,
                faces_pick(builder.vertices(), builder.faces(), soup@.take(i as int)),
                forall|k: int| 0 <= k < i ==> finite_triangle(#[trigger] soup@[k]),
            decreases soup@.len() - i,
        {
            let triangle = soup[i];
            let ghost before = builder;
            proof {
                assert(soup@.take(i + 1).drop_last() =~= soup@.take(i as int));
                welding_keeps_vertices(before.vertices(), triangle@);
                lemma_partial(before.vertices(), triangle@);
            }
            match builder.push_triangle(triangle) {
                Ok(()) => {},
                Err(error) => {
                    return Err(error);
                },
            }
            proof {
                let after = builder.vertices();
                assert forall|k: int| 0 <= k < i + 1 implies picks(
                    after,
                    #[trigger] builder.faces()[k],
                    soup@.take(i + 1)[k]@,
                ) by {
                    if k < i {
                        assert(builder.faces().drop_last()[k] == before.faces()[k]);
                        assert(picks(
                            before.vertices(),
                            before.faces()[k],
                            soup@.take(i as int)[k]@,
                        ));
                    }
                }
            }
            i += 1;
        }
        assert(soup@.take(i as int) =~= soup@);
        let ghost faces = builder.faces();
        assert(faces_pick(welded(soup@), faces, soup@));
        Ok(builder.finish(geometry))
    }
}

/// With few vertices there is an index left for every corner of a triangle.
pub proof fn lemma_partial(vertices: Seq<Point>, corners: Seq<Point>)
    ensures
        forall|k: int|
            0 <= k <= corners.len() ==> #[trigger] with_corners(vertices, corners.take(k)).len()
                <= vertices.len() + k,
{
    assert forall|k: int| 0 <= k <= corners.len() implies #[trigger] with_corners(
        vertices,
        corners.take(k),
    ).len() <= vertices.len() + k by {
        welding_keeps_vertices(vertices, corners.take(k));
    }
}

} // verus!
