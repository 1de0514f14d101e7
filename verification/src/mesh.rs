//! Triangle meshes, and bringing them into a usable state.
use crate::bvh;
use crate::collections::TripleSet;
use crate::geometry::Geometry;
use crate::orientation;
use crate::scalar;
use crate::scalar::Point;
use crate::topology;
use crate::topology::MeshTopology;
use crate::winding;
use vstd::prelude::*;

verus! {

/// Why a mesh is not usable.
#[derive(Clone, Copy, Debug, PartialEq, Eq, Structural)]
pub enum MeshError {
    NonFiniteVertex { index: usize },
    IndexOutOfBounds { triangle: usize, index: u32, vertex_count: usize },
    TooManyVertices,
    NormalCountMismatch { actual: usize, expected: usize },
    MaskCountMismatch { actual: usize, expected: usize },
    DegenerateTriangle { triangle: usize },
    DuplicateTriangle { triangle: usize },
    InvalidMask { index: usize },
}

/// What a mesh was made from, and what was done to it.
#[derive(Clone, Copy, Debug, PartialEq, Eq, Structural)]
pub struct CleanupReport {
    pub input_vertices: usize,
    pub input_triangles: usize,
    pub welded_vertices: usize,
    pub removed_invalid_faces: usize,
    pub removed_degenerate_faces: usize,
    pub removed_duplicate_faces: usize,
    pub flipped_faces: usize,
    pub output_vertices: usize,
    pub output_triangles: usize,
    pub boundary_edges: usize,
    pub boundary_vertices: usize,
    pub non_manifold_edges: usize,
    pub non_manifold_vertices: usize,
}

impl Default for CleanupReport {
    fn default() -> (result: CleanupReport)
        ensures
            result == (CleanupReport {
                input_vertices: 0,
                input_triangles: 0,
                welded_vertices: 0,
                removed_invalid_faces: 0,
                removed_degenerate_faces: 0,
                removed_duplicate_faces: 0,
                flipped_faces: 0,
                output_vertices: 0,
                output_triangles: 0,
                boundary_edges: 0,
                boundary_vertices: 0,
                non_manifold_edges: 0,
                non_manifold_vertices: 0,
            }),
    {
        CleanupReport {
            input_vertices: 0,
            input_triangles: 0,
            welded_vertices: 0,
            removed_invalid_faces: 0,
            removed_degenerate_faces: 0,
            removed_duplicate_faces: 0,
            flipped_faces: 0,
            output_vertices: 0,
            output_triangles: 0,
            boundary_edges: 0,
            boundary_vertices: 0,
            non_manifold_edges: 0,
            non_manifold_vertices: 0,
        }
    }
}

/// An indexed triangle mesh with a normal and a mask weight for every vertex.
#[derive(Debug)]
pub struct Mesh {
    pub positions: Vec<Point>,
    pub triangles: Vec<[u32; 3]>,
    pub normals: Vec<Point>,
    pub mask: Vec<u32>,
    pub topology: MeshTopology,
}

/// The first corner of a triangle that is no vertex.
pub open spec fn first_bad_corner(triangle: [u32; 3], vertex_count: nat) -> u32 {
    if triangle@[0] >= vertex_count {
        triangle@[0]
    } else if triangle@[1] >= vertex_count {
        triangle@[1]
    } else {
        triangle@[2]
    }
}

pub open spec fn corners_exist(triangle: [u32; 3], vertex_count: nat) -> bool {
    triangle@[0] < vertex_count && triangle@[1] < vertex_count && triangle@[2] < vertex_count
}

pub open spec fn all_finite(positions: Seq<Point>, count: int) -> bool {
    forall|i: int| 0 <= i < count ==> (#[trigger] positions[i]).finite()
}

pub open spec fn all_exist(triangles: Seq<[u32; 3]>, vertex_count: nat, count: int) -> bool {
    forall|i: int| 0 <= i < count ==> corners_exist(#[trigger] triangles[i], vertex_count)
}

pub open spec fn all_weights(mask: Seq<u32>, count: int) -> bool {
    forall|i: int| 0 <= i < count ==> scalar::in_unit(#[trigger] mask[i])
}

/// What checking positions and triangles reports: the first thing amiss, positions first.
pub open spec fn indexing_error(
    positions: Seq<Point>,
    triangles: Seq<[u32; 3]>,
    error: MeshError,
) -> bool {
    match error {
        MeshError::TooManyVertices => positions.len() > u32::MAX,
        MeshError::NonFiniteVertex { index } => {
            &&& positions.len() <= u32::MAX
            &&& index < positions.len()
            &&& !positions[index as int].finite()
            &&& all_finite(positions, index as int)
        },
        MeshError::IndexOutOfBounds { triangle, index, vertex_count } => {
            &&& positions.len() <= u32::MAX
            &&& all_finite(positions, positions.len() as int)
            &&& triangle < triangles.len()
            &&& !corners_exist(triangles[triangle as int], positions.len())
            &&& index == first_bad_corner(triangles[triangle as int], positions.len())
            &&& vertex_count == positions.len()
            &&& all_exist(triangles, positions.len(), triangle as int)
        },
        _ => false,
    }
}

/// Whether positions and triangles have nothing amiss.
pub open spec fn sound_indexing(positions: Seq<Point>, triangles: Seq<[u32; 3]>) -> bool {
    &&& positions.len() <= u32::MAX
    &&& all_finite(positions, positions.len() as int)
    &&& all_exist(triangles, positions.len(), triangles.len() as int)
}

fn validate_positions_and_indices(
    positions: &Vec<Point>,
    triangles: &Vec<[u32; 3]>,
) -> (result: Result<(), MeshError>)
    ensures
        result is Ok ==> sound_indexing(positions@, triangles@),
        result is Err ==> indexing_error(positions@, triangles@, result->Err_0),
{
    if positions.len() > u32::MAX as usize {
        return Err(MeshError::TooManyVertices);
    }
    let vertex_count = positions.len();
    let mut i: usize = 0;
    while i < positions.len()
        invariant
            i <= positions@.len() <= u32::MAX,
            all_finite(positions@, i as int),
        decreases positions@.len() - i,
    {
        if !positions[i].is_finite() {
            return Err(MeshError::NonFiniteVertex { index: i });
        }
        i += 1;
    }
    let mut t: usize = 0;
    while t < triangles.len()
        invariant
            t <= triangles@.len(),
            vertex_count == positions@.len() <= u32::MAX,
            all_finite(positions@, vertex_count as int),
            all_exist(triangles@, vertex_count as nat, t as int),
        decreases triangles@.len() - t,
    {
        let triangle = triangles[t];
        let mut corner: usize = 0;
        while corner < 3
            invariant
                corner <= 3,
                t < triangles@.len(),
                triangle == triangles@[t as int],
                vertex_count == positions@.len() <= u32::MAX,
                all_finite(positions@, vertex_count as int),
                all_exist(triangles@, vertex_count as nat, t as int),
                forall|k: int| 0 <= k < corner ==> #[trigger] triangle@[k] < vertex_count,
            decreases 3 - corner,
        {
            let index = triangle[corner];
            if index as usize >= vertex_count {
                assert(corner > 0 ==> triangle@[0] < vertex_count);
                assert(corner > 1 ==> triangle@[1] < vertex_count);
                return Err(MeshError::IndexOutOfBounds { triangle: t, index, vertex_count });
            }
            corner += 1;
        }
        assert(triangle@[0] < vertex_count && triangle@[1] < vertex_count && triangle@[2]
            < vertex_count);
        t += 1;
    }
    Ok(())
}

/// Finds the first weight that is no number from 0 to 1.
fn first_invalid_weight(mask: &Vec<u32>) -> (result: Option<usize>)
    ensures
        result is None ==> all_weights(mask@, mask@.len() as int),
        result is Some ==> result->0 < mask@.len() && !scalar::in_unit(mask@[result->0 as int])
            && all_weights(mask@, result->0 as int),
{
    let mut i: usize = 0;
    while i < mask.len()
        invariant
            i <= mask@.len(),
            all_weights(mask@, i as int),
        decreases mask@.len() - i,
    {
        if !scalar::is_in_unit(mask[i]) {
            return Some(i);
        }
        i += 1;
    }
    None
}

/// The corners of a triangle in ascending order.
pub open spec fn sorted_corners(triangle: [u32; 3]) -> Seq<u32> {
    let a = triangle@[0];
    let b = triangle@[1];
    let c = triangle@[2];
    if a <= b && b <= c {
        seq![a, b, c]
    } else if a <= c && c <= b {
        seq![a, c, b]
    } else if b <= a && a <= c {
        seq![b, a, c]
    } else if b <= c && c <= a {
        seq![b, c, a]
    } else if c <= a && a <= b {
        seq![c, a, b]
    } else {
        seq![c, b, a]
    }
}

pub fn sorted_triangle(triangle: [u32; 3]) -> (result: [u32; 3])
    ensures
        result@ == sorted_corners(triangle),
{
    let a = triangle[0];
    let b = triangle[1];
    let c = triangle[2];
    let (low, high) = if a <= b {
        (a, b)
    } else {
        (b, a)
    };
    let result: [u32; 3] = if c <= low {
        [c, low, high]
    } else if c <= high {
        [low, c, high]
    } else {
        [low, high, c]
    };
    assert(result@ =~= sorted_corners(triangle));
    result
}

/// Two faces have the same sorted corners exactly where they join the same vertices, however they
/// are wound.
pub proof fn sorted_corners_tell_faces_apart(a: [u32; 3], b: [u32; 3])
    requires
        topology::distinct_corners(a),
        topology::distinct_corners(b),
    ensures
        sorted_corners(a) == sorted_corners(b) <==> forall|v: u32|
            topology::is_corner(a, v) <==> topology::is_corner(b, v),
{
    let x = sorted_corners(a);
    let y = sorted_corners(b);
    assert forall|v: u32| topology::is_corner(a, v) <==> v == x[0] || v == x[1] || v == x[2] by {}
    assert forall|v: u32| topology::is_corner(b, v) <==> v == y[0] || v == y[1] || v == y[2] by {}
    if forall|v: u32| topology::is_corner(a, v) <==> topology::is_corner(b, v) {
        assert(topology::is_corner(a, x[0]) && topology::is_corner(a, x[1]) && topology::is_corner(
            a,
            x[2],
        ));
        assert(topology::is_corner(b, y[0]) && topology::is_corner(b, y[1]) && topology::is_corner(
            b,
            y[2],
        ));
        assert(x =~= y);
    }
    if x == y {
        assert forall|v: u32| topology::is_corner(a, v) <==> topology::is_corner(b, v) by {
            assert(topology::is_corner(a, v) <==> v == x[0] || v == x[1] || v == x[2]);
        }
    }
}

/// Whether a triangle has three corners and more than a negligible area.
pub open spec fn usable<G: Geometry>(
    geometry: &G,
    positions: Seq<Point>,
    triangle: [u32; 3],
) -> bool {
    topology::distinct_corners(triangle) && geometry.spec_well_shaped(
        positions[triangle@[0] as int],
        positions[triangle@[1] as int],
        positions[triangle@[2] as int],
    )
}

pub fn triangle_is_valid<G: Geometry>(
    positions: &Vec<Point>,
    triangle: [u32; 3],
    geometry: &G,
) -> (result: bool)
    requires
        geometry.total(),
        corners_exist(triangle, positions@.len()),
    ensures
        result == usable(geometry, positions@, triangle),
{
    if triangle[0] == triangle[1] || triangle[1] == triangle[2] || triangle[2] == triangle[0] {
        return false;
    }
    geometry.well_shaped(
        positions[triangle[0] as usize],
        positions[triangle[1] as usize],
        positions[triangle[2] as usize],
    )
}

/// The normals of some faces, as long as twice their areas, in order; those that are not finite
/// may be left out.
pub open spec fn crosses_of<G: Geometry>(
    geometry: &G,
    positions: Seq<Point>,
    triangles: Seq<[u32; 3]>,
    faces: Seq<u32>,
    finite_only: bool,
) -> Seq<Point>
    decreases faces.len(),
{
    if faces.len() == 0 {
        Seq::empty()
    } else {
        let front = crosses_of(geometry, positions, triangles, faces.drop_last(), finite_only);
        let face = faces.last();
        let cross = geometry.spec_cross(
            bvh::corner(positions, triangles, face, 0),
            bvh::corner(positions, triangles, face, 1),
            bvh::corner(positions, triangles, face, 2),
        );
        if finite_only && !cross.finite() {
            front
        } else {
            front.push(cross)
        }
    }
}

/// The normal of a vertex: the direction of the sum of its faces' normals.
pub open spec fn vertex_normal<G: Geometry>(
    geometry: &G,
    positions: Seq<Point>,
    triangles: Seq<[u32; 3]>,
    vertex: u32,
    finite_only: bool,
) -> Point {
    geometry.spec_direction(
        crosses_of(
            geometry,
            positions,
            triangles,
            topology::incident_faces(triangles, vertex),
            finite_only,
        ),
    )
}

/// Works out the normal of a vertex from the faces around it.
pub(crate) fn normal_from_faces<G: Geometry>(
    positions: &Vec<Point>,
    triangles: &Vec<[u32; 3]>,
    faces: &[u32],
    finite_only: bool,
    geometry: &G,
) -> (result: Point)
    requires
        geometry.total(),
        bvh::indexed(triangles@, positions@.len()),
        forall|i: int| 0 <= i < faces@.len() ==> #[trigger] faces@[i] < triangles@.len(),
    ensures
        result == geometry.spec_direction(
            crosses_of(geometry, positions@, triangles@, faces@, finite_only),
        ),
{
    let mut crosses: Vec<Point> = Vec::with_capacity(faces.len());
    let mut k: usize = 0;
    assert(faces@.take(0) =~= Seq::<u32>::empty());
    while k < faces.len()
        invariant
            k <= faces@.len(),
            geometry.total(),
            bvh::indexed(triangles@, positions@.len()),
            forall|i: int| 0 <= i < faces@.len() ==> #[trigger] faces@[i] < triangles@.len(),
            crosses@ == crosses_of(
                geometry,
                positions@,
                triangles@,
                faces@.take(k as int),
                finite_only,
            ),
        decreases faces@.len() - k,
    {
        let triangle = triangles[faces[k] as usize];
        let cross = geometry.cross(
            positions[triangle[0] as usize],
            positions[triangle[1] as usize],
            positions[triangle[2] as usize],
        );
        assert(faces@.take(k + 1).drop_last() =~= faces@.take(k as int));
        if !finite_only || cross.is_finite() {
            crosses.push(cross);
        }
        k += 1;
    }
    assert(faces@.take(k as int) =~= faces@);
    geometry.direction(&crosses)
}

impl Mesh {
    /// Whether the arrays of a mesh belong together.
    pub open spec fn well_formed(self) -> bool {
        &&& self.positions@.len() <= u32::MAX
        &&& self.triangles@.len() <= u32::MAX
        &&& topology::well_indexed(self.triangles@, self.positions@.len())
        &&& self.normals@.len() == self.positions@.len()
        &&& self.mask@.len() == self.positions@.len()
        &&& self.topology.describes(self.triangles@, self.positions@.len())
        &&& self.topology.bvh.holds(self.triangles@.len())
    }

    /// Whether every normal is what the faces around its vertex give it, faces without a finite
    /// normal left out.
    pub open spec fn smooth<G: Geometry>(self, geometry: &G) -> bool {
        &&& self.normals@.len() == self.positions@.len()
        &&& forall|v: int|
            0 <= v < self.positions@.len() ==> #[trigger] self.normals@[v] == vertex_normal(
                geometry,
                self.positions@,
                self.triangles@,
                v as u32,
                true,
            )
    }

    pub(crate) fn recompute_normals_without_bvh_refit<G: Geometry>(&mut self, geometry: &G)
        requires
            geometry.total(),
            old(self).positions@.len() <= u32::MAX,
            old(self).triangles@.len() <= u32::MAX,
            topology::well_indexed(old(self).triangles@, old(self).positions@.len()),
            old(self).topology.describes(old(self).triangles@, old(self).positions@.len()),
        ensures
            final(self).smooth(geometry),
            final(self).positions == old(self).positions,
            final(self).triangles == old(self).triangles,
            final(self).mask == old(self).mask,
            final(self).topology == old(self).topology,
    {
        proof {
            lemma_indexed(self.triangles@, self.positions@.len());
        }
        let count = self.positions.len();
        let mut normals: Vec<Point> = Vec::with_capacity(count);
        let mut v: usize = 0;
        while v < count
            invariant
                v <= count,
                *self == *old(self),
                geometry.total(),
                count == self.positions@.len() <= u32::MAX,
                self.triangles@.len() <= u32::MAX,
                bvh::indexed(self.triangles@, self.positions@.len()),
                self.topology.describes(self.triangles@, self.positions@.len()),
                normals@.len() == v,
                forall|i: int|
                    0 <= i < v ==> #[trigger] normals@[i] == vertex_normal(
                        geometry,
                        self.positions@,
                        self.triangles@,
                        i as u32,
                        true,
                    ),
            decreases count - v,
        {
            let faces = self.topology.vertex_triangles[v].as_slice();
            proof {
                topology::lemma_faces_with(
                    self.triangles@,
                    |triangle: [u32; 3]| topology::is_corner(triangle, v as u32),
                );
                assert(faces@ == topology::incident_faces(self.triangles@, v as u32));
            }
            let normal = normal_from_faces(&self.positions, &self.triangles, faces, true, geometry);
            normals.push(normal);
            v += 1;
        }
        self.normals = normals;
    }
}

pub proof fn lemma_indexed(triangles: Seq<[u32; 3]>, vertex_count: nat)
    requires
        topology::well_indexed(triangles, vertex_count),
    ensures
        bvh::indexed(triangles, vertex_count),
{
    assert forall|i: int| 0 <= i < triangles.len() implies {
        let triangle = #[trigger] triangles[i];
        &&& triangle@[0] < vertex_count
        &&& triangle@[1] < vertex_count
        &&& triangle@[2] < vertex_count
    } by {}
}

/// Whether one of some triangles joins the same vertices as a triangle.
pub open spec fn repeats(earlier: Seq<[u32; 3]>, triangle: [u32; 3]) -> bool {
    exists|j: int|
        0 <= j < earlier.len() && sorted_corners(#[trigger] earlier[j]) == sorted_corners(triangle)
}

/// Whether triangles are usable and none joins the vertices of an earlier one.
pub open spec fn clean<G: Geometry>(
    geometry: &G,
    positions: Seq<Point>,
    triangles: Seq<[u32; 3]>,
    count: int,
) -> bool {
    forall|i: int|
        0 <= i < count ==> usable(geometry, positions, #[trigger] triangles[i]) && !repeats(
            triangles.take(i),
            triangles[i],
        )
}

/// What is amiss with indexed geometry that is to be taken as it is: the first fault in the order
/// in which positions, triangle indices, mask and faces are looked at.
pub open spec fn indexed_geometry_error<G: Geometry>(
    geometry: &G,
    positions: Seq<Point>,
    triangles: Seq<[u32; 3]>,
    mask: Seq<u32>,
    error: MeshError,
) -> bool {
    let sound = sound_indexing(positions, triangles);
    let masked = mask.len() == positions.len() && all_weights(mask, mask.len() as int);
    match error {
        MeshError::MaskCountMismatch { actual, expected } => {
            sound && mask.len() != positions.len() && actual == mask.len() && expected
                == positions.len()
        },
        MeshError::InvalidMask { index } => {
            &&& sound
            &&& mask.len() == positions.len()
            &&& index < mask.len()
            &&& !scalar::in_unit(mask[index as int])
            &&& all_weights(mask, index as int)
        },
        MeshError::DegenerateTriangle { triangle } => {
            &&& sound && masked
            &&& triangle < triangles.len()
            &&& clean(geometry, positions, triangles, triangle as int)
            &&& !usable(geometry, positions, triangles[triangle as int])
        },
        MeshError::DuplicateTriangle { triangle } => {
            &&& sound && masked
            &&& triangle < triangles.len()
            &&& clean(geometry, positions, triangles, triangle as int)
            &&& usable(geometry, positions, triangles[triangle as int])
            &&& repeats(triangles.take(triangle as int), triangles[triangle as int])
        },
        _ => indexing_error(positions, triangles, error),
    }
}

/// Whether a set holds the sorted corners of exactly some triangles.
pub open spec fn remembers(set: Set<[u32; 3]>, triangles: Seq<[u32; 3]>) -> bool {
    forall|key: [u32; 3]| #[trigger]
        set.contains(key) <==> exists|j: int|
            0 <= j < triangles.len() && key@ == sorted_corners(#[trigger] triangles[j])
}

proof fn lemma_remembers(set: Set<[u32; 3]>, triangles: Seq<[u32; 3]>, triangle: [u32; 3], key: [u32; 3])
    requires
        remembers(set, triangles),
        key@ == sorted_corners(triangle),
    ensures
        set.contains(key) == repeats(triangles, triangle),
        remembers(set.insert(key), triangles.push(triangle)),
{
    let more = triangles.push(triangle);
    let grown = set.insert(key);
    assert forall|other: [u32; 3]| #[trigger] grown.contains(other) <==> exists|j: int|
        0 <= j < more.len() && other@ == sorted_corners(#[trigger] more[j]) by {
        if grown.contains(other) {
            if set.contains(other) {
                let j = choose|j: int|
                    0 <= j < triangles.len() && other@ == sorted_corners(#[trigger] triangles[j]);
                assert(more[j] == triangles[j]);
            } else {
                assert(other == key);
                assert(more[triangles.len() as int] == triangle);
            }
        }
        if exists|j: int| 0 <= j < more.len() && other@ == sorted_corners(#[trigger] more[j]) {
            let j = choose|j: int|
                0 <= j < more.len() && other@ == sorted_corners(#[trigger] more[j]);
            if j < triangles.len() {
                assert(triangles[j] == more[j]);
                assert(set.contains(other));
            } else {
                assert(other@ == key@);
                assert(other == key);
            }
        }
    }
}

/// Judges the faces of a mesh one by one.
fn first_bad_face<G: Geometry>(
    positions: &Vec<Point>,
    triangles: &Vec<[u32; 3]>,
    geometry: &G,
) -> (result: Option<MeshError>)
    requires
        geometry.total(),
        all_exist(triangles@, positions@.len(), triangles@.len() as int),
    ensures
        result is None ==> clean(geometry, positions@, triangles@, triangles@.len() as int),
        result matches Some(error) ==> match error {
            MeshError::DegenerateTriangle { triangle } => {
                &&& triangle < triangles@.len()
                &&& clean(geometry, positions@, triangles@, triangle as int)
                &&& !usable(geometry, positions@, triangles@[triangle as int])
            },
            MeshError::DuplicateTriangle { triangle } => {
                &&& triangle < triangles@.len()
                &&& clean(geometry, positions@, triangles@, triangle as int)
                &&& usable(geometry, positions@, triangles@[triangle as int])
                &&& repeats(triangles@.take(triangle as int), triangles@[triangle as int])
            },
            _ => false,
        },
{
    let mut unique_faces = TripleSet::new();
    let mut t: usize = 0;
    while t < triangles.len()
        invariant
            t <= triangles@.len(),
            geometry.total(),
            all_exist(triangles@, positions@.len(), triangles@.len() as int),
            clean(geometry, positions@, triangles@, t as int),
            remembers(unique_faces@, triangles@.take(t as int)),
        decreases triangles@.len() - t,
    {
        let triangle = triangles[t];
        assert(corners_exist(triangles@[t as int], positions@.len()));
        if !triangle_is_valid(positions, triangle, geometry) {
            return Some(MeshError::DegenerateTriangle { triangle: t });
        }
        let key = sorted_triangle(triangle);
        proof {
            lemma_remembers(unique_faces@, triangles@.take(t as int), triangle, key);
            assert(triangles@.take(t + 1) =~= triangles@.take(t as int).push(triangle));
        }
        if !unique_faces.insert(key) {
            return Some(MeshError::DuplicateTriangle { triangle: t });
        }
        t += 1;
    }
    None
}

pub proof fn lemma_clean_is_indexed<G: Geometry>(
    geometry: &G,
    positions: Seq<Point>,
    triangles: Seq<[u32; 3]>,
)
    requires
        all_exist(triangles, positions.len(), triangles.len() as int),
        clean(geometry, positions, triangles, triangles.len() as int),
    ensures
        topology::well_indexed(triangles, positions.len()),
{
    assert forall|i: int| 0 <= i < triangles.len() implies {
        let triangle = #[trigger] triangles[i];
        &&& triangle@[0] < positions.len()
        &&& triangle@[1] < positions.len()
        &&& triangle@[2] < positions.len()
        &&& topology::distinct_corners(triangle)
    } by {
        assert(corners_exist(triangles[i], positions.len()));
        assert(usable(geometry, positions, triangles[i]));
    }
}

/// What checking a mesh reports: the first thing amiss with its positions and triangles, the
/// number of its normals, or its mask.
pub open spec fn validation_error(mesh: Mesh, error: MeshError) -> bool {
    let sound = sound_indexing(mesh.positions@, mesh.triangles@);
    match error {
        MeshError::NormalCountMismatch { actual, expected } => {
            &&& sound
            &&& mesh.normals@.len() != mesh.positions@.len()
            &&& actual == mesh.normals@.len()
            &&& expected == mesh.positions@.len()
        },
        MeshError::MaskCountMismatch { actual, expected } => {
            &&& sound
            &&& mesh.normals@.len() == mesh.positions@.len()
            &&& mesh.mask@.len() != mesh.positions@.len()
            &&& actual == mesh.mask@.len()
            &&& expected == mesh.positions@.len()
        },
        MeshError::InvalidMask { index } => {
            &&& sound
            &&& mesh.normals@.len() == mesh.positions@.len()
            &&& mesh.mask@.len() == mesh.positions@.len()
            &&& index < mesh.mask@.len()
            &&& !scalar::in_unit(mesh.mask@[index as int])
            &&& all_weights(mesh.mask@, index as int)
        },
        error => indexing_error(mesh.positions@, mesh.triangles@, error),
    }
}

impl Mesh {
    /// Builds a mesh from indexed geometry, which is taken as it is or refused: faces are neither
    /// repaired nor removed.
    pub fn from_indexed<G: Geometry>(
        positions: Vec<Point>,
        triangles: Vec<[u32; 3]>,
        mask: Vec<u32>,
        geometry: &G,
    ) -> (result: Result<Mesh, MeshError>)
        requires
            geometry.total(),
            triangles@.len() <= u32::MAX,
        ensures
            result is Ok <==> sound_indexing(positions@, triangles@) && mask@.len()
                == positions@.len() && all_weights(mask@, mask@.len() as int) && clean(
                geometry,
                positions@,
                triangles@,
                triangles@.len() as int,
            ),
            result is Err ==> indexed_geometry_error(
                geometry,
                positions@,
                triangles@,
                mask@,
                result->Err_0,
            ),
            result is Ok ==> {
                let mesh = result->Ok_0;
                &&& mesh.positions@ == positions@
                &&& mesh.triangles@ == triangles@
                &&& mesh.mask@ == mask@
                &&& mesh.smooth(geometry)
                &&& mesh.well_formed()
                &&& mesh.topology.bvh.fits(positions@, triangles@)
                &&& mesh.topology.bvh.halves(geometry, positions@, triangles@)
            },
    {
        match validate_positions_and_indices(&positions, &triangles) {
            Ok(()) => {},
            Err(error) => {
                return Err(error);
            },
        }
        if mask.len() != positions.len() {
            return Err(
                MeshError::MaskCountMismatch { actual: mask.len(), expected: positions.len() },
            );
        }
        if let Some(index) = first_invalid_weight(&mask) {
            return Err(MeshError::InvalidMask { index });
        }
        if let Some(error) = first_bad_face(&positions, &triangles, geometry) {
            return Err(error);
        }
        proof {
            lemma_clean_is_indexed(geometry, positions@, triangles@);
        }
        let topology = MeshTopology::build(&positions, &triangles, geometry);
        let mut mesh = Mesh { normals: Vec::new(), positions, triangles, mask, topology };
        mesh.recompute_normals_without_bvh_refit(geometry);
        Ok(mesh)
    }

    /// Checks that the arrays are sound and belong together.
    pub fn validate(&self) -> (result: Result<(), MeshError>)
        ensures
            result is Ok <==> sound_indexing(self.positions@, self.triangles@)
                && self.normals@.len() == self.positions@.len() && self.mask@.len()
                == self.positions@.len() && all_weights(self.mask@, self.mask@.len() as int),
            result is Err ==> validation_error(*self, result->Err_0),
    {
        match validate_positions_and_indices(&self.positions, &self.triangles) {
            Ok(()) => {},
            Err(error) => {
                return Err(error);
            },
        }
        if self.normals.len() != self.positions.len() {
            return Err(
                MeshError::NormalCountMismatch {
                    actual: self.normals.len(),
                    expected: self.positions.len(),
                },
            );
        }
        if self.mask.len() != self.positions.len() {
            return Err(
                MeshError::MaskCountMismatch {
                    actual: self.mask.len(),
                    expected: self.positions.len(),
                },
            );
        }
        if let Some(index) = first_invalid_weight(&self.mask) {
            return Err(MeshError::InvalidMask { index });
        }
        Ok(())
    }
}

/// What becomes of a face when a mesh is cleaned up.
pub enum Verdict {
    Kept,
    Invalid,
    Degenerate,
    Duplicate,
}

/// Judges a face, after the faces that were kept before it: one with a corner that is no vertex or
/// not finite is invalid, one without area degenerate, one on the vertices of a kept face a
/// duplicate.
pub open spec fn verdict<G: Geometry>(
    geometry: &G,
    positions: Seq<Point>,
    kept: Seq<[u32; 3]>,
    triangle: [u32; 3],
) -> Verdict {
    if !corners_exist(triangle, positions.len()) || !positions[triangle@[0] as int].finite()
        || !positions[triangle@[1] as int].finite() || !positions[triangle@[2] as int].finite() {
        Verdict::Invalid
    } else if !usable(geometry, positions, triangle) {
        Verdict::Degenerate
    } else if repeats(kept, triangle) {
        Verdict::Duplicate
    } else {
        Verdict::Kept
    }
}

/// The faces that a cleanup keeps, in order.
pub open spec fn kept_faces<G: Geometry>(
    geometry: &G,
    positions: Seq<Point>,
    triangles: Seq<[u32; 3]>,
) -> Seq<[u32; 3]>
    decreases triangles.len(),
{
    if triangles.len() == 0 {
        Seq::empty()
    } else {
        let kept = kept_faces(geometry, positions, triangles.drop_last());
        if verdict(geometry, positions, kept, triangles.last()) is Kept {
            kept.push(triangles.last())
        } else {
            kept
        }
    }
}

/// How many faces a cleanup judges in a given way.
pub open spec fn count_judged<G: Geometry>(
    geometry: &G,
    positions: Seq<Point>,
    triangles: Seq<[u32; 3]>,
    wanted: Verdict,
) -> nat
    decreases triangles.len(),
{
    if triangles.len() == 0 {
        0
    } else {
        let front = triangles.drop_last();
        let kept = kept_faces(geometry, positions, front);
        count_judged(geometry, positions, front, wanted) + if verdict(
            geometry,
            positions,
            kept,
            triangles.last(),
        ) == wanted {
            1nat
        } else {
            0
        }
    }
}

/// The faces that were kept, and how many were removed for which reason.
struct Sorted {
    kept: Vec<[u32; 3]>,
    invalid: usize,
    degenerate: usize,
    duplicate: usize,
}

fn sort_out_faces<G: Geometry>(
    positions: &Vec<Point>,
    triangles: &Vec<[u32; 3]>,
    geometry: &G,
) -> (result: Sorted)
    requires
        geometry.total(),
    ensures
        result.kept@ == kept_faces(geometry, positions@, triangles@),
        result.kept@.len() <= triangles@.len(),
        result.invalid == count_judged(geometry, positions@, triangles@, Verdict::Invalid),
        result.degenerate == count_judged(geometry, positions@, triangles@, Verdict::Degenerate),
        result.duplicate == count_judged(geometry, positions@, triangles@, Verdict::Duplicate),
{
    let vertex_count = positions.len();
    let mut unique_faces = TripleSet::new();
    let mut kept: Vec<[u32; 3]> = Vec::new();
    let mut invalid: usize = 0;
    let mut degenerate: usize = 0;
    let mut duplicate: usize = 0;
    let mut t: usize = 0;
    assert(triangles@.take(0) =~= Seq::<[u32; 3]>::empty());
    while t < triangles.len()
        invariant
            t <= triangles@.len(),
            geometry.total(),
            vertex_count == positions@.len(),
            remembers(unique_faces@, kept@),
            kept@ == kept_faces(geometry, positions@, triangles@.take(t as int)),
            kept@.len() + invalid + degenerate + duplicate == t,
            invalid == count_judged(
                geometry,
                positions@,
                triangles@.take(t as int),
                Verdict::Invalid,
            ),
            degenerate == count_judged(
                geometry,
                positions@,
                triangles@.take(t as int),
                Verdict::Degenerate,
            ),
            duplicate == count_judged(
                geometry,
                positions@,
                triangles@.take(t as int),
                Verdict::Duplicate,
            ),
        decreases triangles@.len() - t,
    {
        let triangle = triangles[t];
        assert(triangles@.take(t + 1).drop_last() =~= triangles@.take(t as int));
        let exists_all = (triangle[0] as usize) < vertex_count && (triangle[1] as usize)
            < vertex_count && (triangle[2] as usize) < vertex_count;
        if !exists_all || !positions[triangle[0] as usize].is_finite()
            || !positions[triangle[1] as usize].is_finite()
            || !positions[triangle[2] as usize].is_finite() {
            invalid += 1;
        } else if !triangle_is_valid(positions, triangle, geometry) {
            degenerate += 1;
        } else {
            let key = sorted_triangle(triangle);
            proof {
                lemma_remembers(unique_faces@, kept@, triangle, key);
            }
            let ghost before = unique_faces@;
            if unique_faces.insert(key) {
                kept.push(triangle);
            } else {
                assert(unique_faces@ =~= before);
                duplicate += 1;
            }
        }
        t += 1;
    }
    assert(triangles@.take(t as int) =~= triangles@);
    Sorted { kept, invalid, degenerate, duplicate }
}

/// The faces that a cleanup keeps are sound, usable and on different vertices.
pub proof fn kept_faces_are_clean<G: Geometry>(
    geometry: &G,
    positions: Seq<Point>,
    triangles: Seq<[u32; 3]>,
)
    ensures
        ({
            let kept = kept_faces(geometry, positions, triangles);
            &&& clean(geometry, positions, kept, kept.len() as int)
            &&& all_exist(kept, positions.len(), kept.len() as int)
            &&& topology::well_indexed(kept, positions.len())
            &&& forall|i: int|
                0 <= i < kept.len() ==> {
                    let face = #[trigger] kept[i];
                    &&& positions[face@[0] as int].finite()
                    &&& positions[face@[1] as int].finite()
                    &&& positions[face@[2] as int].finite()
                }
        }),
    decreases triangles.len(),
{
    let kept = kept_faces(geometry, positions, triangles);
    if triangles.len() > 0 {
        let before = kept_faces(geometry, positions, triangles.drop_last());
        kept_faces_are_clean(geometry, positions, triangles.drop_last());
        assert forall|i: int| 0 <= i < kept.len() implies usable(
            geometry,
            positions,
            #[trigger] kept[i],
        ) && !repeats(kept.take(i), kept[i]) by {
            if i < before.len() {
                assert(kept[i] == before[i]);
                assert(usable(geometry, positions, before[i]));
                assert(kept.take(i) =~= before.take(i));
            } else {
                assert(kept.take(i) =~= before);
            }
        }
        assert forall|i: int| 0 <= i < kept.len() implies corners_exist(
            #[trigger] kept[i],
            positions.len(),
        ) by {
            if i < before.len() {
                assert(corners_exist(before[i], positions.len()));
            }
        }
        assert forall|i: int| 0 <= i < kept.len() implies {
            let face = #[trigger] kept[i];
            &&& positions[face@[0] as int].finite()
            &&& positions[face@[1] as int].finite()
            &&& positions[face@[2] as int].finite()
        } by {
            if i < before.len() {
                assert(kept[i] == before[i]);
            }
        }
    }
    lemma_clean_is_indexed(geometry, positions, kept);
}

/// A cleaned-up mesh loses no face to a second cleanup.
pub proof fn cleaning_twice_changes_nothing<G: Geometry>(
    geometry: &G,
    positions: Seq<Point>,
    triangles: Seq<[u32; 3]>,
)
    ensures
        ({
            let kept = kept_faces(geometry, positions, triangles);
            kept_faces(geometry, positions, kept) == kept
        }),
{
    let kept = kept_faces(geometry, positions, triangles);
    kept_faces_are_clean(geometry, positions, triangles);
    lemma_clean_faces_are_kept(geometry, positions, kept);
}

proof fn lemma_clean_faces_are_kept<G: Geometry>(
    geometry: &G,
    positions: Seq<Point>,
    faces: Seq<[u32; 3]>,
)
    requires
        clean(geometry, positions, faces, faces.len() as int),
        all_exist(faces, positions.len(), faces.len() as int),
        forall|i: int|
            0 <= i < faces.len() ==> {
                let face = #[trigger] faces[i];
                &&& positions[face@[0] as int].finite()
                &&& positions[face@[1] as int].finite()
                &&& positions[face@[2] as int].finite()
            },
    ensures
        kept_faces(geometry, positions, faces) == faces,
    decreases faces.len(),
{
    if faces.len() > 0 {
        let front = faces.drop_last();
        assert forall|i: int| 0 <= i < front.len() implies usable(
            geometry,
            positions,
            #[trigger] front[i],
        ) && !repeats(front.take(i), front[i]) by {
            assert(front[i] == faces[i]);
            assert(usable(geometry, positions, faces[i]));
            assert(front.take(i) =~= faces.take(i));
        }
        assert forall|i: int| 0 <= i < front.len() implies corners_exist(
            #[trigger] front[i],
            positions.len(),
        ) by {
            assert(corners_exist(faces[i], positions.len()));
        }
        assert forall|i: int| 0 <= i < front.len() implies {
            let face = #[trigger] front[i];
            &&& positions[face@[0] as int].finite()
            &&& positions[face@[1] as int].finite()
            &&& positions[face@[2] as int].finite()
        } by {
            assert(front[i] == faces[i]);
        }
        lemma_clean_faces_are_kept(geometry, positions, front);
        let last = faces.len() - 1;
        assert(usable(geometry, positions, faces[last]));
        assert(corners_exist(faces[last], positions.len()));
        assert(faces.take(last) =~= front);
        assert(faces =~= front.push(faces.last()));
    } else {
        assert(faces =~= Seq::<[u32; 3]>::empty());
    }
}

/// A mask brought to one weight per vertex: missing weights are 0, surplus ones are dropped, and
/// each is brought into the range from 0 to 1.
pub open spec fn mended_mask(mask: Seq<u32>, vertex_count: nat) -> Seq<u32> {
    Seq::new(
        vertex_count,
        |i: int|
            if i < mask.len() {
                scalar::unit_weight(mask[i])
            } else {
                scalar::ZERO
            },
    )
}

fn mend_mask(mask: &Vec<u32>, vertex_count: usize) -> (result: Vec<u32>)
    ensures
        result@ == mended_mask(mask@, vertex_count as nat),
        all_weights(result@, result@.len() as int),
{
    let mut mended: Vec<u32> = Vec::with_capacity(vertex_count);
    let mut i: usize = 0;
    while i < vertex_count
        invariant
            i <= vertex_count,
            mended@.len() == i,
            all_weights(mended@, i as int),
            forall|k: int|
                0 <= k < i ==> #[trigger] mended@[k] == mended_mask(mask@, vertex_count as nat)[k],
        decreases vertex_count - i,
    {
        let weight = if i < mask.len() {
            scalar::clamp_unit(mask[i])
        } else {
            scalar::clamp_unit(scalar::ZERO)
        };
        mended.push(weight);
        i += 1;
    }
    assert(mended@ =~= mended_mask(mask@, vertex_count as nat));
    mended
}

/// Whether a rebuilt mesh is what a mesh comes to, with the faces that are kept reversed by some
/// choices, and whether the report says so.
pub open spec fn rebuilt<G: Geometry>(
    geometry: &G,
    before: Mesh,
    after: Mesh,
    report: CleanupReport,
    flips: Seq<bool>,
) -> bool {
    let kept = kept_faces(geometry, before.positions@, before.triangles@);
    &&& after.positions@ == before.positions@
    &&& orientation::follows_routes(kept, flips)
    &&& orientation::flipped(kept, flips, after.triangles@)
    &&& after.mask@ == mended_mask(before.mask@, before.positions@.len())
    &&& report.input_vertices == before.positions@.len()
    &&& report.input_triangles == before.triangles@.len()
    &&& report.welded_vertices == 0
    &&& report.removed_invalid_faces == count_judged(
        geometry,
        before.positions@,
        before.triangles@,
        Verdict::Invalid,
    )
    &&& report.removed_degenerate_faces == count_judged(
        geometry,
        before.positions@,
        before.triangles@,
        Verdict::Degenerate,
    )
    &&& report.removed_duplicate_faces == count_judged(
        geometry,
        before.positions@,
        before.triangles@,
        Verdict::Duplicate,
    )
    &&& report.flipped_faces == orientation::count_flips(flips)
    &&& report.output_vertices == after.positions@.len()
    &&& report.output_triangles == after.triangles@.len()
    &&& report.boundary_edges == topology::boundary_edges(after.topology.edge_faces@).len()
    &&& report.boundary_vertices == topology::count_set(after.topology.boundary_vertices@)
    &&& report.non_manifold_edges == topology::crowded_edges(after.topology.edge_faces@).len()
    &&& report.non_manifold_vertices == topology::count_set(after.topology.non_manifold_vertices@)
}

/// Whether a mesh without a mask has been made of geometry: the faces that a cleanup keeps, each
/// as it is or reversed, and everything that follows from them.
pub open spec fn made_of<G: Geometry>(
    geometry: &G,
    positions: Seq<Point>,
    triangles: Seq<[u32; 3]>,
    mesh: Mesh,
) -> bool {
    let kept = kept_faces(geometry, positions, triangles);
    &&& mesh.positions@ == positions
    &&& exists|flips: Seq<bool>| #[trigger]
        orientation::follows_routes(kept, flips) && orientation::flipped(
            kept,
            flips,
            mesh.triangles@,
        )
    &&& mesh.mask@ == Seq::new(positions.len(), |i: int| scalar::ZERO)
    &&& mesh.well_formed()
    &&& mesh.smooth(geometry)
    &&& mesh.topology.bvh.fits(mesh.positions@, mesh.triangles@)
    &&& mesh.topology.bvh.halves(geometry, positions, kept)
}

impl Mesh {
    /// Restores everything that follows from positions, triangles and mask, and removes unusable
    /// faces.
    ///
    /// Whoever changes the geometry arrays by hand calls this before the mesh is drawn or searched.
    pub fn rebuild<G: Geometry>(&mut self, geometry: &G) -> (report: CleanupReport)
        requires
            geometry.total(),
            old(self).positions@.len() <= u32::MAX,
            old(self).triangles@.len() <= u32::MAX,
        ensures
            exists|flips: Seq<bool>| #[trigger]
                rebuilt(geometry, *old(self), *final(self), report, flips),
            final(self).well_formed(),
            final(self).smooth(geometry),
            final(self).topology.bvh.fits(final(self).positions@, final(self).triangles@),
            final(self).topology.bvh.halves(
                geometry,
                old(self).positions@,
                kept_faces(geometry, old(self).positions@, old(self).triangles@),
            ),
            all_weights(final(self).mask@, final(self).mask@.len() as int),
    {
        let mut report = CleanupReport::default();
        report.input_vertices = self.positions.len();
        report.input_triangles = self.triangles.len();
        let sorted = sort_out_faces(&self.positions, &self.triangles, geometry);
        report.removed_invalid_faces = sorted.invalid;
        report.removed_degenerate_faces = sorted.degenerate;
        report.removed_duplicate_faces = sorted.duplicate;
        let mut triangles = sorted.kept;
        let ghost kept = triangles@;
        proof {
            kept_faces_are_clean(geometry, self.positions@, self.triangles@);
        }
        self.mask = mend_mask(&self.mask, self.positions.len());
        self.topology = MeshTopology::build(&self.positions, &triangles, geometry);
        let flipped = orientation::orient_manifold_faces(
            &mut triangles,
            &self.topology.edge_faces,
        );
        report.flipped_faces = flipped;
        let ghost flips = choose|flips: Seq<bool>| #[trigger]
            orientation::follows_routes(kept, flips) && orientation::flipped(
                kept,
                flips,
                triangles@,
            ) && flipped == orientation::count_flips(flips);
        proof {
            winding::flipping_keeps_corners(kept, flips, triangles@);
            winding::reversing_keeps_the_topology(
                self.topology,
                kept,
                triangles@,
                self.positions@.len(),
            );
            winding::reversing_keeps_the_boxes(
                self.topology.bvh,
                self.positions@,
                kept,
                triangles@,
            );
        }
        self.triangles = triangles;
        self.recompute_normals_without_bvh_refit(geometry);
        report.output_vertices = self.positions.len();
        report.output_triangles = self.triangles.len();
        report.boundary_edges = self.topology.boundary_edge_count();
        report.boundary_vertices = self.topology.boundary_vertex_count();
        report.non_manifold_edges = self.topology.non_manifold_edge_count();
        report.non_manifold_vertices = self.topology.non_manifold_vertex_count();
        assert(rebuilt(geometry, *old(self), *self, report, flips));
        report
    }

    /// Builds a mesh without a mask from sound geometry, which is cleaned up.
    pub fn new<G: Geometry>(
        positions: Vec<Point>,
        triangles: Vec<[u32; 3]>,
        geometry: &G,
    ) -> (result: Result<Mesh, MeshError>)
        requires
            geometry.total(),
            triangles@.len() <= u32::MAX,
        ensures
            result is Ok <==> sound_indexing(positions@, triangles@),
            result is Err ==> indexing_error(positions@, triangles@, result->Err_0),
            result matches Ok(mesh) ==> made_of(geometry, positions@, triangles@, mesh),
    {
        match validate_positions_and_indices(&positions, &triangles) {
            Ok(()) => {},
            Err(error) => {
                return Err(error);
            },
        }
        let mut mesh = Mesh {
            positions,
            triangles,
            normals: Vec::new(),
            mask: Vec::new(),
            topology: MeshTopology::default(),
        };
        let ghost begun = mesh;
        let report = mesh.rebuild(geometry);
        proof {
            let flips = choose|flips: Seq<bool>| #[trigger]
                rebuilt(geometry, begun, mesh, report, flips);
            assert(mesh.mask@ =~= Seq::new(positions@.len(), |i: int| scalar::ZERO));
            let kept = kept_faces(geometry, positions@, triangles@);
            assert(orientation::follows_routes(kept, flips));
        }
        Ok(mesh)
    }
}

/// Where the faces that a cleanup keeps in a component can all be wound one way, they are.
pub proof fn rebuilding_orients_what_can_be_oriented<G: Geometry>(
    geometry: &G,
    before: Mesh,
    after: Mesh,
    report: CleanupReport,
    flips: Seq<bool>,
    choices: Seq<bool>,
    part: u32,
)
    requires
        before.triangles@.len() <= u32::MAX,
        rebuilt(geometry, before, after, report, flips),
        orientation::consistent(
            kept_faces(geometry, before.positions@, before.triangles@),
            choices,
            part,
        ),
    ensures
        orientation::oriented(after.triangles@, part),
{
    let kept = kept_faces(geometry, before.positions@, before.triangles@);
    kept_faces_are_clean(geometry, before.positions@, before.triangles@);
    lemma_kept_count(geometry, before.positions@, before.triangles@);
    orientation::an_orientable_component_is_oriented(kept, flips, choices, part);
    assert forall|i: int| 0 <= i < kept.len() implies topology::distinct_corners(
        #[trigger] kept[i],
    ) by {}
    orientation::settling_every_clash_orients(kept, after.triangles@, flips, part);
}

proof fn lemma_kept_count<G: Geometry>(
    geometry: &G,
    positions: Seq<Point>,
    triangles: Seq<[u32; 3]>,
)
    ensures
        kept_faces(geometry, positions, triangles).len() <= triangles.len(),
    decreases triangles.len(),
{
    if triangles.len() > 0 {
        lemma_kept_count(geometry, positions, triangles.drop_last());
    }
}

/// Every face is kept or removed for one of three reasons.
pub proof fn every_face_is_accounted_for<G: Geometry>(
    geometry: &G,
    positions: Seq<Point>,
    triangles: Seq<[u32; 3]>,
)
    ensures
        kept_faces(geometry, positions, triangles).len() + count_judged(
            geometry,
            positions,
            triangles,
            Verdict::Invalid,
        ) + count_judged(geometry, positions, triangles, Verdict::Degenerate) + count_judged(
            geometry,
            positions,
            triangles,
            Verdict::Duplicate,
        ) == triangles.len(),
    decreases triangles.len(),
{
    if triangles.len() > 0 {
        every_face_is_accounted_for(geometry, positions, triangles.drop_last());
    }
}

/// Whether a triangle and its reverse are of the same use.
pub open spec fn shape_ignores_winding<G: Geometry>(geometry: &G) -> bool {
    forall|a: Point, b: Point, c: Point| #[trigger]
        geometry.spec_well_shaped(a, b, c) == geometry.spec_well_shaped(a, c, b)
}

proof fn lemma_reversed_face<G: Geometry>(
    geometry: &G,
    positions: Seq<Point>,
    before: [u32; 3],
    after: [u32; 3],
)
    requires
        shape_ignores_winding(geometry),
        after@ == orientation::reversed(before),
    ensures
        usable(geometry, positions, after) == usable(geometry, positions, before),
        topology::distinct_corners(before) ==> sorted_corners(after) == sorted_corners(before),
{
    assert(geometry.spec_well_shaped(
        positions[before@[0] as int],
        positions[before@[1] as int],
        positions[before@[2] as int],
    ) == geometry.spec_well_shaped(
        positions[before@[0] as int],
        positions[before@[2] as int],
        positions[before@[1] as int],
    ));
}

/// The faces that a cleanup keeps are still sound, usable and on different vertices once some of
/// them are reversed.
pub proof fn reversed_faces_are_clean<G: Geometry>(
    geometry: &G,
    positions: Seq<Point>,
    triangles: Seq<[u32; 3]>,
    flips: Seq<bool>,
    after: Seq<[u32; 3]>,
)
    requires
        shape_ignores_winding(geometry),
        orientation::flipped(kept_faces(geometry, positions, triangles), flips, after),
    ensures
        clean(geometry, positions, after, after.len() as int),
        all_exist(after, positions.len(), after.len() as int),
        kept_faces(geometry, positions, after) == after,
{
    let kept = kept_faces(geometry, positions, triangles);
    kept_faces_are_clean(geometry, positions, triangles);
    assert forall|i: int| 0 <= i < after.len() implies usable(
        geometry,
        positions,
        #[trigger] after[i],
    ) && sorted_corners(after[i]) == sorted_corners(kept[i]) && corners_exist(
        after[i],
        positions.len(),
    ) && positions[after[i]@[0] as int].finite() && positions[after[i]@[1] as int].finite()
        && positions[after[i]@[2] as int].finite() by {
        assert(usable(geometry, positions, kept[i]));
        assert(corners_exist(kept[i], positions.len()));
        assert(positions[kept[i]@[0] as int].finite());
        if flips[i] {
            lemma_reversed_face(geometry, positions, kept[i], after[i]);
        } else {
            assert(after[i]@ == kept[i]@);
            assert(after[i] == kept[i]);
        }
    }
    assert forall|i: int| 0 <= i < after.len() implies !repeats(
        after.take(i),
        #[trigger] after[i],
    ) by {
        if repeats(after.take(i), after[i]) {
            let j = choose|j: int|
                0 <= j < after.take(i).len() && sorted_corners(#[trigger] after.take(i)[j])
                    == sorted_corners(after[i]);
            assert(after.take(i)[j] == after[j]);
            assert(sorted_corners(after[j]) == sorted_corners(kept[j]));
            assert(kept.take(i)[j] == kept[j]);
            assert(repeats(kept.take(i), kept[i]));
            assert(usable(geometry, positions, kept[i]) && !repeats(kept.take(i), kept[i]));
        }
    }
    lemma_clean_faces_are_kept(geometry, positions, after);
}

/// A second rebuild removes no face.
pub proof fn rebuilding_twice_removes_nothing<G: Geometry>(
    geometry: &G,
    before: Mesh,
    after: Mesh,
    again: Mesh,
    first: CleanupReport,
    second: CleanupReport,
    flips: Seq<bool>,
    more_flips: Seq<bool>,
)
    requires
        shape_ignores_winding(geometry),
        rebuilt(geometry, before, after, first, flips),
        rebuilt(geometry, after, again, second, more_flips),
    ensures
        second.removed_invalid_faces == 0,
        second.removed_degenerate_faces == 0,
        second.removed_duplicate_faces == 0,
        second.output_triangles == second.input_triangles == first.output_triangles,
        orientation::flipped(after.triangles@, more_flips, again.triangles@),
{
    reversed_faces_are_clean(
        geometry,
        before.positions@,
        before.triangles@,
        flips,
        after.triangles@,
    );
    every_face_is_accounted_for(geometry, after.positions@, after.triangles@);
}

/// A mesh that was made of sound geometry has clean faces, so that it can be taken as it is.
pub proof fn a_new_mesh_is_clean<G: Geometry>(
    geometry: &G,
    positions: Seq<Point>,
    triangles: Seq<[u32; 3]>,
    mesh: Mesh,
)
    requires
        shape_ignores_winding(geometry),
        sound_indexing(positions, triangles),
        made_of(geometry, positions, triangles, mesh),
    ensures
        sound_indexing(mesh.positions@, mesh.triangles@),
        mesh.mask@.len() == mesh.positions@.len(),
        all_weights(mesh.mask@, mesh.mask@.len() as int),
        clean(geometry, mesh.positions@, mesh.triangles@, mesh.triangles@.len() as int),
{
    let kept = kept_faces(geometry, positions, triangles);
    let flips = choose|flips: Seq<bool>| #[trigger]
        orientation::follows_routes(kept, flips) && orientation::flipped(
            kept,
            flips,
            mesh.triangles@,
        );
    reversed_faces_are_clean(geometry, positions, triangles, flips, mesh.triangles@);
}

} // verus!
