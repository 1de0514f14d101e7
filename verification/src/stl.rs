//! Meshes in STL files.
use crate::arithmetic;
use crate::arithmetic::Arithmetic;
use crate::geometry::Geometry;
use crate::mesh;
use crate::mesh::CleanupReport;
use crate::mesh::Mesh;
use crate::mesh::MeshError;
use crate::scalar::Point;
use crate::soup;
use crate::soup::TriangleSoupBuilder;
use crate::text;
use vstd::prelude::*;
use vstd::string::StringExecFns;

verus! {

/// What an import was made from, and what was done to it.
#[derive(Clone, Copy, Debug, PartialEq, Eq, Structural)]
pub struct ImportReport {
    pub source_triangles: usize,
    pub source_vertices: usize,
    pub unique_vertices: usize,
    pub output_triangles: usize,
    pub welded_vertices: usize,
    pub removed_invalid_faces: usize,
    pub removed_degenerate_faces: usize,
    pub removed_duplicate_faces: usize,
    pub flipped_faces: usize,
    pub boundary_edges: usize,
    pub boundary_vertices: usize,
    pub non_manifold_edges: usize,
    pub non_manifold_vertices: usize,
}

impl Default for ImportReport {
    fn default() -> (result: ImportReport)
        ensures
            result == (ImportReport {
                source_triangles: 0,
                source_vertices: 0,
                unique_vertices: 0,
                output_triangles: 0,
                welded_vertices: 0,
                removed_invalid_faces: 0,
                removed_degenerate_faces: 0,
                removed_duplicate_faces: 0,
                flipped_faces: 0,
                boundary_edges: 0,
                boundary_vertices: 0,
                non_manifold_edges: 0,
                non_manifold_vertices: 0,
            }),
    {
        ImportReport {
            source_triangles: 0,
            source_vertices: 0,
            unique_vertices: 0,
            output_triangles: 0,
            welded_vertices: 0,
            removed_invalid_faces: 0,
            removed_degenerate_faces: 0,
            removed_duplicate_faces: 0,
            flipped_faces: 0,
            boundary_edges: 0,
            boundary_vertices: 0,
            non_manifold_edges: 0,
            non_manifold_vertices: 0,
        }
    }
}

pub open spec fn report_of(report: CleanupReport) -> ImportReport {
    ImportReport {
        source_triangles: report.input_triangles,
        source_vertices: report.input_vertices,
        unique_vertices: report.output_vertices,
        output_triangles: report.output_triangles,
        welded_vertices: report.welded_vertices,
        removed_invalid_faces: report.removed_invalid_faces,
        removed_degenerate_faces: report.removed_degenerate_faces,
        removed_duplicate_faces: report.removed_duplicate_faces,
        flipped_faces: report.flipped_faces,
        boundary_edges: report.boundary_edges,
        boundary_vertices: report.boundary_vertices,
        non_manifold_edges: report.non_manifold_edges,
        non_manifold_vertices: report.non_manifold_vertices,
    }
}

impl From<CleanupReport> for ImportReport {
    fn from(report: CleanupReport) -> ImportReport {
        ImportReport {
            source_triangles: report.input_triangles,
            source_vertices: report.input_vertices,
            unique_vertices: report.output_vertices,
            output_triangles: report.output_triangles,
            welded_vertices: report.welded_vertices,
            removed_invalid_faces: report.removed_invalid_faces,
            removed_degenerate_faces: report.removed_degenerate_faces,
            removed_duplicate_faces: report.removed_duplicate_faces,
            flipped_faces: report.flipped_faces,
            boundary_edges: report.boundary_edges,
            boundary_vertices: report.boundary_vertices,
            non_manifold_edges: report.non_manifold_edges,
            non_manifold_vertices: report.non_manifold_vertices,
        }
    }
}

impl vstd::std_specs::convert::FromSpecImpl<CleanupReport> for ImportReport {
    open spec fn obeys_from_spec() -> bool {
        true
    }

    open spec fn from_spec(report: CleanupReport) -> ImportReport {
        report_of(report)
    }
}

impl ImportReport {
    pub fn has_topology_warnings(self) -> (result: bool)
        ensures
            result == (self.boundary_edges != 0 || self.non_manifold_edges != 0),
    {
        self.boundary_edges != 0 || self.non_manifold_edges != 0
    }

    /// The faces that were left out.
    pub open spec fn removed(self) -> int {
        self.removed_invalid_faces + self.removed_degenerate_faces + self.removed_duplicate_faces
    }

    pub open spec fn spec_text(self) -> Seq<char> {
        let summary = text::decimal(self.output_triangles as nat) + " triangles, "@ + text::decimal(
            self.unique_vertices as nat,
        ) + " unique vertices ("@ + text::decimal(self.welded_vertices as nat) + " welded); "@
            + text::decimal(self.boundary_edges as nat) + " boundary edges, "@ + text::decimal(
            self.non_manifold_edges as nat,
        ) + " non-manifold edges"@;
        if self.removed() != 0 {
            summary + "; "@ + text::decimal(self.removed() as nat) + " unusable faces removed"@
        } else {
            summary
        }
    }

    /// The report in words.
    pub fn text(&self) -> (result: String)
        requires
            self.removed() <= usize::MAX,
        ensures
            result@ == self.spec_text(),
    {
        let mut words = text::number(self.output_triangles);
        words.append(" triangles, ");
        words.append(text::number(self.unique_vertices).as_str());
        words.append(" unique vertices (");
        words.append(text::number(self.welded_vertices).as_str());
        words.append(" welded); ");
        words.append(text::number(self.boundary_edges).as_str());
        words.append(" boundary edges, ");
        words.append(text::number(self.non_manifold_edges).as_str());
        words.append(" non-manifold edges");
        let removed = self.removed_invalid_faces + self.removed_degenerate_faces
            + self.removed_duplicate_faces;
        if removed != 0 {
            words.append("; ");
            words.append(text::number(removed).as_str());
            words.append(" unusable faces removed");
        }
        words
    }
}

/// Why a file was not read or written.
#[derive(Debug)]
pub enum StlError {
    Read { path: String, message: String },
    Write { path: String, message: String },
    InvalidMesh(MeshError),
    TooManyTriangles,
    MissingFileName(String),
}

/// A triangle as it stands in a file.
#[derive(Clone, Copy, Debug)]
pub struct StlTriangle {
    pub normal: Point,
    pub vertices: [Point; 3],
}

/// A number in four bytes, the least significant first.
pub open spec fn number_bytes(value: u32) -> Seq<u8> {
    seq![
        (value % 256) as u8,
        (value / 256 % 256) as u8,
        (value / 65536 % 256) as u8,
        (value / 16777216) as u8,
    ]
}

pub open spec fn point_bytes(point: Point) -> Seq<u8> {
    number_bytes(point.x) + number_bytes(point.y) + number_bytes(point.z)
}

pub open spec fn triangle_bytes(triangle: StlTriangle) -> Seq<u8> {
    point_bytes(triangle.normal) + point_bytes(triangle.vertices@[0]) + point_bytes(
        triangle.vertices@[1],
    ) + point_bytes(triangle.vertices@[2]) + seq![0u8, 0u8]
}

pub open spec fn triangles_bytes(triangles: Seq<StlTriangle>) -> Seq<u8>
    decreases triangles.len(),
{
    if triangles.len() == 0 {
        Seq::empty()
    } else {
        triangles_bytes(triangles.drop_last()) + triangle_bytes(triangles.last())
    }
}

/// A binary file: eighty empty bytes, the number of triangles, and the triangles.
pub open spec fn binary_file(triangles: Seq<StlTriangle>) -> Seq<u8> {
    Seq::new(80, |i: int| 0u8) + number_bytes(triangles.len() as u32) + triangles_bytes(triangles)
}

pub open spec fn corners_of(triangles: Seq<StlTriangle>) -> Seq<[Point; 3]> {
    triangles.map_values(|triangle: StlTriangle| triangle.vertices)
}

/// Whether the corners of all triangles are finite.
pub open spec fn finite_corners(triangles: Seq<StlTriangle>) -> bool {
    forall|i: int|
        0 <= i < triangles.len() ==> soup::finite_triangle((#[trigger] triangles[i]).vertices)
}

/// The triangles that a file gives, up to what cannot be read, and the words for that.
pub uninterp spec fn stl_scan(bytes: Seq<u8>) -> (Seq<[Point; 3]>, Option<Seq<char>>);

/// `stl_io::create_stl_reader` reads text and binary files, one triangle after the other. From a
/// binary file with as many triangles as it says, all with finite corners, it reads the corners of
/// the triangles in order.
#[verifier::external_body]
fn scan(bytes: &Vec<u8>) -> (result: (Vec<[Point; 3]>, Option<String>))
    ensures
        result.0@ == stl_scan(bytes@).0,
        result.1 is Some <==> stl_scan(bytes@).1 is Some,
        result.1 is Some ==> stl_scan(bytes@).1 == Some(result.1->0@),
        (forall|triangles: Seq<StlTriangle>|
            triangles.len() <= u32::MAX && finite_corners(triangles) && bytes@
                == #[trigger] binary_file(triangles) ==> result.0@ == corners_of(triangles)
                && result.1 is None),
{
    let mut corners = Vec::new();
    let mut source = std::io::Cursor::new(bytes.as_slice());
    match stl_io::create_stl_reader(&mut source) {
        Ok(reader) => for triangle in reader {
            match triangle {
                Ok(read) => corners.push(
                    read.vertices.map(|v| bytemuck::cast(v.0)).map(|v: [u32; 3]| Point::new(v[0], v[1], v[2])),
                ),
                Err(error) => return (corners, Some(error.to_string())),
            }
        },
        Err(error) => return (corners, Some(error.to_string())),
    }
    (corners, None)
}

/// `stl_io::write_stl` writes a binary file, and into a list of bytes nothing keeps it from that.
#[verifier::external_body]
fn write_binary(triangles: &Vec<StlTriangle>) -> (result: Result<Vec<u8>, String>)
    requires
        triangles@.len() <= u32::MAX,
    ensures
        result is Ok,
        result->Ok_0@ == binary_file(triangles@),
{
    let mut bytes = Vec::new();
    let faces = triangles.iter().map(
        |t| stl_io::Triangle {
            normal: stl_io::Normal::new(bytemuck::cast([t.normal.x, t.normal.y, t.normal.z])),
            vertices: t.vertices.map(|v| stl_io::Vertex::new(bytemuck::cast([v.x, v.y, v.z]))),
        },
    );
    match stl_io::write_stl(&mut bytes, faces) {
        Ok(()) => Ok(bytes),
        Err(error) => Err(error.to_string()),
    }
}

/// The triangles of which a mesh can have the corners numbered.
pub const MOST_TRIANGLES: u32 = 1431655765;

/// Whether the triangles read from a file make a mesh.
pub open spec fn imported<G: Geometry>(
    geometry: &G,
    triangles: Seq<[Point; 3]>,
    mesh: Mesh,
    report: ImportReport,
) -> bool {
    exists|faces: Seq<[u32; 3]>, cleanup: CleanupReport|
        soup::faces_pick(soup::welded(triangles), faces, triangles) && #[trigger] soup::finished(
            geometry,
            soup::welded(triangles),
            faces,
            3 * triangles.len(),
            (mesh, cleanup),
        ) && report == report_of(cleanup)
}

/// Whether some triangles are finite and few enough for their corners to be numbered.
pub open spec fn all_taken(triangles: Seq<[Point; 3]>, count: int) -> bool {
    &&& count <= MOST_TRIANGLES
    &&& forall|i: int| 0 <= i < count ==> soup::finite_triangle(#[trigger] triangles[i])
}

/// Whether the bytes of a file could not be turned into a mesh for the reason given: the first
/// triangle that is not finite or has no number left, or else what could not be read.
pub open spec fn import_error(
    scan: (Seq<[Point; 3]>, Option<Seq<char>>),
    path: Seq<char>,
    error: StlError,
) -> bool {
    let triangles = scan.0;
    match error {
        StlError::Read { path: named, message } => {
            &&& all_taken(triangles, triangles.len() as int)
            &&& scan.1 == Some(message@)
            &&& named@ == path
        },
        StlError::InvalidMesh(MeshError::NonFiniteVertex { index }) => {
            let face = index as int / 3;
            let corner = index as int % 3;
            &&& face < triangles.len() && face < MOST_TRIANGLES
            &&& all_taken(triangles, face)
            &&& !triangles[face]@[corner].finite()
            &&& forall|k: int| 0 <= k < corner ==> (#[trigger] triangles[face]@[k]).finite()
        },
        StlError::InvalidMesh(MeshError::TooManyVertices) => {
            &&& triangles.len() > MOST_TRIANGLES
            &&& all_taken(triangles, MOST_TRIANGLES as int)
        },
        _ => false,
    }
}

/// Whether the bytes of a binary file with finite corners were read as the triangles in it.
pub open spec fn reads_binary_files<G: Geometry>(
    geometry: &G,
    bytes: Seq<u8>,
    result: Result<(Mesh, ImportReport), StlError>,
) -> bool {
    forall|triangles: Seq<StlTriangle>|
        triangles.len() <= MOST_TRIANGLES && finite_corners(triangles) && bytes
            == #[trigger] binary_file(triangles) ==> (result matches Ok((mesh, report))
            && imported(geometry, corners_of(triangles), mesh, report))
}

/// Makes a mesh of the bytes of a file.
///
/// A file has triangles that know nothing of each other. Corners with equal bits become one
/// vertex, faces that are no good are left out, and the rest are turned the same way round.
pub fn read_stl<G: Geometry>(path: String, bytes: &Vec<u8>, geometry: &G) -> (result: Result<
    (Mesh, ImportReport),
    StlError,
>)
    requires
        geometry.total(),
    ensures
        result is Ok <==> stl_scan(bytes@).1 is None && all_taken(
            stl_scan(bytes@).0,
            stl_scan(bytes@).0.len() as int,
        ),
        result matches Ok((mesh, report)) ==> imported(geometry, stl_scan(bytes@).0, mesh, report),
        result matches Err(error) ==> import_error(stl_scan(bytes@), path@, error),
        reads_binary_files(geometry, bytes@, result),
{
    let (triangles, error) = scan(bytes);
    let ghost scanned = stl_scan(bytes@);
    proof {
        assert forall|written: Seq<StlTriangle>|
            written.len() <= MOST_TRIANGLES && finite_corners(written) && bytes@
                == #[trigger] binary_file(written) implies error is None && triangles@
            == corners_of(written) && all_taken(triangles@, triangles@.len() as int) by {
            assert forall|i: int| 0 <= i < triangles@.len() implies soup::finite_triangle(
                #[trigger] triangles@[i],
            ) by {
                assert(soup::finite_triangle(written[i].vertices));
            }
        }
    }
    import_triangles(path, triangles, error, geometry)
}

/// Makes a mesh of the triangles of a file, unless a triangle cannot be taken or part of the file
/// could not be read.
pub fn import_triangles<G: Geometry>(
    path: String,
    triangles: Vec<[Point; 3]>,
    error: Option<String>,
    geometry: &G,
) -> (result: Result<(Mesh, ImportReport), StlError>)
    requires
        geometry.total(),
    ensures
        result is Ok <==> error is None && all_taken(triangles@, triangles@.len() as int),
        result matches Ok((mesh, report)) ==> imported(geometry, triangles@, mesh, report),
        result matches Err(reason) ==> import_error(
            (
                triangles@,
                match error {
                    Some(message) => Some(message@),
                    None => None,
                },
            ),
            path@,
            reason,
        ),
{
    let mut builder = TriangleSoupBuilder::new();
    let mut i: usize = 0;
    assert(triangles@.take(0) =~= Seq::<[Point; 3]>::empty());
    while i < triangles.len()
        invariant
            i <= triangles@.len(),
            i <= MOST_TRIANGLES,
            builder.well_formed(),
            builder.corner_count() == 3 * i,
            builder.vertices() == soup::welded(triangles@.take(i as int)),
            builder.vertices().len() <= 3 * i,
            soup::faces_pick(builder.vertices(), builder.faces(), triangles@.take(i as int)),
            forall|k: int| 0 <= k < i ==> soup::finite_triangle(#[trigger] triangles@[k]),
        decreases triangles@.len() - i,
    {
        let triangle = triangles[i];
        let ghost before = builder;
        proof {
            assert(triangles@.take(i + 1).drop_last() =~= triangles@.take(i as int));
            soup::welding_keeps_vertices(before.vertices(), triangle@);
            soup::lemma_partial(before.vertices(), triangle@);
        }
        match builder.push_triangle(triangle) {
            Ok(()) => {},
            Err(error) => {
                return Err(StlError::InvalidMesh(error));
            },
        }
        proof {
            let after = builder.vertices();
            assert forall|k: int| 0 <= k < i + 1 implies soup::picks(
                after,
                #[trigger] builder.faces()[k],
                triangles@.take(i + 1)[k]@,
            ) by {
                if k < i {
                    assert(builder.faces().drop_last()[k] == before.faces()[k]);
                    assert(soup::picks(
                        before.vertices(),
                        before.faces()[k],
                        triangles@.take(i as int)[k]@,
                    ));
                }
            }
        }
        i += 1;
    }
    assert(triangles@.take(i as int) =~= triangles@);
    if let Some(message) = error {
        return Err(StlError::Read { path, message });
    }
    let ghost faces = builder.faces();
    assert(soup::faces_pick(soup::welded(triangles@), faces, triangles@));
    let (mesh, cleanup) = builder.finish(geometry);
    let report = ImportReport::from(cleanup);
    assert(soup::finished(
        geometry,
        soup::welded(triangles@),
        faces,
        3 * triangles@.len(),
        (mesh, cleanup),
    ));
    Ok((mesh, report))
}

/// A face as it stands in a file, with a normal from its winding.
pub open spec fn exported<O: Arithmetic>(ops: &O, mesh: Mesh, face: int) -> StlTriangle {
    let triangle = mesh.triangles@[face];
    let a = mesh.positions@[triangle@[0] as int];
    let b = mesh.positions@[triangle@[1] as int];
    let c = mesh.positions@[triangle@[2] as int];
    StlTriangle {
        normal: arithmetic::spec_unit(
            ops,
            arithmetic::spec_cross(
                ops,
                arithmetic::spec_minus(ops, b, a),
                arithmetic::spec_minus(ops, c, a),
            ),
        ),
        vertices: [a, b, c],
    }
}

/// Whether the faces of a mesh can be written.
pub open spec fn exportable(mesh: Mesh) -> bool {
    &&& mesh::sound_indexing(mesh.positions@, mesh.triangles@)
    &&& mesh.normals@.len() == mesh.positions@.len()
    &&& mesh.mask@.len() == mesh.positions@.len()
    &&& mesh::all_weights(mesh.mask@, mesh.mask@.len() as int)
}

/// Whether triangles are those of a mesh, in order.
pub open spec fn exports<O: Arithmetic>(ops: &O, mesh: Mesh, triangles: Seq<StlTriangle>) -> bool {
    &&& triangles.len() == mesh.triangles@.len()
    &&& forall|i: int|
        0 <= i < triangles.len() ==> {
            &&& (#[trigger] triangles[i]).normal == exported(ops, mesh, i).normal
            &&& triangles[i].vertices@ == exported(ops, mesh, i).vertices@
        }
}

/// Takes the triangles out of a mesh that is sound.
fn export_triangles<O: Arithmetic>(mesh: &Mesh, ops: &O) -> (result: Vec<StlTriangle>)
    requires
        ops.total(),
        mesh::sound_indexing(mesh.positions@, mesh.triangles@),
    ensures
        exports(ops, *mesh, result@),
        finite_corners(result@),
{
    let mut triangles: Vec<StlTriangle> = Vec::with_capacity(mesh.triangles.len());
    let mut i: usize = 0;
    while i < mesh.triangles.len()
        invariant
            i <= mesh.triangles@.len(),
            ops.total(),
            mesh::sound_indexing(mesh.positions@, mesh.triangles@),
            triangles@.len() == i,
            finite_corners(triangles@),
            forall|k: int|
                0 <= k < i ==> {
                    &&& (#[trigger] triangles@[k]).normal == exported(ops, *mesh, k).normal
                    &&& triangles@[k].vertices@ == exported(ops, *mesh, k).vertices@
                },
        decreases mesh.triangles@.len() - i,
    {
        let triangle = mesh.triangles[i];
        assert(mesh::corners_exist(mesh.triangles@[i as int], mesh.positions@.len()));
        let a = mesh.positions[triangle[0] as usize];
        let b = mesh.positions[triangle[1] as usize];
        let c = mesh.positions[triangle[2] as usize];
        assert(a.finite() && b.finite() && c.finite());
        let normal = arithmetic::unit(
            ops,
            arithmetic::cross(
                ops,
                arithmetic::minus(ops, b, a),
                arithmetic::minus(ops, c, a),
            ),
        );
        triangles.push(StlTriangle { normal, vertices: [a, b, c] });
        i += 1;
    }
    triangles
}

/// Whether bytes are a binary file with the triangles of a mesh.
pub open spec fn holds_mesh<O: Arithmetic>(ops: &O, mesh: Mesh, bytes: Seq<u8>) -> bool {
    exists|triangles: Seq<StlTriangle>| #[trigger]
        exports(ops, mesh, triangles) && finite_corners(triangles) && bytes == binary_file(triangles)
}

/// Whether triangles are the faces of a mesh, corner by corner, bit by bit.
pub open spec fn has_faces(mesh: Mesh, corners: Seq<[Point; 3]>) -> bool {
    &&& corners.len() == mesh.triangles@.len()
    &&& forall|i: int, k: int|
        0 <= i < mesh.triangles@.len() && 0 <= k < 3 ==> (#[trigger] corners[i]@[k])
            == mesh.positions@[mesh.triangles@[i]@[k] as int]
    &&& soup::faces_pick(mesh.positions@, mesh.triangles@, corners)
}

/// Turns a mesh into the bytes of a binary file. `file_name` is the last part of the path.
pub fn write_stl<O: Arithmetic>(
    path: String,
    file_name: Option<String>,
    mesh: &Mesh,
    ops: &O,
) -> (result: Result<(String, Vec<u8>), StlError>)
    requires
        ops.total(),
    ensures
        match result {
            Ok((name, bytes)) => {
                &&& exportable(*mesh) && mesh.triangles@.len() <= u32::MAX
                &&& file_name == Some(name)
                &&& holds_mesh(ops, *mesh, bytes@)
            },
            Err(StlError::InvalidMesh(error)) => !exportable(*mesh) && mesh::validation_error(
                *mesh,
                error,
            ),
            Err(StlError::TooManyTriangles) => exportable(*mesh) && mesh.triangles@.len()
                > u32::MAX,
            Err(StlError::MissingFileName(named)) => exportable(*mesh) && mesh.triangles@.len()
                <= u32::MAX && file_name is None && named@ == path@,
            Err(_) => false,
        },
{
    match mesh.validate() {
        Ok(()) => {},
        Err(error) => {
            return Err(StlError::InvalidMesh(error));
        },
    }
    if mesh.triangles.len() > u32::MAX as usize {
        return Err(StlError::TooManyTriangles);
    }
    let name = match file_name {
        Some(name) => name,
        None => {
            return Err(StlError::MissingFileName(path));
        },
    };
    let triangles = export_triangles(mesh, ops);
    match write_binary(&triangles) {
        Ok(bytes) => Ok((name, bytes)),
        Err(message) => Err(StlError::Write { path, message }),
    }
}

/// The bytes that a mesh was turned into are read, and what is imported from them are the faces of
/// that mesh: the same corners, bit by bit, face by face.
pub proof fn a_written_file_reads_back<O: Arithmetic, G: Geometry>(
    ops: &O,
    geometry: &G,
    mesh: Mesh,
    bytes: Seq<u8>,
    result: Result<(Mesh, ImportReport), StlError>,
)
    requires
        mesh::sound_indexing(mesh.positions@, mesh.triangles@),
        mesh.triangles@.len() <= MOST_TRIANGLES,
        holds_mesh(ops, mesh, bytes),
        reads_binary_files(geometry, bytes, result),
    ensures
        result matches Ok((read, report)) && exists|corners: Seq<[Point; 3]>| #[trigger]
            has_faces(mesh, corners) && imported(geometry, corners, read, report),
{
    let triangles = choose|triangles: Seq<StlTriangle>| #[trigger]
        exports(ops, mesh, triangles) && finite_corners(triangles) && bytes == binary_file(
            triangles,
        );
    let corners = corners_of(triangles);
    assert forall|i: int| 0 <= i < mesh.triangles@.len() implies soup::picks(
        mesh.positions@,
        #[trigger] mesh.triangles@[i],
        corners[i]@,
    ) by {
        assert(mesh::corners_exist(mesh.triangles@[i], mesh.positions@.len()));
        assert(triangles[i].vertices@ == exported(ops, mesh, i).vertices@);
    }
    assert forall|i: int, k: int| 0 <= i < mesh.triangles@.len() && 0 <= k < 3 implies (
    #[trigger] corners[i]@[k]) == mesh.positions@[mesh.triangles@[i]@[k] as int] by {
        assert(triangles[i].vertices@ == exported(ops, mesh, i).vertices@);
    }
    assert(has_faces(mesh, corners));
}

proof fn lemma_number_length(value: u32)
    ensures
        number_bytes(value).len() == 4,
{
}

proof fn lemma_point_length(point: Point)
    ensures
        point_bytes(point).len() == 12,
{
    lemma_number_length(point.x);
    lemma_number_length(point.y);
    lemma_number_length(point.z);
}

proof fn lemma_triangle_length(triangle: StlTriangle)
    ensures
        triangle_bytes(triangle).len() == 50,
{
    lemma_point_length(triangle.normal);
    lemma_point_length(triangle.vertices@[0]);
    lemma_point_length(triangle.vertices@[1]);
    lemma_point_length(triangle.vertices@[2]);
}

#[verifier::spinoff_prover]
proof fn lemma_body_length(triangles: Seq<StlTriangle>)
    ensures
        triangles_bytes(triangles).len() == 50 * triangles.len(),
    decreases triangles.len(),
{
    if triangles.len() > 0 {
        lemma_body_length(triangles.drop_last());
        lemma_triangle_length(triangles.last());
    }
}

/// A binary file has 84 bytes and 50 more for each triangle.
pub proof fn a_binary_file_has_fifty_bytes_a_triangle(triangles: Seq<StlTriangle>)
    ensures
        binary_file(triangles).len() == 84 + 50 * triangles.len(),
{
    lemma_body_length(triangles);
}

/// The temporary files that are tried for one export.
pub const TEMPORARY_ATTEMPTS: u32 = 128;

/// The name of a temporary file beside a file.
pub open spec fn temporary_text(file_name: Seq<char>, process: nat, sequence: nat) -> Seq<char> {
    "."@ + file_name + "."@ + text::decimal(process) + "."@ + text::decimal(sequence) + ".tmp"@
}

pub fn temporary_name(file_name: &str, process: usize, sequence: usize) -> (result: String)
    ensures
        result@ == temporary_text(file_name@, process as nat, sequence as nat),
{
    let mut name = ".".to_owned();
    name.append(file_name);
    name.append(".");
    name.append(text::number(process).as_str());
    name.append(".");
    name.append(text::number(sequence).as_str());
    name.append(".tmp");
    name
}

/// What came of trying to create a file that must not exist yet.
#[derive(Clone, Copy, Debug, PartialEq, Eq, Structural)]
pub enum CreateOutcome {
    Created,
    AlreadyExists,
    Failed,
}

/// What to do then.
#[derive(Clone, Copy, Debug, PartialEq, Eq, Structural)]
pub enum CreateStep {
    Write,
    TryNext,
    GiveUp,
    Fail,
}

/// Decides how to go on after a number of tries, the last of which came to an outcome.
pub fn after_create(tried: u32, outcome: CreateOutcome) -> (result: CreateStep)
    ensures
        result == match outcome {
            CreateOutcome::Created => CreateStep::Write,
            CreateOutcome::Failed => CreateStep::Fail,
            CreateOutcome::AlreadyExists => if tried < TEMPORARY_ATTEMPTS {
                CreateStep::TryNext
            } else {
                CreateStep::GiveUp
            },
        },
{
    match outcome {
        CreateOutcome::Created => CreateStep::Write,
        CreateOutcome::Failed => CreateStep::Fail,
        CreateOutcome::AlreadyExists => if tried < TEMPORARY_ATTEMPTS {
            CreateStep::TryNext
        } else {
            CreateStep::GiveUp
        },
    }
}

} // verus!
