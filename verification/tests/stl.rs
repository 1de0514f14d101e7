use glam::Vec3;
use sculpt_lite::arithmetic::{Arithmetic, Operations};
use sculpt_lite::geometry::Geometry;
use sculpt_lite::mesh::{Mesh, MeshError};
use sculpt_lite::scalar::Point;
use sculpt_lite::shapes::Solid;
use sculpt_lite::stl::{
    after_create, import_triangles, read_stl, temporary_name, write_stl, CreateOutcome, CreateStep,
    ImportReport, StlError, TEMPORARY_ATTEMPTS,
};

fn bits(value: f32) -> u32 {
    value.to_bits()
}

fn number(bits: u32) -> f32 {
    f32::from_bits(bits)
}

fn ops() -> impl Arithmetic {
    Operations {
        sum: |a: u32, b: u32| bits(number(a) + number(b)),
        difference: |a: u32, b: u32| bits(number(a) - number(b)),
        product: |a: u32, b: u32| bits(number(a) * number(b)),
        quotient: |a: u32, b: u32| bits(number(a) / number(b)),
        root: |a: u32| bits(number(a).sqrt()),
        count: |items: usize| bits(items as f32),
    }
}

fn solid() -> impl Geometry {
    Solid { ops: ops() }
}

fn p(x: f32, y: f32, z: f32) -> Point {
    Point { x: bits(x), y: bits(y), z: bits(z) }
}

fn pt(vector: Vec3) -> Point {
    p(vector.x, vector.y, vector.z)
}

fn pts(vectors: &[Vec3]) -> Vec<Point> {
    vectors.iter().map(|&vector| pt(vector)).collect()
}

fn load(name: &str, bytes: &[u8]) -> Result<(Mesh, ImportReport), StlError> {
    read_stl(name.to_string(), &bytes.to_vec(), &solid())
}

fn save(name: &str, mesh: &Mesh) -> Result<(String, Vec<u8>), StlError> {
    write_stl(name.to_string(), Some(name.to_string()), mesh, &ops())
}

fn triangle() -> Mesh {
    Mesh::new(pts(&[Vec3::ZERO, Vec3::X, Vec3::Y]), vec![[0, 1, 2]], &solid()).unwrap()
}

#[test]
fn imports_ascii_stl_and_preserves_coordinates_and_scale() {
    let (mesh, report) = load(
        "skull-part.stl",
        b"solid test\n\
          facet normal 0 0 1\n\
            outer loop\n\
              vertex -12.5 3.25 100\n\
              vertex 7.75 3.25 100\n\
              vertex -12.5 9.5 100\n\
            endloop\n\
          endfacet\n\
        endsolid test\n",
    )
    .unwrap();
    assert_eq!(mesh.positions.len(), 3);
    assert_eq!(mesh.triangles.len(), 1);
    assert_eq!(mesh.bounds(), Some((p(-12.5, 3.25, 100.0), p(7.75, 9.5, 100.0))));
    assert_eq!(report.source_triangles, 1);
    assert_eq!(report.source_vertices, 3);
    assert_eq!(report.unique_vertices, 3);
    assert_eq!(report.boundary_edges, 3);
    assert!(report.has_topology_warnings());
}

#[test]
fn binary_round_trip_preserves_edited_vertex_coordinates() {
    let mesh = Mesh::new(
        vec![p(-1.25, 2.5, 3.75), p(4.0, 2.5, 3.75), p(-1.25, 8.0, 3.75)],
        vec![[0, 1, 2]],
        &solid(),
    )
    .unwrap();

    let (name, bytes) = save("edited.stl", &mesh).unwrap();
    assert_eq!(name, "edited.stl");
    assert_eq!(bytes.len(), 84 + 50);
    let (loaded, report) = load("edited.stl", &bytes).unwrap();
    assert_eq!(loaded.positions, mesh.positions);
    assert_eq!(loaded.triangles.len(), 1);
    assert_eq!(report.output_triangles, 1);
}

#[test]
fn written_facets_carry_their_normals() {
    let (_, bytes) = save("triangle.stl", &triangle()).unwrap();
    let count = u32::from_le_bytes([bytes[80], bytes[81], bytes[82], bytes[83]]);
    assert_eq!(count, 1);
    let component = |index: usize| {
        let start = 84 + 4 * index;
        f32::from_le_bytes([bytes[start], bytes[start + 1], bytes[start + 2], bytes[start + 3]])
    };
    assert_eq!([component(0), component(1), component(2)], [0.0, 0.0, 1.0]);
    assert_eq!([component(6), component(7), component(8)], [1.0, 0.0, 0.0]);
}

#[test]
fn malformed_stl_is_a_read_error() {
    assert!(matches!(load("bad.stl", b"not an stl"), Err(StlError::Read { .. })));
}

#[test]
fn an_empty_solid_is_an_empty_mesh() {
    let (mesh, report) = load("empty.stl", b"solid empty\nendsolid empty\n").unwrap();
    assert!(mesh.positions.is_empty());
    assert!(mesh.triangles.is_empty());
    assert_eq!(report.source_triangles, 0);
    assert!(!report.has_topology_warnings());
}

#[test]
fn an_error_among_the_facets_is_a_read_error() {
    let facet = [p(0.0, 0.0, 0.0), p(1.0, 0.0, 0.0), p(0.0, 1.0, 0.0)];
    assert!(matches!(
        import_triangles("cut.stl".to_string(), vec![facet], Some("cut".to_string()), &solid()),
        Err(StlError::Read { path, message }) if path == "cut.stl" && message == "cut"
    ));
}

#[test]
fn repeated_corners_are_welded_and_repeated_faces_removed() {
    let (a, b, c, d) = (p(0.0, 0.0, 0.0), p(1.0, 0.0, 0.0), p(0.0, 1.0, 0.0), p(0.0, 0.0, 1.0));
    let (mesh, report) = import_triangles(
        "weld.stl".to_string(),
        vec![[a, b, c], [a, d, b], [b, c, a], [a, a, b]],
        None,
        &solid(),
    )
    .unwrap();
    assert_eq!(mesh.positions, [a, b, c, d]);
    assert_eq!(mesh.triangles.len(), 2);
    assert_eq!(report.source_triangles, 4);
    assert_eq!(report.removed_duplicate_faces, 1);
    assert_eq!(report.removed_degenerate_faces, 1);
}

#[test]
fn invalid_mesh_does_not_replace_destination() {
    let mut invalid = triangle();
    invalid.positions[0].x = bits(f32::NAN);
    assert!(matches!(
        save("safe.stl", &invalid),
        Err(StlError::InvalidMesh(MeshError::NonFiniteVertex { .. }))
    ));
}

#[test]
fn a_destination_without_a_name_is_refused() {
    assert!(matches!(
        write_stl("/".to_string(), None, &triangle(), &ops()),
        Err(StlError::MissingFileName(path)) if path == "/"
    ));
}

#[test]
fn import_report_display_surfaces_topology_and_cleanup() {
    let report = ImportReport {
        source_triangles: 0,
        source_vertices: 0,
        output_triangles: 12,
        unique_vertices: 8,
        welded_vertices: 28,
        boundary_edges: 3,
        boundary_vertices: 0,
        non_manifold_edges: 1,
        non_manifold_vertices: 0,
        removed_invalid_faces: 0,
        removed_degenerate_faces: 2,
        removed_duplicate_faces: 0,
        flipped_faces: 0,
    };
    let display = report.text();
    assert!(display.contains("12 triangles"));
    assert!(display.contains("3 boundary edges"));
    assert!(display.contains("1 non-manifold edges"));
    assert!(display.contains("2 unusable faces removed"));
}

#[test]
fn temporary_files_sit_beside_the_destination() {
    assert_eq!(temporary_name("part.stl", 42, 7), ".part.stl.42.7.tmp");
}

#[test]
fn temporary_names_are_tried_until_one_is_free() {
    assert!(matches!(after_create(0, CreateOutcome::Created), CreateStep::Write));
    assert!(matches!(after_create(127, CreateOutcome::AlreadyExists), CreateStep::TryNext));
    assert!(matches!(
        after_create(TEMPORARY_ATTEMPTS, CreateOutcome::AlreadyExists),
        CreateStep::GiveUp
    ));
    assert!(matches!(after_create(3, CreateOutcome::Failed), CreateStep::Fail));
}
