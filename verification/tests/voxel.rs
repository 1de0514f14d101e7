use glam::Vec3;
use manifold_rust::linalg::Vec3 as ManifoldVec3;
use manifold_rust::manifold::Manifold;
use manifold_rust::types::{Box as ManifoldBox, Error as ManifoldError};
use sculpt_lite::arithmetic::{Arithmetic, Operations};
use sculpt_lite::geometry::Geometry;
use sculpt_lite::mesh::Mesh;
use sculpt_lite::query::ClosestSurfacePoint;
use sculpt_lite::scalar::Point;
use sculpt_lite::search::RayIntersectionCount;
use sculpt_lite::shapes::Solid;
use sculpt_lite::voxel_remesh::{
    extraction_grid, finish_remesh, query_failure_error, record_query_failure, reproject_masks,
    signed_distance, source_eligibility, unambiguous_parity, validate_output, voxel_remesh,
    Extraction, ExtractionGrid, ExtractionOutcome, ExtractionRun, FieldValue, VoxelRemeshError,
    VoxelRemeshOutput, VoxelRemeshSettings, QUERY_AMBIGUOUS, QUERY_CLOSEST_POINT_FAILED, QUERY_OK,
    QUERY_RAY_FAILED,
};
use sculpt_lite::wide::{surface_roundoff, WideArithmetic, WideOperations, WidePoint};
use std::sync::Mutex;

fn bits(value: f32) -> u32 {
    value.to_bits()
}

fn number(bits: u32) -> f32 {
    f32::from_bits(bits)
}

fn ops() -> impl Arithmetic {
    Operations {
        sum: |a: u32, b: u32| bits(number(a) + number(b)),
        difference: |a: u32, b: u32| bits(number(a) - number(b)),
        product: |a: u32, b: u32| bits(number(a) * number(b)),
        quotient: |a: u32, b: u32| bits(number(a) / number(b)),
        root: |a: u32| bits(number(a).sqrt()),
        count: |items: usize| bits(items as f32),
    }
}

fn solid() -> impl Geometry {
    Solid { ops: ops() }
}

fn p(x: f32, y: f32, z: f32) -> Point {
    Point { x: bits(x), y: bits(y), z: bits(z) }
}

fn vec3(point: Point) -> Vec3 {
    Vec3::new(number(point.x), number(point.y), number(point.z))
}

fn pt(vector: Vec3) -> Point {
    p(vector.x, vector.y, vector.z)
}

fn pts(vectors: &[Vec3]) -> Vec<Point> {
    vectors.iter().map(|&vector| pt(vector)).collect()
}

fn wide() -> impl WideArithmetic {
    WideOperations {
        sum: |a: u64, b: u64| (f64::from_bits(a) + f64::from_bits(b)).to_bits(),
        difference: |a: u64, b: u64| (f64::from_bits(a) - f64::from_bits(b)).to_bits(),
        product: |a: u64, b: u64| (f64::from_bits(a) * f64::from_bits(b)).to_bits(),
        quotient: |a: u64, b: u64| (f64::from_bits(a) / f64::from_bits(b)).to_bits(),
        root: |a: u64| f64::from_bits(a).sqrt().to_bits(),
        widened: |a: u32| f64::from(number(a)).to_bits(),
        narrowed: |a: u64| bits(f64::from_bits(a) as f32),
        count: |items: u32| f64::from(items).to_bits(),
    }
}

fn cube(center: Vec3, half_extent: f32) -> Mesh {
    let positions = [
        Vec3::new(-1.0, -1.0, -1.0),
        Vec3::new(1.0, -1.0, -1.0),
        Vec3::new(1.0, 1.0, -1.0),
        Vec3::new(-1.0, 1.0, -1.0),
        Vec3::new(-1.0, -1.0, 1.0),
        Vec3::new(1.0, -1.0, 1.0),
        Vec3::new(1.0, 1.0, 1.0),
        Vec3::new(-1.0, 1.0, 1.0),
    ]
    .map(|position| center + position * half_extent);
    let triangles = vec![
        [0, 2, 1],
        [0, 3, 2],
        [4, 5, 6],
        [4, 6, 7],
        [0, 1, 5],
        [0, 5, 4],
        [1, 2, 6],
        [1, 6, 5],
        [2, 3, 7],
        [2, 7, 6],
        [3, 0, 4],
        [3, 4, 7],
    ];
    Mesh::new(pts(&positions), triangles, &solid()).unwrap()
}

fn append_mesh(target: &mut Mesh, source: &Mesh, reverse: bool) {
    let offset = target.positions.len() as u32;
    target.positions.extend_from_slice(&source.positions);
    target.mask.extend_from_slice(&source.mask);
    target.triangles.extend(source.triangles.iter().map(|triangle| {
        let mut triangle = triangle.map(|vertex| vertex + offset);
        if reverse {
            triangle.swap(1, 2);
        }
        triangle
    }));
    let _ = target.rebuild(&solid());
}

fn icosahedron() -> Mesh {
    let phi = (1.0 + 5.0_f32.sqrt()) * 0.5;
    let positions = [
        Vec3::new(-1.0, phi, 0.0),
        Vec3::new(1.0, phi, 0.0),
        Vec3::new(-1.0, -phi, 0.0),
        Vec3::new(1.0, -phi, 0.0),
        Vec3::new(0.0, -1.0, phi),
        Vec3::new(0.0, 1.0, phi),
        Vec3::new(0.0, -1.0, -phi),
        Vec3::new(0.0, 1.0, -phi),
        Vec3::new(phi, 0.0, -1.0),
        Vec3::new(phi, 0.0, 1.0),
        Vec3::new(-phi, 0.0, -1.0),
        Vec3::new(-phi, 0.0, 1.0),
    ]
    .map(|position| position.normalize());
    let triangles = vec![
        [0, 11, 5],
        [0, 5, 1],
        [0, 1, 7],
        [0, 7, 10],
        [0, 10, 11],
        [1, 5, 9],
        [5, 11, 4],
        [11, 10, 2],
        [10, 7, 6],
        [7, 1, 8],
        [3, 9, 4],
        [3, 4, 2],
        [3, 2, 6],
        [3, 6, 8],
        [3, 8, 9],
        [4, 9, 5],
        [2, 4, 11],
        [6, 2, 10],
        [8, 6, 7],
        [9, 8, 1],
    ];
    Mesh::new(pts(&positions), triangles, &solid()).unwrap()
}

/// Two cubes that share one vertex.
fn bow_tie_parts() -> (Vec<Point>, Vec<[u32; 3]>) {
    let first = cube(Vec3::ZERO, 1.0);
    let second = cube(Vec3::new(2.0, 2.0, 2.0), 1.0);
    let offset = first.positions.len() as u32 - 1;
    let mut positions = first.positions.clone();
    positions.extend_from_slice(&second.positions[1..]);
    let mut triangles = first.triangles.clone();
    triangles.extend(second.triangles.iter().map(|triangle| {
        triangle.map(|vertex| if vertex == 0 { 6 } else { vertex + offset })
    }));
    (positions, triangles)
}

fn grid(mesh: &Mesh, resolution: u32) -> Result<ExtractionGrid, VoxelRemeshError> {
    extraction_grid(mesh, VoxelRemeshSettings { resolution }, &ops(), &wide())
}

fn voxel_size(mesh: &Mesh, resolution: u32) -> Result<f32, VoxelRemeshError> {
    grid(mesh, resolution).map(|grid| f64::from_bits(grid.voxel_size) as f32)
}

fn closest(mesh: &Mesh, point: Vec3) -> ClosestSurfacePoint {
    mesh.closest_surface_point(pt(point), &ops()).unwrap()
}

fn field(mesh: &Mesh, x: f64, y: f64, z: f64) -> (FieldValue, u8) {
    let point = WidePoint { x: x.to_bits(), y: y.to_bits(), z: z.to_bits() };
    signed_distance(mesh, point, &ops(), &wide())
}

fn extract(source: &Mesh, grid: ExtractionGrid) -> ExtractionRun {
    let failure = Mutex::new(QUERY_OK);
    let low = ManifoldVec3::new(
        f64::from_bits(grid.min_x),
        f64::from_bits(grid.min_y),
        f64::from_bits(grid.min_z),
    );
    let high = ManifoldVec3::new(
        f64::from_bits(grid.max_x),
        f64::from_bits(grid.max_y),
        f64::from_bits(grid.max_z),
    );
    let manifold = Manifold::level_set(
        |point: ManifoldVec3| {
            let (value, code) = field(source, point.x, point.y, point.z);
            if code != QUERY_OK {
                record_query_failure(&mut failure.lock().unwrap(), code);
            }
            f64::from_bits(value.number(&wide()))
        },
        ManifoldBox::from_points(low, high),
        f64::from_bits(grid.voxel_size),
    );
    let status = manifold.status();
    let surface = manifold.get_mesh_gl(-1);
    let failure = *failure.lock().unwrap();
    ExtractionRun {
        outcome: ExtractionOutcome::Finished(Extraction {
            status: if status == ManifoldError::NoError {
                None
            } else {
                Some(status.to_str().to_owned())
            },
            num_prop: surface.num_prop as u32,
            vert_properties: surface.vert_properties.iter().map(|&value| bits(value)).collect(),
            tri_verts: surface.tri_verts.clone(),
        }),
        failure,
    }
}

fn remesh(source: &Mesh, resolution: u32) -> Result<VoxelRemeshOutput, VoxelRemeshError> {
    voxel_remesh(
        source,
        VoxelRemeshSettings { resolution },
        &|grid: ExtractionGrid| extract(source, grid),
        &wide(),
        &ops(),
        &solid(),
    )
}

fn finish(outcome: ExtractionOutcome, failure: u8) -> Result<VoxelRemeshOutput, VoxelRemeshError> {
    finish_remesh(
        &cube(Vec3::ZERO, 1.0),
        outcome,
        failure,
        bits(0.5),
        &wide(),
        &ops(),
        &solid(),
    )
}

fn cube_extraction() -> Extraction {
    let mesh = cube(Vec3::ZERO, 1.0);
    Extraction {
        status: None,
        num_prop: 3,
        vert_properties: mesh.positions.iter().flat_map(|point| [point.x, point.y, point.z]).collect(),
        tri_verts: mesh.triangles.iter().flatten().copied().collect(),
    }
}

fn surface_component_count(mesh: &Mesh) -> usize {
    let mut visited = vec![false; mesh.triangles.len()];
    let mut stack = Vec::new();
    let mut components = 0;
    for seed in 0..mesh.triangles.len() {
        if visited[seed] {
            continue;
        }
        components += 1;
        visited[seed] = true;
        stack.push(seed as u32);
        while let Some(face) = stack.pop() {
            let triangle = mesh.triangles[face as usize];
            for corner in 0..3 {
                let (a, b) = (triangle[corner], triangle[(corner + 1) % 3]);
                let edge = (a.min(b), a.max(b));
                for &neighbor in mesh.topology.edge_faces.faces(edge).unwrap() {
                    if !visited[neighbor as usize] {
                        visited[neighbor as usize] = true;
                        stack.push(neighbor);
                    }
                }
            }
        }
    }
    components
}

#[test]
fn settings_are_bounded_and_default_to_96() {
    assert_eq!(VoxelRemeshSettings::default().resolution, 96);
    let mesh = cube(Vec3::ZERO, 1.0);
    for resolution in [31, 193] {
        assert!(matches!(
            voxel_size(&mesh, resolution),
            Err(VoxelRemeshError::InvalidResolution { .. })
        ));
    }
}

#[test]
fn grid_bounds_ignore_unreferenced_vertices() {
    let mut mesh = cube(Vec3::ZERO, 1.0);
    mesh.positions.push(pt(Vec3::splat(10_000.0)));
    mesh.normals.push(pt(Vec3::ZERO));
    mesh.mask.push(bits(0.0));

    let size = voxel_size(&mesh, 32).unwrap();
    assert!((size - 0.0625).abs() < f32::EPSILON);
}

#[test]
fn surface_roundoff_is_translation_invariant() {
    let local = cube(Vec3::ZERO, 1.0);
    let translated = cube(Vec3::splat(1_000_000.0), 1.0);
    let local_point = Vec3::new(0.25, 0.25, 1.0);
    let translated_point = local_point + Vec3::splat(1_000_000.0);
    let local_closest = closest(&local, local_point);
    let translated_closest = closest(&translated, translated_point);

    let roundoff = |mesh: &Mesh, triangle: u32, point: Vec3| {
        f64::from_bits(surface_roundoff(mesh, triangle, pt(point), &ops(), &wide()))
    };
    let local_roundoff = roundoff(&local, local_closest.triangle, local_point);
    let translated_roundoff =
        roundoff(&translated, translated_closest.triangle, translated_point);
    assert!((local_roundoff - translated_roundoff).abs() <= f64::EPSILON);
    assert!(translated_roundoff < 1.0e-4);
}

#[test]
fn grid_rejects_voxels_below_coordinate_precision() {
    let mesh = cube(Vec3::splat(10_000_000.0), 1.0);
    assert!(matches!(
        voxel_size(&mesh, 32),
        Err(VoxelRemeshError::InsufficientCoordinatePrecision { .. })
    ));
}

#[test]
fn open_and_non_manifold_sources_are_rejected() {
    let open =
        Mesh::new(pts(&[Vec3::ZERO, Vec3::X, Vec3::Y]), vec![[0, 1, 2]], &solid()).unwrap();
    assert!(matches!(source_eligibility(&open), Err(VoxelRemeshError::OpenSource { .. })));

    let mut bow_tie = cube(Vec3::ZERO, 1.0);
    let (positions, triangles) = bow_tie_parts();
    bow_tie.mask = vec![bits(0.0); positions.len()];
    bow_tie.positions = positions;
    bow_tie.triangles = triangles;
    let _ = bow_tie.rebuild(&solid());
    assert!(matches!(
        source_eligibility(&bow_tie),
        Err(VoxelRemeshError::NonManifoldSource { .. })
    ));
}

#[test]
fn cube_remesh_is_deterministic_closed_and_reprojects_masks() {
    let mut source = cube(Vec3::ZERO, 1.0);
    source.mask =
        source.positions.iter().map(|position| bits((number(position.x) + 1.0) * 0.5)).collect();
    let first = remesh(&source, 32).unwrap();
    let second = remesh(&source, 32).unwrap();

    assert_eq!(first.mesh.positions, second.mesh.positions);
    assert_eq!(first.mesh.triangles, second.mesh.triangles);
    assert_eq!(first.mesh.mask, second.mesh.mask);
    assert_eq!(first.source_faces, 12);
    assert_eq!(first.output_faces, first.mesh.triangles.len());
    assert_eq!(first.mesh.topology.boundary_edge_count(), 0);
    assert_eq!(first.mesh.topology.non_manifold_edge_count(), 0);
    assert_eq!(first.mesh.topology.non_manifold_vertex_count(), 0);
    for (&position, &mask) in first.mesh.positions.iter().zip(&first.mesh.mask) {
        let closest = closest(&source, vec3(position));
        let weights = vec3(closest.barycentric);
        let [a, b, c] = source.triangles[closest.triangle as usize]
            .map(|vertex| number(source.mask[vertex as usize]));
        let expected = a * weights.x + b * weights.y + c * weights.z;
        assert!((number(mask) - expected).abs() < 1.0e-6);
    }
    assert!(first.mesh.mask.iter().any(|&mask| number(mask) < 0.1));
    assert!(first.mesh.mask.iter().any(|&mask| number(mask) > 0.9));

    let (min, max) = first.mesh.bounds().unwrap();
    let tolerance = number(first.voxel_size) * 2.0;
    for low in vec3(min).to_array() {
        assert!((low + 1.0).abs() <= tolerance);
    }
    for high in vec3(max).to_array() {
        assert!((high - 1.0).abs() <= tolerance);
    }
}

#[test]
fn curved_cavity_and_disconnected_sources_remesh() {
    let curved = remesh(&icosahedron(), 40).unwrap();
    assert!(!curved.mesh.triangles.is_empty());
    assert_eq!(curved.mesh.topology.boundary_edge_count(), 0);

    let mut disconnected = cube(Vec3::new(-2.0, 0.0, 0.0), 0.75);
    append_mesh(&mut disconnected, &cube(Vec3::new(2.0, 0.0, 0.0), 0.75), false);
    let disconnected = remesh(&disconnected, 32).unwrap();
    assert_eq!(surface_component_count(&disconnected.mesh), 2);

    let mut cavity = cube(Vec3::ZERO, 1.0);
    append_mesh(&mut cavity, &cube(Vec3::ZERO, 0.45), true);
    let cavity = remesh(&cavity, 32).unwrap();
    assert_eq!(surface_component_count(&cavity.mesh), 2);
}

#[test]
fn strict_validation_rejects_a_closed_bow_tie_vertex() {
    let (positions, triangles) = bow_tie_parts();
    assert!(matches!(
        validate_output(&positions, &triangles, &wide()),
        Err(VoxelRemeshError::NonManifoldOutputVertex { .. })
    ));
}

#[test]
fn each_fault_of_an_extracted_surface_has_its_error() {
    let mesh = cube(Vec3::ZERO, 1.0);
    let judge = |positions: &Vec<Point>, triangles: &Vec<[u32; 3]>| {
        validate_output(positions, triangles, &wide())
    };
    assert!(judge(&mesh.positions, &mesh.triangles).is_ok());
    assert!(matches!(
        judge(&Vec::new(), &mesh.triangles),
        Err(VoxelRemeshError::EmptyOutput)
    ));
    let mut positions = mesh.positions.clone();
    positions[3].y = bits(f32::INFINITY);
    assert!(matches!(
        judge(&positions, &mesh.triangles),
        Err(VoxelRemeshError::NonFiniteOutputVertex { index: 3 })
    ));
    let mut triangles = mesh.triangles.clone();
    triangles[2] = [4, 5, 60];
    assert!(matches!(
        judge(&mesh.positions, &triangles),
        Err(VoxelRemeshError::OutputIndexOutOfBounds { triangle: 2, index: 60, vertex_count: 8 })
    ));
    triangles[2] = [4, 5, 5];
    assert!(matches!(
        judge(&mesh.positions, &triangles),
        Err(VoxelRemeshError::DegenerateOutputTriangle { triangle: 2 })
    ));
    triangles.remove(2);
    assert!(matches!(
        judge(&mesh.positions, &triangles),
        Err(VoxelRemeshError::OutputEdgeUseCount { faces: 1, .. })
    ));
    let mut triangles = mesh.triangles.clone();
    triangles[2].swap(0, 1);
    assert!(matches!(
        judge(&mesh.positions, &triangles),
        Err(VoxelRemeshError::InconsistentOutputWinding { .. })
    ));
    let mut positions = mesh.positions.clone();
    positions.push(pt(Vec3::splat(5.0)));
    assert!(matches!(
        judge(&positions, &mesh.triangles),
        Err(VoxelRemeshError::UnreferencedOutputVertex { vertex: 8 })
    ));
}

#[test]
fn each_end_of_an_extraction_has_its_result() {
    assert!(matches!(
        finish(ExtractionOutcome::Panicked { message: "lost".to_string() }, QUERY_OK),
        Err(VoxelRemeshError::ExtractionPanicked { message }) if message == "lost"
    ));
    let finished = || ExtractionOutcome::Finished(cube_extraction());
    assert!(matches!(
        finish(finished(), QUERY_RAY_FAILED),
        Err(VoxelRemeshError::RayContainmentQueryFailed)
    ));
    let mut extraction = cube_extraction();
    extraction.status = Some("Not Manifold".to_string());
    assert!(matches!(
        finish(ExtractionOutcome::Finished(extraction), QUERY_OK),
        Err(VoxelRemeshError::ExtractionFailed { status }) if status == "Not Manifold"
    ));
    let mut extraction = cube_extraction();
    extraction.tri_verts.clear();
    assert!(matches!(
        finish(ExtractionOutcome::Finished(extraction), QUERY_OK),
        Err(VoxelRemeshError::EmptyOutput)
    ));
    let mut extraction = cube_extraction();
    extraction.vert_properties.pop();
    assert!(matches!(
        finish(ExtractionOutcome::Finished(extraction), QUERY_OK),
        Err(VoxelRemeshError::InvalidOutputLayout)
    ));
    let output = finish(finished(), QUERY_OK).unwrap();
    assert_eq!(output.mesh.positions, cube(Vec3::ZERO, 1.0).positions);
    assert_eq!(output.source_faces, 12);
    assert_eq!(output.output_faces, 12);
    assert_eq!(number(output.voxel_size), 0.5);
    assert!(source_eligibility(&output.mesh).is_ok());
}

#[test]
fn the_field_is_positive_inside_and_negative_outside() {
    let mesh = cube(Vec3::ZERO, 1.0);
    let half = FieldValue::Inside { distance: bits(0.5) };
    assert_eq!(field(&mesh, 0.5, 0.1, 0.2), (half, QUERY_OK));
    let out = FieldValue::Outside { distance: bits(2.0) };
    assert_eq!(field(&mesh, 3.0, 0.1, 0.2), (out, QUERY_OK));
    assert_eq!(field(&mesh, 1.0, 0.1, 0.2), (FieldValue::OnSurface, QUERY_OK));
    assert_eq!(
        field(&mesh, f64::NAN, 0.0, 0.0),
        (FieldValue::Missing, QUERY_CLOSEST_POINT_FAILED)
    );
    let number = |value: FieldValue| f64::from_bits(value.number(&wide()));
    assert_eq!(number(half), 0.5);
    assert_eq!(number(out), -2.0);
    assert_eq!(number(FieldValue::OnSurface), 0.0);
    assert_eq!(number(FieldValue::Missing), -1.0);
}

#[test]
fn the_first_failed_query_is_the_one_reported() {
    let mut failure = QUERY_OK;
    assert!(query_failure_error(failure).is_none());
    record_query_failure(&mut failure, QUERY_AMBIGUOUS);
    record_query_failure(&mut failure, QUERY_RAY_FAILED);
    assert!(matches!(
        query_failure_error(failure),
        Some(VoxelRemeshError::AmbiguousContainment)
    ));
    assert!(matches!(
        query_failure_error(QUERY_CLOSEST_POINT_FAILED),
        Some(VoxelRemeshError::ClosestPointQueryFailed)
    ));
}

#[test]
fn an_odd_count_lies_inside_unless_it_is_ambiguous() {
    let count = |intersections: usize, ambiguous: bool| RayIntersectionCount {
        intersections,
        ambiguous,
    };
    assert_eq!(unambiguous_parity(count(3, false)), Some(true));
    assert_eq!(unambiguous_parity(count(2, false)), Some(false));
    assert_eq!(unambiguous_parity(count(3, true)), None);
}

#[test]
fn masks_of_points_that_are_not_finite_cannot_be_taken_over() {
    let mut source = cube(Vec3::ZERO, 1.0);
    source.mask[6] = bits(1.0);
    let corner = source.positions[6];
    let weights = reproject_masks(&source, &vec![corner], &ops()).unwrap();
    assert_eq!(weights, [bits(1.0)]);
    assert!(matches!(
        reproject_masks(&source, &vec![corner, p(f32::NAN, 0.0, 0.0)], &ops()),
        Err(VoxelRemeshError::MaskReprojectionFailed { vertex: 1 })
    ));
}
