#![allow(dead_code)]

use glam::{Mat4, Vec3, Vec4};
use sculpt_lite::arithmetic::{Arithmetic, Operations};
use sculpt_lite::batch::{FrameRenderBatch, RenderUpdate};
use sculpt_lite::bounds::MeshBounds;
use sculpt_lite::brush::{BrushSettings, SculptTool};
use sculpt_lite::camera::{Camera, ScreenRect};
use sculpt_lite::geometry::Geometry;
use sculpt_lite::input::{Modifiers, ScreenPoint};
use sculpt_lite::mesh::Mesh;
use sculpt_lite::optics::{Clip, Lens, Matrix, Optics, View};
use sculpt_lite::scalar::Point;
use sculpt_lite::session::SculptInput;
use sculpt_lite::shapes::Solid;
use sculpt_lite::stroke::StrokeSampler;
use sculpt_lite::upload::{
    buffer_capacity_fits, buffer_to_make, coalesced_vertex_ranges, index_count, roomy_capacity,
    topology_writes, vertex_writes, BufferWrites, GpuVertex, MeshChangeSet, MeshUpload,
    RenderInput, SendTopology, SendVertices, SentRevisions, GPU_VERTEX_BYTES,
};
use std::collections::HashSet;

fn bits(value: f32) -> u32 {
    value.to_bits()
}

fn number(bits: u32) -> f32 {
    f32::from_bits(bits)
}

fn ops() -> impl Arithmetic {
    Operations {
        sum: |a: u32, b: u32| bits(number(a) + number(b)),
        difference: |a: u32, b: u32| bits(number(a) - number(b)),
        product: |a: u32, b: u32| bits(number(a) * number(b)),
        quotient: |a: u32, b: u32| bits(number(a) / number(b)),
        root: |a: u32| bits(number(a).sqrt()),
        count: |items: usize| bits(items as f32),
    }
}

fn solid() -> impl Geometry {
    Solid { ops: ops() }
}

fn p(x: f32, y: f32, z: f32) -> Point {
    Point { x: bits(x), y: bits(y), z: bits(z) }
}

fn vec3(point: Point) -> Vec3 {
    Vec3::new(number(point.x), number(point.y), number(point.z))
}

fn pt(vector: Vec3) -> Point {
    p(vector.x, vector.y, vector.z)
}

fn pts(vectors: &[Vec3]) -> Vec<Point> {
    vectors.iter().map(|&vector| pt(vector)).collect()
}

fn at(x: f32, y: f32) -> ScreenPoint {
    ScreenPoint { x: bits(x), y: bits(y) }
}

fn vec4(clip: Clip) -> Vec4 {
    Vec4::new(number(clip.x), number(clip.y), number(clip.z), number(clip.w))
}

fn clip(vector: Vec4) -> Clip {
    Clip { x: bits(vector.x), y: bits(vector.y), z: bits(vector.z), w: bits(vector.w) }
}

fn mat4(matrix: Matrix) -> Mat4 {
    Mat4::from_cols(vec4(matrix.x), vec4(matrix.y), vec4(matrix.z), vec4(matrix.w))
}

fn matrix(columns: Mat4) -> Matrix {
    Matrix {
        x: clip(columns.x_axis),
        y: clip(columns.y_axis),
        z: clip(columns.z_axis),
        w: clip(columns.w_axis),
    }
}

fn view_projection(view: View) -> Matrix {
    let looking = glam::camera::rh::view::look_at_mat4(vec3(view.eye), vec3(view.target), Vec3::Z);
    let projection = glam::camera::rh::proj::directx::perspective(
        number(view.field_of_view),
        number(view.aspect),
        number(view.near),
        number(view.far),
    );
    matrix(projection * looking)
}

fn lens() -> impl Optics {
    Lens {
        sine: |angle: u32| bits(number(angle).sin()),
        cosine: |angle: u32| bits(number(angle).cos()),
        tangent: |angle: u32| bits(number(angle).tan()),
        arc_sine: |value: u32| bits(number(value).asin()),
        arc_tangent: |y: u32, x: u32| bits(number(y).atan2(number(x))),
        exponential: |value: u32| bits(number(value).exp()),
        remainder: |value: u32, modulus: u32| bits(number(value).rem_euclid(number(modulus))),
        view_projection,
        inverse: |from: Matrix| matrix(mat4(from).inverse()),
        transform: |pair: (Matrix, Clip)| clip(mat4(pair.0) * vec4(pair.1)),
    }
}

fn triangle() -> Mesh {
    Mesh::new(pts(&[Vec3::ZERO, Vec3::X, Vec3::Y]), vec![[0, 1, 2]], &solid()).unwrap()
}

fn octahedron() -> Mesh {
    Mesh::new(
        pts(&[Vec3::X, Vec3::Y, Vec3::NEG_X, Vec3::NEG_Y, Vec3::Z, Vec3::NEG_Z]),
        vec![
            [4, 0, 1],
            [4, 1, 2],
            [4, 2, 3],
            [4, 3, 0],
            [5, 1, 0],
            [5, 2, 1],
            [5, 3, 2],
            [5, 0, 3],
        ],
        &solid(),
    )
    .unwrap()
}

fn edges_of(upload: &MeshUpload) -> HashSet<(u32, u32)> {
    upload.edge_indices.chunks_exact(2).map(|edge| (edge[0], edge[1])).collect()
}

#[test]
fn mesh_upload_ignores_invalid_triangles_and_defaults_attributes() {
    let mut mesh = triangle();
    mesh.triangles.push([0, 2, 99]);
    mesh.normals.clear();
    mesh.mask.clear();
    let upload = MeshUpload::from_mesh(&mesh, &ops());

    assert_eq!(upload.vertices.len(), 3);
    assert_eq!(upload.triangle_indices, [0, 1, 2]);
    assert_eq!(edges_of(&upload), HashSet::from([(0, 1), (0, 2), (1, 2)]));
    assert_eq!(number(upload.vertices[0].mask), 0.0);
    assert_eq!(upload.vertices[0].normal, pt(Vec3::Y));
}

#[test]
fn mesh_upload_emits_each_wire_edge_once() {
    let mesh = Mesh::new(
        pts(&[Vec3::ZERO, Vec3::X, Vec3::Y, Vec3::ONE]),
        vec![[0, 1, 2], [2, 1, 3]],
        &solid(),
    )
    .unwrap();
    let upload = MeshUpload::from_mesh(&mesh, &ops());

    assert_eq!(upload.edge_indices.len(), 10);
    assert_eq!(
        edges_of(&upload),
        HashSet::from([(0, 1), (0, 2), (1, 2), (1, 3), (2, 3)])
    );
}

#[test]
fn mesh_upload_clamps_mask_values() {
    let vertices = MeshUpload::vertices(
        &pts(&[Vec3::ZERO, Vec3::X, Vec3::Y]),
        &pts(&[Vec3::Z; 3]),
        &vec![bits(-1.0), bits(0.4), bits(2.0)],
        &ops(),
    );
    let masks: Vec<f32> = vertices.iter().map(|vertex| number(vertex.mask)).collect();
    assert_eq!(masks, [0.0, 0.4, 1.0]);
}

#[test]
fn partial_vertex_ranges_deduplicate_clip_and_coalesce_nearby_writes() {
    let mut dirty = vec![99, 20, 2, 2, 18, 0];
    let ranges = coalesced_vertex_ranges(&mut dirty, 32);

    assert_eq!(dirty, [0, 2, 18, 20]);
    assert_eq!(ranges.len(), 1);
    assert_eq!(ranges[0], 0..21);

    let mut separated = vec![1, 25];
    assert_eq!(coalesced_vertex_ranges(&mut separated, 32), [1..2, 25..26]);
}

#[test]
fn partial_vertex_upload_reallocates_when_adaptive_topology_outgrows_buffer() {
    const CRASHED_BUFFER_BYTES: u64 = 7_510_368;
    let original_vertices = CRASHED_BUFFER_BYTES as usize / size_of::<GpuVertex>();

    assert_eq!(size_of::<GpuVertex>() as u64, GPU_VERTEX_BYTES);
    assert!(buffer_capacity_fits(original_vertices, GPU_VERTEX_BYTES, CRASHED_BUFFER_BYTES));
    assert!(!buffer_capacity_fits(
        original_vertices + 1,
        GPU_VERTEX_BYTES,
        CRASHED_BUFFER_BYTES
    ));
}

#[test]
fn changes_update_only_what_they_tell_of() {
    let mut mesh = octahedron();
    let mut upload = MeshUpload::from_mesh(&mesh, &ops());
    mesh.positions[4] = p(0.0, 0.0, 1.5);
    mesh.update_deformed_vertices(&vec![4], &solid());
    let mut changes = MeshChangeSet::new();
    changes.dirty_vertices = vec![0, 1, 2, 3, 4];
    changes.dirty_faces = vec![2];
    changes.vertex_count = mesh.positions.len();
    changes.face_count = mesh.triangles.len();

    let dirty = upload.apply_changes(&mesh, &changes, &ops());
    let rebuilt = MeshUpload::from_mesh(&mesh, &ops());

    assert_eq!(dirty.vertices, [0, 1, 2, 3, 4]);
    assert_eq!(dirty.faces, [2]);
    assert_eq!(upload.vertices, rebuilt.vertices);
    assert_eq!(upload.triangle_indices, rebuilt.triangle_indices);
    assert_eq!(edges_of(&upload), edges_of(&rebuilt));
}

#[test]
fn edges_that_go_and_come_keep_the_others() {
    let before = Mesh::new(
        pts(&[Vec3::ZERO, Vec3::X, Vec3::Y, Vec3::ONE]),
        vec![[0, 1, 2], [2, 1, 3]],
        &solid(),
    )
    .unwrap();
    let after = Mesh::new(
        pts(&[Vec3::ZERO, Vec3::X, Vec3::Y, Vec3::ONE]),
        vec![[0, 1, 3], [0, 3, 2]],
        &solid(),
    )
    .unwrap();
    let mut upload = MeshUpload::from_mesh(&before, &ops());
    let changes = MeshChangeSet {
        dirty_vertices: vec![0, 1, 2, 3],
        dirty_faces: vec![0, 1],
        removed_edges: vec![(1, 2)],
        added_edges: vec![(0, 3)],
        vertex_count: 4,
        face_count: 2,
    };
    upload.apply_changes(&after, &changes, &ops());
    let rebuilt = MeshUpload::from_mesh(&after, &ops());
    assert_eq!(upload.vertices, rebuilt.vertices);
    assert_eq!(upload.triangle_indices, rebuilt.triangle_indices);
    assert_eq!(edges_of(&upload), edges_of(&rebuilt));
}

#[test]
fn frame_render_batch_preserves_fixed_edits_around_topology_edits() {
    let mut batch = FrameRenderBatch::new();
    batch.queue(vec![1, 2], None);
    let mut topology = MeshChangeSet::new();
    topology.dirty_vertices = vec![3, 4];
    topology.dirty_faces = vec![7];
    topology.vertex_count = 12;
    topology.face_count = 9;
    batch.queue(vec![3], Some(topology));
    batch.queue(vec![5, 2], None);
    batch.changes.finalize(12, 9);

    assert!(batch.changed);
    assert!(batch.has_topology);
    assert_eq!(batch.changes.dirty_vertices, [1, 2, 3, 4, 5]);
    assert_eq!(batch.changes.dirty_faces, [7]);
    assert!(batch.vertices.is_empty());
}

#[test]
fn a_batch_is_sent_once() {
    let mut batch = FrameRenderBatch::new();
    assert!(matches!(batch.flush(Some((12, 9))), RenderUpdate::Nothing));
    batch.queue(vec![5, 2], None);
    let RenderUpdate::Vertices(vertices) = batch.flush(Some((12, 9))) else {
        panic!("vertices expected");
    };
    assert_eq!(vertices, [2, 5]);
    assert!(matches!(batch.flush(Some((12, 9))), RenderUpdate::Nothing));
}

#[test]
fn changes_merge_in_their_order() {
    let mut first = MeshChangeSet::new();
    first.added_edges = vec![(1, 2)];
    first.vertex_count = 4;
    first.face_count = 2;
    let mut second = MeshChangeSet::new();
    second.removed_edges = vec![(1, 2)];
    second.dirty_vertices = vec![9, 3];
    second.vertex_count = 4;
    second.face_count = 2;
    first.merge(second);
    first.finalize(4, 2);
    assert_eq!(first.added_edges, [(1, 2)]);
    assert_eq!(first.removed_edges, [(1, 2)]);
    assert_eq!(first.dirty_vertices, [3]);
}

#[test]
fn queued_stroke_context_is_unchanged_by_later_camera_navigation() {
    let viewport = ScreenRect { min: at(0.0, 0.0), max: at(800.0, 600.0) };
    let mut camera = Camera::new(&ops(), &lens());
    let original = SculptInput {
        camera: camera.frame(viewport, &ops(), &lens()).unwrap(),
        tool: SculptTool::Draw,
        brush: BrushSettings::default(),
        radius_points: bits(55.0),
    };
    let none = Modifiers::default();
    let mut sampler = StrokeSampler::begin(at(0.0, 0.0), none, bits(10.0), original, 0);
    sampler.enqueue_pointer(at(20.0, 0.0), none, bits(10.0), original);

    camera.orbit(at(80.0, 20.0), &ops(), &lens());
    let navigated = camera.frame(viewport, &ops(), &lens()).unwrap();
    let hypot = |x: u32, y: u32| bits(number(x).hypot(number(y)));
    let queued = sampler.next_spatial_dab(&ops(), &hypot).unwrap();

    assert_eq!(queued.context.camera, original.camera);
    assert_eq!(queued.context.tool, original.tool);
    assert_eq!(queued.context.brush, original.brush);
    assert_eq!(queued.context.radius_points, original.radius_points);
    assert_ne!(queued.context.camera, navigated);
}

#[test]
fn mesh_bounds_update_locally_and_rebuild_when_an_extreme_moves_inward() {
    let mut mesh = Mesh::new(
        vec![p(-2.0, 0.0, 0.0), p(2.0, 0.0, 0.0), p(0.0, -1.0, 0.0), p(0.0, 1.0, 1.0)],
        vec![[0, 2, 3], [1, 3, 2], [0, 3, 1], [0, 1, 2]],
        &solid(),
    )
    .unwrap();
    let mut bounds = MeshBounds::from_mesh(&mesh).unwrap();

    mesh.positions[3].z = bits(3.0);
    bounds.update(&mesh, &vec![3]);
    assert!(bounds.exact);
    assert_eq!(number(bounds.maximum.z), 3.0);

    mesh.positions[1].x = bits(0.5);
    bounds.update(&mesh, &vec![1]);
    assert!(!bounds.exact);
    bounds = MeshBounds::from_mesh(&mesh).unwrap();
    assert_eq!(bounds.min_max(), mesh.bounds().unwrap());
}

#[test]
fn each_revision_is_sent_once() {
    let mesh = triangle();
    let mut input = RenderInput::new();
    let mut sent = SentRevisions { vertices: 0, topology: 0, camera: 0 };
    input.update_mesh(MeshUpload::from_mesh(&mesh, &ops()));
    let plan = input.plan(&mut sent);
    assert!(matches!(plan.vertices, SendVertices::All));
    assert!(matches!(plan.topology, SendTopology::All));

    let plan = input.plan(&mut sent);
    assert!(matches!(plan.vertices, SendVertices::Nothing));
    assert!(matches!(plan.topology, SendTopology::Nothing));
    assert!(!plan.camera);

    input.update_vertices_partial(&mesh, &vec![2, 0], &ops());
    input.update_camera();
    let plan = input.plan(&mut sent);
    let SendVertices::Changed(vertices) = plan.vertices else {
        panic!("changed vertices expected");
    };
    assert_eq!(vertices, [2, 0]);
    assert!(plan.camera);

    input.install_prepared_mesh(MeshUpload::from_mesh(&mesh, &ops()));
    let plan = input.plan(&mut sent);
    assert!(plan.install_prepared);
    assert!(!input.plan(&mut sent).install_prepared);
}

#[test]
fn writes_need_a_buffer_with_room() {
    assert!(matches!(vertex_writes(32, None, vec![1]), BufferWrites::All));
    assert!(matches!(
        vertex_writes(32, Some(31 * GPU_VERTEX_BYTES), vec![1]),
        BufferWrites::All
    ));
    let BufferWrites::Ranges(ranges) = vertex_writes(32, Some(32 * GPU_VERTEX_BYTES), vec![25, 1])
    else {
        panic!("ranges expected");
    };
    assert_eq!(ranges, [1..2, 25..26]);

    let (triangles, edges) =
        topology_writes(30, 20, Some(120), Some(80), vec![3], vec![9]).unwrap();
    assert_eq!(triangles, [3..4]);
    assert_eq!(edges, [9..10]);
    assert!(topology_writes(30, 20, Some(116), Some(80), vec![3], vec![9]).is_none());
}

#[test]
fn buffers_are_made_with_room_to_grow() {
    assert_eq!(buffer_to_make(100, Some(100)), None);
    assert_eq!(buffer_to_make(100, Some(99)), Some(roomy_capacity(100)));
    assert_eq!(buffer_to_make(100, None), Some(roomy_capacity(100)));
    assert!(roomy_capacity(100) >= 100);
    assert_eq!(index_count(&vec![0, 1, 2]), 3);
}
