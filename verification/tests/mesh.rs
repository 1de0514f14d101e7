#![allow(dead_code)]

use glam::Vec3;
use sculpt_lite::arithmetic::{distance_squared, Arithmetic, Operations};
use sculpt_lite::geometry::Geometry;
use sculpt_lite::mesh::{CleanupReport, Mesh, MeshError};
use sculpt_lite::query::{ClosestSurfacePoint, RayHit};
use sculpt_lite::region::VertexTraversalScratch;
use sculpt_lite::scalar::Point;
use sculpt_lite::search::RayIntersectionCount;
use sculpt_lite::shapes::{
    closest_point_on_triangle, point_aabb_distance_squared, positions_form_valid_triangle,
    ray_aabb, Solid,
};
use sculpt_lite::soup::TriangleSoupBuilder;
use sculpt_lite::wide::{WideArithmetic, WideOperations};

fn bits(value: f32) -> u32 {
    value.to_bits()
}

fn number(bits: u32) -> f32 {
    f32::from_bits(bits)
}

fn ops() -> impl Arithmetic {
    Operations {
        sum: |a: u32, b: u32| bits(number(a) + number(b)),
        difference: |a: u32, b: u32| bits(number(a) - number(b)),
        product: |a: u32, b: u32| bits(number(a) * number(b)),
        quotient: |a: u32, b: u32| bits(number(a) / number(b)),
        root: |a: u32| bits(number(a).sqrt()),
        count: |items: usize| bits(items as f32),
    }
}

fn solid() -> impl Geometry {
    Solid { ops: ops() }
}

fn p(x: f32, y: f32, z: f32) -> Point {
    Point { x: bits(x), y: bits(y), z: bits(z) }
}

fn vec3(point: Point) -> Vec3 {
    Vec3::new(number(point.x), number(point.y), number(point.z))
}

fn pt(vector: Vec3) -> Point {
    p(vector.x, vector.y, vector.z)
}

fn pts(vectors: &[Vec3]) -> Vec<Point> {
    vectors.iter().map(|&vector| pt(vector)).collect()
}

fn mesh_of(positions: Vec<Vec3>, triangles: Vec<[u32; 3]>) -> Mesh {
    Mesh::new(pts(&positions), triangles, &solid()).unwrap()
}

fn raycast(mesh: &Mesh, origin: Vec3, direction: Vec3) -> Option<RayHit> {
    mesh.raycast(pt(origin), pt(direction), &ops())
}

fn closest(mesh: &Mesh, point: Vec3) -> Option<ClosestSurfacePoint> {
    mesh.closest_surface_point(pt(point), &ops())
}

fn nearest_triangle(mesh: &Mesh, point: Vec3) -> Option<u32> {
    mesh.nearest_triangle(pt(point), &ops())
}

fn wide() -> impl WideArithmetic {
    WideOperations {
        sum: |a: u64, b: u64| (f64::from_bits(a) + f64::from_bits(b)).to_bits(),
        difference: |a: u64, b: u64| (f64::from_bits(a) - f64::from_bits(b)).to_bits(),
        product: |a: u64, b: u64| (f64::from_bits(a) * f64::from_bits(b)).to_bits(),
        quotient: |a: u64, b: u64| (f64::from_bits(a) / f64::from_bits(b)).to_bits(),
        root: |a: u64| f64::from_bits(a).sqrt().to_bits(),
        widened: |a: u32| f64::from(number(a)).to_bits(),
        narrowed: |a: u64| bits(f64::from_bits(a) as f32),
        count: |items: u32| f64::from(items).to_bits(),
    }
}

fn ray_intersection_count(
    mesh: &Mesh,
    origin: Vec3,
    direction: Vec3,
) -> Option<RayIntersectionCount> {
    mesh.ray_intersection_count(pt(origin), pt(direction), &ops(), &wide())
}

fn square() -> Mesh {
    mesh_of(
        vec![
            Vec3::new(-1.0, -1.0, 0.0),
            Vec3::new(1.0, -1.0, 0.0),
            Vec3::new(1.0, 1.0, 0.0),
            Vec3::new(-1.0, 1.0, 0.0),
        ],
        vec![[0, 1, 2], [0, 2, 3]],
    )
}

fn octahedron() -> Mesh {
    mesh_of(
        vec![Vec3::X, Vec3::Y, Vec3::NEG_X, Vec3::NEG_Y, Vec3::Z, Vec3::NEG_Z],
        vec![
            [4, 0, 1],
            [4, 1, 2],
            [4, 2, 3],
            [4, 3, 0],
            [5, 1, 0],
            [5, 2, 1],
            [5, 3, 2],
            [5, 0, 3],
        ],
    )
}

#[test]
fn rejects_non_finite_vertices_and_bad_indices() {
    assert!(matches!(
        Mesh::new(vec![p(f32::NAN, 0.0, 0.0)], vec![], &solid()),
        Err(MeshError::NonFiniteVertex { .. })
    ));
    assert!(matches!(
        Mesh::new(pts(&[Vec3::ZERO; 3]), vec![[0, 1, 3]], &solid()),
        Err(MeshError::IndexOutOfBounds { .. })
    ));
    let mut mesh = square();
    mesh.mask[0] = bits(f32::NAN);
    assert!(matches!(mesh.validate(), Err(MeshError::InvalidMask { index: 0 })));
}

#[test]
fn validation_counts_normals_and_masks() {
    let mut mesh = square();
    assert_eq!(mesh.validate(), Ok(()));
    mesh.normals.pop();
    assert_eq!(mesh.validate(), Err(MeshError::NormalCountMismatch { actual: 3, expected: 4 }));
    let mut mesh = square();
    mesh.mask.push(0);
    assert_eq!(mesh.validate(), Err(MeshError::MaskCountMismatch { actual: 5, expected: 4 }));
}

#[test]
fn rebuild_removes_degenerate_and_duplicate_faces() {
    let mut mesh = square();
    mesh.positions = pts(&[Vec3::ZERO, Vec3::X, Vec3::Y, Vec3::new(2.0, 0.0, 0.0)]);
    mesh.triangles = vec![[0, 1, 2], [2, 1, 0], [0, 1, 3], [0, 0, 2], [0, 1, 99]];
    mesh.normals = Vec::new();
    mesh.mask = Vec::new();
    let report: CleanupReport = mesh.rebuild(&solid());
    assert_eq!(mesh.triangles, vec![[0, 1, 2]]);
    assert_eq!(report.removed_duplicate_faces, 1);
    assert_eq!(report.removed_degenerate_faces, 2);
    assert_eq!(report.removed_invalid_faces, 1);
    assert_eq!(mesh.normals.len(), mesh.positions.len());
    assert_eq!(mesh.mask.len(), mesh.positions.len());
}

#[test]
fn triangle_soup_welds_only_exact_bit_patterns() {
    let soup = vec![
        [pt(Vec3::ZERO), pt(Vec3::X), pt(Vec3::Y)],
        [pt(Vec3::ZERO), pt(Vec3::Y), pt(Vec3::Z)],
    ];
    let (mesh, report) = Mesh::from_triangle_soup(&soup, &solid()).unwrap();
    assert_eq!(mesh.positions.len(), 4);
    assert_eq!(mesh.triangles.len(), 2);
    assert_eq!(report.welded_vertices, 2);
}

#[test]
fn both_zeros_are_kept_apart_by_welding() {
    let mut soup = TriangleSoupBuilder::new();
    soup.push_triangle([p(0.0, 0.0, 0.0), pt(Vec3::X), pt(Vec3::Y)]).unwrap();
    soup.push_triangle([p(-0.0, 0.0, 0.0), pt(Vec3::Y), pt(Vec3::Z)]).unwrap();
    let (mesh, _) = soup.finish(&solid());
    assert_eq!(mesh.positions.len(), 5);
}

#[test]
fn manifold_neighbors_are_oriented_oppositely() {
    // Both input faces traverse 1 -> 2; the second must be flipped.
    let mesh = mesh_of(
        vec![Vec3::ZERO, Vec3::X, Vec3::Y, Vec3::X + Vec3::Y],
        vec![[0, 1, 2], [1, 2, 3]],
    );
    let directions = mesh
        .triangles
        .iter()
        .map(|triangle| {
            (0..3).any(|index: usize| triangle[index] == 1 && triangle[(index + 1) % 3] == 2)
        })
        .collect::<Vec<_>>();
    assert_ne!(directions[0], directions[1]);
}

#[test]
fn topology_reports_boundaries_and_non_manifold_edges() {
    let boundary = square();
    assert_eq!(boundary.topology.boundary_edge_count(), 4);
    assert_eq!(boundary.topology.boundary_vertex_count(), 4);

    let non_manifold = mesh_of(
        vec![Vec3::ZERO, Vec3::X, Vec3::Y, Vec3::NEG_Y, Vec3::Z],
        vec![[0, 1, 2], [1, 0, 3], [0, 1, 4]],
    );
    assert_eq!(non_manifold.topology.non_manifold_edge_count(), 1);
    assert!(non_manifold.topology.non_manifold_vertices[0]);
    assert!(non_manifold.topology.non_manifold_vertices[1]);
    assert_eq!(non_manifold.topology.non_manifold_vertex_count(), 2);
}

#[test]
fn bounds_center_and_diagonal_preserve_coordinates() {
    let mesh = mesh_of(vec![Vec3::new(-2.0, 3.0, 4.0), Vec3::new(6.0, 7.0, 8.0)], vec![]);
    assert_eq!(mesh.bounds(), Some((p(-2.0, 3.0, 4.0), p(6.0, 7.0, 8.0))));
    assert_eq!(mesh.center(&ops()), Some(p(2.0, 5.0, 6.0)));
    assert!((number(mesh.diagonal(&ops())) - 9.797_959).abs() < 1.0e-5);
}

#[test]
fn bvh_raycast_returns_nearest_hit_and_barycentrics() {
    let mesh = square();
    let hit = raycast(&mesh, Vec3::new(0.25, 0.25, 2.0), Vec3::NEG_Z).unwrap();
    assert!((number(hit.distance) - 2.0).abs() < 1.0e-6);
    assert!(vec3(hit.position).abs_diff_eq(Vec3::new(0.25, 0.25, 0.0), 1.0e-6));
    assert!((vec3(hit.barycentric).element_sum() - 1.0).abs() < 1.0e-6);
    assert!(vec3(hit.normal).dot(Vec3::Z).abs() > 0.99);
    assert!(raycast(&mesh, Vec3::new(3.0, 3.0, 2.0), Vec3::NEG_Z).is_none());
}

#[test]
fn a_tree_parts_its_faces_in_the_middle_of_the_longest_axis() {
    let mut positions = Vec::new();
    let mut triangles = Vec::new();
    for step in [7u32, 3, 12, 0, 9, 15, 5, 1, 10, 14, 2, 8, 6, 13, 4, 16, 11] {
        let first = positions.len() as u32;
        let y = step as f32 * 10.0;
        positions.push(Vec3::new(0.0, y, 0.0));
        positions.push(Vec3::new(1.0, y, 0.0));
        positions.push(Vec3::new(0.0, y + 1.0, 0.0));
        triangles.push([first, first + 1, first + 2]);
    }
    let mesh = mesh_of(positions, triangles);
    let tree = &mesh.topology.bvh;
    let root = tree.nodes[tree.root as usize];
    assert!(!root.is_leaf());
    let left = tree.nodes[root.left as usize];
    let right = tree.nodes[root.right as usize];
    assert!(left.is_leaf());
    assert_eq!(tree.leaf_faces[left.leaf as usize].len(), 8);
    assert!(!right.is_leaf());
    assert_eq!((left.min, left.max), (p(0.0, 0.0, 0.0), p(1.0, 71.0, 0.0)));
    assert_eq!((right.min, right.max), (p(0.0, 80.0, 0.0), p(1.0, 161.0, 0.0)));
    assert_eq!(root.height, 2);
}

#[test]
fn a_ray_from_nowhere_meets_nothing() {
    let mesh = square();
    assert!(raycast(&mesh, Vec3::new(f32::INFINITY, 0.0, 0.0), Vec3::NEG_Z).is_none());
    assert!(closest(&mesh, Vec3::new(f32::NAN, 0.0, 0.0)).is_none());
    assert!(ray_intersection_count(&mesh, Vec3::new(f32::NAN, 0.0, 0.0), Vec3::X).is_none());
}

#[test]
fn bvh_nearest_triangle_finds_the_closest_component() {
    let mesh = mesh_of(
        vec![
            Vec3::ZERO,
            Vec3::X,
            Vec3::Y,
            Vec3::new(10.0, 0.0, 0.0),
            Vec3::new(11.0, 0.0, 0.0),
            Vec3::new(10.0, 1.0, 0.0),
        ],
        vec![[0, 1, 2], [3, 4, 5]],
    );
    assert_eq!(nearest_triangle(&mesh, Vec3::new(10.2, 0.2, 3.0)), Some(1));
    assert_eq!(nearest_triangle(&mesh, Vec3::new(0.2, 0.2, 3.0)), Some(0));
}

#[test]
fn closest_surface_point_reports_face_edge_and_vertex_barycentrics() {
    let mesh = mesh_of(vec![Vec3::ZERO, Vec3::X, Vec3::Y], vec![[0, 1, 2]]);

    let face = closest(&mesh, Vec3::new(0.25, 0.25, 2.0)).unwrap();
    assert_eq!(face.triangle, 0);
    assert!(vec3(face.point).abs_diff_eq(Vec3::new(0.25, 0.25, 0.0), 1.0e-6));
    assert!(vec3(face.barycentric).abs_diff_eq(Vec3::new(0.5, 0.25, 0.25), 1.0e-6));
    assert!((number(face.distance) - 2.0).abs() < 1.0e-6);

    let edge = closest(&mesh, Vec3::new(0.75, 0.75, 0.0)).unwrap();
    assert!(vec3(edge.point).abs_diff_eq(Vec3::new(0.5, 0.5, 0.0), 1.0e-6));
    assert!(vec3(edge.barycentric).abs_diff_eq(Vec3::new(0.0, 0.5, 0.5), 1.0e-6));

    let vertex = closest(&mesh, Vec3::new(-1.0, -1.0, 0.0)).unwrap();
    assert_eq!(vec3(vertex.point), Vec3::ZERO);
    assert_eq!(vec3(vertex.barycentric), Vec3::X);
}

#[test]
fn closest_surface_point_breaks_exact_ties_by_triangle_index() {
    let mesh = mesh_of(
        vec![
            Vec3::new(0.0, 0.0, 1.0),
            Vec3::new(1.0, 0.0, 1.0),
            Vec3::new(0.0, 1.0, 1.0),
            Vec3::new(0.0, 0.0, -1.0),
            Vec3::new(1.0, 0.0, -1.0),
            Vec3::new(0.0, 1.0, -1.0),
        ],
        vec![[0, 1, 2], [3, 4, 5]],
    );

    let found = closest(&mesh, Vec3::new(0.25, 0.25, 0.0)).unwrap();
    assert_eq!(found.triangle, 0);
    assert_eq!(nearest_triangle(&mesh, Vec3::new(0.25, 0.25, 0.0)), Some(0));
}

#[test]
fn ray_intersection_count_marks_edge_and_vertex_hits_ambiguous() {
    let mesh = square();
    let interior = ray_intersection_count(&mesh, Vec3::new(0.5, 0.25, 1.0), Vec3::NEG_Z).unwrap();
    assert_eq!(interior.intersections, 1);
    assert!(!interior.ambiguous);

    let shared_edge = ray_intersection_count(&mesh, Vec3::new(0.0, 0.0, 1.0), Vec3::NEG_Z).unwrap();
    assert_eq!(shared_edge.intersections, 2);
    assert!(shared_edge.ambiguous);

    let vertex = ray_intersection_count(&mesh, Vec3::new(1.0, 1.0, 1.0), Vec3::NEG_Z).unwrap();
    assert!(vertex.intersections >= 1);
    assert!(vertex.ambiguous);
}

#[test]
fn ray_intersection_count_keeps_valid_shallow_crossings() {
    let mesh = mesh_of(vec![Vec3::ZERO, Vec3::X, Vec3::Y], vec![[0, 1, 2]]);
    let direction = Vec3::new(1.0, 0.0, -5.0e-8).normalize();
    let intersection =
        ray_intersection_count(&mesh, Vec3::new(0.1, 0.25, 1.0e-8), direction).unwrap();

    assert_eq!(intersection.intersections, 1);
    assert!(!intersection.ambiguous);
}

#[test]
fn indexed_constructor_rejects_faces_instead_of_repairing_them() {
    let duplicate = Mesh::from_indexed(
        pts(&[Vec3::ZERO, Vec3::X, Vec3::Y]),
        vec![[0, 1, 2], [2, 1, 0]],
        vec![bits(0.0), bits(0.5), bits(1.0)],
        &solid(),
    );
    assert!(matches!(duplicate, Err(MeshError::DuplicateTriangle { triangle: 1 })));

    let mesh = Mesh::from_indexed(
        pts(&[Vec3::ZERO, Vec3::X, Vec3::Y]),
        vec![[0, 2, 1]],
        vec![bits(0.0), bits(0.5), bits(1.0)],
        &solid(),
    )
    .unwrap();
    assert_eq!(mesh.triangles, vec![[0, 2, 1]]);
    assert_eq!(mesh.mask, vec![bits(0.0), bits(0.5), bits(1.0)]);
}

#[test]
fn indexed_constructor_rejects_flat_faces() {
    let flat = Mesh::from_indexed(
        pts(&[Vec3::ZERO, Vec3::X, Vec3::new(2.0, 0.0, 0.0)]),
        vec![[0, 1, 2]],
        vec![0, 0, 0],
        &solid(),
    );
    assert!(matches!(flat, Err(MeshError::DegenerateTriangle { triangle: 0 })));
}

#[test]
fn local_deformation_refresh_matches_full_normals_and_refits_bvh() {
    let mut local = octahedron();
    local.positions[0] = p(2.5, 0.2, 0.1);
    let updated = local.update_deformed_vertices(&vec![0], &solid());

    let mut full = octahedron();
    full.positions[0] = local.positions[0];
    full.recompute_normals(&solid());

    assert!(updated.contains(&0));
    for (local_normal, full_normal) in local.normals.iter().zip(&full.normals) {
        assert!(vec3(*local_normal).abs_diff_eq(vec3(*full_normal), 1.0e-6));
    }
    let local_hit = raycast(&local, Vec3::new(1.8, 0.1, 2.0), Vec3::NEG_Z)
        .expect("the expanded mesh bounds must be pickable after a local refit");
    let full_hit = raycast(&full, Vec3::new(1.8, 0.1, 2.0), Vec3::NEG_Z).unwrap();
    assert!((number(local_hit.distance) - number(full_hit.distance)).abs() < 1.0e-5);
    assert_eq!(local_hit.triangle, full_hit.triangle);
}

#[test]
fn connected_front_facing_collection_stays_on_seed_component() {
    let mesh = mesh_of(
        vec![
            Vec3::ZERO,
            Vec3::X,
            Vec3::Y,
            Vec3::new(0.1, 0.1, 0.05),
            Vec3::new(1.1, 0.1, 0.05),
            Vec3::new(0.1, 1.1, 0.05),
        ],
        vec![[0, 1, 2], [3, 5, 4]],
    );
    let mut scratch = VertexTraversalScratch::new();
    let mut selected = Vec::new();
    mesh.connected_front_facing_vertices(
        0,
        p(0.3, 0.3, 0.0),
        bits(2.0),
        pt(Vec3::NEG_Z),
        &ops(),
        &mut scratch,
        &mut selected,
    );
    assert_eq!(selected.len(), 3);
    assert!(selected.iter().all(|&vertex| vertex < 3));
}

#[test]
fn connected_selection_accepts_consistently_reversed_winding() {
    let mesh = mesh_of(vec![Vec3::ZERO, Vec3::X, Vec3::Y], vec![[0, 2, 1]]);
    let mut scratch = VertexTraversalScratch::new();
    let mut selected = Vec::new();
    mesh.connected_front_facing_vertices(
        0,
        pt(Vec3::splat(0.2)),
        bits(2.0),
        pt(Vec3::NEG_Z),
        &ops(),
        &mut scratch,
        &mut selected,
    );
    assert_eq!(selected.len(), 3);
    let hit = raycast(&mesh, Vec3::new(0.2, 0.2, 1.0), Vec3::NEG_Z).unwrap();
    assert!(vec3(hit.normal).dot(Vec3::NEG_Z) <= 0.0);
}

#[test]
fn closest_point_regions_cover_faces_edges_and_vertices() {
    let away = |point: Vec3| {
        let ops = ops();
        let point = pt(point);
        let (near, _) =
            closest_point_on_triangle(&ops, point, pt(Vec3::ZERO), pt(Vec3::X), pt(Vec3::Y));
        number(distance_squared(&ops, point, near))
    };
    assert!((away(Vec3::new(0.25, 0.25, 2.0)) - 4.0).abs() < 1.0e-6);
    assert!((away(Vec3::new(-1.0, 0.0, 0.0)) - 1.0).abs() < 1.0e-6);
    assert!((away(Vec3::new(0.75, 0.75, 0.0)) - 0.125).abs() < 1.0e-6);
}

#[test]
fn boxes_are_entered_where_the_ray_reaches_them() {
    let ops = ops();
    let enter = |origin: Vec3, direction: Vec3| {
        ray_aabb(&ops, pt(origin), pt(direction), pt(Vec3::splat(-1.0)), pt(Vec3::ONE)).map(number)
    };
    assert_eq!(enter(Vec3::new(-3.0, 0.0, 0.0), Vec3::X), Some(2.0));
    assert_eq!(enter(Vec3::ZERO, Vec3::X), Some(0.0));
    assert_eq!(enter(Vec3::new(3.0, 0.0, 0.0), Vec3::X), None);
    assert_eq!(enter(Vec3::new(-3.0, 2.0, 0.0), Vec3::X), None);
}

#[test]
fn slivers_are_no_triangles() {
    let ops = ops();
    assert!(positions_form_valid_triangle(&ops, pt(Vec3::ZERO), pt(Vec3::X), pt(Vec3::Y)));
    assert!(!positions_form_valid_triangle(&ops, pt(Vec3::ZERO), pt(Vec3::X), p(2.0, 0.0, 0.0)));
    assert!(!positions_form_valid_triangle(&ops, pt(Vec3::ZERO), pt(Vec3::ZERO), pt(Vec3::ZERO)));
    assert!(!positions_form_valid_triangle(
        &ops,
        pt(Vec3::ZERO),
        pt(Vec3::X),
        p(f32::NAN, 0.0, 0.0)
    ));
}

#[test]
fn a_box_that_holds_a_point_is_at_no_distance() {
    let ops = ops();
    let away = |point: Vec3| {
        number(point_aabb_distance_squared(
            &ops,
            pt(point),
            pt(Vec3::splat(-1.0)),
            pt(Vec3::ONE),
        ))
    };
    assert_eq!(away(Vec3::new(0.5, -0.5, 0.25)), 0.0);
    assert_eq!(away(Vec3::new(3.0, 0.0, 0.0)), 4.0);
    assert_eq!(away(Vec3::new(3.0, -2.0, 0.0)), 5.0);
}

#[test]
fn the_lowest_face_of_a_component_is_kept_even_where_none_can_be_oriented() {
    let mesh = mesh_of(
        vec![
            Vec3::ZERO,
            Vec3::X,
            Vec3::Y,
            Vec3::Z,
            Vec3::new(1.0, 1.0, 1.0),
            Vec3::new(10.0, 0.0, 0.0),
            Vec3::new(11.0, 0.0, 0.0),
            Vec3::new(10.0, 1.0, 0.0),
            Vec3::new(11.0, 1.0, 0.0),
        ],
        vec![
            [0, 1, 2],
            [1, 2, 3],
            [2, 3, 4],
            [3, 4, 0],
            [4, 0, 1],
            [5, 6, 7],
            [6, 7, 8],
        ],
    );
    assert_eq!(mesh.triangles[0], [0, 1, 2]);
    assert_eq!(mesh.triangles[5..], [[5, 6, 7], [6, 8, 7]]);
}

#[test]
fn a_second_rebuild_removes_nothing() {
    let mut mesh = mesh_of(
        vec![Vec3::ZERO, Vec3::X, Vec3::Y, Vec3::X + Vec3::Y],
        vec![[0, 1, 2], [1, 2, 3], [2, 1, 0], [0, 0, 1]],
    );
    assert_eq!(mesh.triangles, vec![[0, 1, 2], [1, 3, 2]]);
    let report = mesh.rebuild(&solid());
    assert_eq!(
        (
            report.removed_invalid_faces,
            report.removed_degenerate_faces,
            report.removed_duplicate_faces,
            report.flipped_faces,
        ),
        (0, 0, 0, 0)
    );
    assert_eq!(mesh.triangles, vec![[0, 1, 2], [1, 3, 2]]);
}

#[test]
fn a_triangle_and_its_reverse_are_of_the_same_use() {
    let points = [
        Vec3::ZERO,
        Vec3::new(1.0, 1.0e-7, 0.3),
        Vec3::new(0.5, 2.0e-7, 0.15),
        Vec3::new(1.0e20, 0.0, 1.0),
        Vec3::new(f32::NAN, 0.0, 1.0),
        Vec3::new(-0.0, 0.25, -3.0),
    ];
    for a in points {
        for b in points {
            for c in points {
                let ops = ops();
                let given = positions_form_valid_triangle(&ops, pt(a), pt(b), pt(c));
                let turned = positions_form_valid_triangle(&ops, pt(a), pt(c), pt(b));
                assert_eq!(given, turned);
            }
        }
    }
}
