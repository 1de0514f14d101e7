use glam::Vec3;
use sculpt_lite::arithmetic::{Arithmetic, Operations};
use sculpt_lite::edit::{LocalEdit, MaskChange, PositionChange};
use sculpt_lite::geometry::Geometry;
use sculpt_lite::history::{
    History, HistoryAction, HistoryDirection, HistoryEntry, HistoryTransactionError, MeshSnapshot,
    PendingMeshReplacement, DEFAULT_HISTORY_BUDGET,
};
use sculpt_lite::masking::edit_mask;
use sculpt_lite::mesh::Mesh;
use sculpt_lite::scalar::Point;
use sculpt_lite::shapes::Solid;
use std::sync::Arc;

fn bits(value: f32) -> u32 {
    value.to_bits()
}

fn number(bits: u32) -> f32 {
    f32::from_bits(bits)
}

fn ops() -> impl Arithmetic {
    Operations {
        sum: |a: u32, b: u32| bits(number(a) + number(b)),
        difference: |a: u32, b: u32| bits(number(a) - number(b)),
        product: |a: u32, b: u32| bits(number(a) * number(b)),
        quotient: |a: u32, b: u32| bits(number(a) / number(b)),
        root: |a: u32| bits(number(a).sqrt()),
        count: |items: usize| bits(items as f32),
    }
}

fn solid() -> impl Geometry {
    Solid { ops: ops() }
}

fn p(x: f32, y: f32, z: f32) -> Point {
    Point { x: bits(x), y: bits(y), z: bits(z) }
}

fn pt(vector: Vec3) -> Point {
    p(vector.x, vector.y, vector.z)
}

fn pts(vectors: &[Vec3]) -> Vec<Point> {
    vectors.iter().map(|&vector| pt(vector)).collect()
}

fn triangle() -> Mesh {
    Mesh::new(pts(&[Vec3::ZERO, Vec3::X, Vec3::Y]), vec![[0, 1, 2]], &solid())
        .expect("valid triangle")
}

fn position_edit(before: Vec3, after: Vec3) -> LocalEdit {
    LocalEdit::new(
        vec![PositionChange { vertex: 1, before: pt(before), after: pt(after) }],
        Vec::new(),
    )
}

fn quad() -> Mesh {
    Mesh::new(
        pts(&[Vec3::ZERO, Vec3::X, Vec3::ONE, Vec3::Y]),
        vec![[0, 1, 2], [0, 2, 3]],
        &solid(),
    )
    .expect("valid quad")
}

fn history() -> History {
    History::new(DEFAULT_HISTORY_BUDGET, 1)
}

fn replacement(action: HistoryAction) -> PendingMeshReplacement {
    let HistoryAction::MeshReplacement(pending) = action else {
        panic!("mesh replacement expected");
    };
    pending
}

fn same_mesh(a: &MeshSnapshot, b: &MeshSnapshot) {
    let a = a.restore_mesh(&solid()).unwrap();
    let b = b.restore_mesh(&solid()).unwrap();
    assert_eq!(a.positions, b.positions);
    assert_eq!(a.triangles, b.triangles);
    assert_eq!(a.mask, b.mask);
}

#[test]
fn snapshot_reports_payload_size_and_restores_a_separate_mesh() {
    let mut source = quad();
    source.mask = vec![bits(0.0), bits(0.25), bits(0.5), bits(1.0)];
    let snapshot = MeshSnapshot::capture(&source);

    assert_eq!(
        snapshot.byte_len(),
        source.positions.len() * size_of::<Vec3>()
            + source.triangles.len() * size_of::<[u32; 3]>()
            + source.mask.len() * size_of::<f32>()
    );

    let restored = snapshot.restore_mesh(&solid()).expect("valid snapshot");
    assert_eq!(restored.positions, source.positions);
    assert_eq!(restored.triangles, source.triangles);
    assert_eq!(restored.mask, source.mask);
    assert_eq!(restored.normals, source.normals);
}

#[test]
fn local_undo_and_redo_restore_without_changing_topology() {
    let mut mesh = triangle();
    let triangles = mesh.triangles.clone();
    let before = Vec3::X;
    let after = Vec3::new(1.25, -0.5, 0.25);
    assert_eq!(mesh.positions[1], pt(before));
    mesh.positions[1] = pt(after);
    mesh.update_deformed_vertices(&vec![1], &solid());
    let mut history = history();
    assert!(history.record(HistoryEntry::Local(position_edit(before, after))));

    let HistoryAction::Local { changed_vertices } = history.undo(&mut mesh, &solid()) else {
        panic!("local undo expected");
    };
    assert_eq!(mesh.positions[1], pt(before));
    assert_eq!(mesh.triangles, triangles);
    assert!(changed_vertices.contains(&1));

    assert!(matches!(history.redo(&mut mesh, &solid()), HistoryAction::Local { .. }));
    assert_eq!(mesh.positions[1], pt(after));
    assert_eq!(mesh.triangles, triangles);
}

#[test]
fn mask_edits_are_exact_and_invalidate_redo() {
    let mut mesh = triangle();
    let edit = LocalEdit::new(
        Vec::new(),
        vec![MaskChange { vertex: 2, before: bits(0.0), after: bits(0.75) }],
    );
    mesh.mask[2] = bits(0.75);
    let mut history = history();
    assert!(history.record(HistoryEntry::Local(edit)));
    history.undo(&mut mesh, &solid());
    assert_eq!(mesh.mask[2], bits(0.0));
    assert!(history.can_redo());

    assert!(history.record(HistoryEntry::Local(position_edit(
        Vec3::X,
        Vec3::new(2.0, 0.0, 0.0),
    ))));
    assert!(!history.can_redo());
}

#[test]
fn history_never_exceeds_its_budget() {
    let edit = || position_edit(Vec3::ZERO, Vec3::ONE);
    let one_entry = HistoryEntry::Local(edit()).byte_len();
    let mut history = History::new(one_entry * 2, 1);

    for _ in 0..8 {
        history.record(HistoryEntry::Local(edit()));
        assert!(history.bytes_used() <= history.byte_budget());
    }
}

#[test]
fn replacement_undo_and_redo_exchange_worker_snapshots() {
    let before = triangle();
    let before_snapshot = Arc::new(MeshSnapshot::capture(&before));
    let mut mesh = quad();
    mesh.mask[2] = bits(0.625);
    let after_snapshot = Arc::new(MeshSnapshot::capture(&mesh));
    let mut history = history();
    assert!(history.record(HistoryEntry::MeshReplacement(Arc::clone(&before_snapshot))));

    let pending = replacement(history.undo(&mut mesh, &solid()));
    assert_eq!(pending.direction(), HistoryDirection::Undo);
    same_mesh(pending.target().as_ref(), before_snapshot.as_ref());
    assert!(history.mesh_replacement_pending());
    assert!(!history.can_undo());
    assert!(!history.can_redo());
    assert!(matches!(history.undo(&mut mesh, &solid()), HistoryAction::Empty));
    assert!(!history.record(HistoryEntry::Local(LocalEdit::new(Vec::new(), Vec::new()))));

    mesh = pending.target().restore_mesh(&solid()).expect("worker restore");
    assert!(history
        .complete_mesh_replacement(pending, Arc::clone(&after_snapshot))
        .expect("matching transaction"));
    assert_eq!(mesh.positions, before.positions);
    assert!(!history.mesh_replacement_pending());
    assert!(history.can_redo());

    let pending = replacement(history.redo(&mut mesh, &solid()));
    assert_eq!(pending.direction(), HistoryDirection::Redo);
    same_mesh(pending.target().as_ref(), after_snapshot.as_ref());
    let inverse = Arc::new(MeshSnapshot::capture(&mesh));
    mesh = pending.target().restore_mesh(&solid()).expect("worker restore");
    assert!(history.complete_mesh_replacement(pending, inverse).expect("matching transaction"));
    assert_eq!(mesh.positions, quad().positions);
    assert_eq!(mesh.mask[2], bits(0.625));
    assert!(history.can_undo());
    assert!(!history.can_redo());
}

#[test]
fn canceled_replacement_returns_to_the_same_stack_and_budget() {
    let snapshot = Arc::new(MeshSnapshot::capture(&triangle()));
    let expected_bytes = snapshot.byte_len();
    let mut mesh = quad();
    let mut history = history();
    assert!(history.record(HistoryEntry::MeshReplacement(snapshot)));

    let pending = replacement(history.undo(&mut mesh, &solid()));
    assert_eq!(history.bytes_used(), expected_bytes);
    assert!(history.mesh_replacement_pending());
    history.cancel_mesh_replacement(pending).expect("matching transaction");

    assert_eq!(history.bytes_used(), expected_bytes);
    assert!(history.can_undo());
    assert!(!history.can_redo());
    let pending = replacement(history.undo(&mut mesh, &solid()));
    history.cancel_mesh_replacement(pending).expect("matching transaction");
}

#[test]
fn a_token_of_another_history_is_refused() {
    let snapshot = Arc::new(MeshSnapshot::capture(&triangle()));
    let mut mesh = quad();
    let mut first = History::new(DEFAULT_HISTORY_BUDGET, 1);
    let mut second = History::new(DEFAULT_HISTORY_BUDGET, 2);
    assert!(first.record(HistoryEntry::MeshReplacement(Arc::clone(&snapshot))));
    assert!(second.record(HistoryEntry::MeshReplacement(Arc::clone(&snapshot))));
    let pending = replacement(first.undo(&mut mesh, &solid()));
    let other = replacement(second.undo(&mut mesh, &solid()));
    assert_eq!(
        second.complete_mesh_replacement(pending, Arc::clone(&snapshot)),
        Err(HistoryTransactionError::InvalidMeshReplacementToken)
    );
    assert_eq!(
        first.cancel_mesh_replacement(other),
        Err(HistoryTransactionError::InvalidMeshReplacementToken)
    );
    assert!(first.mesh_replacement_pending());
}

#[test]
fn local_entries_keep_their_order_across_a_replacement() {
    let mut mesh = triangle();
    let original = Vec3::X;
    let first = Vec3::new(1.2, 0.0, 0.0);
    mesh.positions[1] = pt(first);
    mesh.update_deformed_vertices(&vec![1], &solid());

    let mut history = history();
    assert!(history.record(HistoryEntry::Local(position_edit(original, first))));
    let before_replacement = Arc::new(MeshSnapshot::capture(&mesh));

    mesh = quad();
    let replacement_state = Arc::new(MeshSnapshot::capture(&mesh));
    assert!(history.record(HistoryEntry::MeshReplacement(Arc::clone(&before_replacement))));

    let second_before = Vec3::X;
    let second_after = Vec3::new(1.5, -0.25, 0.0);
    mesh.positions[1] = pt(second_after);
    mesh.update_deformed_vertices(&vec![1], &solid());
    assert!(history.record(HistoryEntry::Local(position_edit(second_before, second_after))));

    assert!(matches!(history.undo(&mut mesh, &solid()), HistoryAction::Local { .. }));
    assert_eq!(mesh.positions[1], pt(second_before));

    let pending = replacement(history.undo(&mut mesh, &solid()));
    let inverse = Arc::new(MeshSnapshot::capture(&mesh));
    mesh = pending.target().restore_mesh(&solid()).expect("worker restore");
    history.complete_mesh_replacement(pending, inverse).expect("matching transaction");
    assert_eq!(mesh.positions[1], pt(first));
    assert_eq!(mesh.triangles.len(), 1);

    assert!(matches!(history.undo(&mut mesh, &solid()), HistoryAction::Local { .. }));
    assert_eq!(mesh.positions[1], pt(original));
    assert!(matches!(history.redo(&mut mesh, &solid()), HistoryAction::Local { .. }));
    assert_eq!(mesh.positions[1], pt(first));

    let pending = replacement(history.redo(&mut mesh, &solid()));
    let inverse = Arc::new(MeshSnapshot::capture(&mesh));
    same_mesh(pending.target().as_ref(), replacement_state.as_ref());
    mesh = pending.target().restore_mesh(&solid()).expect("worker restore");
    history.complete_mesh_replacement(pending, inverse).expect("matching transaction");
    assert_eq!(mesh.positions[1], pt(second_before));
    assert_eq!(mesh.triangles.len(), 2);

    assert!(matches!(history.redo(&mut mesh, &solid()), HistoryAction::Local { .. }));
    assert_eq!(mesh.positions[1], pt(second_after));
    assert!(!history.can_redo());
}

#[test]
fn oversized_new_replacement_clears_incompatible_history() {
    let snapshot = Arc::new(MeshSnapshot::capture(&quad()));
    let mut mesh = triangle();
    let edit = position_edit(Vec3::X, Vec3::new(1.25, 0.0, 0.0));
    let local_bytes = edit.byte_len();
    assert!(snapshot.byte_len() > local_bytes);
    let mut history = History::new(snapshot.byte_len() - 1, 1);
    assert!(history.record(HistoryEntry::Local(edit)));
    let _ = history.undo(&mut mesh, &solid());
    assert!(history.can_redo());

    assert!(!history.record(HistoryEntry::MeshReplacement(snapshot)));
    assert_eq!(history.bytes_used(), 0);
    assert!(!history.can_undo());
    assert!(!history.can_redo());
}

#[test]
fn replacement_completion_stays_within_the_shared_budget() {
    let small = Arc::new(MeshSnapshot::capture(&triangle()));
    let large = Arc::new(MeshSnapshot::capture(&quad()));
    assert!(large.byte_len() > small.byte_len());
    let mut mesh = quad();
    let mut history = History::new(small.byte_len(), 1);
    assert!(history.record(HistoryEntry::MeshReplacement(small)));

    let pending = replacement(history.undo(&mut mesh, &solid()));
    assert_eq!(history.bytes_used(), history.byte_budget());
    assert!(!history.complete_mesh_replacement(pending, large).expect("matching transaction"));
    assert!(history.bytes_used() <= history.byte_budget());
    assert!(!history.can_redo());
    assert!(!history.mesh_replacement_pending());
}

#[test]
fn replacement_completion_preserves_its_inverse_while_trimming_other_entries() {
    let target = Arc::new(MeshSnapshot::capture(&triangle()));
    let inverse = Arc::new(MeshSnapshot::capture(&quad()));
    let local = position_edit(Vec3::X, Vec3::new(1.25, 0.0, 0.0));
    assert!(target.byte_len() + local.byte_len() <= inverse.byte_len());

    // Both entries are brought onto the redo stack, the replacement on top.
    let mut history = History::new(inverse.byte_len(), 1);
    let mut mesh = triangle();
    assert!(history.record(HistoryEntry::MeshReplacement(Arc::clone(&target))));
    assert!(history.record(HistoryEntry::Local(local)));
    assert!(matches!(history.undo(&mut mesh, &solid()), HistoryAction::Local { .. }));
    let pending = replacement(history.undo(&mut mesh, &solid()));
    assert!(history.complete_mesh_replacement(pending, target).expect("matching transaction"));

    let pending = replacement(history.redo(&mut mesh, &solid()));
    assert!(history.complete_mesh_replacement(pending, inverse).expect("matching transaction"));

    assert!(history.can_undo());
    assert!(!history.can_redo());
    assert!(history.bytes_used() <= history.byte_budget());
    assert!(matches!(history.undo(&mut mesh, &solid()), HistoryAction::MeshReplacement(_)));
}

#[test]
fn inverting_a_mask_can_be_taken_back_exactly() {
    let mut mesh = triangle();
    mesh.mask = vec![bits(0.0), bits(0.25), bits(1.0)];
    let edit = edit_mask(&mut mesh, true, &ops());
    assert_eq!(mesh.mask, vec![bits(1.0), bits(0.75), bits(0.0)]);
    assert_eq!(edit.masks.len(), 3);
    let changed = edit.apply_before(&mut mesh, &solid());
    assert_eq!(mesh.mask, vec![bits(0.0), bits(0.25), bits(1.0)]);
    assert_eq!(changed, [0, 1, 2]);
}

#[test]
fn clearing_a_mask_leaves_what_is_clear() {
    let mut mesh = triangle();
    mesh.mask = vec![bits(0.0), bits(0.5), bits(0.0)];
    let edit = edit_mask(&mut mesh, false, &ops());
    assert_eq!(mesh.mask, vec![0, 0, 0]);
    assert_eq!(
        edit.masks,
        [MaskChange { vertex: 1, before: bits(0.5), after: bits(0.0) }]
    );
}

#[test]
fn a_snapshot_of_a_mesh_with_reversed_faces_restores() {
    let mesh = Mesh::new(
        pts(&[Vec3::ZERO, Vec3::X, Vec3::Y, Vec3::X + Vec3::Y]),
        vec![[0, 1, 2], [1, 2, 3]],
        &solid(),
    )
    .unwrap();
    assert_eq!(mesh.triangles[1], [1, 3, 2]);
    let restored = MeshSnapshot::capture(&mesh).restore_mesh(&solid()).unwrap();
    assert_eq!(restored.triangles, mesh.triangles);
    assert_eq!(restored.normals, mesh.normals);
}

#[test]
fn a_history_may_use_all_memory() {
    let mut history = History::new(usize::MAX, 1);
    assert_eq!(history.byte_budget(), usize::MAX);
    let mut mesh = triangle();
    mesh.positions[1] = p(2.0, 0.0, 0.0);
    assert!(history.record(HistoryEntry::Local(position_edit(Vec3::X, Vec3::X * 2.0))));
    assert!(history.bytes_used() > 0);
    assert!(matches!(history.undo(&mut mesh, &solid()), HistoryAction::Local { .. }));
    assert_eq!(mesh.positions[1], p(1.0, 0.0, 0.0));
}
