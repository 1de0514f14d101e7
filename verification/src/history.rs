//! Undo and redo under a memory budget.
use crate::edit;
use crate::edit::LocalEdit;
use crate::geometry::Geometry;
use crate::mesh;
use crate::mesh::{Mesh, MeshError};
use crate::scalar::Point;
use std::collections::VecDeque;
use std::sync::Arc;
use vstd::prelude::*;

verus! {

/// The memory budget that undo and redo share unless another is chosen (512 MiB).
pub const DEFAULT_HISTORY_BUDGET: usize = 536_870_912;

/// The bytes that a stored position takes.
pub const POSITION_BYTES: usize = 12;

/// The bytes that a stored triangle takes.
pub const TRIANGLE_BYTES: usize = 12;

/// The bytes that a stored mask weight takes.
pub const WEIGHT_BYTES: usize = 4;

/// The arrays from which a mesh is restored after its faces were replaced.
#[derive(Debug)]
pub struct MeshSnapshot {
    positions: Vec<Point>,
    triangles: Vec<[u32; 3]>,
    mask: Vec<u32>,
}

fn copy_points(items: &Vec<Point>) -> (result: Vec<Point>)
    ensures
        result@ == items@,
{
    let mut copy: Vec<Point> = Vec::with_capacity(items.len());
    let mut i: usize = 0;
    while i < items.len()
        invariant
            i <= items@.len(),
            copy@ == items@.take(i as int),
        decreases items@.len() - i,
    {
        copy.push(items[i]);
        assert(copy@ =~= items@.take(i + 1));
        i += 1;
    }
    assert(items@.take(i as int) =~= items@);
    copy
}

fn copy_triangles(items: &Vec<[u32; 3]>) -> (result: Vec<[u32; 3]>)
    ensures
        result@ == items@,
{
    let mut copy: Vec<[u32; 3]> = Vec::with_capacity(items.len());
    let mut i: usize = 0;
    while i < items.len()
        invariant
            i <= items@.len(),
            copy@ == items@.take(i as int),
        decreases items@.len() - i,
    {
        copy.push(items[i]);
        assert(copy@ =~= items@.take(i + 1));
        i += 1;
    }
    assert(items@.take(i as int) =~= items@);
    copy
}

fn copy_weights(items: &Vec<u32>) -> (result: Vec<u32>)
    ensures
        result@ == items@,
{
    let mut copy: Vec<u32> = Vec::with_capacity(items.len());
    let mut i: usize = 0;
    while i < items.len()
        invariant
            i <= items@.len(),
            copy@ == items@.take(i as int),
        decreases items@.len() - i,
    {
        copy.push(items[i]);
        assert(copy@ =~= items@.take(i + 1));
        i += 1;
    }
    assert(items@.take(i as int) =~= items@);
    copy
}

impl MeshSnapshot {
    pub closed spec fn spec_positions(self) -> Seq<Point> {
        self.positions@
    }

    pub closed spec fn spec_triangles(self) -> Seq<[u32; 3]> {
        self.triangles@
    }

    pub closed spec fn spec_mask(self) -> Seq<u32> {
        self.mask@
    }

    /// Copies what a mesh is restored from.
    pub fn capture(mesh: &Mesh) -> (result: MeshSnapshot)
        ensures
            captured(*mesh, result),
    {
        MeshSnapshot {
            positions: copy_points(&mesh.positions),
            triangles: copy_triangles(&mesh.triangles),
            mask: copy_weights(&mesh.mask),
        }
    }

    pub open spec fn bytes(self) -> nat {
        edit::sum_of(
            edit::sum_of(
                edit::bytes_of(self.spec_positions().len(), POSITION_BYTES as nat),
                edit::bytes_of(self.spec_triangles().len(), TRIANGLE_BYTES as nat),
            ),
            edit::bytes_of(self.spec_mask().len(), WEIGHT_BYTES as nat),
        )
    }

    /// The bytes that the snapshot takes in a history.
    pub fn byte_len(&self) -> (result: usize)
        ensures
            result == self.bytes(),
    {
        edit::bytes_for(self.positions.len(), POSITION_BYTES).saturating_add(
            edit::bytes_for(self.triangles.len(), TRIANGLE_BYTES),
        ).saturating_add(edit::bytes_for(self.mask.len(), WEIGHT_BYTES))
    }

    /// Builds the mesh again, with everything that follows from its arrays.
    pub fn restore_mesh<G: Geometry>(&self, geometry: &G) -> (result: Result<Mesh, MeshError>)
        requires
            geometry.total(),
            self.spec_triangles().len() <= u32::MAX,
        ensures
            restored(geometry, *self, result),
    {
        Mesh::from_indexed(
            copy_points(&self.positions),
            copy_triangles(&self.triangles),
            copy_weights(&self.mask),
            geometry,
        )
    }
}

/// Whether restoring a snapshot came to what it should: the mesh that it was taken of, or what
/// keeps its arrays from being one.
pub open spec fn restored<G: Geometry>(
    geometry: &G,
    snapshot: MeshSnapshot,
    result: Result<Mesh, MeshError>,
) -> bool {
    let positions = snapshot.spec_positions();
    let triangles = snapshot.spec_triangles();
    let mask = snapshot.spec_mask();
    &&& result is Ok <==> mesh::sound_indexing(positions, triangles) && mask.len()
        == positions.len() && mesh::all_weights(mask, mask.len() as int) && mesh::clean(
        geometry,
        positions,
        triangles,
        triangles.len() as int,
    )
    &&& result matches Err(error) ==> mesh::indexed_geometry_error(
        geometry,
        positions,
        triangles,
        mask,
        error,
    )
    &&& result matches Ok(mesh) ==> {
        &&& mesh.positions@ == positions
        &&& mesh.triangles@ == triangles
        &&& mesh.mask@ == mask
        &&& mesh.smooth(geometry)
        &&& mesh.well_formed()
        &&& mesh.topology.bvh.fits(mesh.positions@, mesh.triangles@)
    }
}

/// Whether a snapshot is of a mesh.
pub open spec fn captured(mesh: Mesh, snapshot: MeshSnapshot) -> bool {
    &&& snapshot.spec_positions() == mesh.positions@
    &&& snapshot.spec_triangles() == mesh.triangles@
    &&& snapshot.spec_mask() == mesh.mask@
}

/// A snapshot of a mesh that could be taken as it is restores to that mesh, with its exact
/// positions, faces, weights and normals, whatever became of the mesh.
pub proof fn a_snapshot_restores<G: Geometry>(
    geometry: &G,
    mesh: Mesh,
    snapshot: MeshSnapshot,
    result: Result<Mesh, MeshError>,
)
    requires
        mesh::sound_indexing(mesh.positions@, mesh.triangles@),
        mesh.mask@.len() == mesh.positions@.len(),
        mesh::all_weights(mesh.mask@, mesh.mask@.len() as int),
        mesh::clean(geometry, mesh.positions@, mesh.triangles@, mesh.triangles@.len() as int),
        mesh.smooth(geometry),
        captured(mesh, snapshot),
        restored(geometry, snapshot, result),
    ensures
        result matches Ok(again) && again.positions@ == mesh.positions@ && again.triangles@
            == mesh.triangles@ && again.mask@ == mesh.mask@ && again.normals@ == mesh.normals@,
{
    let again = result->Ok_0;
    assert(again.normals@ =~= mesh.normals@);
}

/// A snapshot of a mesh that was made of sound geometry, whatever mask it has been given since,
/// restores to that mesh.
pub proof fn a_snapshot_of_a_new_mesh_restores<G: Geometry>(
    geometry: &G,
    positions: Seq<Point>,
    triangles: Seq<[u32; 3]>,
    made: Mesh,
    mesh: Mesh,
    snapshot: MeshSnapshot,
    result: Result<Mesh, MeshError>,
)
    requires
        mesh::shape_ignores_winding(geometry),
        mesh::sound_indexing(positions, triangles),
        mesh::made_of(geometry, positions, triangles, made),
        mesh == (Mesh { mask: mesh.mask, ..made }),
        mesh.mask@.len() == mesh.positions@.len(),
        mesh::all_weights(mesh.mask@, mesh.mask@.len() as int),
        captured(mesh, snapshot),
        restored(geometry, snapshot, result),
    ensures
        result matches Ok(again) && again.positions@ == mesh.positions@ && again.triangles@
            == mesh.triangles@ && again.mask@ == mesh.mask@ && again.normals@ == mesh.normals@,
{
    mesh::a_new_mesh_is_clean(geometry, positions, triangles, made);
    a_snapshot_restores(geometry, mesh, snapshot, result);
}

/// One step of a history.
///
/// A replacement holds the whole mesh on its other side: when it is recorded, the mesh before the
/// operation; when it has been undone, the mesh after it.
#[derive(Debug)]
pub enum HistoryEntry {
    Local(LocalEdit),
    MeshReplacement(Arc<MeshSnapshot>),
}

impl HistoryEntry {
    pub open spec fn bytes(self) -> nat {
        match self {
            HistoryEntry::Local(edit) => edit.bytes(),
            HistoryEntry::MeshReplacement(snapshot) => snapshot.bytes(),
        }
    }

    pub fn byte_len(&self) -> (result: usize)
        ensures
            result == self.bytes(),
    {
        match self {
            HistoryEntry::Local(edit) => edit.byte_len(),
            HistoryEntry::MeshReplacement(snapshot) => snapshot.byte_len(),
        }
    }
}

#[derive(Clone, Copy, Debug, PartialEq, Eq, Structural)]
pub enum HistoryDirection {
    Undo,
    Redo,
}

/// What an undo or redo comes to.
#[derive(Debug)]
pub enum HistoryAction {
    Empty,
    Local { changed_vertices: Vec<u32> },
    /// A whole mesh that is to be restored elsewhere. Its token goes back to the history once the
    /// mesh has been installed, or cannot be.
    MeshReplacement(PendingMeshReplacement),
}

/// A whole-mesh step that has been taken off its stack and is not finished.
///
/// While it is outstanding its history records nothing and takes no further step.
#[derive(Debug)]
pub struct PendingMeshReplacement {
    history_id: u64,
    transaction_id: u64,
    direction: HistoryDirection,
    target: Arc<MeshSnapshot>,
    bytes: usize,
}

impl PendingMeshReplacement {
    pub closed spec fn spec_history(self) -> u64 {
        self.history_id
    }

    pub closed spec fn spec_transaction(self) -> u64 {
        self.transaction_id
    }

    pub closed spec fn spec_direction(self) -> HistoryDirection {
        self.direction
    }

    pub closed spec fn spec_target(self) -> Arc<MeshSnapshot> {
        self.target
    }

    pub closed spec fn spec_bytes(self) -> nat {
        self.bytes as nat
    }

    /// Whether the bytes are those of the mesh that is to be restored.
    pub open spec fn well_formed(self) -> bool {
        self.spec_bytes() == self.spec_target().bytes()
    }

    pub fn direction(&self) -> (result: HistoryDirection)
        ensures
            result == self.spec_direction(),
    {
        self.direction
    }

    pub fn target(&self) -> (result: &Arc<MeshSnapshot>)
        ensures
            *result == self.spec_target(),
    {
        &self.target
    }
}

#[derive(Clone, Copy, Debug, PartialEq, Eq, Structural)]
pub enum HistoryTransactionError {
    /// The token is stale, or belongs to another history.
    InvalidMeshReplacementToken,
}

#[derive(Debug)]
struct StoredEntry {
    entry: HistoryEntry,
    bytes: usize,
}

impl StoredEntry {
    spec fn well_formed(self) -> bool {
        self.bytes == self.entry.bytes()
    }

    fn new(entry: HistoryEntry) -> (result: StoredEntry)
        ensures
            result.entry == entry,
            result.well_formed(),
    {
        let bytes = entry.byte_len();
        StoredEntry { entry, bytes }
    }
}

#[derive(Clone, Copy, Debug)]
struct ActiveMeshReplacement {
    transaction_id: u64,
    bytes: usize,
}

/// What has been done to a mesh and can be undone, and what has been undone and can be redone.
#[derive(Debug)]
pub struct History {
    undo: VecDeque<StoredEntry>,
    redo: Vec<StoredEntry>,
    byte_budget: usize,
    bytes_used: u128,
    history_id: u64,
    next_transaction_id: u64,
    pending_replacement: Option<ActiveMeshReplacement>,
}

/// The bytes that entries take together.
pub open spec fn total_bytes(entries: Seq<HistoryEntry>) -> nat
    decreases entries.len(),
{
    if entries.len() == 0 {
        0
    } else {
        total_bytes(entries.drop_last()) + entries.last().bytes()
    }
}

/// The newest entries that a budget has room for: the oldest are dropped, no more than needed.
pub open spec fn newest_within(
    entries: Seq<HistoryEntry>,
    budget: nat,
    kept: Seq<HistoryEntry>,
) -> bool {
    exists|dropped: int|
        0 <= dropped <= entries.len() && kept == #[trigger] entries.skip(dropped) && total_bytes(kept)
            <= budget && (dropped > 0 ==> total_bytes(entries.skip(dropped - 1)) > budget)
}

spec fn entries_of(stored: Seq<StoredEntry>) -> Seq<HistoryEntry> {
    stored.map_values(|entry: StoredEntry| entry.entry)
}

spec fn all_sized(stored: Seq<StoredEntry>) -> bool {
    forall|i: int| 0 <= i < stored.len() ==> (#[trigger] stored[i]).well_formed()
}

pub proof fn total_of_push(entries: Seq<HistoryEntry>, entry: HistoryEntry)
    ensures
        total_bytes(entries.push(entry)) == total_bytes(entries) + entry.bytes(),
{
    assert(entries.push(entry).drop_last() =~= entries);
}

pub proof fn total_of_rest(entries: Seq<HistoryEntry>)
    requires
        entries.len() > 0,
    ensures
        total_bytes(entries) == entries[0].bytes() + total_bytes(entries.skip(1)),
    decreases entries.len(),
{
    if entries.len() == 1 {
        assert(entries.drop_last() =~= Seq::<HistoryEntry>::empty());
        assert(entries.skip(1) =~= Seq::<HistoryEntry>::empty());
        reveal_with_fuel(total_bytes, 2);
    } else {
        let front = entries.drop_last();
        total_of_rest(front);
        assert(entries.skip(1).drop_last() =~= front.skip(1));
        assert(entries.skip(1).last() == entries.last());
        assert(front[0] == entries[0]);
    }
}

impl History {
    /// The entries that can be undone, the oldest first.
    pub closed spec fn undoable(self) -> Seq<HistoryEntry> {
        entries_of(self.undo@)
    }

    /// The entries that can be redone, the next one last.
    pub closed spec fn redoable(self) -> Seq<HistoryEntry> {
        entries_of(self.redo@)
    }

    pub closed spec fn budget(self) -> nat {
        self.byte_budget as nat
    }

    pub closed spec fn used(self) -> nat {
        self.bytes_used as nat
    }

    pub closed spec fn id(self) -> u64 {
        self.history_id
    }

    pub closed spec fn next_transaction(self) -> u64 {
        self.next_transaction_id
    }

    /// The outstanding step: its number and the bytes that it still takes.
    pub closed spec fn outstanding(self) -> Option<(u64, nat)> {
        match self.pending_replacement {
            Some(active) => Some((active.transaction_id, active.bytes as nat)),
            None => None,
        }
    }

    /// Whether the bytes of every entry and of the outstanding step are counted, and are within
    /// the budget.
    pub open spec fn well_formed(self) -> bool {
        &&& self.used() == total_bytes(self.undoable()) + total_bytes(self.redoable())
            + self.outstanding_bytes()
        &&& self.used() <= self.budget()
        &&& self.stored()
    }

    pub closed spec fn stored(self) -> bool {
        all_sized(self.undo@) && all_sized(self.redo@)
    }

    pub open spec fn outstanding_bytes(self) -> nat {
        match self.outstanding() {
            Some((_, bytes)) => bytes,
            None => 0,
        }
    }

    /// Whether two histories are the same but for their entries and what these take.
    pub open spec fn same_terms(self, other: History) -> bool {
        self.budget() == other.budget() && self.id() == other.id() && self.next_transaction()
            == other.next_transaction()
    }

    /// An empty history. Histories that are told apart get different numbers.
    pub fn new(byte_budget: usize, history_id: u64) -> (result: History)
        ensures
            result.well_formed(),
            result.undoable() == Seq::<HistoryEntry>::empty(),
            result.redoable() == Seq::<HistoryEntry>::empty(),
            result.outstanding() is None,
            result.used() == 0,
            result.budget() == byte_budget,
            result.id() == history_id,
            result.next_transaction() == 1,
    {
        let history = History {
            undo: VecDeque::new(),
            redo: Vec::new(),
            byte_budget,
            bytes_used: 0,
            history_id,
            next_transaction_id: 1,
            pending_replacement: None,
        };
        assert(history.undoable() =~= Seq::<HistoryEntry>::empty());
        assert(history.redoable() =~= Seq::<HistoryEntry>::empty());
        history
    }

    pub open spec fn spec_can_undo(self) -> bool {
        self.outstanding() is None && self.undoable().len() > 0
    }

    pub open spec fn spec_can_redo(self) -> bool {
        self.outstanding() is None && self.redoable().len() > 0
    }

    pub fn can_undo(&self) -> (result: bool)
        ensures
            result == self.spec_can_undo(),
    {
        self.pending_replacement.is_none() && self.undo.len() > 0
    }

    pub fn can_redo(&self) -> (result: bool)
        ensures
            result == self.spec_can_redo(),
    {
        self.pending_replacement.is_none() && self.redo.len() > 0
    }

    pub fn mesh_replacement_pending(&self) -> (result: bool)
        ensures
            result == self.outstanding() is Some,
    {
        self.pending_replacement.is_some()
    }

    pub fn bytes_used(&self) -> (result: usize)
        requires
            self.well_formed(),
        ensures
            result == self.used(),
    {
        self.bytes_used as usize
    }

    pub fn byte_budget(&self) -> (result: usize)
        ensures
            result == self.budget(),
    {
        self.byte_budget
    }

    /// Forgets every entry and the outstanding step.
    pub fn clear(&mut self)
        requires
            old(self).well_formed(),
        ensures
            final(self).well_formed(),
            final(self).same_terms(*old(self)),
            final(self).undoable() == Seq::<HistoryEntry>::empty(),
            final(self).redoable() == Seq::<HistoryEntry>::empty(),
            final(self).outstanding() is None,
            final(self).used() == 0,
    {
        self.undo.clear();
        self.redo.clear();
        self.pending_replacement = None;
        self.bytes_used = 0;
        assert(self.undoable() =~= Seq::<HistoryEntry>::empty());
        assert(self.redoable() =~= Seq::<HistoryEntry>::empty());
    }

    fn clear_redo(&mut self)
        requires
            old(self).well_formed(),
        ensures
            final(self).well_formed(),
            final(self).same_terms(*old(self)),
            final(self).undoable() == old(self).undoable(),
            final(self).redoable() == Seq::<HistoryEntry>::empty(),
            final(self).outstanding() == old(self).outstanding(),
            final(self).used() == old(self).used() - total_bytes(old(self).redoable()),
    {
        let ghost begun = *self;
        while self.redo.len() > 0
            invariant
                self.well_formed(),
                self.same_terms(begun),
                self.undo == begun.undo,
                self.pending_replacement == begun.pending_replacement,
                self.used() - total_bytes(self.redoable()) == begun.used() - total_bytes(
                    begun.redoable(),
                ),
            decreases self.redo@.len(),
        {
            let ghost before = *self;
            let removed = self.redo.pop();
            proof {
                assert(entries_of(self.redo@) =~= before.redoable().drop_last());
                assert(before.redo@[before.redo@.len() - 1].well_formed());
                assert(before.redoable().last() == before.redo@.last().entry);
            }
            if let Some(stored) = removed {
                self.bytes_used = self.bytes_used - stored.bytes as u128;
            }
        }
        assert(self.redoable() =~= Seq::<HistoryEntry>::empty());
    }
}

/// Whether entries have been dropped from two stacks, no more than the budget asks: the oldest of
/// the undo stack first, then those of the redo stack that come last, but never the entry on top
/// of the kept stack.
pub open spec fn trimmed(
    undo: Seq<HistoryEntry>,
    redo: Seq<HistoryEntry>,
    direction: HistoryDirection,
    budget: nat,
    kept_undo: Seq<HistoryEntry>,
    kept_redo: Seq<HistoryEntry>,
) -> bool {
    exists|a: int, b: int| #[trigger]
        trimmed_by(undo, redo, direction, budget, kept_undo, kept_redo, a, b)
}

pub open spec fn trimmed_by(
    undo: Seq<HistoryEntry>,
    redo: Seq<HistoryEntry>,
    direction: HistoryDirection,
    budget: nat,
    kept_undo: Seq<HistoryEntry>,
    kept_redo: Seq<HistoryEntry>,
    a: int,
    b: int,
) -> bool {
    // How many entries of each stack may go at most.
    let undo_limit = match direction {
        HistoryDirection::Undo => undo.len() as int,
        HistoryDirection::Redo => undo.len() - 1,
    };
    let redo_limit = match direction {
        HistoryDirection::Undo => redo.len() - 1,
        HistoryDirection::Redo => redo.len() as int,
    };
    &&& 0 <= a <= undo_limit
    &&& 0 <= b <= redo_limit
    &&& kept_undo == undo.skip(a)
    &&& kept_redo == redo.skip(b)
    &&& b > 0 ==> a == undo_limit
    &&& total_bytes(kept_undo) + total_bytes(kept_redo) <= budget
    &&& b > 0 ==> total_bytes(kept_undo) + total_bytes(redo.skip(b - 1)) > budget
    &&& b == 0 && a > 0 ==> total_bytes(undo.skip(a - 1)) + total_bytes(redo) > budget
}

/// Whether a token is that of the outstanding step.
pub open spec fn is_current(history: History, token: PendingMeshReplacement) -> bool {
    &&& token.spec_history() == history.id()
    &&& history.outstanding() == Some((token.spec_transaction(), token.spec_bytes()))
}

impl History {
    /// Whether every byte is counted; the budget may be exceeded by one entry.
    spec fn counted(self) -> bool {
        &&& self.used() == total_bytes(self.undoable()) + total_bytes(self.redoable())
            + self.outstanding_bytes()
        &&& self.used() <= 2 * self.budget()
        &&& self.stored()
    }

    /// Drops the oldest entry that can be undone.
    fn drop_oldest_undo(&mut self)
        requires
            old(self).counted(),
            old(self).undoable().len() > 0,
        ensures
            final(self).counted(),
            final(self).same_terms(*old(self)),
            final(self).outstanding() == old(self).outstanding(),
            final(self).undoable() == old(self).undoable().skip(1),
            final(self).redoable() == old(self).redoable(),
            final(self).used() == old(self).used() - old(self).undoable()[0].bytes(),
    {
        let ghost before = *self;
        let removed = self.undo.pop_front();
        proof {
            assert(entries_of(self.undo@) =~= before.undoable().skip(1));
            assert(before.undo@[0].well_formed());
            assert(before.undoable()[0] == before.undo@[0].entry);
            total_of_rest(before.undoable());
            assert(all_sized(self.undo@)) by {
                assert forall|i: int| 0 <= i < self.undo@.len() implies (
                #[trigger] self.undo@[i]).well_formed() by {
                    assert(self.undo@[i] == before.undo@[i + 1]);
                }
            }
        }
        if let Some(stored) = removed {
            self.bytes_used = self.bytes_used - stored.bytes as u128;
        }
    }

    /// Drops the entry that would be redone last.
    fn drop_oldest_redo(&mut self)
        requires
            old(self).counted(),
            old(self).redoable().len() > 0,
        ensures
            final(self).counted(),
            final(self).same_terms(*old(self)),
            final(self).outstanding() == old(self).outstanding(),
            final(self).undoable() == old(self).undoable(),
            final(self).redoable() == old(self).redoable().skip(1),
            final(self).used() == old(self).used() - old(self).redoable()[0].bytes(),
    {
        let ghost before = *self;
        let stored = self.redo.remove(0);
        proof {
            assert(entries_of(self.redo@) =~= before.redoable().skip(1));
            assert(before.redo@[0].well_formed());
            assert(before.redoable()[0] == before.redo@[0].entry);
            total_of_rest(before.redoable());
            assert(all_sized(self.redo@)) by {
                assert forall|i: int| 0 <= i < self.redo@.len() implies (
                #[trigger] self.redo@[i]).well_formed() by {
                    assert(self.redo@[i] == before.redo@[i + 1]);
                }
            }
        }
        self.bytes_used = self.bytes_used - stored.bytes as u128;
    }

    /// Drops the oldest entries until the rest is within the budget, where nothing can be redone.
    fn trim_to_budget(&mut self)
        requires
            old(self).counted(),
            old(self).redoable().len() == 0,
            old(self).outstanding() is None,
        ensures
            final(self).well_formed(),
            final(self).same_terms(*old(self)),
            final(self).outstanding() is None,
            final(self).redoable() == old(self).redoable(),
            newest_within(old(self).undoable(), old(self).budget(), final(self).undoable()),
    {
        let ghost begun = *self;
        let ghost mut dropped: int = 0;
        assert(begun.undoable().skip(0) =~= begun.undoable());
        while self.bytes_used > self.byte_budget as u128
            invariant
                self.counted(),
                self.same_terms(begun),
                self.outstanding() is None,
                self.redoable() == begun.redoable(),
                begun.redoable().len() == 0,
                0 <= dropped <= begun.undoable().len(),
                self.undoable() == begun.undoable().skip(dropped),
                dropped > 0 ==> total_bytes(begun.undoable().skip(dropped - 1)) > begun.budget(),
            decreases self.undoable().len(),
        {
            assert(self.undoable().len() > 0);
            proof {
                assert(begun.undoable().skip(dropped + 1) =~= begun.undoable().skip(dropped).skip(
                    1,
                ));
            }
            self.drop_oldest_undo();
            proof {
                dropped = dropped + 1;
            }
        }
        assert(self.undoable() == begun.undoable().skip(dropped));
    }

    /// Drops entries until the rest is within the budget, but not the one that was just put on
    /// the stack opposite to the direction, which makes the step reversible.
    fn trim_after_replacement(&mut self, direction: HistoryDirection)
        requires
            old(self).counted(),
            old(self).outstanding() is None,
            direction is Undo ==> old(self).redoable().len() > 0 && old(
                self).redoable().last().bytes() <= old(self).budget(),
            direction is Redo ==> old(self).undoable().len() > 0 && old(
                self).undoable().last().bytes() <= old(self).budget(),
        ensures
            final(self).well_formed(),
            final(self).same_terms(*old(self)),
            final(self).outstanding() is None,
            trimmed(
                old(self).undoable(),
                old(self).redoable(),
                direction,
                old(self).budget(),
                final(self).undoable(),
                final(self).redoable(),
            ),
    {
        let ghost begun = *self;
        let ghost undo = begun.undoable();
        let ghost redo = begun.redoable();
        let ghost mut a: int = 0;
        let ghost mut b: int = 0;
        let ghost undo_limit = match direction {
            HistoryDirection::Undo => undo.len() as int,
            HistoryDirection::Redo => undo.len() - 1,
        };
        let ghost redo_limit = match direction {
            HistoryDirection::Undo => redo.len() - 1,
            HistoryDirection::Redo => redo.len() as int,
        };
        assert(undo.skip(0) =~= undo);
        assert(redo.skip(0) =~= redo);
        while self.bytes_used > self.byte_budget as u128
            invariant
                self.counted(),
                self.same_terms(begun),
                self.outstanding() is None,
                undo == begun.undoable(),
                redo == begun.redoable(),
                undo_limit == match direction {
                    HistoryDirection::Undo => undo.len() as int,
                    HistoryDirection::Redo => undo.len() - 1,
                },
                redo_limit == match direction {
                    HistoryDirection::Undo => redo.len() - 1,
                    HistoryDirection::Redo => redo.len() as int,
                },
                direction is Undo ==> redo.len() > 0 && redo.last().bytes() <= begun.budget(),
                direction is Redo ==> undo.len() > 0 && undo.last().bytes() <= begun.budget(),
                0 <= a <= undo_limit,
                0 <= b <= redo_limit,
                self.undoable() == undo.skip(a),
                self.redoable() == redo.skip(b),
                b > 0 ==> a == undo_limit,
                b > 0 ==> total_bytes(undo.skip(a)) + total_bytes(redo.skip(b - 1))
                    > begun.budget(),
                b == 0 && a > 0 ==> total_bytes(undo.skip(a - 1)) + total_bytes(redo)
                    > begun.budget(),
            decreases self.undoable().len() + self.redoable().len(),
        {
            let remaining_undo = match direction {
                HistoryDirection::Undo => self.undo.len() > 0,
                HistoryDirection::Redo => self.undo.len() > 1,
            };
            if remaining_undo {
                assert(undo.skip(a + 1) =~= undo.skip(a).skip(1));
                assert(redo.skip(0) =~= redo);
                self.drop_oldest_undo();
                proof {
                    a = a + 1;
                }
            } else {
                proof {
                    // One entry alone is within the budget, so there is another to drop.
                    if b == redo_limit {
                        if direction is Undo {
                            assert(redo.skip(b) =~= seq![redo.last()]);
                            assert(undo.skip(a) =~= Seq::<HistoryEntry>::empty());
                            lemma_single(redo.last());
                        } else {
                            assert(redo.skip(b) =~= Seq::<HistoryEntry>::empty());
                            assert(undo.skip(a) =~= seq![undo.last()]);
                            lemma_single(undo.last());
                        }
                        assert(false);
                    }
                    assert(redo.skip(b + 1) =~= redo.skip(b).skip(1));
                }
                self.drop_oldest_redo();
                proof {
                    b = b + 1;
                }
            }
        }
        proof {
            assert(trimmed_by(
                undo,
                redo,
                direction,
                begun.budget(),
                self.undoable(),
                self.redoable(),
                a,
                b,
            ));
        }
    }

    /// Puts an entry on the stack opposite to a direction.
    fn push_opposite(&mut self, direction: HistoryDirection, stored: StoredEntry)
        requires
            old(self).well_formed(),
            stored.well_formed(),
            stored.bytes <= old(self).budget(),
        ensures
            final(self).counted(),
            final(self).same_terms(*old(self)),
            final(self).outstanding() == old(self).outstanding(),
            final(self).used() == old(self).used() + stored.entry.bytes(),
            direction is Undo ==> final(self).undoable() == old(self).undoable() && final(
                self).redoable() == old(self).redoable().push(stored.entry),
            direction is Redo ==> final(self).redoable() == old(self).redoable() && final(
                self).undoable() == old(self).undoable().push(stored.entry),
    {
        let ghost before = *self;
        let ghost entry = stored.entry;
        self.bytes_used = self.bytes_used + stored.bytes as u128;
        match direction {
            HistoryDirection::Undo => {
                self.redo.push(stored);
                proof {
                    total_of_push(before.redoable(), entry);
                    assert(entries_of(self.redo@) =~= before.redoable().push(entry));
                }
            },
            HistoryDirection::Redo => {
                self.undo.push_back(stored);
                proof {
                    total_of_push(before.undoable(), entry);
                    assert(entries_of(self.undo@) =~= before.undoable().push(entry));
                }
            },
        }
    }

    /// Records a completed operation, and makes what was undone impossible to redo even where the
    /// entry is too large for the budget.
    ///
    /// A replacement that is too large clears the whole history: what was recorded before it
    /// cannot be undone across it. While a replacement is outstanding nothing is recorded.
    pub fn record(&mut self, entry: HistoryEntry) -> (result: bool)
        requires
            old(self).well_formed(),
        ensures
            final(self).well_formed(),
            recorded(*old(self), *final(self), entry, result),
    {
        if self.pending_replacement.is_some() {
            return false;
        }
        self.clear_redo();
        let stored = StoredEntry::new(entry);
        if stored.bytes > self.byte_budget {
            let replaces = match &stored.entry {
                HistoryEntry::MeshReplacement(_) => true,
                HistoryEntry::Local(_) => false,
            };
            if replaces {
                self.clear();
            }
            return false;
        }
        self.push_opposite(HistoryDirection::Redo, stored);
        self.trim_to_budget();
        true
    }
}

proof fn lemma_single(entry: HistoryEntry)
    ensures
        total_bytes(seq![entry]) == entry.bytes(),
        total_bytes(Seq::<HistoryEntry>::empty()) == 0,
{
    total_of_push(Seq::empty(), entry);
    assert(Seq::<HistoryEntry>::empty().push(entry) =~= seq![entry]);
}

/// The stack that a direction takes from, before and after.
pub open spec fn taken_from(history: History, direction: HistoryDirection) -> Seq<HistoryEntry> {
    match direction {
        HistoryDirection::Undo => history.undoable(),
        HistoryDirection::Redo => history.redoable(),
    }
}

/// The stack that a direction puts on.
pub open spec fn put_on(history: History, direction: HistoryDirection) -> Seq<HistoryEntry> {
    match direction {
        HistoryDirection::Undo => history.redoable(),
        HistoryDirection::Redo => history.undoable(),
    }
}

/// Whether nothing happened: there is no entry to take, or a replacement is outstanding.
pub open spec fn idle(history: History, direction: HistoryDirection) -> bool {
    history.outstanding() is Some || taken_from(history, direction).len() == 0
}

/// Whether an entry was recorded, or was not because a step is outstanding or the entry is too
/// large for the budget.
pub open spec fn recorded(
    before: History,
    after: History,
    entry: HistoryEntry,
    result: bool,
) -> bool {
    &&& after.same_terms(before)
    &&& after.outstanding() == before.outstanding()
    &&& result == (before.outstanding() is None && entry.bytes() <= before.budget())
    &&& before.outstanding() is Some ==> after == before
    &&& before.outstanding() is None ==> after.redoable() == Seq::<HistoryEntry>::empty()
    &&& result ==> newest_within(before.undoable().push(entry), before.budget(), after.undoable())
    &&& !result && before.outstanding() is None ==> after.undoable() == if entry is Local {
        before.undoable()
    } else {
        Seq::<HistoryEntry>::empty()
    }
}

/// Whether a step did what it is there for.
pub open spec fn stepped<G: Geometry>(
    geometry: &G,
    before: History,
    after: History,
    direction: HistoryDirection,
    mesh_before: Mesh,
    mesh_after: Mesh,
    action: HistoryAction,
) -> bool {
    if idle(before, direction) {
        action is Empty && after == before && mesh_after == mesh_before
    } else {
        let entry = taken_from(before, direction).last();
        &&& after.budget() == before.budget() && after.id() == before.id()
        &&& after.used() == before.used()
        &&& taken_from(after, direction) == taken_from(before, direction).drop_last()
        &&& match entry {
            HistoryEntry::Local(edit) => {
                &&& action is Local
                &&& edit::applied(
                    geometry,
                    mesh_before,
                    mesh_after,
                    edit,
                    direction is Redo,
                    action->changed_vertices@,
                )
                &&& put_on(after, direction) == put_on(before, direction).push(entry)
                &&& after.outstanding() is None
                &&& after.next_transaction() == before.next_transaction()
            },
            HistoryEntry::MeshReplacement(target) => {
                &&& mesh_after == mesh_before
                &&& put_on(after, direction) == put_on(before, direction)
                &&& action matches HistoryAction::MeshReplacement(token)
                &&& is_current(after, token)
                &&& token.spec_direction() == direction
                &&& token.spec_target() == target
                &&& token.well_formed()
                &&& token.spec_transaction() == before.next_transaction()
                &&& after.next_transaction() == vstd::wrapping::u64_specs::wrapping_add(
                    before.next_transaction(),
                    1,
                )
            },
        }
    }
}

impl History {
    /// Takes back the last operation.
    pub fn undo<G: Geometry>(&mut self, mesh: &mut Mesh, geometry: &G) -> (result: HistoryAction)
        requires
            geometry.total(),
            old(self).well_formed(),
            old(mesh).well_formed(),
        ensures
            final(self).well_formed(),
            final(mesh).well_formed(),
            stepped(
                geometry,
                *old(self),
                *final(self),
                HistoryDirection::Undo,
                *old(mesh),
                *final(mesh),
                result,
            ),
    {
        self.step(HistoryDirection::Undo, mesh, geometry)
    }

    /// Makes the operation again that was undone last.
    pub fn redo<G: Geometry>(&mut self, mesh: &mut Mesh, geometry: &G) -> (result: HistoryAction)
        requires
            geometry.total(),
            old(self).well_formed(),
            old(mesh).well_formed(),
        ensures
            final(self).well_formed(),
            final(mesh).well_formed(),
            stepped(
                geometry,
                *old(self),
                *final(self),
                HistoryDirection::Redo,
                *old(mesh),
                *final(mesh),
                result,
            ),
    {
        self.step(HistoryDirection::Redo, mesh, geometry)
    }

    fn step<G: Geometry>(
        &mut self,
        direction: HistoryDirection,
        mesh: &mut Mesh,
        geometry: &G,
    ) -> (result: HistoryAction)
        requires
            geometry.total(),
            old(self).well_formed(),
            old(mesh).well_formed(),
        ensures
            final(self).well_formed(),
            final(mesh).well_formed(),
            stepped(
                geometry,
                *old(self),
                *final(self),
                direction,
                *old(mesh),
                *final(mesh),
                result,
            ),
    {
        if self.pending_replacement.is_some() {
            return HistoryAction::Empty;
        }
        let ghost begun = *self;
        let nothing = match direction {
            HistoryDirection::Undo => self.undo.len() == 0,
            HistoryDirection::Redo => self.redo.len() == 0,
        };
        if nothing {
            return HistoryAction::Empty;
        }
        let popped = match direction {
            HistoryDirection::Undo => self.undo.pop_back(),
            HistoryDirection::Redo => self.redo.pop(),
        };
        proof {
            if direction is Undo {
                assert(entries_of(self.undo@) =~= begun.undoable().drop_last());
                assert(begun.undo@[begun.undo@.len() - 1].well_formed());
                assert(begun.undoable().last() == begun.undo@.last().entry);
                assert(all_sized(self.undo@)) by {
                    assert forall|i: int| 0 <= i < self.undo@.len() implies (
                    #[trigger] self.undo@[i]).well_formed() by {
                        assert(self.undo@[i] == begun.undo@[i]);
                    }
                }
            } else {
                assert(entries_of(self.redo@) =~= begun.redoable().drop_last());
                assert(begun.redo@[begun.redo@.len() - 1].well_formed());
                assert(begun.redoable().last() == begun.redo@.last().entry);
                assert(all_sized(self.redo@)) by {
                    assert forall|i: int| 0 <= i < self.redo@.len() implies (
                    #[trigger] self.redo@[i]).well_formed() by {
                        assert(self.redo@[i] == begun.redo@[i]);
                    }
                }
            }
        }
        match popped {
            None => HistoryAction::Empty,
            Some(stored) => {
                let ghost entry = stored.entry;
                assert(stored.well_formed());
                let bytes = stored.bytes;
                match stored.entry {
                    HistoryEntry::Local(edit) => {
                        self.bytes_used = self.bytes_used - bytes as u128;
                        let changed_vertices = match direction {
                            HistoryDirection::Undo => edit.apply_before(mesh, geometry),
                            HistoryDirection::Redo => edit.apply_after(mesh, geometry),
                        };
                        self.push_opposite(direction, StoredEntry::new(HistoryEntry::Local(edit)));
                        HistoryAction::Local { changed_vertices }
                    },
                    HistoryEntry::MeshReplacement(target) => {
                        let transaction_id = self.next_transaction_id;
                        self.next_transaction_id = self.next_transaction_id.wrapping_add(1);
                        self.pending_replacement = Some(
                            ActiveMeshReplacement { transaction_id, bytes },
                        );
                        HistoryAction::MeshReplacement(
                            PendingMeshReplacement {
                                history_id: self.history_id,
                                transaction_id,
                                direction,
                                target,
                                bytes,
                            },
                        )
                    },
                }
            },
        }
    }

    fn validate_pending(&self, pending: &PendingMeshReplacement) -> (result: Result<
        (),
        HistoryTransactionError,
    >)
        ensures
            result is Ok <==> is_current(*self, *pending),
    {
        let matches = match self.pending_replacement {
            Some(active) => pending.history_id == self.history_id && active.transaction_id
                == pending.transaction_id && active.bytes == pending.bytes,
            None => false,
        };
        if matches {
            Ok(())
        } else {
            Err(HistoryTransactionError::InvalidMeshReplacementToken)
        }
    }

    /// Finishes an outstanding step once its mesh has been installed.
    ///
    /// `inverse` is the mesh that was there before, and makes the step reversible. Where it is too
    /// large for the budget the step is done all the same, and the entries that would need it are
    /// forgotten. A token that is not that of the outstanding step changes nothing.
    pub fn complete_mesh_replacement(
        &mut self,
        pending: PendingMeshReplacement,
        inverse: Arc<MeshSnapshot>,
    ) -> (result: Result<bool, HistoryTransactionError>)
        requires
            old(self).well_formed(),
        ensures
            final(self).well_formed(),
            final(self).same_terms(*old(self)),
            result is Ok <==> is_current(*old(self), pending),
            result is Err ==> *final(self) == *old(self),
            result matches Ok(kept) ==> {
                let entry = HistoryEntry::MeshReplacement(inverse);
                let direction = pending.spec_direction();
                &&& final(self).outstanding() is None
                &&& kept == (inverse.bytes() <= old(self).budget())
                &&& kept && direction is Undo ==> trimmed(
                    old(self).undoable(),
                    old(self).redoable().push(entry),
                    direction,
                    old(self).budget(),
                    final(self).undoable(),
                    final(self).redoable(),
                )
                &&& kept && direction is Redo ==> trimmed(
                    old(self).undoable().push(entry),
                    old(self).redoable(),
                    direction,
                    old(self).budget(),
                    final(self).undoable(),
                    final(self).redoable(),
                )
                &&& !kept ==> put_on(*final(self), direction) == Seq::<HistoryEntry>::empty()
                    && taken_from(*final(self), direction) == taken_from(*old(self), direction)
            },
    {
        let ghost begun = *self;
        match self.validate_pending(&pending) {
            Ok(()) => {},
            Err(error) => {
                return Err(error);
            },
        }
        self.pending_replacement = None;
        self.bytes_used = self.bytes_used - pending.bytes as u128;
        let inverse = StoredEntry::new(HistoryEntry::MeshReplacement(inverse));
        if inverse.bytes > self.byte_budget {
            self.clear_opposite(pending.direction);
            return Ok(false);
        }
        self.push_opposite(pending.direction, inverse);
        assert(put_on(*self, pending.direction).last() == inverse.entry);
        self.trim_after_replacement(pending.direction);
        Ok(true)
    }

    /// Gives an outstanding step up, and puts its entry back where it was.
    ///
    /// A token that is not that of the outstanding step changes nothing.
    pub fn cancel_mesh_replacement(&mut self, pending: PendingMeshReplacement) -> (result: Result<
        (),
        HistoryTransactionError,
    >)
        requires
            old(self).well_formed(),
            pending.well_formed(),
        ensures
            final(self).well_formed(),
            final(self).same_terms(*old(self)),
            result is Ok <==> is_current(*old(self), pending),
            result is Err ==> *final(self) == *old(self),
            result is Ok ==> {
                &&& final(self).outstanding() is None
                &&& final(self).used() == old(self).used()
                &&& taken_from(*final(self), pending.spec_direction()) == taken_from(
                    *old(self),
                    pending.spec_direction(),
                ).push(HistoryEntry::MeshReplacement(pending.spec_target()))
                &&& put_on(*final(self), pending.spec_direction()) == put_on(
                    *old(self),
                    pending.spec_direction(),
                )
            },
    {
        let ghost begun = *self;
        match self.validate_pending(&pending) {
            Ok(()) => {},
            Err(error) => {
                return Err(error);
            },
        }
        self.pending_replacement = None;
        let ghost entry = HistoryEntry::MeshReplacement(pending.target);
        let restored = StoredEntry {
            entry: HistoryEntry::MeshReplacement(pending.target),
            bytes: pending.bytes,
        };
        assert(restored.well_formed());
        match pending.direction {
            HistoryDirection::Undo => {
                self.undo.push_back(restored);
                proof {
                    total_of_push(begun.undoable(), entry);
                    assert(entries_of(self.undo@) =~= begun.undoable().push(entry));
                }
            },
            HistoryDirection::Redo => {
                self.redo.push(restored);
                proof {
                    total_of_push(begun.redoable(), entry);
                    assert(entries_of(self.redo@) =~= begun.redoable().push(entry));
                }
            },
        }
        Ok(())
    }

    fn clear_opposite(&mut self, direction: HistoryDirection)
        requires
            old(self).well_formed(),
        ensures
            final(self).well_formed(),
            final(self).same_terms(*old(self)),
            final(self).outstanding() == old(self).outstanding(),
            put_on(*final(self), direction) == Seq::<HistoryEntry>::empty(),
            taken_from(*final(self), direction) == taken_from(*old(self), direction),
    {
        match direction {
            HistoryDirection::Undo => self.clear_redo(),
            HistoryDirection::Redo => {
                let ghost begun = *self;
                while self.undo.len() > 0
                    invariant
                        self.well_formed(),
                        self.same_terms(begun),
                        self.redo == begun.redo,
                        self.pending_replacement == begun.pending_replacement,
                    decreases self.undo@.len(),
                {
                    let ghost before = *self;
                    let removed = self.undo.pop_back();
                    proof {
                        assert(entries_of(self.undo@) =~= before.undoable().drop_last());
                        assert(before.undo@[before.undo@.len() - 1].well_formed());
                        assert(before.undoable().last() == before.undo@.last().entry);
                        assert(all_sized(self.undo@)) by {
                            assert forall|i: int| 0 <= i < self.undo@.len() implies (
                            #[trigger] self.undo@[i]).well_formed() by {
                                assert(self.undo@[i] == before.undo@[i]);
                            }
                        }
                    }
                    if let Some(stored) = removed {
                        self.bytes_used = self.bytes_used - stored.bytes as u128;
                    }
                }
                assert(self.undoable() =~= Seq::<HistoryEntry>::empty());
            },
        }
    }
}

/// Undoing an edit and redoing it gives both stacks back, and every vertex of the edit its exact
/// place and weight, where the vertices stood where the edit had put them and weighed what it had
/// made them weigh.
pub proof fn redoing_gives_back_what_undoing_took<G: Geometry>(
    geometry: &G,
    start: History,
    between: History,
    end: History,
    mesh: Mesh,
    undone: Mesh,
    redone: Mesh,
    undo: HistoryAction,
    redo: HistoryAction,
)
    requires
        start.outstanding() is None,
        start.undoable().len() > 0,
        start.undoable().last() is Local,
        stepped(geometry, start, between, HistoryDirection::Undo, mesh, undone, undo),
        stepped(geometry, between, end, HistoryDirection::Redo, undone, redone, redo),
    ensures
        end.undoable() == start.undoable(),
        end.redoable() == start.redoable(),
        end.used() == start.used(),
        end.outstanding() is None,
        ({
            let changes = start.undoable().last()->Local_0.positions@;
            edit::each_once(changes, mesh.positions@.len()) && edit::stands_after(
                mesh.positions@,
                changes,
            ) ==> redone.positions@ == mesh.positions@ && edit::stands_before(
                undone.positions@,
                changes,
            )
        }),
        ({
            let changes = start.undoable().last()->Local_0.masks@;
            edit::each_mask_once(changes, mesh.mask@.len()) && edit::weighs_after(
                mesh.mask@,
                changes,
            ) ==> redone.mask@ == mesh.mask@ && edit::weighs_before(undone.mask@, changes)
        }),
        redone.triangles@ == mesh.triangles@,
{
    let entry = start.undoable().last();
    let changes = entry->Local_0.positions@;
    let weights = entry->Local_0.masks@;
    assert(between.redoable().last() == entry);
    assert(between.redoable().drop_last() =~= start.redoable());
    assert(end.undoable() =~= start.undoable());
    if edit::each_once(changes, mesh.positions@.len()) && edit::stands_after(
        mesh.positions@,
        changes,
    ) {
        edit::taking_back_restores(mesh.positions@, changes);
        edit::making_again_after_taking_back_restores(mesh.positions@, changes);
    }
    if edit::each_mask_once(weights, mesh.mask@.len()) && edit::weighs_after(
        mesh.mask@,
        weights,
    ) {
        edit::taking_back_restores_the_mask(mesh.mask@, weights);
        edit::making_again_after_taking_back_restores_the_mask(mesh.mask@, weights);
    }
}

/// A step to a whole mesh hands out that mesh, its direction and a token, and leaves the present
/// mesh and the bytes that count as they were.
pub proof fn a_replacement_is_handed_out<G: Geometry>(
    geometry: &G,
    start: History,
    end: History,
    direction: HistoryDirection,
    mesh: Mesh,
    same: Mesh,
    action: HistoryAction,
    target: Arc<MeshSnapshot>,
)
    requires
        start.outstanding() is None,
        taken_from(start, direction).len() > 0,
        taken_from(start, direction).last() == HistoryEntry::MeshReplacement(target),
        stepped(geometry, start, end, direction, mesh, same, action),
    ensures
        action matches HistoryAction::MeshReplacement(token) && token.spec_direction() == direction
            && token.spec_target() == target && is_current(end, token),
        same == mesh,
        end.used() == start.used(),
        end.outstanding() is Some,
        !end.spec_can_undo(),
        !end.spec_can_redo(),
{
}

/// While a step is outstanding no further step is taken and nothing is recorded.
pub proof fn an_outstanding_step_holds_everything_up<G: Geometry>(
    geometry: &G,
    start: History,
    stepped_on: History,
    wrote: History,
    direction: HistoryDirection,
    mesh: Mesh,
    same: Mesh,
    action: HistoryAction,
    entry: HistoryEntry,
    result: bool,
)
    requires
        start.outstanding() is Some,
        stepped(geometry, start, stepped_on, direction, mesh, same, action),
        recorded(start, wrote, entry, result),
    ensures
        action is Empty,
        stepped_on == start,
        same == mesh,
        !result,
        wrote == start,
{
}

/// Giving up an outstanding step leaves the history as it was before the step, but for the number
/// of the next one.
pub proof fn canceling_gives_the_history_back<G: Geometry>(
    geometry: &G,
    start: History,
    between: History,
    end: History,
    direction: HistoryDirection,
    mesh: Mesh,
    same: Mesh,
    token: PendingMeshReplacement,
)
    requires
        stepped(
            geometry,
            start,
            between,
            direction,
            mesh,
            same,
            HistoryAction::MeshReplacement(token),
        ),
        // What canceling with the token of the step ensures.
        end.outstanding() is None,
        end.used() == between.used(),
        taken_from(end, direction) == taken_from(between, direction).push(
            HistoryEntry::MeshReplacement(token.spec_target()),
        ),
        put_on(end, direction) == put_on(between, direction),
    ensures
        is_current(between, token),
        token.well_formed(),
        end.undoable() == start.undoable(),
        end.redoable() == start.redoable(),
        end.used() == start.used(),
        same == mesh,
{
    assert(taken_from(end, direction) =~= taken_from(start, direction));
}

/// Once a replacement is completed, the mesh that it replaced is the next one to come back.
pub proof fn a_completed_replacement_can_be_reversed(
    undo: Seq<HistoryEntry>,
    redo: Seq<HistoryEntry>,
    direction: HistoryDirection,
    budget: nat,
    inverse: HistoryEntry,
    kept_undo: Seq<HistoryEntry>,
    kept_redo: Seq<HistoryEntry>,
)
    requires
        direction is Undo ==> trimmed(
            undo,
            redo.push(inverse),
            direction,
            budget,
            kept_undo,
            kept_redo,
        ),
        direction is Redo ==> trimmed(
            undo.push(inverse),
            redo,
            direction,
            budget,
            kept_undo,
            kept_redo,
        ),
    ensures
        direction is Undo ==> kept_redo.len() > 0 && kept_redo.last() == inverse,
        direction is Redo ==> kept_undo.len() > 0 && kept_undo.last() == inverse,
        total_bytes(kept_undo) + total_bytes(kept_redo) <= budget,
{
    if direction is Undo {
        let (a, b) = choose|a: int, b: int| #[trigger]
            trimmed_by(undo, redo.push(inverse), direction, budget, kept_undo, kept_redo, a, b);
        assert(kept_redo.last() == redo.push(inverse).last());
    } else {
        let (a, b) = choose|a: int, b: int| #[trigger]
            trimmed_by(undo.push(inverse), redo, direction, budget, kept_undo, kept_redo, a, b);
        assert(kept_undo.last() == undo.push(inverse).last());
    }
}

/// A recorded entry is the next one to be undone.
pub proof fn a_recorded_entry_is_undone_next(
    undo: Seq<HistoryEntry>,
    entry: HistoryEntry,
    budget: nat,
    kept: Seq<HistoryEntry>,
)
    requires
        newest_within(undo.push(entry), budget, kept),
        entry.bytes() <= budget,
    ensures
        kept.len() > 0,
        kept.last() == entry,
{
    let all = undo.push(entry);
    let dropped = choose|dropped: int|
        0 <= dropped <= all.len() && kept == #[trigger] all.skip(dropped) && total_bytes(kept)
            <= budget && (dropped > 0 ==> total_bytes(all.skip(dropped - 1)) > budget);
    if dropped == all.len() {
        assert(all.skip(dropped - 1) =~= seq![entry]);
        lemma_single(entry);
    }
    assert(kept.last() == all.last());
}

} // verus!
