//! Reversible changes of vertex positions and mask weights.
use crate::collections;
use crate::deform;
use crate::geometry::Geometry;
use crate::mesh;
use crate::mesh::Mesh;
use crate::scalar;
use crate::scalar::Point;
use vstd::prelude::*;

verus! {

/// A vertex that was moved.
#[derive(Clone, Copy, Debug, PartialEq, Eq, Structural)]
pub struct PositionChange {
    pub vertex: u32,
    pub before: Point,
    pub after: Point,
}

/// A vertex whose mask weight was changed.
#[derive(Clone, Copy, Debug, PartialEq, Eq, Structural)]
pub struct MaskChange {
    pub vertex: u32,
    pub before: u32,
    pub after: u32,
}

/// The bytes that a stored position change takes.
pub const POSITION_CHANGE_BYTES: usize = 28;

/// The bytes that a stored mask change takes.
pub const MASK_CHANGE_BYTES: usize = 12;

/// The exact values that an operation on a mesh with fixed faces changed, in the order of the
/// vertices.
#[derive(Debug)]
pub struct LocalEdit {
    pub positions: Vec<PositionChange>,
    pub masks: Vec<MaskChange>,
}

pub open spec fn moves(change: PositionChange) -> bool {
    !change.before.same(change.after)
}

pub open spec fn alters(change: MaskChange) -> bool {
    !scalar::same(change.before, change.after)
}

/// The changes that change something.
pub open spec fn real_moves(changes: Seq<PositionChange>) -> Seq<PositionChange> {
    changes.filter(|change: PositionChange| moves(change))
}

/// The changes that change something.
pub open spec fn real_alterations(changes: Seq<MaskChange>) -> Seq<MaskChange> {
    changes.filter(|change: MaskChange| alters(change))
}

pub open spec fn moves_in_order(changes: Seq<PositionChange>) -> bool {
    forall|i: int, j: int| 0 <= i <= j < changes.len() ==> changes[i].vertex <= changes[j].vertex
}

pub open spec fn alterations_in_order(changes: Seq<MaskChange>) -> bool {
    forall|i: int, j: int| 0 <= i <= j < changes.len() ==> changes[i].vertex <= changes[j].vertex
}

/// `sort_unstable_by_key` of a slice puts the changes in the order of their vertices.
#[verifier::external_body]
fn sort_moves(changes: &mut Vec<PositionChange>)
    ensures
        moves_in_order(final(changes)@),
        final(changes)@.to_multiset() == old(changes)@.to_multiset(),
{
    changes.sort_unstable_by_key(|change| change.vertex);
}

/// `sort_unstable_by_key` of a slice puts the changes in the order of their vertices.
#[verifier::external_body]
fn sort_alterations(changes: &mut Vec<MaskChange>)
    ensures
        alterations_in_order(final(changes)@),
        final(changes)@.to_multiset() == old(changes)@.to_multiset(),
{
    changes.sort_unstable_by_key(|change| change.vertex);
}

fn keep_moves(changes: &Vec<PositionChange>) -> (result: Vec<PositionChange>)
    ensures
        result@ == real_moves(changes@),
{
    let mut kept: Vec<PositionChange> = Vec::new();
    let mut i: usize = 0;
    assert(changes@.take(0) =~= Seq::<PositionChange>::empty());
    proof {
        reveal(Seq::filter);
    }
    while i < changes.len()
        invariant
            i <= changes@.len(),
            kept@ == real_moves(changes@.take(i as int)),
        decreases changes@.len() - i,
    {
        let change = changes[i];
        assert(changes@.take(i + 1).drop_last() =~= changes@.take(i as int));
        proof {
            reveal(Seq::filter);
        }
        if !change.before.is_same(&change.after) {
            kept.push(change);
        }
        i += 1;
    }
    assert(changes@.take(i as int) =~= changes@);
    kept
}

fn keep_alterations(changes: &Vec<MaskChange>) -> (result: Vec<MaskChange>)
    ensures
        result@ == real_alterations(changes@),
{
    let mut kept: Vec<MaskChange> = Vec::new();
    let mut i: usize = 0;
    assert(changes@.take(0) =~= Seq::<MaskChange>::empty());
    proof {
        reveal(Seq::filter);
    }
    while i < changes.len()
        invariant
            i <= changes@.len(),
            kept@ == real_alterations(changes@.take(i as int)),
        decreases changes@.len() - i,
    {
        let change = changes[i];
        assert(changes@.take(i + 1).drop_last() =~= changes@.take(i as int));
        proof {
            reveal(Seq::filter);
        }
        if !scalar::is_same(change.before, change.after) {
            kept.push(change);
        }
        i += 1;
    }
    assert(changes@.take(i as int) =~= changes@);
    kept
}

/// The bytes that so many items of a size take, or the largest size where these are more.
pub open spec fn bytes_of(count: nat, size: nat) -> nat {
    if count * size > usize::MAX {
        usize::MAX as nat
    } else {
        count * size
    }
}

pub open spec fn sum_of(a: nat, b: nat) -> nat {
    if a + b > usize::MAX {
        usize::MAX as nat
    } else {
        a + b
    }
}

pub(crate) fn bytes_for(count: usize, size: usize) -> (result: usize)
    ensures
        result == bytes_of(count as nat, size as nat),
{
    assert(count * size <= u64::MAX * u64::MAX) by (nonlinear_arith)
        requires
            0 <= count <= u64::MAX,
            0 <= size <= u64::MAX,
    ;
    let bytes: u128 = (count as u128) * (size as u128);
    if bytes > usize::MAX as u128 {
        usize::MAX
    } else {
        bytes as usize
    }
}

/// The positions after changes were made or taken back, one after the other. A position that
/// already equals the wanted one as numbers stays as it is.
pub open spec fn placed(
    positions: Seq<Point>,
    changes: Seq<PositionChange>,
    forward: bool,
) -> Seq<Point>
    decreases changes.len(),
{
    if changes.len() == 0 {
        positions
    } else {
        let before = placed(positions, changes.drop_last(), forward);
        let change = changes.last();
        let target = if forward {
            change.after
        } else {
            change.before
        };
        if change.vertex < before.len() && !before[change.vertex as int].same(target) {
            before.update(change.vertex as int, target)
        } else {
            before
        }
    }
}

/// Whether making or taking back changes moves a vertex.
pub open spec fn gets_moved(
    positions: Seq<Point>,
    changes: Seq<PositionChange>,
    forward: bool,
    vertex: u32,
) -> bool
    decreases changes.len(),
{
    changes.len() > 0 && {
        let before = placed(positions, changes.drop_last(), forward);
        let change = changes.last();
        let target = if forward {
            change.after
        } else {
            change.before
        };
        ||| gets_moved(positions, changes.drop_last(), forward, vertex)
        ||| change.vertex == vertex && vertex < before.len() && !before[vertex as int].same(target)
    }
}

/// The mask after changes were made or taken back, one after the other.
pub open spec fn weighted(mask: Seq<u32>, changes: Seq<MaskChange>, forward: bool) -> Seq<u32>
    decreases changes.len(),
{
    if changes.len() == 0 {
        mask
    } else {
        let before = weighted(mask, changes.drop_last(), forward);
        let change = changes.last();
        let target = if forward {
            change.after
        } else {
            change.before
        };
        if change.vertex < before.len() && !scalar::same(before[change.vertex as int], target) {
            before.update(change.vertex as int, target)
        } else {
            before
        }
    }
}

/// Whether making or taking back changes alters the weight of a vertex.
pub open spec fn gets_altered(
    mask: Seq<u32>,
    changes: Seq<MaskChange>,
    forward: bool,
    vertex: u32,
) -> bool
    decreases changes.len(),
{
    changes.len() > 0 && {
        let before = weighted(mask, changes.drop_last(), forward);
        let change = changes.last();
        let target = if forward {
            change.after
        } else {
            change.before
        };
        ||| gets_altered(mask, changes.drop_last(), forward, vertex)
        ||| change.vertex == vertex && vertex < before.len() && !scalar::same(
            before[vertex as int],
            target,
        )
    }
}

/// Whether a mesh has had an edit made or taken back, and some vertices are those that changed.
pub open spec fn applied<G: Geometry>(
    geometry: &G,
    before: Mesh,
    after: Mesh,
    edit: LocalEdit,
    forward: bool,
    changed: Seq<u32>,
) -> bool {
    &&& after.well_formed()
    &&& after.positions@ == placed(before.positions@, edit.positions@, forward)
    &&& after.mask@ == weighted(before.mask@, edit.masks@, forward)
    &&& after.triangles == before.triangles
    &&& collections::strictly_ascending(changed)
    &&& exists|moved: Seq<u32>, refreshed: Seq<u32>| #[trigger]
        refreshed_by(geometry, before, after, edit, forward, moved, refreshed)
            && forall|v: u32| #[trigger]
            changed.contains(v) <==> refreshed.contains(v) || moved.contains(v) || gets_altered(
                before.mask@,
                edit.masks@,
                forward,
                v,
            )
}

/// Whether `moved` are the vertices that an edit moves, and normals and boxes around them have
/// been brought up to date.
pub open spec fn refreshed_by<G: Geometry>(
    geometry: &G,
    before: Mesh,
    after: Mesh,
    edit: LocalEdit,
    forward: bool,
    moved: Seq<u32>,
    refreshed: Seq<u32>,
) -> bool {
    let between = Mesh {
        positions: after.positions,
        triangles: before.triangles,
        normals: before.normals,
        mask: before.mask,
        topology: before.topology,
    };
    let finished = Mesh {
        positions: after.positions,
        triangles: after.triangles,
        normals: after.normals,
        mask: before.mask,
        topology: after.topology,
    };
    &&& forall|v: u32| #[trigger]
        moved.contains(v) <==> gets_moved(before.positions@, edit.positions@, forward, v)
    &&& deform::updated(geometry, between, finished, moved, refreshed)
}

impl LocalEdit {
    /// An edit of the changes that change something.
    pub fn new(positions: Vec<PositionChange>, masks: Vec<MaskChange>) -> (result: LocalEdit)
        ensures
            moves_in_order(result.positions@),
            result.positions@.to_multiset() == real_moves(positions@).to_multiset(),
            alterations_in_order(result.masks@),
            result.masks@.to_multiset() == real_alterations(masks@).to_multiset(),
    {
        let mut kept_positions = keep_moves(&positions);
        let mut kept_masks = keep_alterations(&masks);
        sort_moves(&mut kept_positions);
        sort_alterations(&mut kept_masks);
        LocalEdit { positions: kept_positions, masks: kept_masks }
    }

    pub open spec fn spec_is_empty(self) -> bool {
        self.positions@.len() == 0 && self.masks@.len() == 0
    }

    pub fn is_empty(&self) -> (result: bool)
        ensures
            result == self.spec_is_empty(),
    {
        self.positions.len() == 0 && self.masks.len() == 0
    }

    pub open spec fn bytes(self) -> nat {
        sum_of(
            bytes_of(self.positions@.len(), POSITION_CHANGE_BYTES as nat),
            bytes_of(self.masks@.len(), MASK_CHANGE_BYTES as nat),
        )
    }

    /// The bytes that the edit takes in a history.
    pub fn byte_len(&self) -> (result: usize)
        ensures
            result == self.bytes(),
    {
        bytes_for(self.positions.len(), POSITION_CHANGE_BYTES).saturating_add(
            bytes_for(self.masks.len(), MASK_CHANGE_BYTES),
        )
    }

    /// Takes the edit back, and returns the vertices that changed.
    pub fn apply_before<G: Geometry>(&self, mesh: &mut Mesh, geometry: &G) -> (result: Vec<u32>)
        requires
            geometry.total(),
            old(mesh).well_formed(),
        ensures
            applied(geometry, *old(mesh), *final(mesh), *self, false, result@),
    {
        self.apply(mesh, false, geometry)
    }

    /// Makes the edit again, and returns the vertices that changed.
    pub fn apply_after<G: Geometry>(&self, mesh: &mut Mesh, geometry: &G) -> (result: Vec<u32>)
        requires
            geometry.total(),
            old(mesh).well_formed(),
        ensures
            applied(geometry, *old(mesh), *final(mesh), *self, true, result@),
    {
        self.apply(mesh, true, geometry)
    }

    /// Puts the vertices of the edit in their places, and returns those that were moved.
    fn place(&self, mesh: &mut Mesh, forward: bool) -> (moved: Vec<u32>)
        ensures
            final(mesh).positions@ == placed(old(mesh).positions@, self.positions@, forward),
            final(mesh).positions@.len() == old(mesh).positions@.len(),
            final(mesh).triangles == old(mesh).triangles,
            final(mesh).normals == old(mesh).normals,
            final(mesh).mask == old(mesh).mask,
            final(mesh).topology == old(mesh).topology,
            forall|v: u32| #[trigger]
                moved@.contains(v) <==> gets_moved(
                    old(mesh).positions@,
                    self.positions@,
                    forward,
                    v,
                ),
    {
        let ghost begun = mesh.positions@;
        let mut moved: Vec<u32> = Vec::new();
        let mut k: usize = 0;
        assert(self.positions@.take(0) =~= Seq::<PositionChange>::empty());
        while k < self.positions.len()
            invariant
                k <= self.positions@.len(),
                begun == old(mesh).positions@,
                mesh.positions@ == placed(begun, self.positions@.take(k as int), forward),
                mesh.positions@.len() == begun.len(),
                mesh.triangles == old(mesh).triangles,
                mesh.normals == old(mesh).normals,
                mesh.mask == old(mesh).mask,
                mesh.topology == old(mesh).topology,
                forall|v: u32| #[trigger]
                    moved@.contains(v) <==> gets_moved(
                        begun,
                        self.positions@.take(k as int),
                        forward,
                        v,
                    ),
            decreases self.positions@.len() - k,
        {
            let change = self.positions[k];
            let ghost before = moved@;
            assert(self.positions@.take(k + 1).drop_last() =~= self.positions@.take(k as int));
            assert(self.positions@.take(k + 1).last() == change);
            let target = if forward {
                change.after
            } else {
                change.before
            };
            let mut moves_vertex = false;
            if (change.vertex as usize) < mesh.positions.len() {
                if !mesh.positions[change.vertex as usize].is_same(&target) {
                    mesh.positions.set(change.vertex as usize, target);
                    moved.push(change.vertex);
                    moves_vertex = true;
                }
            }
            proof {
                assert forall|v: u32| #[trigger] moved@.contains(v) <==> gets_moved(
                    begun,
                    self.positions@.take(k + 1),
                    forward,
                    v,
                ) by {
                    assert(before.contains(v) <==> gets_moved(
                        begun,
                        self.positions@.take(k as int),
                        forward,
                        v,
                    ));
                    if moves_vertex {
                        collections::push_contains(before, change.vertex, v);
                    }
                }
            }
            k += 1;
        }
        assert(self.positions@.take(k as int) =~= self.positions@);
        moved
    }

    /// Gives the vertices of the edit their weights, and adds those whose weight was altered.
    fn weigh(&self, mesh: &mut Mesh, forward: bool, changed: &mut Vec<u32>)
        ensures
            final(mesh).mask@ == weighted(old(mesh).mask@, self.masks@, forward),
            final(mesh).mask@.len() == old(mesh).mask@.len(),
            final(mesh).positions == old(mesh).positions,
            final(mesh).triangles == old(mesh).triangles,
            final(mesh).normals == old(mesh).normals,
            final(mesh).topology == old(mesh).topology,
            forall|v: u32| #[trigger]
                final(changed)@.contains(v) <==> old(changed)@.contains(v) || gets_altered(
                    old(mesh).mask@,
                    self.masks@,
                    forward,
                    v,
                ),
    {
        let ghost begun = mesh.mask@;
        let mut k: usize = 0;
        assert(self.masks@.take(0) =~= Seq::<MaskChange>::empty());
        while k < self.masks.len()
            invariant
                k <= self.masks@.len(),
                begun == old(mesh).mask@,
                mesh.mask@ == weighted(begun, self.masks@.take(k as int), forward),
                mesh.mask@.len() == begun.len(),
                mesh.positions == old(mesh).positions,
                mesh.triangles == old(mesh).triangles,
                mesh.normals == old(mesh).normals,
                mesh.topology == old(mesh).topology,
                forall|v: u32| #[trigger]
                    changed@.contains(v) <==> old(changed)@.contains(v) || gets_altered(
                        begun,
                        self.masks@.take(k as int),
                        forward,
                        v,
                    ),
            decreases self.masks@.len() - k,
        {
            let change = self.masks[k];
            let ghost before = changed@;
            assert(self.masks@.take(k + 1).drop_last() =~= self.masks@.take(k as int));
            assert(self.masks@.take(k + 1).last() == change);
            let target = if forward {
                change.after
            } else {
                change.before
            };
            let mut alters_vertex = false;
            if (change.vertex as usize) < mesh.mask.len() {
                if !scalar::is_same(mesh.mask[change.vertex as usize], target) {
                    mesh.mask.set(change.vertex as usize, target);
                    changed.push(change.vertex);
                    alters_vertex = true;
                }
            }
            proof {
                assert forall|v: u32| #[trigger] changed@.contains(v) <==> old(changed)@.contains(v)
                    || gets_altered(begun, self.masks@.take(k + 1), forward, v) by {
                    assert(before.contains(v) <==> old(changed)@.contains(v) || gets_altered(
                        begun,
                        self.masks@.take(k as int),
                        forward,
                        v,
                    ));
                    if alters_vertex {
                        collections::push_contains(before, change.vertex, v);
                    }
                }
            }
            k += 1;
        }
        assert(self.masks@.take(k as int) =~= self.masks@);
    }

    fn apply<G: Geometry>(&self, mesh: &mut Mesh, forward: bool, geometry: &G) -> (result: Vec<u32>)
        requires
            geometry.total(),
            old(mesh).well_formed(),
        ensures
            applied(geometry, *old(mesh), *final(mesh), *self, forward, result@),
    {
        let ghost begun = *mesh;
        let mut moved = self.place(mesh, forward);
        let ghost between = *mesh;
        let mut changed = mesh.update_deformed_vertices(&moved, geometry);
        let ghost refreshed = changed@;
        let ghost finished = *mesh;
        let ghost moves = moved@;
        changed.append(&mut moved);
        proof {
            assert forall|v: u32| #[trigger] changed@.contains(v) <==> refreshed.contains(v)
                || moves.contains(v) by {
                collections::concat_contains(refreshed, moves, v);
            }
        }
        self.weigh(mesh, forward, &mut changed);
        let ghost gathered = changed@;
        collections::sort_and_dedup(&mut changed);
        proof {
            assert(refreshed_by(geometry, begun, *mesh, *self, forward, moves, refreshed));
            assert forall|v: u32| #[trigger] changed@.contains(v) <==> refreshed.contains(v)
                || moves.contains(v) || gets_altered(
                begun.mask@,
                self.masks@,
                forward,
                v,
            ) by {
                assert(changed@.contains(v) <==> gathered.contains(v));
            }
        }
        changed
    }
}

/// Whether no vertex is changed twice, and each change is of a vertex and changes something.
pub open spec fn each_once(changes: Seq<PositionChange>, vertex_count: nat) -> bool {
    &&& forall|i: int, j: int|
        0 <= i < j < changes.len() ==> changes[i].vertex != changes[j].vertex
    &&& forall|i: int|
        0 <= i < changes.len() ==> (#[trigger] changes[i]).vertex < vertex_count && moves(
            changes[i],
        )
}

/// Whether the vertices of some changes are where the changes put them, bit by bit.
pub open spec fn stands_after(positions: Seq<Point>, changes: Seq<PositionChange>) -> bool {
    forall|i: int|
        0 <= i < changes.len() ==> positions[(#[trigger] changes[i]).vertex as int]
            == changes[i].after
}

/// Whether the vertices of some changes are where they were before, bit by bit.
pub open spec fn stands_before(positions: Seq<Point>, changes: Seq<PositionChange>) -> bool {
    forall|i: int|
        0 <= i < changes.len() ==> positions[(#[trigger] changes[i]).vertex as int]
            == changes[i].before
}

/// Whether some changes are of a vertex.
pub open spec fn concerns(changes: Seq<PositionChange>, vertex: int) -> bool {
    exists|i: int| 0 <= i < changes.len() && (#[trigger] changes[i]).vertex == vertex
}

proof fn lemma_placed(
    positions: Seq<Point>,
    changes: Seq<PositionChange>,
    forward: bool,
)
    requires
        each_once(changes, positions.len()),
    ensures
        placed(positions, changes, forward).len() == positions.len(),
        forall|v: int|
            0 <= v < positions.len() && !concerns(changes, v) ==> #[trigger] placed(
                positions,
                changes,
                forward,
            )[v] == positions[v],
        forall|i: int|
            0 <= i < changes.len() ==> {
                let change = #[trigger] changes[i];
                let target = if forward {
                    change.after
                } else {
                    change.before
                };
                placed(positions, changes, forward)[change.vertex as int]
                    == if positions[change.vertex as int].same(target) {
                    positions[change.vertex as int]
                } else {
                    target
                }
            },
    decreases changes.len(),
{
    if changes.len() > 0 {
        let front = changes.drop_last();
        assert forall|i: int| 0 <= i < front.len() implies (#[trigger] front[i]).vertex
            < positions.len() && moves(front[i]) by {
            assert(front[i] == changes[i]);
        }
        lemma_placed(positions, front, forward);
        let last = changes[changes.len() - 1];
        assert(!concerns(front, last.vertex as int)) by {
            if concerns(front, last.vertex as int) {
                let i = choose|i: int|
                    0 <= i < front.len() && (#[trigger] front[i]).vertex == last.vertex;
                assert(changes[i].vertex == changes[changes.len() - 1].vertex);
            }
        }
        let before = placed(positions, front, forward);
        let after = placed(positions, changes, forward);
        assert(before[last.vertex as int] == positions[last.vertex as int]);
        assert forall|v: int| 0 <= v < positions.len() && !concerns(
            changes,
            v,
        ) implies #[trigger] after[v] == positions[v] by {
            assert(!concerns(front, v)) by {
                if concerns(front, v) {
                    let i = choose|i: int| 0 <= i < front.len() && (#[trigger] front[i]).vertex == v;
                    assert(changes[i].vertex == v);
                }
            }
            assert(last.vertex != v) by {
                assert(changes[changes.len() - 1] == last);
            }
            assert(before[v] == positions[v]);
        }
        assert forall|i: int| 0 <= i < changes.len() implies {
            let change = #[trigger] changes[i];
            let target = if forward {
                change.after
            } else {
                change.before
            };
            after[change.vertex as int] == if positions[change.vertex as int].same(target) {
                positions[change.vertex as int]
            } else {
                target
            }
        } by {
            if i < front.len() {
                assert(front[i] == changes[i]);
                assert(changes[i].vertex != last.vertex);
            }
        }
    }
}

/// Taking back an edit whose vertices stand where it put them puts them exactly where they were,
/// and moves no other vertex.
pub proof fn taking_back_restores(positions: Seq<Point>, changes: Seq<PositionChange>)
    requires
        each_once(changes, positions.len()),
        stands_after(positions, changes),
    ensures
        stands_before(placed(positions, changes, false), changes),
        placed(positions, changes, false).len() == positions.len(),
        forall|v: int|
            0 <= v < positions.len() && !concerns(changes, v) ==> #[trigger] placed(
                positions,
                changes,
                false,
            )[v] == positions[v],
{
    lemma_placed(positions, changes, false);
    let after = placed(positions, changes, false);
    assert forall|i: int| 0 <= i < changes.len() implies after[(
    #[trigger] changes[i]).vertex as int] == changes[i].before by {
        assert(moves(changes[i]));
        assert(positions[changes[i].vertex as int] == changes[i].after);
    }
}

/// Making an edit again after taking it back gives every position its exact value again.
pub proof fn making_again_after_taking_back_restores(
    positions: Seq<Point>,
    changes: Seq<PositionChange>,
)
    requires
        each_once(changes, positions.len()),
        stands_after(positions, changes),
    ensures
        placed(placed(positions, changes, false), changes, true) == positions,
{
    taking_back_restores(positions, changes);
    let back = placed(positions, changes, false);
    lemma_placed(back, changes, true);
    let again = placed(back, changes, true);
    assert forall|v: int| 0 <= v < positions.len() implies again[v] == positions[v] by {
        if concerns(changes, v) {
            let i = choose|i: int| 0 <= i < changes.len() && (#[trigger] changes[i]).vertex == v;
            assert(moves(changes[i]));
            assert(back[changes[i].vertex as int] == changes[i].before);
        } else {
            assert(back[v] == positions[v]);
        }
    }
    assert(again =~= positions);
}

/// Whether no weight is changed twice, and each change is of a vertex and changes something.
pub open spec fn each_mask_once(changes: Seq<MaskChange>, vertex_count: nat) -> bool {
    &&& forall|i: int, j: int|
        0 <= i < j < changes.len() ==> changes[i].vertex != changes[j].vertex
    &&& forall|i: int|
        0 <= i < changes.len() ==> (#[trigger] changes[i]).vertex < vertex_count && alters(
            changes[i],
        )
}

/// Whether the vertices of some changes weigh what the changes made them weigh, bit by bit.
pub open spec fn weighs_after(mask: Seq<u32>, changes: Seq<MaskChange>) -> bool {
    forall|i: int|
        0 <= i < changes.len() ==> mask[(#[trigger] changes[i]).vertex as int]
            == changes[i].after
}

/// Whether the vertices of some changes weigh what they did before, bit by bit.
pub open spec fn weighs_before(mask: Seq<u32>, changes: Seq<MaskChange>) -> bool {
    forall|i: int|
        0 <= i < changes.len() ==> mask[(#[trigger] changes[i]).vertex as int]
            == changes[i].before
}

/// Whether some changes are of the weight of a vertex.
pub open spec fn concerns_mask(changes: Seq<MaskChange>, vertex: int) -> bool {
    exists|i: int| 0 <= i < changes.len() && (#[trigger] changes[i]).vertex == vertex
}

proof fn lemma_weighted(
    mask: Seq<u32>,
    changes: Seq<MaskChange>,
    forward: bool,
)
    requires
        each_mask_once(changes, mask.len()),
    ensures
        weighted(mask, changes, forward).len() == mask.len(),
        forall|v: int|
            0 <= v < mask.len() && !concerns_mask(changes, v) ==> #[trigger] weighted(
                mask,
                changes,
                forward,
            )[v] == mask[v],
        forall|i: int|
            0 <= i < changes.len() ==> {
                let change = #[trigger] changes[i];
                let target = if forward {
                    change.after
                } else {
                    change.before
                };
                weighted(mask, changes, forward)[change.vertex as int]
                    == if scalar::same(mask[change.vertex as int], target) {
                    mask[change.vertex as int]
                } else {
                    target
                }
            },
    decreases changes.len(),
{
    if changes.len() > 0 {
        let front = changes.drop_last();
        assert forall|i: int| 0 <= i < front.len() implies (#[trigger] front[i]).vertex
            < mask.len() && alters(front[i]) by {
            assert(front[i] == changes[i]);
        }
        lemma_weighted(mask, front, forward);
        let last = changes[changes.len() - 1];
        assert(!concerns_mask(front, last.vertex as int)) by {
            if concerns_mask(front, last.vertex as int) {
                let i = choose|i: int|
                    0 <= i < front.len() && (#[trigger] front[i]).vertex == last.vertex;
                assert(changes[i].vertex == changes[changes.len() - 1].vertex);
            }
        }
        let before = weighted(mask, front, forward);
        let after = weighted(mask, changes, forward);
        assert(before[last.vertex as int] == mask[last.vertex as int]);
        assert forall|v: int| 0 <= v < mask.len() && !concerns_mask(
            changes,
            v,
        ) implies #[trigger] after[v] == mask[v] by {
            assert(!concerns_mask(front, v)) by {
                if concerns_mask(front, v) {
                    let i = choose|i: int| 0 <= i < front.len() && (#[trigger] front[i]).vertex == v;
                    assert(changes[i].vertex == v);
                }
            }
            assert(last.vertex != v) by {
                assert(changes[changes.len() - 1] == last);
            }
            assert(before[v] == mask[v]);
        }
        assert forall|i: int| 0 <= i < changes.len() implies {
            let change = #[trigger] changes[i];
            let target = if forward {
                change.after
            } else {
                change.before
            };
            after[change.vertex as int] == if scalar::same(mask[change.vertex as int], target) {
                mask[change.vertex as int]
            } else {
                target
            }
        } by {
            if i < front.len() {
                assert(front[i] == changes[i]);
                assert(changes[i].vertex != last.vertex);
            }
        }
    }
}

/// Taking back an edit whose vertices weigh what it made them weigh gives them exactly the weights
/// that they had, and changes no other weight.
pub proof fn taking_back_restores_the_mask(mask: Seq<u32>, changes: Seq<MaskChange>)
    requires
        each_mask_once(changes, mask.len()),
        weighs_after(mask, changes),
    ensures
        weighs_before(weighted(mask, changes, false), changes),
        weighted(mask, changes, false).len() == mask.len(),
        forall|v: int|
            0 <= v < mask.len() && !concerns_mask(changes, v) ==> #[trigger] weighted(
                mask,
                changes,
                false,
            )[v] == mask[v],
{
    lemma_weighted(mask, changes, false);
    let after = weighted(mask, changes, false);
    assert forall|i: int| 0 <= i < changes.len() implies after[(
    #[trigger] changes[i]).vertex as int] == changes[i].before by {
        assert(alters(changes[i]));
        assert(mask[changes[i].vertex as int] == changes[i].after);
    }
}

/// Making an edit again after taking it back gives every weight its exact value again.
pub proof fn making_again_after_taking_back_restores_the_mask(
    mask: Seq<u32>,
    changes: Seq<MaskChange>,
)
    requires
        each_mask_once(changes, mask.len()),
        weighs_after(mask, changes),
    ensures
        weighted(weighted(mask, changes, false), changes, true) == mask,
{
    taking_back_restores_the_mask(mask, changes);
    let back = weighted(mask, changes, false);
    lemma_weighted(back, changes, true);
    let again = weighted(back, changes, true);
    assert forall|v: int| 0 <= v < mask.len() implies again[v] == mask[v] by {
        if concerns_mask(changes, v) {
            let i = choose|i: int| 0 <= i < changes.len() && (#[trigger] changes[i]).vertex == v;
            assert(alters(changes[i]));
            assert(back[changes[i].vertex as int] == changes[i].before);
        } else {
            assert(back[v] == mask[v]);
        }
    }
    assert(again =~= mask);
}

/// Making or taking back an edit never changes the number of vertices.
pub proof fn placing_keeps_the_vertices(
    positions: Seq<Point>,
    changes: Seq<PositionChange>,
    forward: bool,
)
    ensures
        placed(positions, changes, forward).len() == positions.len(),
    decreases changes.len(),
{
    if changes.len() > 0 {
        placing_keeps_the_vertices(positions, changes.drop_last(), forward);
    }
}

} // verus!
