//! Masks of a whole mesh.
use crate::arithmetic::Arithmetic;
use crate::edit;
use crate::edit::{LocalEdit, MaskChange};
use crate::mesh::Mesh;
use crate::scalar;
use vstd::prelude::*;

verus! {

/// What a weight becomes when a mask is inverted or cleared.
pub open spec fn weight_after<O: Arithmetic>(ops: &O, before: u32, invert: bool) -> u32 {
    if invert {
        ops.spec_difference(scalar::ONE, scalar::clamped(before, scalar::ZERO, scalar::ONE))
    } else {
        scalar::ZERO
    }
}

/// What is then written, which is nothing where the weight stays the same number.
pub open spec fn weight_written<O: Arithmetic>(ops: &O, before: u32, invert: bool) -> u32 {
    let after = weight_after(ops, before, invert);
    if scalar::same(before, after) {
        before
    } else {
        after
    }
}

/// The weights that change, vertex by vertex.
pub open spec fn altered<O: Arithmetic>(ops: &O, mask: Seq<u32>, invert: bool) -> Seq<MaskChange>
    decreases mask.len(),
{
    if mask.len() == 0 {
        Seq::empty()
    } else {
        let front = altered(ops, mask.drop_last(), invert);
        let before = mask.last();
        let after = weight_after(ops, before, invert);
        if scalar::same(before, after) {
            front
        } else {
            front.push(MaskChange { vertex: (mask.len() - 1) as u32, before, after })
        }
    }
}

/// Whether changes are in order, and each is of a weight that becomes another.
spec fn tells_weights<O: Arithmetic>(
    ops: &O,
    mask: Seq<u32>,
    invert: bool,
    changes: Seq<MaskChange>,
) -> bool {
    &&& forall|i: int|
        0 <= i < changes.len() ==> {
            let change = #[trigger] changes[i];
            &&& change.vertex < mask.len()
            &&& change.before == mask[change.vertex as int]
            &&& change.after == weight_after(ops, change.before, invert)
            &&& !scalar::same(change.before, change.after)
        }
    &&& forall|i: int, j: int|
        0 <= i < j < changes.len() ==> (#[trigger] changes[i]).vertex < (
        #[trigger] changes[j]).vertex
}

proof fn lemma_altered<O: Arithmetic>(ops: &O, mask: Seq<u32>, invert: bool)
    requires
        mask.len() <= u32::MAX,
    ensures
        tells_weights(ops, mask, invert, altered(ops, mask, invert)),
    decreases mask.len(),
{
    if mask.len() > 0 {
        let shorter = mask.drop_last();
        let front = altered(ops, shorter, invert);
        let changes = altered(ops, mask, invert);
        lemma_altered(ops, shorter, invert);
        assert forall|i: int| 0 <= i < changes.len() implies {
            let change = #[trigger] changes[i];
            &&& change.vertex < mask.len()
            &&& change.before == mask[change.vertex as int]
            &&& change.after == weight_after(ops, change.before, invert)
            &&& !scalar::same(change.before, change.after)
        } by {
            if i < front.len() {
                assert(front[i] == changes[i]);
            }
        }
        assert forall|i: int, j: int| 0 <= i < j < changes.len() implies (
        #[trigger] changes[i]).vertex < (#[trigger] changes[j]).vertex by {
            assert(front[i] == changes[i]);
            if j < front.len() {
                assert(front[j] == changes[j]);
            }
        }
    }
}

/// Inverts or clears the mask of a mesh, and gives what changed.
pub fn edit_mask<O: Arithmetic>(mesh: &mut Mesh, invert: bool, ops: &O) -> (result: LocalEdit)
    requires
        ops.total(),
        old(mesh).well_formed(),
    ensures
        final(mesh).well_formed(),
        *final(mesh) == (Mesh { mask: final(mesh).mask, ..*old(mesh) }),
        final(mesh).mask@ == old(mesh).mask@.map_values(
            |before: u32| weight_written(ops, before, invert),
        ),
        result.positions@.len() == 0,
        result.masks@ == altered(ops, old(mesh).mask@, invert),
        edit::alterations_in_order(result.masks@),
        edit::each_mask_once(result.masks@, final(mesh).mask@.len()),
        edit::weighs_after(final(mesh).mask@, result.masks@),
{
    let ghost start = mesh.mask@;
    let mut changes: Vec<MaskChange> = Vec::new();
    let mut v: usize = 0;
    while v < mesh.mask.len()
        invariant
            v <= mesh.mask@.len() == start.len() <= u32::MAX,
            ops.total(),
            *mesh == (Mesh { mask: mesh.mask, ..*old(mesh) }),
            start == old(mesh).mask@,
            changes@ == altered(ops, start.take(v as int), invert),
            forall|i: int|
                0 <= i < v ==> #[trigger] mesh.mask@[i] == weight_written(ops, start[i], invert),
            forall|i: int| v <= i < start.len() ==> #[trigger] mesh.mask@[i] == start[i],
        decreases mesh.mask@.len() - v,
    {
        let before = mesh.mask[v];
        let after = if invert {
            ops.difference(scalar::ONE, scalar::clamp(before, scalar::ZERO, scalar::ONE))
        } else {
            scalar::ZERO
        };
        assert(start.take(v + 1).drop_last() =~= start.take(v as int));
        if !scalar::is_same(before, after) {
            mesh.mask.set(v, after);
            changes.push(MaskChange { vertex: v as u32, before, after });
        }
        v += 1;
    }
    assert(start.take(v as int) =~= start);
    assert(mesh.mask@ =~= start.map_values(|before: u32| weight_written(ops, before, invert)));
    proof {
        lemma_altered(ops, start, invert);
    }
    LocalEdit { positions: Vec::new(), masks: changes }
}

} // verus!
