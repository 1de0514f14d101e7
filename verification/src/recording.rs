//! What a stroke leaves for the history.
use crate::edit;
use crate::edit::LocalEdit;
use crate::edit::MaskChange;
use crate::edit::PositionChange;
use crate::mesh::Mesh;
use crate::proposal;
use crate::scalar;
use crate::scalar::Point;
use crate::sculpt;
use crate::sculpt::SculptEngine;
use crate::sculpt::StrokeOutcome;
use crate::sculpt::StrokeState;
use crate::table::Table;
use vstd::prelude::*;

verus! {

/// Whether a change is that of a vertex since its position was remembered.
pub open spec fn is_move(kept: Map<u32, Point>, positions: Seq<Point>, change: PositionChange) -> bool {
    &&& kept.contains_key(change.vertex)
    &&& change.vertex < positions.len()
    &&& change.before == kept[change.vertex]
    &&& change.after == positions[change.vertex as int]
}

/// Whether a change is that of a vertex since its weight was remembered.
pub open spec fn is_alteration(kept: Map<u32, u32>, mask: Seq<u32>, change: MaskChange) -> bool {
    &&& kept.contains_key(change.vertex)
    &&& change.vertex < mask.len()
    &&& change.before == kept[change.vertex]
    &&& change.after == mask[change.vertex as int]
}

/// Whether an edit has the changes since values were remembered that change something, each once
/// and in the order of the vertices.
pub open spec fn records(stroke: StrokeState, mesh: Mesh, edit: LocalEdit) -> bool {
    &&& edit::moves_in_order(edit.positions@)
    &&& edit::each_once(edit.positions@, mesh.positions@.len())
    &&& forall|change: PositionChange| #[trigger]
        edit.positions@.contains(change) <==> is_move(
            stroke.positions@,
            mesh.positions@,
            change,
        ) && edit::moves(change)
    &&& edit::alterations_in_order(edit.masks@)
    &&& edit::each_mask_once(edit.masks@, mesh.mask@.len())
    &&& forall|change: MaskChange| #[trigger]
        edit.masks@.contains(change) <==> is_alteration(stroke.masks@, mesh.mask@, change)
            && edit::alters(change)
}

fn collect_moves(kept: &Table<Point>, positions: &Vec<Point>) -> (result: Vec<PositionChange>)
    requires
        kept.well_formed(),
    ensures
        result@.no_duplicates(),
        forall|change: PositionChange| #[trigger]
            result@.contains(change) <==> is_move(kept@, positions@, change),
{
    let mut result: Vec<PositionChange> = Vec::new();
    proof {
        kept.order_names_the_indices();
    }
    let mut k: usize = 0;
    while k < kept.len()
        invariant
            k <= kept.order().len(),
            kept.well_formed(),
            kept.order().no_duplicates(),
            result@.no_duplicates(),
            forall|change: PositionChange| #[trigger]
                result@.contains(change) <==> is_move(kept@, positions@, change)
                    && kept.order().take(k as int).contains(change.vertex),
        decreases kept.order().len() - k,
    {
        let vertex = kept.key(k);
        let before = kept.value(k);
        let ghost listed = result@;
        proof {
            crate::pass::lemma_take_contains(kept.order(), k as int);
        }
        if (vertex as usize) < positions.len() {
            let change = PositionChange { vertex, before, after: positions[vertex as usize] };
            assert(!listed.contains(change));
            result.push(change);
            proof {
                assert forall|other: PositionChange| #[trigger] result@.contains(other) <==> (
                listed.contains(other) || other == change) by {
                    if listed.contains(other) {
                        let i = choose|i: int| 0 <= i < listed.len() && listed[i] == other;
                        assert(result@[i] == other);
                    }
                    assert(result@[result@.len() - 1] == change);
                }
            }
        }
        k += 1;
    }
    proof {
        kept.order_names_the_indices();
        assert(kept.order().take(k as int) =~= kept.order());
        assert forall|change: PositionChange| #[trigger] result@.contains(change) <==> is_move(
            kept@,
            positions@,
            change,
        ) by {
            assert(kept.order().contains(change.vertex) <==> kept@.contains_key(change.vertex));
        }
    }
    result
}

fn collect_alterations(kept: &Table<u32>, mask: &Vec<u32>) -> (result: Vec<MaskChange>)
    requires
        kept.well_formed(),
    ensures
        result@.no_duplicates(),
        forall|change: MaskChange| #[trigger]
            result@.contains(change) <==> is_alteration(kept@, mask@, change),
{
    let mut result: Vec<MaskChange> = Vec::new();
    proof {
        kept.order_names_the_indices();
    }
    let mut k: usize = 0;
    while k < kept.len()
        invariant
            k <= kept.order().len(),
            kept.well_formed(),
            kept.order().no_duplicates(),
            result@.no_duplicates(),
            forall|change: MaskChange| #[trigger]
                result@.contains(change) <==> is_alteration(kept@, mask@, change)
                    && kept.order().take(k as int).contains(change.vertex),
        decreases kept.order().len() - k,
    {
        let vertex = kept.key(k);
        let before = kept.value(k);
        let ghost listed = result@;
        proof {
            crate::pass::lemma_take_contains(kept.order(), k as int);
        }
        if (vertex as usize) < mask.len() {
            let change = MaskChange { vertex, before, after: mask[vertex as usize] };
            assert(!listed.contains(change));
            result.push(change);
            proof {
                assert forall|other: MaskChange| #[trigger] result@.contains(other) <==> (
                listed.contains(other) || other == change) by {
                    if listed.contains(other) {
                        let i = choose|i: int| 0 <= i < listed.len() && listed[i] == other;
                        assert(result@[i] == other);
                    }
                    assert(result@[result@.len() - 1] == change);
                }
            }
        }
        k += 1;
    }
    proof {
        kept.order_names_the_indices();
        assert(kept.order().take(k as int) =~= kept.order());
        assert forall|change: MaskChange| #[trigger] result@.contains(change) <==> is_alteration(
            kept@,
            mask@,
            change,
        ) by {
            assert(kept.order().contains(change.vertex) <==> kept@.contains_key(change.vertex));
        }
    }
    result
}

proof fn lemma_filter_unique<T>(items: Seq<T>, keep: spec_fn(T) -> bool)
    requires
        items.no_duplicates(),
    ensures
        items.filter(keep).no_duplicates(),
        forall|item: T| #[trigger]
            items.filter(keep).contains(item) <==> items.contains(item) && keep(item),
    decreases items.len(),
{
    reveal(Seq::filter);
    if items.len() > 0 {
        let front = items.drop_last();
        let last = items.last();
        assert forall|i: int, j: int|
            0 <= i < front.len() && 0 <= j < front.len() && i != j implies front[i] != front[j] by {
            assert(items[i] == front[i] && items[j] == front[j]);
        }
        lemma_filter_unique(front, keep);
        assert(!front.contains(last)) by {
            if front.contains(last) {
                let i = choose|i: int| 0 <= i < front.len() && front[i] == last;
                assert(items[i] == items[items.len() - 1]);
            }
        }
        let kept = items.filter(keep);
        assert forall|item: T| #[trigger] kept.contains(item) <==> items.contains(item) && keep(
            item,
        ) by {
            assert(items.contains(item) <==> front.contains(item) || item == last) by {
                if front.contains(item) {
                    let i = choose|i: int| 0 <= i < front.len() && front[i] == item;
                    assert(items[i] == item);
                }
                assert(items[items.len() - 1] == last);
                if items.contains(item) && item != last {
                    let i = choose|i: int| 0 <= i < items.len() && items[i] == item;
                    assert(front[i] == item);
                }
            }
            if keep(last) {
                assert(kept =~= front.filter(keep).push(last));
                if front.filter(keep).contains(item) {
                    let i = choose|i: int|
                        0 <= i < front.filter(keep).len() && front.filter(keep)[i] == item;
                    assert(kept[i] == item);
                }
                assert(kept[kept.len() - 1] == last);
            }
        }
        if keep(last) {
            assert(kept =~= front.filter(keep).push(last));
            assert(!front.filter(keep).contains(last));
        }
    }
}

proof fn lemma_same_items<T>(a: Seq<T>, b: Seq<T>)
    requires
        a.to_multiset() == b.to_multiset(),
        b.no_duplicates(),
    ensures
        a.no_duplicates(),
        forall|item: T| #[trigger] a.contains(item) <==> b.contains(item),
{
    a.to_multiset_ensures();
    b.to_multiset_ensures();
    b.lemma_multiset_has_no_duplicates();
    a.lemma_multiset_has_no_duplicates_conv();
    assert forall|item: T| #[trigger] a.contains(item) <==> b.contains(item) by {
        assert(a.contains(item) <==> a.to_multiset().count(item) > 0);
        assert(b.contains(item) <==> b.to_multiset().count(item) > 0);
    }
}

impl SculptEngine {
    /// Ends the stroke, and gives what it changed as one edit.
    #[must_use]
    pub fn end_stroke(&mut self, mesh: &Mesh) -> (result: StrokeOutcome)
        requires
            old(self).well_formed(),
        ensures
            final(self).well_formed(),
            final(self).active is None,
            final(self).symmetry_center == old(self).symmetry_center,
            final(self).updated_vertices == old(self).updated_vertices,
            final(self).error == old(self).error,
            final(self).sample_committed == old(self).sample_committed,
            match old(self).active {
                None => result.edit.spec_is_empty() && result.warning is None,
                Some(stroke) => records(stroke, *mesh, result.edit) && result.warning
                    == stroke.warning,
            },
    {
        let stroke = match self.active.take() {
            Some(stroke) => stroke,
            None => {
                return StrokeOutcome {
                    edit: LocalEdit { positions: Vec::new(), masks: Vec::new() },
                    warning: None,
                };
            },
        };
        let moves = collect_moves(&stroke.positions, &mesh.positions);
        let alterations = collect_alterations(&stroke.masks, &mesh.mask);
        let ghost all_moves = moves@;
        let ghost all_alterations = alterations@;
        let edit = LocalEdit::new(moves, alterations);
        proof {
            lemma_filter_unique(all_moves, |change: PositionChange| edit::moves(change));
            lemma_same_items(edit.positions@, edit::real_moves(all_moves));
            lemma_filter_unique(all_alterations, |change: MaskChange| edit::alters(change));
            lemma_same_items(edit.masks@, edit::real_alterations(all_alterations));
            assert forall|change: PositionChange| #[trigger]
                edit.positions@.contains(change) <==> is_move(
                stroke.positions@,
                mesh.positions@,
                change,
            ) && edit::moves(change) by {
                assert(edit::real_moves(all_moves).contains(change) <==> all_moves.contains(change)
                    && edit::moves(change));
            }
            assert forall|change: MaskChange| #[trigger]
                edit.masks@.contains(change) <==> is_alteration(
                stroke.masks@,
                mesh.mask@,
                change,
            ) && edit::alters(change) by {
                assert(edit::real_alterations(all_alterations).contains(change)
                    <==> all_alterations.contains(change) && edit::alters(change));
            }
            assert(edit::each_once(edit.positions@, mesh.positions@.len())) by {
                let changes = edit.positions@;
                assert forall|i: int, j: int| 0 <= i < j < changes.len() implies changes[i].vertex
                    != changes[j].vertex by {
                    assert(changes.contains(changes[i]) && changes.contains(changes[j]));
                    assert(changes[i] != changes[j]);
                }
                assert forall|i: int| 0 <= i < changes.len() implies (#[trigger] changes[i]).vertex
                    < mesh.positions@.len() && edit::moves(changes[i]) by {
                    assert(changes.contains(changes[i]));
                }
            }
            assert(edit::each_mask_once(edit.masks@, mesh.mask@.len())) by {
                let changes = edit.masks@;
                assert forall|i: int, j: int| 0 <= i < j < changes.len() implies changes[i].vertex
                    != changes[j].vertex by {
                    assert(changes.contains(changes[i]) && changes.contains(changes[j]));
                    assert(changes[i] != changes[j]);
                }
                assert forall|i: int| 0 <= i < changes.len() implies (#[trigger] changes[i]).vertex
                    < mesh.mask@.len() && edit::alters(changes[i]) by {
                    assert(changes.contains(changes[i]));
                }
            }
        }
        StrokeOutcome { edit, warning: stroke.warning }
    }
}

/// Taking back the edit of a stroke puts every vertex where it was before the stroke and gives it
/// the weight that it had, but that a zero may have the other sign. Making the edit again then
/// gives back what the stroke made.
pub proof fn a_stroke_is_taken_back_as_one(
    stroke: StrokeState,
    mesh: Mesh,
    edit: LocalEdit,
    positions: Seq<Point>,
    mask: Seq<u32>,
)
    requires
        mesh.positions@.len() <= u32::MAX,
        mesh.mask@.len() <= u32::MAX,
        sculpt::tracks(stroke, positions, mask, mesh),
        records(stroke, mesh, edit),
    ensures
        ({
            let back = edit::placed(mesh.positions@, edit.positions@, false);
            &&& back.len() == positions.len()
            &&& forall|v: int|
                0 <= v < positions.len() ==> #[trigger] back[v] == positions[v] || back[v].same(
                    positions[v],
                )
            &&& edit::placed(back, edit.positions@, true) == mesh.positions@
        }),
        ({
            let back = edit::weighted(mesh.mask@, edit.masks@, false);
            &&& back.len() == mask.len()
            &&& forall|v: int|
                0 <= v < mask.len() ==> #[trigger] back[v] == mask[v] || scalar::same(
                    back[v],
                    mask[v],
                )
            &&& edit::weighted(back, edit.masks@, true) == mesh.mask@
        }),
{
    let moves = edit.positions@;
    assert forall|i: int| 0 <= i < moves.len() implies mesh.positions@[(
    #[trigger] moves[i]).vertex as int] == moves[i].after by {
        assert(moves.contains(moves[i]));
    }
    edit::taking_back_restores(mesh.positions@, moves);
    edit::making_again_after_taking_back_restores(mesh.positions@, moves);
    let back = edit::placed(mesh.positions@, moves, false);
    assert forall|v: int| 0 <= v < positions.len() implies #[trigger] back[v] == positions[v]
        || back[v].same(positions[v]) by {
        assert(positions[v] == proposal::value_or(
            stroke.positions@,
            v as u32,
            mesh.positions@[v],
        ));
        if edit::concerns(moves, v) {
            let i = choose|i: int| 0 <= i < moves.len() && (#[trigger] moves[i]).vertex == v;
            assert(moves.contains(moves[i]));
            assert(back[moves[i].vertex as int] == moves[i].before);
        } else {
            assert(back[v] == mesh.positions@[v]);
            if stroke.positions@.contains_key(v as u32) {
                let change = PositionChange {
                    vertex: v as u32,
                    before: stroke.positions@[v as u32],
                    after: mesh.positions@[v],
                };
                assert(is_move(stroke.positions@, mesh.positions@, change));
                if edit::moves(change) {
                    assert(moves.contains(change));
                    let i = choose|i: int| 0 <= i < moves.len() && moves[i] == change;
                    assert(moves[i].vertex == v);
                }
            }
        }
    }
    let alterations = edit.masks@;
    assert forall|i: int| 0 <= i < alterations.len() implies mesh.mask@[(
    #[trigger] alterations[i]).vertex as int] == alterations[i].after by {
        assert(alterations.contains(alterations[i]));
    }
    edit::taking_back_restores_the_mask(mesh.mask@, alterations);
    edit::making_again_after_taking_back_restores_the_mask(mesh.mask@, alterations);
    let weights = edit::weighted(mesh.mask@, alterations, false);
    assert forall|v: int| 0 <= v < mask.len() implies #[trigger] weights[v] == mask[v]
        || scalar::same(weights[v], mask[v]) by {
        assert(mask[v] == proposal::value_or(stroke.masks@, v as u32, mesh.mask@[v]));
        if edit::concerns_mask(alterations, v) {
            let i = choose|i: int|
                0 <= i < alterations.len() && (#[trigger] alterations[i]).vertex == v;
            assert(alterations.contains(alterations[i]));
            assert(weights[alterations[i].vertex as int] == alterations[i].before);
        } else {
            assert(weights[v] == mesh.mask@[v]);
            if stroke.masks@.contains_key(v as u32) {
                let change = MaskChange {
                    vertex: v as u32,
                    before: stroke.masks@[v as u32],
                    after: mesh.mask@[v],
                };
                assert(is_alteration(stroke.masks@, mesh.mask@, change));
                if edit::alters(change) {
                    assert(alterations.contains(change));
                    let i = choose|i: int| 0 <= i < alterations.len() && alterations[i] == change;
                    assert(alterations[i].vertex == v);
                }
            }
        }
    }
}

} // verus!
