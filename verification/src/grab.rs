//! Taking hold of a region and moving it.
use crate::arithmetic;
use crate::arithmetic::Arithmetic;
use crate::brush;
use crate::brush::BrushSample;
use crate::brush::BrushSettings;
use crate::brush::SymmetryAxis;
use crate::candidate;
use crate::geometry::Geometry;
use crate::mesh::Mesh;
use crate::pass;
use crate::pass::PassSide;
use crate::pass::PreparedPass;
use crate::proposal;
use crate::query;
use crate::region::VertexTraversalScratch;
use crate::scalar;
use crate::scalar::Point;
use crate::sculpt;
use crate::sculpt::GRAB_REJECTED;
use crate::sculpt::GrabState;
use crate::sculpt::GrabVertex;
use crate::sculpt::SCALE_COUNT;
use crate::sculpt::SculptEngine;
use crate::sculpt::StrokeState;
use crate::table::Table;
use vstd::prelude::*;

verus! {

/// Whether a brush can take hold of anything: it has a size and a place.
pub open spec fn can_hold(settings: BrushSettings, sample: BrushSample) -> bool {
    &&& scalar::finite(settings.radius) && !scalar::le(settings.radius, scalar::EPSILON)
    &&& sample.center.finite() && sample.normal.finite() && sample.view_direction.finite()
}

/// A sample and, where the stroke is mirrored and there is a face under it, its mirror image.
pub open spec fn held_samples<O: Arithmetic>(
    ops: &O,
    mesh: Mesh,
    settings: BrushSettings,
    sample: BrushSample,
    symmetry_center: Point,
) -> Seq<BrushSample> {
    match settings.symmetry {
        None => seq![sample],
        Some(axis) => match query::nearest_face(mesh, ops, axis.spec_reflect_point(ops, sample.center, symmetry_center),
        ) {
            None => seq![sample],
            Some(seed) => seq![sample, sample.spec_reflected(ops, axis, symmetry_center, seed)],
        },
    }
}

/// How strongly a vertex is held by a pass.
pub open spec fn hold_at<O: Arithmetic>(
    ops: &O,
    mesh: Mesh,
    settings: BrushSettings,
    pressed: BrushSample,
    pass: BrushSample,
    vertex: u32,
) -> u32 {
    scalar::least(
        ops.spec_product(
            ops.spec_product(
                proposal::dab_strength(ops, settings, pressed),
                brush::weight_at(ops, settings, pass.center, mesh.positions@[vertex as int]),
            ),
            proposal::unmasked_at(ops, mesh, vertex),
        ),
        scalar::ONE,
    )
}

/// The hold on a vertex with that of one more pass.
pub open spec fn held_with(hold: GrabVertex, side: PassSide, influence: u32) -> GrabVertex {
    match side {
        PassSide::Primary => GrabVertex { primary_influence: influence, ..hold },
        PassSide::Mirrored => GrabVertex { mirrored_influence: influence, ..hold },
    }
}

pub open spec fn loose(position: Point) -> GrabVertex {
    GrabVertex {
        base: position,
        primary_influence: scalar::ZERO,
        mirrored_influence: scalar::ZERO,
    }
}

/// The holds with those of a pass over some vertices.
pub open spec fn held_by<O: Arithmetic>(
    ops: &O,
    mesh: Mesh,
    settings: BrushSettings,
    pressed: BrushSample,
    pass: BrushSample,
    side: PassSide,
    vertices: Seq<u32>,
    start: Map<u32, GrabVertex>,
) -> Map<u32, GrabVertex>
    decreases vertices.len(),
{
    if vertices.len() == 0 {
        start
    } else {
        let before = held_by(
            ops,
            mesh,
            settings,
            pressed,
            pass,
            side,
            vertices.drop_last(),
            start,
        );
        let vertex = vertices.last();
        let influence = hold_at(ops, mesh, settings, pressed, pass, vertex);
        if scalar::le(influence, scalar::EPSILON) {
            before
        } else {
            before.insert(
                vertex,
                held_with(
                    proposal::value_or(before, vertex, loose(mesh.positions@[vertex as int])),
                    side,
                    influence,
                ),
            )
        }
    }
}

/// The holds of passes together.
pub open spec fn held<O: Arithmetic>(
    ops: &O,
    mesh: Mesh,
    settings: BrushSettings,
    pressed: BrushSample,
    passes: Seq<PreparedPass>,
) -> Map<u32, GrabVertex>
    decreases passes.len(),
{
    if passes.len() == 0 {
        Map::empty()
    } else {
        let last = passes.last();
        held_by(
            ops,
            mesh,
            settings,
            pressed,
            last.sample,
            last.side,
            last.vertices@,
            held(ops, mesh, settings, pressed, passes.drop_last()),
        )
    }
}

fn hold_pass<O: Arithmetic>(
    mesh: &Mesh,
    settings: &BrushSettings,
    pressed: &BrushSample,
    pass: &PreparedPass,
    vertices: &mut Table<GrabVertex>,
    ops: &O,
)
    requires
        ops.total(),
        mesh.well_formed(),
        pass::all_vertices(pass.vertices@, mesh.positions@.len()),
        old(vertices).well_formed(),
    ensures
        final(vertices).well_formed(),
        final(vertices)@ == held_by(
            ops,
            *mesh,
            *settings,
            *pressed,
            pass.sample,
            pass.side,
            pass.vertices@,
            old(vertices)@,
        ),
{
    let ghost start = vertices@;
    let strength = proposal::strength_of(ops, settings, pressed);
    let mut i: usize = 0;
    assert(pass.vertices@.take(0) =~= Seq::<u32>::empty());
    while i < pass.vertices.len()
        invariant
            i <= pass.vertices@.len(),
            ops.total(),
            mesh.well_formed(),
            pass::all_vertices(pass.vertices@, mesh.positions@.len()),
            strength == proposal::dab_strength(ops, *settings, *pressed),
            vertices.well_formed(),
            vertices@ == held_by(
                ops,
                *mesh,
                *settings,
                *pressed,
                pass.sample,
                pass.side,
                pass.vertices@.take(i as int),
                start,
            ),
        decreases pass.vertices@.len() - i,
    {
        let vertex = pass.vertices[i];
        assert(pass.vertices@[i as int] < mesh.positions@.len());
        assert(pass.vertices@.take(i + 1).drop_last() =~= pass.vertices@.take(i as int));
        i += 1;
        let position = mesh.positions[vertex as usize];
        let falloff = brush::brush_weight(settings, pass.sample.center, position, ops);
        let influence = scalar::min(
            ops.product(ops.product(strength, falloff), proposal::unmasked(ops, mesh, vertex)),
            scalar::ONE,
        );
        if scalar::is_at_most(influence, scalar::EPSILON) {
            continue;
        }
        let hold = match vertices.get(vertex) {
            Some(hold) => hold,
            None => GrabVertex {
                base: position,
                primary_influence: scalar::ZERO,
                mirrored_influence: scalar::ZERO,
            },
        };
        let hold = match pass.side {
            PassSide::Primary => GrabVertex {
                base: hold.base,
                primary_influence: influence,
                mirrored_influence: hold.mirrored_influence,
            },
            PassSide::Mirrored => GrabVertex {
                base: hold.base,
                primary_influence: hold.primary_influence,
                mirrored_influence: influence,
            },
        };
        vertices.insert(vertex, hold);
    }
    assert(pass.vertices@.take(i as int) =~= pass.vertices@);
}

/// Finds what a sample and its mirror image reach.
fn prepare_hold<O: Arithmetic>(
    mesh: &Mesh,
    settings: &BrushSettings,
    sample: BrushSample,
    symmetry_center: Point,
    traversal: &mut VertexTraversalScratch,
    ops: &O,
) -> (result: Vec<PreparedPass>)
    requires
        ops.total(),
        mesh.well_formed(),
        old(traversal).well_formed(),
    ensures
        final(traversal).well_formed(),
        sculpt::passes_of(
            ops,
            *mesh,
            held_samples(ops, *mesh, *settings, sample, symmetry_center),
            settings.radius,
            result@,
        ),
        pass::sound(result@, mesh.positions@.len()),
{
    let first = PreparedPass::new(
        mesh,
        sample,
        settings.radius,
        PassSide::Primary,
        traversal,
        ops,
    );
    let mut passes: Vec<PreparedPass> = Vec::new();
    passes.push(first);
    if let Some(axis) = settings.symmetry {
        let center = axis.reflect_point(sample.center, symmetry_center, ops);
        if let Some(seed) = mesh.nearest_triangle(center, ops) {
            let second = PreparedPass::new(
                mesh,
                sample.reflected(axis, symmetry_center, seed, ops),
                settings.radius,
                PassSide::Mirrored,
                traversal,
                ops,
            );
            passes.push(second);
        }
    }
    passes
}

/// Whether a stroke has taken hold of what some passes reach, and of nothing else.
pub open spec fn took_hold<O: Arithmetic>(
    ops: &O,
    mesh: Mesh,
    settings: BrushSettings,
    sample: BrushSample,
    before: StrokeState,
    after: StrokeState,
    passes: Seq<PreparedPass>,
) -> bool {
    &&& after.symmetry_center == before.symmetry_center
    &&& after.mirrored_seed == before.mirrored_seed
    &&& after.positions == before.positions
    &&& after.masks == before.masks
    &&& after.coverage == before.coverage
    &&& after.planes == before.planes
    &&& after.density_checked
    &&& sculpt::warned(ops, mesh, passes, settings.radius, after.warning)
    &&& after.grab matches Some(grab) && {
        &&& grab.vertices@ == held(ops, mesh, settings, sample, passes)
        &&& grab.desired_delta == arithmetic::origin()
        &&& grab.symmetry == settings.symmetry
    }
}

/// Whether anchoring did what passes over the mesh call for.
pub open spec fn anchored<O: Arithmetic>(
    ops: &O,
    mesh: Mesh,
    settings: BrushSettings,
    sample: BrushSample,
    before: StrokeState,
    after: StrokeState,
    result: bool,
) -> bool {
    exists|passes: Seq<PreparedPass>| #[trigger]
        sculpt::passes_of(
            ops,
            mesh,
            held_samples(ops, mesh, settings, sample, before.symmetry_center),
            settings.radius,
            passes,
        ) && result == (held(ops, mesh, settings, sample, passes) != Map::<
            u32,
            GrabVertex,
        >::empty()) && if result {
            took_hold(ops, mesh, settings, sample, before, after, passes)
        } else {
            after == before
        }
}

/// The way that a drag goes on the mirrored side.
pub open spec fn mirrored_drag(symmetry: Option<SymmetryAxis>, drag: Point) -> Point {
    match symmetry {
        Some(axis) => axis.spec_reflect_vector(drag),
        None => drag,
    }
}

/// How far a held vertex goes with a drag. A vertex held on both sides goes along the mean of the
/// two ways.
pub open spec fn dragged_by<O: Arithmetic>(
    ops: &O,
    hold: GrabVertex,
    drag: Point,
    symmetry: Option<SymmetryAxis>,
) -> Point {
    let primary = hold.primary_influence;
    let mirrored = hold.mirrored_influence;
    let reflected = mirrored_drag(symmetry, drag);
    if scalar::lt(scalar::ZERO, primary) && scalar::lt(scalar::ZERO, mirrored) {
        arithmetic::spec_times(
            ops,
            arithmetic::spec_over(
                ops,
                arithmetic::spec_plus(
                    ops,
                    arithmetic::spec_times(ops, drag, primary),
                    arithmetic::spec_times(ops, reflected, mirrored),
                ),
                ops.spec_sum(primary, mirrored),
            ),
            scalar::greatest(primary, mirrored),
        )
    } else if scalar::lt(scalar::ZERO, mirrored) {
        arithmetic::spec_times(ops, reflected, mirrored)
    } else {
        arithmetic::spec_times(ops, drag, primary)
    }
}

fn drag_offset<O: Arithmetic>(
    ops: &O,
    hold: &GrabVertex,
    drag: Point,
    symmetry: Option<SymmetryAxis>,
) -> (result: Point)
    requires
        ops.total(),
    ensures
        result == dragged_by(ops, *hold, drag, symmetry),
{
    let primary = hold.primary_influence;
    let mirrored = hold.mirrored_influence;
    let reflected = match symmetry {
        Some(axis) => axis.reflect_vector(drag),
        None => drag,
    };
    if scalar::is_less(scalar::ZERO, primary) && scalar::is_less(scalar::ZERO, mirrored) {
        let both = arithmetic::plus(
            ops,
            arithmetic::times(ops, drag, primary),
            arithmetic::times(ops, reflected, mirrored),
        );
        arithmetic::times(
            ops,
            arithmetic::over(ops, both, ops.sum(primary, mirrored)),
            scalar::max(primary, mirrored),
        )
    } else if scalar::is_less(scalar::ZERO, mirrored) {
        arithmetic::times(ops, reflected, mirrored)
    } else {
        arithmetic::times(ops, drag, primary)
    }
}

/// Where a held vertex is to go.
pub open spec fn target_of<O: Arithmetic>(ops: &O, grab: GrabState, drag: Point, vertex: u32) -> Point {
    let hold = grab.vertices@[vertex];
    arithmetic::spec_plus(ops, hold.base, dragged_by(ops, hold, drag, grab.symmetry))
}

/// The held vertices that are not yet where they are to go.
pub open spec fn targets<O: Arithmetic>(ops: &O, mesh: Mesh, grab: GrabState, drag: Point) -> Map<
    u32,
    Point,
> {
    Map::new(
        |v: u32|
            grab.vertices@.contains_key(v) && v < mesh.positions@.len()
                && !mesh.positions@[v as int].same(target_of(ops, grab, drag, v)),
        |v: u32| target_of(ops, grab, drag, v),
    )
}

/// Where part of the way to its target takes a held vertex.
pub open spec fn place_on_way<O: Arithmetic>(
    ops: &O,
    grab: GrabState,
    vertex: u32,
    target: Point,
    scale: u32,
) -> Point {
    arithmetic::spec_plus(
        ops,
        grab.vertices@[vertex].base,
        arithmetic::spec_times(
            ops,
            arithmetic::spec_minus(ops, target, grab.vertices@[vertex].base),
            scale,
        ),
    )
}

/// Where part of the way takes those vertices, without the vertices that stay.
pub open spec fn part_way<O: Arithmetic>(
    ops: &O,
    mesh: Mesh,
    grab: GrabState,
    targets: Map<u32, Point>,
    scale: u32,
) -> Map<u32, Point> {
    Map::new(
        |v: u32|
            targets.contains_key(v) && !place_on_way(ops, grab, v, targets[v], scale).same(
                mesh.positions@[v as int],
            ),
        |v: u32| place_on_way(ops, grab, v, targets[v], scale),
    )
}

/// The largest part of the way that is safe, from one of the parts on.
pub open spec fn safe_way<O: Arithmetic, G: Geometry>(
    ops: &O,
    geometry: &G,
    mesh: Mesh,
    grab: GrabState,
    targets: Map<u32, Point>,
    from: int,
) -> Option<u32>
    decreases SCALE_COUNT - from,
{
    if from >= SCALE_COUNT {
        None
    } else if candidate::safe(
        geometry,
        mesh,
        part_way(ops, mesh, grab, targets, sculpt::scale_at(from)),
    ) {
        Some(sculpt::scale_at(from))
    } else {
        safe_way(ops, geometry, mesh, grab, targets, from + 1)
    }
}

fn find_targets<O: Arithmetic>(
    ops: &O,
    mesh: &Mesh,
    grab: &GrabState,
    drag: Point,
) -> (result: Table<Point>)
    requires
        ops.total(),
        grab.vertices.well_formed(),
    ensures
        result.well_formed(),
        result@ == targets(ops, *mesh, *grab, drag),
        proposal::names_vertices(result@, mesh.positions@.len()),
{
    let mut result: Table<Point> = Table::new();
    let ghost wanted = targets(ops, *mesh, *grab, drag);
    proof {
        grab.vertices.order_names_the_indices();
    }
    let mut k: usize = 0;
    while k < grab.vertices.len()
        invariant
            k <= grab.vertices.order().len(),
            ops.total(),
            grab.vertices.well_formed(),
            wanted == targets(ops, *mesh, *grab, drag),
            result.well_formed(),
            forall|v: u32| #[trigger]
                result@.contains_key(v) <==> grab.vertices.order().take(k as int).contains(v)
                    && wanted.contains_key(v),
            forall|v: u32| #[trigger] result@.contains_key(v) ==> result@[v] == wanted[v],
        decreases grab.vertices.order().len() - k,
    {
        let vertex = grab.vertices.key(k);
        let hold = grab.vertices.value(k);
        proof {
            pass::lemma_take_contains(grab.vertices.order(), k as int);
        }
        let next = arithmetic::plus(ops, hold.base, drag_offset(ops, &hold, drag, grab.symmetry));
        if (vertex as usize) < mesh.positions.len() && !mesh.positions[vertex as usize].is_same(
            &next,
        ) {
            result.insert(vertex, next);
        }
        k += 1;
    }
    proof {
        grab.vertices.order_names_the_indices();
        assert(grab.vertices.order().take(k as int) =~= grab.vertices.order());
        assert forall|v: u32| #[trigger] result@.contains_key(v) <==> wanted.contains_key(v) by {
            assert(grab.vertices.order().contains(v) <==> grab.vertices@.contains_key(v));
        }
        assert(result@ =~= wanted);
    }
    result
}

fn go_part_way<O: Arithmetic>(
    ops: &O,
    mesh: &Mesh,
    grab: &GrabState,
    targets: &Table<Point>,
    scale: u32,
) -> (result: Table<Point>)
    requires
        ops.total(),
        grab.vertices.well_formed(),
        targets.well_formed(),
        proposal::names_vertices(targets@, mesh.positions@.len()),
        forall|v: u32| #[trigger]
            targets@.contains_key(v) ==> grab.vertices@.contains_key(v),
    ensures
        result.well_formed(),
        result@ == part_way(ops, *mesh, *grab, targets@, scale),
        proposal::names_vertices(result@, mesh.positions@.len()),
{
    let mut result: Table<Point> = Table::new();
    let ghost wanted = part_way(ops, *mesh, *grab, targets@, scale);
    proof {
        targets.order_names_the_indices();
    }
    let mut k: usize = 0;
    while k < targets.len()
        invariant
            k <= targets.order().len(),
            ops.total(),
            grab.vertices.well_formed(),
            targets.well_formed(),
            proposal::names_vertices(targets@, mesh.positions@.len()),
            forall|v: u32| #[trigger]
                targets@.contains_key(v) ==> grab.vertices@.contains_key(v),
            wanted == part_way(ops, *mesh, *grab, targets@, scale),
            result.well_formed(),
            forall|v: u32| #[trigger]
                result@.contains_key(v) <==> targets.order().take(k as int).contains(v)
                    && wanted.contains_key(v),
            forall|v: u32| #[trigger] result@.contains_key(v) ==> result@[v] == wanted[v],
        decreases targets.order().len() - k,
    {
        let vertex = targets.key(k);
        let target = targets.value(k);
        proof {
            pass::lemma_take_contains(targets.order(), k as int);
            assert(targets@.contains_key(vertex));
        }
        if let Some(hold) = grab.vertices.get(vertex) {
            let way = arithmetic::minus(ops, target, hold.base);
            let place = arithmetic::plus(ops, hold.base, arithmetic::times(ops, way, scale));
            if !place.is_same(&mesh.positions[vertex as usize]) {
                result.insert(vertex, place);
            }
        }
        k += 1;
    }
    proof {
        targets.order_names_the_indices();
        assert(targets.order().take(k as int) =~= targets.order());
        assert forall|v: u32| #[trigger] result@.contains_key(v) <==> wanted.contains_key(v) by {
            assert(targets.order().contains(v) <==> targets@.contains_key(v));
        }
        assert(result@ =~= wanted);
    }
    result
}

fn find_safe_way<O: Arithmetic, G: Geometry>(
    ops: &O,
    geometry: &G,
    mesh: &Mesh,
    grab: &GrabState,
    targets: &Table<Point>,
) -> (result: Option<Table<Point>>)
    requires
        ops.total(),
        geometry.total(),
        mesh.well_formed(),
        grab.vertices.well_formed(),
        targets.well_formed(),
        proposal::names_vertices(targets@, mesh.positions@.len()),
        forall|v: u32| #[trigger]
            targets@.contains_key(v) ==> grab.vertices@.contains_key(v),
    ensures
        match safe_way(ops, geometry, *mesh, *grab, targets@, 0) {
            Some(scale) => result matches Some(places) && places.well_formed() && places@
                == part_way(ops, *mesh, *grab, targets@, scale) && proposal::names_vertices(
                places@,
                mesh.positions@.len(),
            ),
            None => result is None,
        },
{
    let mut i: usize = 0;
    while i < SCALE_COUNT
        invariant
            i <= SCALE_COUNT,
            ops.total(),
            geometry.total(),
            mesh.well_formed(),
            grab.vertices.well_formed(),
            targets.well_formed(),
            proposal::names_vertices(targets@, mesh.positions@.len()),
            forall|v: u32| #[trigger]
                targets@.contains_key(v) ==> grab.vertices@.contains_key(v),
            safe_way(ops, geometry, *mesh, *grab, targets@, 0) == safe_way(
                ops,
                geometry,
                *mesh,
                *grab,
                targets@,
                i as int,
            ),
        decreases SCALE_COUNT - i,
    {
        let places = go_part_way(ops, mesh, grab, targets, sculpt::scale_of(i));
        if mesh.validated_deformation_candidates(&places, geometry).is_some() {
            return Some(places);
        }
        i += 1;
    }
    None
}

/// Whether a stroke differs from what it was in its hold at most, and there in the drag only.
pub open spec fn dragged_to(before: StrokeState, after: StrokeState, drag: Point) -> bool {
    &&& after.symmetry_center == before.symmetry_center
    &&& after.mirrored_seed == before.mirrored_seed
    &&& after.masks == before.masks
    &&& after.coverage == before.coverage
    &&& after.planes == before.planes
    &&& after.density_checked == before.density_checked
    &&& after.warning == before.warning
    &&& match before.grab {
        None => after.grab is None,
        Some(grab) => after.grab == Some(
            GrabState {
                vertices: grab.vertices,
                desired_delta: drag,
                symmetry: grab.symmetry,
            },
        ),
    }
}

/// Where a hold is asked to go after one more drag.
pub open spec fn drag_after<O: Arithmetic>(
    ops: &O,
    grab: GrabState,
    drag_delta: Point,
    pressure: u32,
) -> Point {
    arithmetic::spec_plus(
        ops,
        grab.desired_delta,
        arithmetic::spec_times(
            ops,
            drag_delta,
            scalar::clamped(pressure, scalar::ZERO, scalar::ONE),
        ),
    )
}

/// Whether a drag was carried out: as much of it as is safe, all around the vertices brought up to
/// date, and the positions before it remembered. Where no part of it is safe no vertex moves, nor
/// where the safe part leads to where the vertices are.
pub open spec fn grab_step<O: Arithmetic, G: Geometry>(
    ops: &O,
    geometry: &G,
    mesh: Mesh,
    moved: Mesh,
    before: StrokeState,
    after: StrokeState,
    engine: SculptEngine,
    drag_delta: Point,
    pressure: u32,
    result: bool,
) -> bool {
    let grab = before.grab->0;
    let drag = drag_after(ops, grab, drag_delta, pressure);
    let goals = targets(ops, mesh, grab, drag);
    &&& dragged_to(before, after, drag)
    &&& engine.sample_committed == result
    &&& if goals == Map::<u32, Point>::empty() {
        &&& !result && moved == mesh && after.positions == before.positions
        &&& engine.updated_vertices@.len() == 0 && engine.error is None
    } else {
        match safe_way(ops, geometry, mesh, grab, goals, 0) {
            None => {
                &&& !result && moved == mesh && after.positions == before.positions
                &&& engine.updated_vertices@.len() == 0
                &&& engine.error matches Some(text) && text@ == GRAB_REJECTED@
            },
            Some(scale) => {
                let places = part_way(ops, mesh, grab, goals, scale);
                &&& engine.error is None
                &&& if places == Map::<u32, Point>::empty() {
                    &&& !result && moved == mesh && after.positions == before.positions
                    &&& engine.updated_vertices@.len() == 0
                } else {
                    &&& result
                    &&& sculpt::relocated(geometry, mesh, moved, places, engine.updated_vertices@)
                    &&& after.positions@ == sculpt::with_first(
                        before.positions@,
                        places,
                        mesh.positions@,
                    )
                }
            },
        }
    }
}

proof fn lemma_safe_way<O: Arithmetic, G: Geometry>(
    ops: &O,
    geometry: &G,
    mesh: Mesh,
    grab: GrabState,
    targets: Map<u32, Point>,
    from: int,
)
    requires
        0 <= from,
    ensures
        safe_way(ops, geometry, mesh, grab, targets, from) matches Some(scale) ==> candidate::safe(
            geometry,
            mesh,
            part_way(ops, mesh, grab, targets, scale),
        ),
    decreases SCALE_COUNT - from,
{
    if from < SCALE_COUNT {
        lemma_safe_way(ops, geometry, mesh, grab, targets, from + 1);
    }
}

impl SculptEngine {
    /// Takes hold of the region that Grab is to move, without moving it.
    pub fn anchor_grab<O: Arithmetic>(
        &mut self,
        mesh: &Mesh,
        settings: &BrushSettings,
        sample: BrushSample,
        ops: &O,
    ) -> (result: bool)
        requires
            ops.total(),
            mesh.well_formed(),
            old(self).well_formed(),
        ensures
            final(self).well_formed(),
            final(self).symmetry_center == old(self).symmetry_center,
            final(self).updated_vertices == old(self).updated_vertices,
            final(self).error == old(self).error,
            final(self).sample_committed == old(self).sample_committed,
            if old(self).active is None || !can_hold(*settings, sample) {
                !result && final(self).active == old(self).active
            } else {
                final(self).active is Some && anchored(
                    ops,
                    *mesh,
                    *settings,
                    sample,
                    old(self).active->0,
                    final(self).active->0,
                    result,
                )
            },
            old(self).active is Some ==> forall|positions: Seq<Point>, mask: Seq<u32>| #[trigger]
                sculpt::tracks(old(self).active->0, positions, mask, *mesh) ==> sculpt::tracks(
                    final(self).active->0,
                    positions,
                    mask,
                    *mesh,
                ),
    {
        if !scalar::is_finite(settings.radius) || scalar::is_at_most(
            settings.radius,
            scalar::EPSILON,
        ) || !sample.center.is_finite() || !sample.normal.is_finite()
            || !sample.view_direction.is_finite() {
            return false;
        }
        let mut stroke = match self.active.take() {
            Some(stroke) => stroke,
            None => {
                return false;
            },
        };
        let ghost before = stroke;
        let passes = prepare_hold(
            mesh,
            settings,
            sample,
            stroke.symmetry_center,
            &mut self.traversal,
            ops,
        );
        let mut vertices: Table<GrabVertex> = Table::new();
        let mut p: usize = 0;
        while p < passes.len()
            invariant
                p <= passes@.len(),
                ops.total(),
                mesh.well_formed(),
                pass::sound(passes@, mesh.positions@.len()),
                vertices.well_formed(),
                vertices@ == held(ops, *mesh, *settings, sample, passes@.take(p as int)),
            decreases passes@.len() - p,
        {
            assert(pass::all_vertices(passes@[p as int].vertices@, mesh.positions@.len()));
            assert(passes@.take(p + 1).drop_last() =~= passes@.take(p as int));
            hold_pass(mesh, settings, &sample, &passes[p], &mut vertices, ops);
            p += 1;
        }
        assert(passes@.take(p as int) =~= passes@);
        proof {
            sculpt::lemma_empty_table(vertices);
        }
        if vertices.len() == 0 {
            self.active = Some(stroke);
            return false;
        }
        stroke.warning = pass::density_warning(mesh, &passes, settings.radius, ops);
        stroke.density_checked = true;
        stroke.grab = Some(
            GrabState {
                vertices,
                desired_delta: Point { x: scalar::ZERO, y: scalar::ZERO, z: scalar::ZERO },
                symmetry: settings.symmetry,
            },
        );
        assert(took_hold(ops, *mesh, *settings, sample, before, stroke, passes@));
        self.active = Some(stroke);
        true
    }

    /// Moves what Grab holds, and tells whether it changed the mesh. The pointer need not be over
    /// the surface for that.
    pub fn apply_grab_delta<O: Arithmetic, G: Geometry>(
        &mut self,
        mesh: &mut Mesh,
        drag_delta: Point,
        pressure: u32,
        ops: &O,
        geometry: &G,
    ) -> (result: bool)
        requires
            ops.total(),
            geometry.total(),
            old(mesh).well_formed(),
            old(self).well_formed(),
        ensures
            final(mesh).well_formed(),
            final(self).well_formed(),
            final(self).symmetry_center == old(self).symmetry_center,
            if !drag_delta.finite() || !scalar::finite(pressure) || old(self).active is None
                || old(self).active->0.grab is None {
                !result && *final(mesh) == *old(mesh) && SculptEngine::cleared(
                    *old(self),
                    *final(self),
                )
            } else {
                final(self).active is Some && grab_step(
                    ops,
                    geometry,
                    *old(mesh),
                    *final(mesh),
                    old(self).active->0,
                    final(self).active->0,
                    *final(self),
                    drag_delta,
                    pressure,
                    result,
                )
            },
            sculpt::told_truly(*old(mesh), *final(mesh), result),
            final(self).sample_committed == result,
            !result ==> final(self).updated_vertices@.len() == 0,
            old(self).active is Some ==> final(self).active is Some && forall|
                positions: Seq<Point>,
                mask: Seq<u32>,
            | #[trigger]
                sculpt::tracks(old(self).active->0, positions, mask, *old(mesh))
                    ==> sculpt::tracks(final(self).active->0, positions, mask, *final(mesh)),
    {
        let ghost engine = *self;
        let ghost mesh_before = *mesh;
        self.clear_step_outputs();
        if !drag_delta.is_finite() || !scalar::is_finite(pressure) {
            return false;
        }
        let mut stroke = match self.active.take() {
            Some(stroke) => stroke,
            None => {
                return false;
            },
        };
        let ghost before = stroke;
        let mut grab = match stroke.grab.take() {
            Some(grab) => grab,
            None => {
                self.active = Some(stroke);
                assert(self.active->0 == before);
                return false;
            },
        };
        let ghost held_before = grab;
        let drag = arithmetic::plus(
            ops,
            grab.desired_delta,
            arithmetic::times(
                ops,
                drag_delta,
                scalar::clamp(pressure, scalar::ZERO, scalar::ONE),
            ),
        );
        let goals = find_targets(ops, mesh, &grab, drag);
        assert(targets(ops, *mesh, grab, drag) == targets(ops, *mesh, held_before, drag));
        let found = find_safe_way(ops, geometry, mesh, &grab, &goals);
        grab.desired_delta = drag;
        stroke.grab = Some(grab);
        proof {
            sculpt::lemma_empty_table(goals);
            lemma_safe_way(ops, geometry, mesh_before, held_before, goals@, 0);
        }
        if goals.len() == 0 {
            self.active = Some(stroke);
            return false;
        }
        let places = match found {
            Some(places) => places,
            None => {
                self.active = Some(stroke);
                self.error = Some(GRAB_REJECTED.to_owned());
                return false;
            },
        };
        proof {
            sculpt::lemma_empty_table(places);
        }
        if places.len() == 0 {
            self.active = Some(stroke);
            return false;
        }
        sculpt::remember(&mut stroke.positions, &places, &mesh.positions);
        self.updated_vertices = sculpt::relocate(mesh, &places, geometry);
        self.active = Some(stroke);
        self.sample_committed = true;
        proof {
            let v = sculpt::lemma_some_key(places@);
            assert(sculpt::differs_at(mesh_before, *mesh, v));
            assert forall|positions: Seq<Point>, mask: Seq<u32>| #[trigger]
                sculpt::tracks(before, positions, mask, mesh_before) implies sculpt::tracks(
                stroke,
                positions,
                mask,
                *mesh,
            ) by {
                sculpt::lemma_first_values(
                    positions,
                    before.positions@,
                    places@,
                    mesh_before.positions@,
                );
            }
        }
        true
    }
}

/// No drag collapses a face or turns one over.
pub proof fn a_drag_spares_every_face<O: Arithmetic, G: Geometry>(
    ops: &O,
    geometry: &G,
    mesh: Mesh,
    moved: Mesh,
    before: StrokeState,
    after: StrokeState,
    engine: SculptEngine,
    drag_delta: Point,
    pressure: u32,
    result: bool,
    face: u32,
)
    requires
        mesh.well_formed(),
        grab_step(
            ops,
            geometry,
            mesh,
            moved,
            before,
            after,
            engine,
            drag_delta,
            pressure,
            result,
        ),
        face < mesh.triangles@.len(),
    ensures
        moved.triangles == mesh.triangles,
        candidate::spared(
            geometry,
            mesh.positions@,
            moved.positions@,
            mesh.triangles@[face as int],
        ),
{
    let grab = before.grab->0;
    let goals = targets(ops, mesh, grab, drag_after(ops, grab, drag_delta, pressure));
    if let Some(scale) = safe_way(ops, geometry, mesh, grab, goals, 0) {
        let places = part_way(ops, mesh, grab, goals, scale);
        lemma_safe_way(ops, geometry, mesh, grab, goals, 0);
        candidate::safe_places_spare_every_face(geometry, mesh, places, face);
    }
}

} // verus!
