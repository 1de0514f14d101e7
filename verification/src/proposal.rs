//! What the passes of a sample propose to do to a mesh.
use crate::arithmetic;
use crate::arithmetic::Arithmetic;
use crate::brush;
use crate::brush::BrushSample;
use crate::brush::BrushSettings;
use crate::brush::SculptTool;
use crate::frame;
use crate::frame::BrushFrame;
use crate::mesh::Mesh;
use crate::pass;
use crate::pass::PreparedPass;
use crate::scalar;
use crate::scalar::Point;
use crate::smooth;
use crate::table::Table;
use vstd::prelude::*;

verus! {

/// The bit pattern of `-1.0`.
pub const MINUS_ONE: u32 = 0xbf80_0000;

/// The bit pattern of `0.15`, the height of a full dab in radii.
pub const HEIGHT: u32 = 0x3e19_999a;

/// The bit pattern of two thirds, how far a crease pulls its sides together.
pub const TWO_THIRDS: u32 = 0x3f2a_aaab;

/// How strong a dab is.
pub open spec fn dab_strength<O: Arithmetic>(
    ops: &O,
    settings: BrushSettings,
    sample: BrushSample,
) -> u32 {
    ops.spec_product(
        scalar::magnitude(settings.strength) as u32,
        scalar::clamped(sample.pressure, scalar::ZERO, scalar::ONE),
    )
}

pub(crate) fn strength_of<O: Arithmetic>(
    ops: &O,
    settings: &BrushSettings,
    sample: &BrushSample,
) -> (result: u32)
    requires
        ops.total(),
    ensures
        result == dab_strength(ops, *settings, *sample),
{
    ops.product(
        scalar::absolute(settings.strength),
        scalar::clamp(sample.pressure, scalar::ZERO, scalar::ONE),
    )
}

/// The part of a vertex that its mask leaves free.
pub open spec fn unmasked_at<O: Arithmetic>(ops: &O, mesh: Mesh, vertex: u32) -> u32 {
    ops.spec_difference(
        scalar::ONE,
        scalar::clamped(mesh.mask@[vertex as int], scalar::ZERO, scalar::ONE),
    )
}

pub(crate) fn unmasked<O: Arithmetic>(ops: &O, mesh: &Mesh, vertex: u32) -> (result: u32)
    requires
        ops.total(),
        vertex < mesh.mask@.len(),
    ensures
        result == unmasked_at(ops, *mesh, vertex),
{
    ops.difference(
        scalar::ONE,
        scalar::clamp(mesh.mask[vertex as usize], scalar::ZERO, scalar::ONE),
    )
}

/// How strongly a dab works on a vertex.
pub open spec fn influence_at<O: Arithmetic>(
    ops: &O,
    mesh: Mesh,
    settings: BrushSettings,
    sample: BrushSample,
    vertex: u32,
) -> u32 {
    ops.spec_product(
        ops.spec_product(
            dab_strength(ops, settings, sample),
            brush::weight_at(ops, settings, sample.center, mesh.positions@[vertex as int]),
        ),
        unmasked_at(ops, mesh, vertex),
    )
}

pub open spec fn inverted(settings: BrushSettings, sample: BrushSample) -> bool {
    settings.invert != sample.invert_modifier
}

pub open spec fn sign_of(inverted: bool) -> u32 {
    if inverted {
        MINUS_ONE
    } else {
        scalar::ONE
    }
}

/// How high a full dab raises the surface.
pub open spec fn height_of<O: Arithmetic>(
    ops: &O,
    settings: BrushSettings,
    sample: BrushSample,
) -> u32 {
    ops.spec_product(
        ops.spec_product(sign_of(inverted(settings, sample)), settings.radius),
        HEIGHT,
    )
}

/// The way from a position to the center of a brush, along the surface.
pub open spec fn tangent_of<O: Arithmetic>(
    ops: &O,
    sample: BrushSample,
    normal: Point,
    position: Point,
) -> Point {
    let to_center = arithmetic::spec_minus(ops, sample.center, position);
    arithmetic::spec_minus(
        ops,
        to_center,
        arithmetic::spec_times(ops, normal, arithmetic::spec_dot(ops, to_center, normal)),
    )
}

fn tangent<O: Arithmetic>(ops: &O, sample: &BrushSample, normal: Point, position: Point) -> (result:
    Point)
    requires
        ops.total(),
    ensures
        result == tangent_of(ops, *sample, normal, position),
{
    let to_center = arithmetic::minus(ops, sample.center, position);
    arithmetic::minus(
        ops,
        to_center,
        arithmetic::times(ops, normal, arithmetic::dot(ops, to_center, normal)),
    )
}

/// Where a tool at full influence moves a vertex.
pub open spec fn unit_step<O: Arithmetic>(
    ops: &O,
    mesh: Mesh,
    tool: SculptTool,
    settings: BrushSettings,
    sample: BrushSample,
    frame: BrushFrame,
    smoothed: Map<u32, Point>,
    vertex: u32,
) -> Option<Point> {
    let position = mesh.positions@[vertex as int];
    let height = height_of(ops, settings, sample);
    let raised = arithmetic::spec_times(ops, frame.normal, height);
    match tool {
        SculptTool::Grab => Some(sample.drag_delta),
        SculptTool::Draw => Some(raised),
        SculptTool::Clay => {
            let plane_point = arithmetic::spec_plus(ops, frame.origin, raised);
            Some(
                arithmetic::spec_times(
                    ops,
                    frame.normal,
                    arithmetic::spec_dot(
                        ops,
                        arithmetic::spec_minus(ops, plane_point, position),
                        frame.normal,
                    ),
                ),
            )
        },
        SculptTool::Crease => Some(
            arithmetic::spec_plus(
                ops,
                raised,
                arithmetic::spec_times(
                    ops,
                    tangent_of(ops, sample, frame.normal, position),
                    TWO_THIRDS,
                ),
            ),
        ),
        SculptTool::Inflate => Some(
            arithmetic::spec_times(
                ops,
                frame::turned(
                    ops,
                    arithmetic::spec_unit(ops, mesh.normals@[vertex as int]),
                    frame.normal,
                ),
                height,
            ),
        ),
        SculptTool::Smooth => if smoothed.contains_key(vertex) {
            Some(smoothed[vertex])
        } else {
            None
        },
        SculptTool::Pinch => Some(
            arithmetic::spec_times(
                ops,
                tangent_of(ops, sample, frame.normal, position),
                sign_of(inverted(settings, sample)),
            ),
        ),
        SculptTool::Flatten => Some(
            arithmetic::spec_times(
                ops,
                frame.normal,
                ops.spec_product(
                    sign_of(inverted(settings, sample)),
                    arithmetic::spec_dot(
                        ops,
                        arithmetic::spec_minus(ops, frame.origin, position),
                        frame.normal,
                    ),
                ),
            ),
        ),
        SculptTool::Mask => None,
    }
}

fn unit_displacement<O: Arithmetic>(
    ops: &O,
    mesh: &Mesh,
    tool: SculptTool,
    settings: &BrushSettings,
    sample: &BrushSample,
    frame: BrushFrame,
    smoothed: &Table<Point>,
    vertex: u32,
    position: Point,
) -> (result: Option<Point>)
    requires
        ops.total(),
        mesh.well_formed(),
        smoothed.well_formed(),
        vertex < mesh.positions@.len(),
        position == mesh.positions@[vertex as int],
    ensures
        result == unit_step(
            ops,
            *mesh,
            tool,
            *settings,
            *sample,
            frame,
            smoothed@,
            vertex,
        ),
{
    let sign: u32 = if settings.invert != sample.invert_modifier {
        MINUS_ONE
    } else {
        scalar::ONE
    };
    let height = ops.product(ops.product(sign, settings.radius), HEIGHT);
    match tool {
        SculptTool::Grab => Some(sample.drag_delta),
        SculptTool::Draw => Some(arithmetic::times(ops, frame.normal, height)),
        SculptTool::Clay => {
            let plane_point = arithmetic::plus(
                ops,
                frame.origin,
                arithmetic::times(ops, frame.normal, height),
            );
            let distance = arithmetic::dot(
                ops,
                arithmetic::minus(ops, plane_point, position),
                frame.normal,
            );
            Some(arithmetic::times(ops, frame.normal, distance))
        },
        SculptTool::Crease => {
            let pull = tangent(ops, sample, frame.normal, position);
            Some(
                arithmetic::plus(
                    ops,
                    arithmetic::times(ops, frame.normal, height),
                    arithmetic::times(ops, pull, TWO_THIRDS),
                ),
            )
        },
        SculptTool::Inflate => {
            let normal = frame::turn(
                ops,
                arithmetic::unit(ops, mesh.normals[vertex as usize]),
                frame.normal,
            );
            Some(arithmetic::times(ops, normal, height))
        },
        SculptTool::Smooth => smoothed.get(vertex),
        SculptTool::Pinch => {
            let pull = tangent(ops, sample, frame.normal, position);
            Some(arithmetic::times(ops, pull, sign))
        },
        SculptTool::Flatten => {
            let distance = arithmetic::dot(
                ops,
                arithmetic::minus(ops, frame.origin, position),
                frame.normal,
            );
            Some(arithmetic::times(ops, frame.normal, ops.product(sign, distance)))
        },
        SculptTool::Mask => None,
    }
}

/// Where a pass wants a vertex to go, and how strongly.
#[derive(Clone, Copy, Debug, PartialEq, Eq, Structural)]
pub struct Contribution {
    pub unit: Point,
    pub influence: u32,
}

/// Whether a move is finite and long enough to matter.
pub open spec fn matters<O: Arithmetic>(ops: &O, step: Point) -> bool {
    step.finite() && !scalar::le(arithmetic::spec_dot(ops, step, step), scalar::EPSILON_SQUARED)
}

/// What a pass proposes for a vertex, unless the brush is too weak there or the move is too short.
pub open spec fn contribution<O: Arithmetic>(
    ops: &O,
    mesh: Mesh,
    tool: SculptTool,
    settings: BrushSettings,
    sample: BrushSample,
    frame: BrushFrame,
    smoothed: Map<u32, Point>,
    vertex: u32,
) -> Option<Contribution> {
    let weight = brush::weight_at(ops, settings, sample.center, mesh.positions@[vertex as int]);
    let influence = influence_at(ops, mesh, settings, sample, vertex);
    let step = unit_step(ops, mesh, tool, settings, sample, frame, smoothed, vertex);
    if scalar::le(dab_strength(ops, settings, sample), scalar::EPSILON) || scalar::le(
        weight,
        scalar::EPSILON,
    ) || scalar::le(influence, scalar::EPSILON) {
        None
    } else {
        match step {
            Some(unit) => if matters(ops, unit) {
                Some(Contribution { unit, influence })
            } else {
                None
            },
            None => None,
        }
    }
}

/// What the passes together propose for a vertex.
#[derive(Clone, Copy, Debug, PartialEq, Eq, Structural)]
pub struct ProposalAccumulator {
    pub weighted_unit: Point,
    pub influence_sum: u32,
    pub maximum_influence: u32,
}

pub open spec fn nothing_proposed() -> ProposalAccumulator {
    ProposalAccumulator {
        weighted_unit: arithmetic::origin(),
        influence_sum: scalar::ZERO,
        maximum_influence: scalar::ZERO,
    }
}

pub open spec fn value_or<T>(table: Map<u32, T>, key: u32, default: T) -> T {
    if table.contains_key(key) {
        table[key]
    } else {
        default
    }
}

pub open spec fn joined<O: Arithmetic>(
    ops: &O,
    proposal: ProposalAccumulator,
    more: Contribution,
) -> ProposalAccumulator {
    ProposalAccumulator {
        weighted_unit: arithmetic::spec_plus(
            ops,
            proposal.weighted_unit,
            arithmetic::spec_times(ops, more.unit, more.influence),
        ),
        influence_sum: ops.spec_sum(proposal.influence_sum, more.influence),
        maximum_influence: scalar::greatest(proposal.maximum_influence, more.influence),
    }
}

/// The proposals with those of a pass over some vertices.
pub open spec fn gathered_by<O: Arithmetic>(
    ops: &O,
    mesh: Mesh,
    tool: SculptTool,
    settings: BrushSettings,
    sample: BrushSample,
    frame: BrushFrame,
    smoothed: Map<u32, Point>,
    vertices: Seq<u32>,
    start: Map<u32, ProposalAccumulator>,
) -> Map<u32, ProposalAccumulator>
    decreases vertices.len(),
{
    if vertices.len() == 0 {
        start
    } else {
        let before = gathered_by(
            ops,
            mesh,
            tool,
            settings,
            sample,
            frame,
            smoothed,
            vertices.drop_last(),
            start,
        );
        let vertex = vertices.last();
        match contribution(ops, mesh, tool, settings, sample, frame, smoothed, vertex) {
            Some(more) => before.insert(
                vertex,
                joined(ops, value_or(before, vertex, nothing_proposed()), more),
            ),
            None => before,
        }
    }
}

/// The moves of smoothing, for the tool that smooths.
pub open spec fn smoothed_for<O: Arithmetic>(
    ops: &O,
    mesh: Mesh,
    tool: SculptTool,
    vertices: Seq<u32>,
) -> Map<u32, Point> {
    if tool == SculptTool::Smooth {
        smooth::smooth_units(ops, mesh, vertices)
    } else {
        Map::empty()
    }
}

/// What passes together propose.
pub open spec fn gathered<O: Arithmetic>(
    ops: &O,
    mesh: Mesh,
    tool: SculptTool,
    settings: BrushSettings,
    passes: Seq<PreparedPass>,
    frames: Seq<BrushFrame>,
) -> Map<u32, ProposalAccumulator>
    decreases passes.len(),
{
    if passes.len() == 0 {
        Map::empty()
    } else {
        let last = passes.last();
        gathered_by(
            ops,
            mesh,
            tool,
            settings,
            last.sample,
            frames[passes.len() - 1],
            smoothed_for(ops, mesh, tool, last.vertices@),
            last.vertices@,
            gathered(ops, mesh, tool, settings, passes.drop_last(), frames),
        )
    }
}

/// How strongly a pass paints on a vertex, unless the brush is too weak there.
pub open spec fn paint_at<O: Arithmetic>(
    ops: &O,
    mesh: Mesh,
    settings: BrushSettings,
    sample: BrushSample,
    vertex: u32,
) -> Option<u32> {
    let weight = brush::weight_at(ops, settings, sample.center, mesh.positions@[vertex as int]);
    let strength = dab_strength(ops, settings, sample);
    if scalar::le(strength, scalar::EPSILON) || scalar::le(weight, scalar::EPSILON) {
        None
    } else {
        Some(ops.spec_product(strength, weight))
    }
}

/// The strongest paint with that of a pass over some vertices.
pub open spec fn painted_by<O: Arithmetic>(
    ops: &O,
    mesh: Mesh,
    settings: BrushSettings,
    sample: BrushSample,
    vertices: Seq<u32>,
    start: Map<u32, u32>,
) -> Map<u32, u32>
    decreases vertices.len(),
{
    if vertices.len() == 0 {
        start
    } else {
        let before = painted_by(ops, mesh, settings, sample, vertices.drop_last(), start);
        let vertex = vertices.last();
        match paint_at(ops, mesh, settings, sample, vertex) {
            Some(paint) => before.insert(
                vertex,
                scalar::greatest(value_or(before, vertex, scalar::ZERO), paint),
            ),
            None => before,
        }
    }
}

/// How strongly passes paint together.
pub open spec fn painted<O: Arithmetic>(
    ops: &O,
    mesh: Mesh,
    settings: BrushSettings,
    passes: Seq<PreparedPass>,
) -> Map<u32, u32>
    decreases passes.len(),
{
    if passes.len() == 0 {
        Map::empty()
    } else {
        painted_by(
            ops,
            mesh,
            settings,
            passes.last().sample,
            passes.last().vertices@,
            painted(ops, mesh, settings, passes.drop_last()),
        )
    }
}

/// Whether a table names vertices only.
pub open spec fn names_vertices<T>(table: Map<u32, T>, vertex_count: nat) -> bool {
    forall|v: u32| #[trigger] table.contains_key(v) ==> v < vertex_count
}

proof fn lemma_painted_by<O: Arithmetic>(
    ops: &O,
    mesh: Mesh,
    settings: BrushSettings,
    sample: BrushSample,
    vertices: Seq<u32>,
    start: Map<u32, u32>,
)
    requires
        pass::all_vertices(vertices, mesh.positions@.len()),
        names_vertices(start, mesh.positions@.len()),
    ensures
        names_vertices(
            painted_by(ops, mesh, settings, sample, vertices, start),
            mesh.positions@.len(),
        ),
    decreases vertices.len(),
{
    if vertices.len() > 0 {
        let front = vertices.drop_last();
        assert forall|i: int| 0 <= i < front.len() implies #[trigger] front[i]
            < mesh.positions@.len() by {
            assert(vertices[i] == front[i]);
        }
        lemma_painted_by(ops, mesh, settings, sample, front, start);
        assert(vertices[vertices.len() - 1] < mesh.positions@.len());
    }
}

/// Passes paint on vertices only.
pub proof fn paint_is_on_vertices<O: Arithmetic>(
    ops: &O,
    mesh: Mesh,
    settings: BrushSettings,
    passes: Seq<PreparedPass>,
)
    requires
        pass::sound(passes, mesh.positions@.len()),
    ensures
        names_vertices(painted(ops, mesh, settings, passes), mesh.positions@.len()),
    decreases passes.len(),
{
    if passes.len() > 0 {
        let front = passes.drop_last();
        assert forall|i: int| 0 <= i < front.len() implies pass::all_vertices(
            (#[trigger] front[i]).vertices@,
            mesh.positions@.len(),
        ) && front[i].vertices@.no_duplicates() by {
            assert(front[i] == passes[i]);
        }
        paint_is_on_vertices(ops, mesh, settings, front);
        assert(pass::all_vertices(
            passes[passes.len() - 1].vertices@,
            mesh.positions@.len(),
        ));
        lemma_painted_by(
            ops,
            mesh,
            settings,
            passes.last().sample,
            passes.last().vertices@,
            painted(ops, mesh, settings, front),
        );
    }
}

/// Adds what a pass proposes, or how strongly it paints.
fn propose_pass<O: Arithmetic>(
    mesh: &Mesh,
    tool: SculptTool,
    settings: &BrushSettings,
    source: &Table<Point>,
    pass: &PreparedPass,
    frame: BrushFrame,
    proposals: &mut Table<ProposalAccumulator>,
    mask_influence: &mut Table<u32>,
    ops: &O,
)
    requires
        ops.total(),
        mesh.well_formed(),
        source.well_formed(),
        pass::holds_positions(*mesh, source@),
        pass::all_vertices(pass.vertices@, mesh.positions@.len()),
        pass.vertices@.no_duplicates(),
        forall|i: int|
            0 <= i < pass.vertices@.len() ==> source@.contains_key(#[trigger] pass.vertices@[i]),
        old(proposals).well_formed(),
        old(mask_influence).well_formed(),
        names_vertices(old(proposals)@, mesh.positions@.len()),
        names_vertices(old(mask_influence)@, mesh.positions@.len()),
    ensures
        final(proposals).well_formed(),
        final(mask_influence).well_formed(),
        names_vertices(final(proposals)@, mesh.positions@.len()),
        names_vertices(final(mask_influence)@, mesh.positions@.len()),
        tool != SculptTool::Mask ==> {
            &&& final(proposals)@ == gathered_by(
                ops,
                *mesh,
                tool,
                *settings,
                pass.sample,
                frame,
                smoothed_for(ops, *mesh, tool, pass.vertices@),
                pass.vertices@,
                old(proposals)@,
            )
            &&& final(mask_influence)@ == old(mask_influence)@
        },
        tool == SculptTool::Mask ==> {
            &&& final(mask_influence)@ == painted_by(
                ops,
                *mesh,
                *settings,
                pass.sample,
                pass.vertices@,
                old(mask_influence)@,
            )
            &&& final(proposals)@ == old(proposals)@
        },
{
    let strength = strength_of(ops, settings, &pass.sample);
    if scalar::is_at_most(strength, scalar::EPSILON) {
        proof {
            lemma_weak_pass(
                ops,
                *mesh,
                tool,
                *settings,
                pass.sample,
                frame,
                smoothed_for(ops, *mesh, tool, pass.vertices@),
                pass.vertices@,
                proposals@,
                mask_influence@,
            );
        }
        return;
    }
    let smoothed = if tool == SculptTool::Smooth {
        smooth::taubin_smooth_units(mesh, &pass.vertices, source, ops)
    } else {
        Table::new()
    };
    let ghost start = proposals@;
    let ghost start_masks = mask_influence@;
    let mut i: usize = 0;
    assert(pass.vertices@.take(0) =~= Seq::<u32>::empty());
    while i < pass.vertices.len()
        invariant
            i <= pass.vertices@.len(),
            ops.total(),
            mesh.well_formed(),
            source.well_formed(),
            pass::holds_positions(*mesh, source@),
            pass::all_vertices(pass.vertices@, mesh.positions@.len()),
            forall|k: int|
                0 <= k < pass.vertices@.len() ==> source@.contains_key(
                    #[trigger] pass.vertices@[k],
                ),
            strength == dab_strength(ops, *settings, pass.sample),
            !scalar::le(strength, scalar::EPSILON),
            smoothed.well_formed(),
            smoothed@ == smoothed_for(ops, *mesh, tool, pass.vertices@),
            proposals.well_formed(),
            mask_influence.well_formed(),
            names_vertices(proposals@, mesh.positions@.len()),
            names_vertices(mask_influence@, mesh.positions@.len()),
            tool != SculptTool::Mask ==> {
                &&& proposals@ == gathered_by(
                    ops,
                    *mesh,
                    tool,
                    *settings,
                    pass.sample,
                    frame,
                    smoothed@,
                    pass.vertices@.take(i as int),
                    start,
                )
                &&& mask_influence@ == start_masks
            },
            tool == SculptTool::Mask ==> {
                &&& mask_influence@ == painted_by(
                    ops,
                    *mesh,
                    *settings,
                    pass.sample,
                    pass.vertices@.take(i as int),
                    start_masks,
                )
                &&& proposals@ == start
            },
        decreases pass.vertices@.len() - i,
    {
        let vertex = pass.vertices[i];
        assert(pass.vertices@[i as int] < mesh.positions@.len());
        assert(source@.contains_key(pass.vertices@[i as int]));
        assert(pass.vertices@.take(i + 1).drop_last() =~= pass.vertices@.take(i as int));
        i += 1;
        let position = match source.get(vertex) {
            Some(position) => position,
            None => {
                continue;
            },
        };
        let weight = brush::brush_weight(settings, pass.sample.center, position, ops);
        if scalar::is_at_most(weight, scalar::EPSILON) {
            continue;
        }
        if tool == SculptTool::Mask {
            let before = match mask_influence.get(vertex) {
                Some(before) => before,
                None => scalar::ZERO,
            };
            mask_influence.insert(vertex, scalar::max(before, ops.product(strength, weight)));
            continue;
        }
        let influence = ops.product(ops.product(strength, weight), unmasked(ops, mesh, vertex));
        if scalar::is_at_most(influence, scalar::EPSILON) {
            continue;
        }
        let unit = match unit_displacement(
            ops,
            mesh,
            tool,
            settings,
            &pass.sample,
            frame,
            &smoothed,
            vertex,
            position,
        ) {
            Some(unit) => unit,
            None => {
                continue;
            },
        };
        if !unit.is_finite() || scalar::is_at_most(
            arithmetic::dot(ops, unit, unit),
            scalar::EPSILON_SQUARED,
        ) {
            continue;
        }
        let proposal = match proposals.get(vertex) {
            Some(proposal) => proposal,
            None => ProposalAccumulator {
                weighted_unit: Point { x: scalar::ZERO, y: scalar::ZERO, z: scalar::ZERO },
                influence_sum: scalar::ZERO,
                maximum_influence: scalar::ZERO,
            },
        };
        proposals.insert(
            vertex,
            ProposalAccumulator {
                weighted_unit: arithmetic::plus(
                    ops,
                    proposal.weighted_unit,
                    arithmetic::times(ops, unit, influence),
                ),
                influence_sum: ops.sum(proposal.influence_sum, influence),
                maximum_influence: scalar::max(proposal.maximum_influence, influence),
            },
        );
    }
    assert(pass.vertices@.take(i as int) =~= pass.vertices@);
}

proof fn lemma_weak_pass<O: Arithmetic>(
    ops: &O,
    mesh: Mesh,
    tool: SculptTool,
    settings: BrushSettings,
    sample: BrushSample,
    frame: BrushFrame,
    smoothed: Map<u32, Point>,
    vertices: Seq<u32>,
    start: Map<u32, ProposalAccumulator>,
    masks: Map<u32, u32>,
)
    requires
        scalar::le(dab_strength(ops, settings, sample), scalar::EPSILON),
    ensures
        gathered_by(ops, mesh, tool, settings, sample, frame, smoothed, vertices, start) == start,
        painted_by(ops, mesh, settings, sample, vertices, masks) == masks,
    decreases vertices.len(),
{
    if vertices.len() > 0 {
        lemma_weak_pass(
            ops,
            mesh,
            tool,
            settings,
            sample,
            frame,
            smoothed,
            vertices.drop_last(),
            start,
            masks,
        );
    }
}

/// What a capped stroke has done so far at each vertex, and what a sample is about to do. Without
/// an account nothing is capped.
pub struct SampleCoverage<'a> {
    pub committed: Option<&'a Table<u32>>,
    pub staged: Table<u32>,
}

/// The part of an influence that goes beyond what has been done.
pub open spec fn beyond<O: Arithmetic>(ops: &O, previous: u32, current: u32) -> u32 {
    if scalar::le(current, previous) {
        scalar::ZERO
    } else {
        ops.spec_difference(current, previous)
    }
}

/// What has been done and is about to be done at a vertex.
pub open spec fn done_at(committed: Map<u32, u32>, staged: Map<u32, u32>, vertex: u32) -> u32 {
    scalar::greatest(
        value_or(committed, vertex, scalar::ZERO),
        value_or(staged, vertex, scalar::ZERO),
    )
}

impl<'a> SampleCoverage<'a> {
    pub open spec fn well_formed(self) -> bool {
        &&& self.staged.well_formed()
        &&& self.committed matches Some(committed) ==> committed.well_formed()
    }

    /// The account, where one is kept.
    pub open spec fn account(self) -> Option<Map<u32, u32>> {
        match self.committed {
            Some(committed) => Some(committed@),
            None => None,
        }
    }

    /// Takes from an influence what has been done already, and remembers the influence.
    pub fn limited_influence<O: Arithmetic>(
        &mut self,
        vertex: u32,
        current: u32,
        ops: &O,
    ) -> (result: u32)
        requires
            ops.total(),
            old(self).well_formed(),
        ensures
            final(self).well_formed(),
            final(self).committed == old(self).committed,
            match old(self).account() {
                None => result == current && final(self).staged@ == old(self).staged@,
                Some(committed) => {
                    let previous = done_at(committed, old(self).staged@, vertex);
                    &&& result == beyond(ops, previous, current)
                    &&& final(self).staged@ == if scalar::le(current, previous) {
                        old(self).staged@
                    } else {
                        old(self).staged@.insert(vertex, current)
                    }
                },
            },
    {
        match self.committed {
            None => current,
            Some(committed) => {
                let done = match committed.get(vertex) {
                    Some(done) => done,
                    None => scalar::ZERO,
                };
                let about = match self.staged.get(vertex) {
                    Some(about) => about,
                    None => scalar::ZERO,
                };
                let previous = scalar::max(done, about);
                if scalar::is_at_most(current, previous) {
                    return scalar::ZERO;
                }
                self.staged.insert(vertex, current);
                ops.difference(current, previous)
            },
        }
    }
}

/// What is left of an influence for a vertex that a sample comes by for the first time.
pub open spec fn allowed<O: Arithmetic>(
    ops: &O,
    account: Option<Map<u32, u32>>,
    vertex: u32,
    current: u32,
) -> u32 {
    match account {
        None => current,
        Some(committed) => beyond(ops, done_at(committed, Map::empty(), vertex), current),
    }
}

/// Whether such an influence is remembered.
pub open spec fn remembered(account: Option<Map<u32, u32>>, vertex: u32, current: u32) -> bool {
    account matches Some(committed) && !scalar::le(
        current,
        done_at(committed, Map::empty(), vertex),
    )
}

/// Where proposals move a vertex.
pub open spec fn displacement<O: Arithmetic>(
    ops: &O,
    account: Option<Map<u32, u32>>,
    vertex: u32,
    proposal: ProposalAccumulator,
) -> Option<Point> {
    let influence = allowed(ops, account, vertex, proposal.maximum_influence);
    let step = arithmetic::spec_times(
        ops,
        arithmetic::spec_over(ops, proposal.weighted_unit, proposal.influence_sum),
        scalar::least(influence, scalar::ONE),
    );
    if scalar::le(proposal.influence_sum, scalar::EPSILON) || scalar::le(
        influence,
        scalar::EPSILON,
    ) {
        None
    } else if step.finite() && scalar::lt(
        scalar::EPSILON_SQUARED,
        arithmetic::spec_dot(ops, step, step),
    ) {
        Some(step)
    } else {
        None
    }
}

/// The moves that proposals come to.
pub open spec fn displacements<O: Arithmetic>(
    ops: &O,
    account: Option<Map<u32, u32>>,
    proposals: Map<u32, ProposalAccumulator>,
) -> Map<u32, Point> {
    Map::new(
        |v: u32|
            proposals.contains_key(v) && displacement(ops, account, v, proposals[v]) is Some,
        |v: u32| displacement(ops, account, v, proposals[v])->0,
    )
}

/// What the account is to remember of proposals.
pub open spec fn proposals_to_remember(
    account: Option<Map<u32, u32>>,
    proposals: Map<u32, ProposalAccumulator>,
) -> Map<u32, u32> {
    Map::new(
        |v: u32|
            proposals.contains_key(v) && !scalar::le(
                proposals[v].influence_sum,
                scalar::EPSILON,
            ) && remembered(account, v, proposals[v].maximum_influence),
        |v: u32| proposals[v].maximum_influence,
    )
}

/// What painting makes of the mask of a vertex.
pub open spec fn repainted<O: Arithmetic>(
    ops: &O,
    mesh: Mesh,
    account: Option<Map<u32, u32>>,
    inverted: bool,
    vertex: u32,
    paint: u32,
) -> u32 {
    scalar::clamped(
        ops.spec_sum(
            mesh.mask@[vertex as int],
            ops.spec_product(sign_of(inverted), allowed(ops, account, vertex, paint)),
        ),
        scalar::ZERO,
        scalar::ONE,
    )
}

/// The mask weights that painting changes.
pub open spec fn repaintings<O: Arithmetic>(
    ops: &O,
    mesh: Mesh,
    account: Option<Map<u32, u32>>,
    inverted: bool,
    paint: Map<u32, u32>,
) -> Map<u32, u32> {
    Map::new(
        |v: u32|
            paint.contains_key(v) && !scalar::same(
                repainted(ops, mesh, account, inverted, v, paint[v]),
                mesh.mask@[v as int],
            ),
        |v: u32| repainted(ops, mesh, account, inverted, v, paint[v]),
    )
}

/// What the account is to remember of paint.
pub open spec fn paint_to_remember(account: Option<Map<u32, u32>>, paint: Map<u32, u32>) -> Map<
    u32,
    u32,
> {
    Map::new(
        |v: u32| paint.contains_key(v) && remembered(account, v, paint[v]),
        |v: u32| paint[v],
    )
}

/// The changes that the passes of a sample come to.
pub struct ProposedEdits {
    pub positions: Table<Point>,
    pub masks: Table<u32>,
}

/// Whether the first of some passes is inverted.
pub open spec fn passes_inverted(settings: BrushSettings, passes: Seq<PreparedPass>) -> bool {
    settings.invert != (passes.len() > 0 && passes[0].sample.invert_modifier)
}

/// Works out the changes that the passes of a sample come to.
pub fn propose_passes<'a, O: Arithmetic>(
    mesh: &Mesh,
    tool: SculptTool,
    settings: &BrushSettings,
    source: &Table<Point>,
    passes: &Vec<PreparedPass>,
    frames: &Vec<BrushFrame>,
    coverage: &mut SampleCoverage<'a>,
    ops: &O,
) -> (result: ProposedEdits)
    requires
        ops.total(),
        mesh.well_formed(),
        source.well_formed(),
        pass::holds_positions(*mesh, source@),
        pass::sound(passes@, mesh.positions@.len()),
        forall|v: u32| #[trigger] pass::passed(passes@, v) ==> source@.contains_key(v),
        frames@.len() == passes@.len(),
        old(coverage).well_formed(),
        old(coverage).staged@ == Map::<u32, u32>::empty(),
    ensures
        result.positions.well_formed(),
        result.masks.well_formed(),
        names_vertices(result.positions@, mesh.positions@.len()),
        names_vertices(result.masks@, mesh.positions@.len()),
        final(coverage).well_formed(),
        final(coverage).committed == old(coverage).committed,
        tool != SculptTool::Mask ==> {
            let proposals = gathered(ops, *mesh, tool, *settings, passes@, frames@);
            &&& result.positions@ == displacements(ops, old(coverage).account(), proposals)
            &&& final(coverage).staged@ == proposals_to_remember(
                old(coverage).account(),
                proposals,
            )
            &&& result.masks@ == Map::<u32, u32>::empty()
        },
        tool == SculptTool::Mask ==> {
            let paint = painted(ops, *mesh, *settings, passes@);
            &&& result.masks@ == repaintings(
                ops,
                *mesh,
                old(coverage).account(),
                passes_inverted(*settings, passes@),
                paint,
            )
            &&& final(coverage).staged@ == paint_to_remember(old(coverage).account(), paint)
            &&& result.positions@ == Map::<u32, Point>::empty()
        },
{
    let mut proposals: Table<ProposalAccumulator> = Table::new();
    let mut paint: Table<u32> = Table::new();
    let mut p: usize = 0;
    while p < passes.len()
        invariant
            p <= passes@.len(),
            ops.total(),
            mesh.well_formed(),
            source.well_formed(),
            pass::holds_positions(*mesh, source@),
            pass::sound(passes@, mesh.positions@.len()),
            forall|v: u32| #[trigger] pass::passed(passes@, v) ==> source@.contains_key(v),
            frames@.len() == passes@.len(),
            proposals.well_formed(),
            paint.well_formed(),
            names_vertices(proposals@, mesh.positions@.len()),
            names_vertices(paint@, mesh.positions@.len()),
            tool != SculptTool::Mask ==> {
                &&& proposals@ == gathered(
                    ops,
                    *mesh,
                    tool,
                    *settings,
                    passes@.take(p as int),
                    frames@,
                )
                &&& paint@ == Map::<u32, u32>::empty()
            },
            tool == SculptTool::Mask ==> {
                &&& paint@ == painted(ops, *mesh, *settings, passes@.take(p as int))
                &&& proposals@ == Map::<u32, ProposalAccumulator>::empty()
            },
        decreases passes@.len() - p,
    {
        proof {
            let pass = passes@[p as int];
            assert(pass::all_vertices(pass.vertices@, mesh.positions@.len()));
            assert forall|i: int| 0 <= i < pass.vertices@.len() implies source@.contains_key(
                #[trigger] pass.vertices@[i],
            ) by {
                assert(passes@[p as int].vertices@.contains(pass.vertices@[i]));
                assert(pass::passed(passes@, pass.vertices@[i]));
            }
            assert(passes@.take(p + 1).drop_last() =~= passes@.take(p as int));
        }
        propose_pass(
            mesh,
            tool,
            settings,
            source,
            &passes[p],
            frames[p],
            &mut proposals,
            &mut paint,
            ops,
        );
        p += 1;
    }
    assert(passes@.take(p as int) =~= passes@);
    if tool == SculptTool::Mask {
        let inverted = settings.invert != (passes.len() > 0 && passes[0].sample.invert_modifier);
        let masks = repaint(mesh, inverted, &paint, coverage, ops);
        ProposedEdits { positions: Table::new(), masks }
    } else {
        let positions = displace(mesh, &proposals, coverage, ops);
        ProposedEdits { positions, masks: Table::new() }
    }
}

fn repaint<'a, O: Arithmetic>(
    mesh: &Mesh,
    inverted: bool,
    paint: &Table<u32>,
    coverage: &mut SampleCoverage<'a>,
    ops: &O,
) -> (result: Table<u32>)
    requires
        ops.total(),
        mesh.well_formed(),
        paint.well_formed(),
        names_vertices(paint@, mesh.positions@.len()),
        old(coverage).well_formed(),
        old(coverage).staged@ == Map::<u32, u32>::empty(),
    ensures
        result.well_formed(),
        names_vertices(result@, mesh.positions@.len()),
        result@ == repaintings(ops, *mesh, old(coverage).account(), inverted, paint@),
        final(coverage).well_formed(),
        final(coverage).committed == old(coverage).committed,
        final(coverage).staged@ == paint_to_remember(old(coverage).account(), paint@),
{
    let sign: u32 = if inverted {
        MINUS_ONE
    } else {
        scalar::ONE
    };
    let mut masks: Table<u32> = Table::new();
    let ghost account = coverage.account();
    let ghost wanted = repaintings(ops, *mesh, account, inverted, paint@);
    let ghost memory = paint_to_remember(account, paint@);
    proof {
        paint.order_names_the_indices();
    }
    let mut k: usize = 0;
    while k < paint.len()
        invariant
            k <= paint.order().len(),
            ops.total(),
            mesh.well_formed(),
            sign == sign_of(inverted),
            paint.well_formed(),
            paint.order().no_duplicates(),
            names_vertices(paint@, mesh.positions@.len()),
            coverage.well_formed(),
            coverage.committed == old(coverage).committed,
            account == old(coverage).account(),
            wanted == repaintings(ops, *mesh, account, inverted, paint@),
            memory == paint_to_remember(account, paint@),
            masks.well_formed(),
            forall|v: u32| #[trigger]
                masks@.contains_key(v) <==> paint.order().take(k as int).contains(v)
                    && wanted.contains_key(v),
            forall|v: u32| #[trigger] masks@.contains_key(v) ==> masks@[v] == wanted[v],
            forall|v: u32| #[trigger]
                coverage.staged@.contains_key(v) <==> paint.order().take(k as int).contains(v)
                    && memory.contains_key(v),
            forall|v: u32| #[trigger]
                coverage.staged@.contains_key(v) ==> coverage.staged@[v] == memory[v],
        decreases paint.order().len() - k,
    {
        let vertex = paint.key(k);
        let maximum = paint.value(k);
        proof {
            pass::lemma_take_contains(paint.order(), k as int);
            assert(!paint.order().take(k as int).contains(vertex));
            assert(!coverage.staged@.contains_key(vertex));
            assert(done_at(Map::empty(), coverage.staged@, vertex) == done_at(
                Map::empty(),
                Map::empty(),
                vertex,
            ));
        }
        let influence = coverage.limited_influence(vertex, maximum, ops);
        assert(influence == allowed(ops, account, vertex, maximum));
        assert(paint@.contains_key(vertex));
        let before = mesh.mask[vertex as usize];
        let next = scalar::clamp(
            ops.sum(before, ops.product(sign, influence)),
            scalar::ZERO,
            scalar::ONE,
        );
        assert(next == repainted(ops, *mesh, account, inverted, vertex, maximum));
        if !scalar::is_same(next, before) {
            masks.insert(vertex, next);
        }
        k += 1;
    }
    proof {
        paint.order_names_the_indices();
        assert(paint.order().take(k as int) =~= paint.order());
        assert forall|v: u32| #[trigger] masks@.contains_key(v) <==> wanted.contains_key(v) by {
            assert(paint.order().contains(v) <==> paint@.contains_key(v));
        }
        assert(masks@ =~= wanted);
        assert forall|v: u32| #[trigger]
            coverage.staged@.contains_key(v) <==> memory.contains_key(v) by {
            assert(paint.order().contains(v) <==> paint@.contains_key(v));
        }
        assert(coverage.staged@ =~= memory);
    }
    masks
}

fn displace<'a, O: Arithmetic>(
    mesh: &Mesh,
    proposals: &Table<ProposalAccumulator>,
    coverage: &mut SampleCoverage<'a>,
    ops: &O,
) -> (result: Table<Point>)
    requires
        ops.total(),
        proposals.well_formed(),
        names_vertices(proposals@, mesh.positions@.len()),
        old(coverage).well_formed(),
        old(coverage).staged@ == Map::<u32, u32>::empty(),
    ensures
        result.well_formed(),
        names_vertices(result@, mesh.positions@.len()),
        result@ == displacements(ops, old(coverage).account(), proposals@),
        final(coverage).well_formed(),
        final(coverage).committed == old(coverage).committed,
        final(coverage).staged@ == proposals_to_remember(old(coverage).account(), proposals@),
{
    let mut positions: Table<Point> = Table::new();
    let ghost account = coverage.account();
    let ghost wanted = displacements(ops, account, proposals@);
    let ghost memory = proposals_to_remember(account, proposals@);
    proof {
        proposals.order_names_the_indices();
    }
    let mut k: usize = 0;
    while k < proposals.len()
        invariant
            k <= proposals.order().len(),
            ops.total(),
            proposals.well_formed(),
            proposals.order().no_duplicates(),
            names_vertices(proposals@, mesh.positions@.len()),
            coverage.well_formed(),
            coverage.committed == old(coverage).committed,
            account == old(coverage).account(),
            wanted == displacements(ops, account, proposals@),
            memory == proposals_to_remember(account, proposals@),
            positions.well_formed(),
            forall|v: u32| #[trigger]
                positions@.contains_key(v) <==> proposals.order().take(k as int).contains(v)
                    && wanted.contains_key(v),
            forall|v: u32| #[trigger] positions@.contains_key(v) ==> positions@[v] == wanted[v],
            forall|v: u32| #[trigger]
                coverage.staged@.contains_key(v) <==> proposals.order().take(k as int).contains(v)
                    && memory.contains_key(v),
            forall|v: u32| #[trigger]
                coverage.staged@.contains_key(v) ==> coverage.staged@[v] == memory[v],
        decreases proposals.order().len() - k,
    {
        let vertex = proposals.key(k);
        let proposal = proposals.value(k);
        proof {
            pass::lemma_take_contains(proposals.order(), k as int);
            assert(!proposals.order().take(k as int).contains(vertex));
            assert(!coverage.staged@.contains_key(vertex));
        }
        k += 1;
        if scalar::is_at_most(proposal.influence_sum, scalar::EPSILON) {
            continue;
        }
        let influence = coverage.limited_influence(vertex, proposal.maximum_influence, ops);
        assert(influence == allowed(ops, account, vertex, proposal.maximum_influence));
        if scalar::is_at_most(influence, scalar::EPSILON) {
            continue;
        }
        let unit = arithmetic::over(ops, proposal.weighted_unit, proposal.influence_sum);
        let step = arithmetic::times(ops, unit, scalar::min(influence, scalar::ONE));
        if step.is_finite() && scalar::is_less(
            scalar::EPSILON_SQUARED,
            arithmetic::dot(ops, step, step),
        ) {
            positions.insert(vertex, step);
        }
    }
    proof {
        proposals.order_names_the_indices();
        assert(proposals.order().take(k as int) =~= proposals.order());
        assert forall|v: u32| #[trigger] positions@.contains_key(v) <==> wanted.contains_key(v) by {
            assert(proposals.order().contains(v) <==> proposals@.contains_key(v));
        }
        assert(positions@ =~= wanted);
        assert forall|v: u32| #[trigger]
            coverage.staged@.contains_key(v) <==> memory.contains_key(v) by {
            assert(proposals.order().contains(v) <==> proposals@.contains_key(v));
        }
        assert(coverage.staged@ =~= memory);
    }
    positions
}

/// Where a part of a move takes a vertex.
pub open spec fn moved_by<O: Arithmetic>(
    ops: &O,
    mesh: Mesh,
    vertex: u32,
    step: Point,
    scale: u32,
) -> Point {
    arithmetic::spec_plus(
        ops,
        mesh.positions@[vertex as int],
        arithmetic::spec_times(ops, step, scale),
    )
}

/// The places that parts of moves take vertices to, without the vertices that stay.
pub open spec fn candidates<O: Arithmetic>(
    ops: &O,
    mesh: Mesh,
    moves: Map<u32, Point>,
    scale: u32,
) -> Map<u32, Point> {
    Map::new(
        |v: u32|
            moves.contains_key(v) && !moved_by(ops, mesh, v, moves[v], scale).same(
                mesh.positions@[v as int],
            ),
        |v: u32| moved_by(ops, mesh, v, moves[v], scale),
    )
}

pub fn candidate_positions<O: Arithmetic>(
    mesh: &Mesh,
    moves: &Table<Point>,
    scale: u32,
    ops: &O,
) -> (result: Table<Point>)
    requires
        ops.total(),
        moves.well_formed(),
        names_vertices(moves@, mesh.positions@.len()),
    ensures
        result.well_formed(),
        result@ == candidates(ops, *mesh, moves@, scale),
        names_vertices(result@, mesh.positions@.len()),
{
    let mut result: Table<Point> = Table::new();
    let ghost wanted = candidates(ops, *mesh, moves@, scale);
    proof {
        moves.order_names_the_indices();
    }
    let mut k: usize = 0;
    while k < moves.len()
        invariant
            k <= moves.order().len(),
            ops.total(),
            moves.well_formed(),
            names_vertices(moves@, mesh.positions@.len()),
            wanted == candidates(ops, *mesh, moves@, scale),
            result.well_formed(),
            forall|v: u32| #[trigger]
                result@.contains_key(v) <==> moves.order().take(k as int).contains(v)
                    && wanted.contains_key(v),
            forall|v: u32| #[trigger] result@.contains_key(v) ==> result@[v] == wanted[v],
        decreases moves.order().len() - k,
    {
        let vertex = moves.key(k);
        let step = moves.value(k);
        proof {
            pass::lemma_take_contains(moves.order(), k as int);
            assert(moves@.contains_key(vertex));
        }
        let before = mesh.positions[vertex as usize];
        let next = arithmetic::plus(ops, before, arithmetic::times(ops, step, scale));
        if !next.is_same(&before) {
            result.insert(vertex, next);
        }
        k += 1;
    }
    proof {
        moves.order_names_the_indices();
        assert(moves.order().take(k as int) =~= moves.order());
        assert forall|v: u32| #[trigger] result@.contains_key(v) <==> wanted.contains_key(v) by {
            assert(moves.order().contains(v) <==> moves@.contains_key(v));
        }
        assert(result@ =~= wanted);
    }
    result
}

proof fn lemma_gathered_by<O: Arithmetic>(
    ops: &O,
    mesh: Mesh,
    tool: SculptTool,
    settings: BrushSettings,
    sample: BrushSample,
    frame: BrushFrame,
    smoothed: Map<u32, Point>,
    vertices: Seq<u32>,
    start: Map<u32, ProposalAccumulator>,
    vertex: u32,
)
    requires
        gathered_by(
            ops,
            mesh,
            tool,
            settings,
            sample,
            frame,
            smoothed,
            vertices,
            start,
        ).contains_key(vertex),
    ensures
        start.contains_key(vertex) || (vertices.contains(vertex) && contribution(
            ops,
            mesh,
            tool,
            settings,
            sample,
            frame,
            smoothed,
            vertex,
        ) is Some),
    decreases vertices.len(),
{
    if vertices.len() > 0 {
        let front = vertices.drop_last();
        let before = gathered_by(
            ops,
            mesh,
            tool,
            settings,
            sample,
            frame,
            smoothed,
            front,
            start,
        );
        if before.contains_key(vertex) {
            lemma_gathered_by(
                ops,
                mesh,
                tool,
                settings,
                sample,
                frame,
                smoothed,
                front,
                start,
                vertex,
            );
            if front.contains(vertex) {
                let i = choose|i: int| 0 <= i < front.len() && front[i] == vertex;
                assert(vertices[i] == vertex);
            }
        } else {
            assert(vertices[vertices.len() - 1] == vertex);
        }
    }
}

/// Passes propose something only for the vertices that they reach and work on.
pub proof fn passes_work_on_what_they_reach<O: Arithmetic>(
    ops: &O,
    mesh: Mesh,
    tool: SculptTool,
    settings: BrushSettings,
    passes: Seq<PreparedPass>,
    frames: Seq<BrushFrame>,
    vertex: u32,
)
    requires
        gathered(ops, mesh, tool, settings, passes, frames).contains_key(vertex),
    ensures
        exists|i: int|
            0 <= i < passes.len() && (#[trigger] passes[i]).vertices@.contains(vertex)
                && !scalar::le(
                influence_at(ops, mesh, settings, passes[i].sample, vertex),
                scalar::EPSILON,
            ),
    decreases passes.len(),
{
    if passes.len() > 0 {
        let last = passes.last();
        let front = passes.drop_last();
        lemma_gathered_by(
            ops,
            mesh,
            tool,
            settings,
            last.sample,
            frames[passes.len() - 1],
            smoothed_for(ops, mesh, tool, last.vertices@),
            last.vertices@,
            gathered(ops, mesh, tool, settings, front, frames),
            vertex,
        );
        if gathered(ops, mesh, tool, settings, front, frames).contains_key(vertex) {
            passes_work_on_what_they_reach(ops, mesh, tool, settings, front, frames, vertex);
            let i = choose|i: int|
                0 <= i < front.len() && (#[trigger] front[i]).vertices@.contains(vertex)
                    && !scalar::le(
                    influence_at(ops, mesh, settings, front[i].sample, vertex),
                    scalar::EPSILON,
                );
            assert(passes[i] == front[i]);
        } else {
            assert(passes[passes.len() - 1] == last);
        }
    }
}

/// A vertex that is masked entirely is not moved, whatever the tool, where an influence that is
/// left nothing of is none.
pub proof fn a_masked_vertex_is_not_moved<O: Arithmetic>(
    ops: &O,
    mesh: Mesh,
    tool: SculptTool,
    settings: BrushSettings,
    passes: Seq<PreparedPass>,
    frames: Seq<BrushFrame>,
    account: Option<Map<u32, u32>>,
    vertex: u32,
)
    requires
        mesh.mask@[vertex as int] == scalar::ONE,
        forall|influence: u32|
            scalar::le(
                #[trigger] ops.spec_product(
                    influence,
                    ops.spec_difference(scalar::ONE, scalar::ONE),
                ),
                scalar::EPSILON,
            ),
    ensures
        !displacements(
            ops,
            account,
            gathered(ops, mesh, tool, settings, passes, frames),
        ).contains_key(vertex),
{
    let proposals = gathered(ops, mesh, tool, settings, passes, frames);
    if proposals.contains_key(vertex) {
        passes_work_on_what_they_reach(ops, mesh, tool, settings, passes, frames, vertex);
        let i = choose|i: int|
            0 <= i < passes.len() && (#[trigger] passes[i]).vertices@.contains(vertex)
                && !scalar::le(
                influence_at(ops, mesh, settings, passes[i].sample, vertex),
                scalar::EPSILON,
            );
        assert(unmasked_at(ops, mesh, vertex) == ops.spec_difference(scalar::ONE, scalar::ONE));
    }
}

/// What a capped stroke has done at a vertex counts against any influence that is no stronger.
pub proof fn a_capped_influence_counts_once<O: Arithmetic>(
    ops: &O,
    committed: Map<u32, u32>,
    vertex: u32,
    done: u32,
    current: u32,
)
    requires
        committed.contains_key(vertex),
        committed[vertex] == done,
        scalar::le(current, done),
    ensures
        allowed(ops, Some(committed), vertex, current) == scalar::ZERO,
        !remembered(Some(committed), vertex, current),
{
}

} // verus!
