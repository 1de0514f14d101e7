//! Strokes: what the samples of a tool do to a mesh.
use crate::arithmetic;
use crate::arithmetic::Arithmetic;
use crate::brush::Accumulation;
use crate::brush::BrushSample;
use crate::brush::BrushSettings;
use crate::brush::CHANNEL_COUNT;
use crate::brush::CoverageChannel;
use crate::brush::DabKind;
use crate::brush::SculptTool;
use crate::brush::SymmetryAxis;
use crate::candidate;
use crate::collections;
use crate::deform;
use crate::edit::LocalEdit;
use crate::frame;
use crate::frame::BrushFrame;
use crate::geometry::Geometry;
use crate::mesh::Mesh;
use crate::pass;
use crate::pass::PassSide;
use crate::pass::PreparedPass;
use crate::proposal;
use crate::proposal::SampleCoverage;
use crate::query;
use crate::region::VertexTraversalScratch;
use crate::scalar;
use crate::scalar::Point;
use crate::table::Table;
use vstd::prelude::*;

verus! {

pub const SAMPLE_REJECTED: &'static str =
    "Sculpt sample rejected an invalid local mesh update; no safe partial step was available";

pub const GRAB_REJECTED: &'static str =
    "Grab could not find a safe deformation step; move the pointer back toward the anchored region";

/// A vertex held by Grab: where it was when it was taken hold of, and how strongly it is held on
/// either side.
#[derive(Clone, Copy, Debug, PartialEq, Eq, Structural)]
pub struct GrabVertex {
    pub base: Point,
    pub primary_influence: u32,
    pub mirrored_influence: u32,
}

/// What Grab holds, and how far it has been asked to move it.
pub struct GrabState {
    pub vertices: Table<GrabVertex>,
    pub desired_delta: Point,
    pub symmetry: Option<SymmetryAxis>,
}

/// An active stroke: the values that it has changed as they were before it, what it has done at
/// each vertex for each account, and the planes that it keeps.
pub struct StrokeState {
    pub symmetry_center: Point,
    pub mirrored_seed: Option<u32>,
    pub positions: Table<Point>,
    pub masks: Table<u32>,
    pub coverage: Vec<Table<u32>>,
    pub planes: Table<BrushFrame>,
    pub density_checked: bool,
    pub warning: Option<String>,
    pub grab: Option<GrabState>,
}

impl StrokeState {
    pub open spec fn well_formed(self) -> bool {
        &&& self.positions.well_formed()
        &&& self.masks.well_formed()
        &&& self.coverage@.len() == CHANNEL_COUNT
        &&& forall|i: int| 0 <= i < CHANNEL_COUNT ==> (#[trigger] self.coverage@[i]).well_formed()
        &&& self.planes.well_formed()
        &&& self.grab matches Some(grab) ==> grab.vertices.well_formed()
    }
}

/// Whether a stroke remembers what was before it: the values of all vertices as they were are the
/// remembered ones, and for the rest those of the mesh.
pub open spec fn tracks(
    stroke: StrokeState,
    positions: Seq<Point>,
    mask: Seq<u32>,
    mesh: Mesh,
) -> bool {
    &&& positions.len() == mesh.positions@.len()
    &&& mask.len() == mesh.mask@.len()
    &&& proposal::names_vertices(stroke.positions@, positions.len())
    &&& proposal::names_vertices(stroke.masks@, mask.len())
    &&& forall|v: int|
        0 <= v < positions.len() ==> #[trigger] positions[v] == proposal::value_or(
            stroke.positions@,
            v as u32,
            mesh.positions@[v],
        )
    &&& forall|v: int|
        0 <= v < mask.len() ==> #[trigger] mask[v] == proposal::value_or(
            stroke.masks@,
            v as u32,
            mesh.mask@[v],
        )
}

/// What a stroke has changed, and a warning about its brush.
#[derive(Debug)]
pub struct StrokeOutcome {
    pub edit: LocalEdit,
    pub warning: Option<String>,
}

/// Applies strokes to a mesh, one at a time.
pub struct SculptEngine {
    pub active: Option<StrokeState>,
    pub symmetry_center: Option<Point>,
    pub traversal: VertexTraversalScratch,
    pub updated_vertices: Vec<u32>,
    pub error: Option<String>,
    pub sample_committed: bool,
}

/// The middle of a mesh, or the origin.
pub open spec fn middle_of<O: Arithmetic>(ops: &O, mesh: Mesh) -> Point {
    match query::bounds_of(mesh.positions@) {
        Some((min, max)) => arithmetic::spec_times(
            ops,
            arithmetic::spec_plus(ops, min, max),
            scalar::HALF,
        ),
        None => arithmetic::origin(),
    }
}

fn middle<O: Arithmetic>(mesh: &Mesh, ops: &O) -> (result: Point)
    requires
        ops.total(),
    ensures
        result == middle_of(ops, *mesh),
{
    match mesh.bounds() {
        Some((min, max)) => arithmetic::times(ops, arithmetic::plus(ops, min, max), scalar::HALF),
        None => Point { x: scalar::ZERO, y: scalar::ZERO, z: scalar::ZERO },
    }
}

/// The values remembered, with those that are about to change for the first time.
pub open spec fn with_first<T>(kept: Map<u32, T>, changed: Map<u32, T>, before: Seq<T>) -> Map<
    u32,
    T,
> {
    Map::new(
        |v: u32| kept.contains_key(v) || changed.contains_key(v),
        |v: u32|
            if kept.contains_key(v) {
                kept[v]
            } else {
                before[v as int]
            },
    )
}

pub(crate) fn remember<T: Copy>(kept: &mut Table<T>, changed: &Table<T>, before: &Vec<T>)
    requires
        old(kept).well_formed(),
        changed.well_formed(),
        proposal::names_vertices(changed@, before@.len()),
    ensures
        final(kept).well_formed(),
        final(kept)@ == with_first(old(kept)@, changed@, before@),
{
    let ghost start = kept@;
    let ghost wanted = with_first(start, changed@, before@);
    proof {
        changed.order_names_the_indices();
    }
    let mut k: usize = 0;
    while k < changed.len()
        invariant
            k <= changed.order().len(),
            changed.well_formed(),
            proposal::names_vertices(changed@, before@.len()),
            wanted == with_first(start, changed@, before@),
            kept.well_formed(),
            forall|v: u32| #[trigger]
                kept@.contains_key(v) <==> start.contains_key(v) || changed.order().take(
                    k as int,
                ).contains(v),
            forall|v: u32| #[trigger] kept@.contains_key(v) ==> kept@[v] == wanted[v],
        decreases changed.order().len() - k,
    {
        let vertex = changed.key(k);
        let value = changed.value(k);
        assert(changed@.contains_key(vertex));
        proof {
            pass::lemma_take_contains(changed.order(), k as int);
        }
        if kept.get(vertex).is_none() {
            kept.insert(vertex, before[vertex as usize]);
        }
        k += 1;
    }
    proof {
        changed.order_names_the_indices();
        assert(changed.order().take(k as int) =~= changed.order());
        assert forall|v: u32| #[trigger] kept@.contains_key(v) <==> wanted.contains_key(v) by {
            assert(changed.order().contains(v) <==> changed@.contains_key(v));
        }
        assert(kept@ =~= wanted);
    }
}

/// An account with the influences of a sample, each at its largest.
pub open spec fn covered(account: Map<u32, u32>, staged: Map<u32, u32>) -> Map<u32, u32> {
    Map::new(
        |v: u32| account.contains_key(v) || staged.contains_key(v),
        |v: u32|
            if staged.contains_key(v) {
                scalar::greatest(proposal::value_or(account, v, scalar::ZERO), staged[v])
            } else {
                account[v]
            },
    )
}

fn commit_coverage(account: &mut Table<u32>, staged: &Table<u32>)
    requires
        old(account).well_formed(),
        staged.well_formed(),
    ensures
        final(account).well_formed(),
        final(account)@ == covered(old(account)@, staged@),
{
    let ghost start = account@;
    let ghost wanted = covered(start, staged@);
    proof {
        staged.order_names_the_indices();
    }
    let mut k: usize = 0;
    while k < staged.len()
        invariant
            k <= staged.order().len(),
            staged.well_formed(),
            staged.order().no_duplicates(),
            wanted == covered(start, staged@),
            account.well_formed(),
            forall|v: u32| #[trigger]
                account@.contains_key(v) <==> start.contains_key(v) || staged.order().take(
                    k as int,
                ).contains(v),
            forall|v: u32| #[trigger]
                account@.contains_key(v) ==> account@[v] == if staged.order().take(
                    k as int,
                ).contains(v) {
                    wanted[v]
                } else {
                    start[v]
                },
        decreases staged.order().len() - k,
    {
        let vertex = staged.key(k);
        let influence = staged.value(k);
        proof {
            pass::lemma_take_contains(staged.order(), k as int);
            assert(!staged.order().take(k as int).contains(vertex));
        }
        let maximum = match account.get(vertex) {
            Some(maximum) => maximum,
            None => scalar::ZERO,
        };
        account.insert(vertex, scalar::max(maximum, influence));
        k += 1;
    }
    proof {
        staged.order_names_the_indices();
        assert(staged.order().take(k as int) =~= staged.order());
        assert forall|v: u32| #[trigger] account@.contains_key(v) <==> wanted.contains_key(v) by {
            assert(staged.order().contains(v) <==> staged@.contains_key(v));
        }
        assert forall|v: u32| #[trigger] account@.contains_key(v) implies account@[v]
            == wanted[v] by {
            assert(staged.order().contains(v) <==> staged@.contains_key(v));
        }
        assert(account@ =~= wanted);
    }
}

/// An account moved toward the influences of a sample, as far as the sample was carried out.
pub open spec fn covered_in_part<O: Arithmetic>(
    ops: &O,
    account: Map<u32, u32>,
    staged: Map<u32, u32>,
    scale: u32,
) -> Map<u32, u32> {
    Map::new(
        |v: u32| account.contains_key(v) || staged.contains_key(v),
        |v: u32|
            if staged.contains_key(v) {
                let previous = proposal::value_or(account, v, scalar::ZERO);
                ops.spec_sum(
                    previous,
                    ops.spec_product(
                        scalar::greatest(ops.spec_difference(staged[v], previous), scalar::ZERO),
                        scale,
                    ),
                )
            } else {
                account[v]
            },
    )
}

fn commit_coverage_scaled<O: Arithmetic>(
    account: &mut Table<u32>,
    staged: &Table<u32>,
    scale: u32,
    ops: &O,
)
    requires
        ops.total(),
        old(account).well_formed(),
        staged.well_formed(),
    ensures
        final(account).well_formed(),
        final(account)@ == covered_in_part(ops, old(account)@, staged@, scale),
{
    let ghost start = account@;
    let ghost wanted = covered_in_part(ops, start, staged@, scale);
    proof {
        staged.order_names_the_indices();
    }
    let mut k: usize = 0;
    while k < staged.len()
        invariant
            k <= staged.order().len(),
            ops.total(),
            staged.well_formed(),
            staged.order().no_duplicates(),
            wanted == covered_in_part(ops, start, staged@, scale),
            account.well_formed(),
            forall|v: u32| #[trigger]
                account@.contains_key(v) <==> start.contains_key(v) || staged.order().take(
                    k as int,
                ).contains(v),
            forall|v: u32| #[trigger]
                account@.contains_key(v) ==> account@[v] == if staged.order().take(
                    k as int,
                ).contains(v) {
                    wanted[v]
                } else {
                    start[v]
                },
        decreases staged.order().len() - k,
    {
        let vertex = staged.key(k);
        let requested = staged.value(k);
        proof {
            pass::lemma_take_contains(staged.order(), k as int);
            assert(!staged.order().take(k as int).contains(vertex));
        }
        let previous = match account.get(vertex) {
            Some(previous) => previous,
            None => scalar::ZERO,
        };
        let more = scalar::max(ops.difference(requested, previous), scalar::ZERO);
        account.insert(vertex, ops.sum(previous, ops.product(more, scale)));
        k += 1;
    }
    proof {
        staged.order_names_the_indices();
        assert(staged.order().take(k as int) =~= staged.order());
        assert forall|v: u32| #[trigger] account@.contains_key(v) <==> wanted.contains_key(v) by {
            assert(staged.order().contains(v) <==> staged@.contains_key(v));
        }
        assert forall|v: u32| #[trigger] account@.contains_key(v) implies account@[v]
            == wanted[v] by {
            assert(staged.order().contains(v) <==> staged@.contains_key(v));
        }
        assert(account@ =~= wanted);
    }
}

fn commit_planes(planes: &mut Table<BrushFrame>, staged: &Table<BrushFrame>)
    requires
        old(planes).well_formed(),
        staged.well_formed(),
    ensures
        final(planes).well_formed(),
        final(planes)@ == old(planes)@.union_prefer_right(staged@),
{
    let ghost start = planes@;
    let ghost wanted = start.union_prefer_right(staged@);
    proof {
        staged.order_names_the_indices();
    }
    let mut k: usize = 0;
    while k < staged.len()
        invariant
            k <= staged.order().len(),
            staged.well_formed(),
            staged.order().no_duplicates(),
            wanted == start.union_prefer_right(staged@),
            planes.well_formed(),
            forall|v: u32| #[trigger]
                planes@.contains_key(v) <==> start.contains_key(v) || staged.order().take(
                    k as int,
                ).contains(v),
            forall|v: u32| #[trigger]
                planes@.contains_key(v) ==> planes@[v] == if staged.order().take(
                    k as int,
                ).contains(v) {
                    wanted[v]
                } else {
                    start[v]
                },
        decreases staged.order().len() - k,
    {
        let channel = staged.key(k);
        let frame = staged.value(k);
        proof {
            pass::lemma_take_contains(staged.order(), k as int);
        }
        planes.insert(channel, frame);
        k += 1;
    }
    proof {
        staged.order_names_the_indices();
        assert(staged.order().take(k as int) =~= staged.order());
        assert forall|v: u32| #[trigger] planes@.contains_key(v) <==> wanted.contains_key(v) by {
            assert(staged.order().contains(v) <==> staged@.contains_key(v));
        }
        assert forall|v: u32| #[trigger] planes@.contains_key(v) implies planes@[v]
            == wanted[v] by {
            assert(staged.order().contains(v) <==> staged@.contains_key(v));
        }
        assert(planes@ =~= wanted);
    }
}

/// Whether a list names the vertices of a table, each once.
pub open spec fn names<T>(vertices: Seq<u32>, table: Map<u32, T>) -> bool {
    &&& vertices.no_duplicates()
    &&& forall|v: u32| #[trigger] table.contains_key(v) <==> vertices.contains(v)
}

/// Whether a mesh has been brought up to date after vertices took new places: it is the same but
/// for their positions and the normals and boxes around them.
pub open spec fn relocated<G: Geometry>(
    geometry: &G,
    before: Mesh,
    after: Mesh,
    places: Map<u32, Point>,
    changed: Seq<u32>,
) -> bool {
    &&& after.well_formed()
    &&& after.positions@ == candidate::replaced(before.positions@, places)
    &&& after.triangles == before.triangles
    &&& after.mask == before.mask
    &&& before.topology.bvh.fits(before.positions@, before.triangles@)
        ==> after.topology.bvh.fits(after.positions@, after.triangles@)
    &&& exists|between: Mesh, moved: Seq<u32>, refreshed: Seq<u32>| #[trigger]
        deform::updated(geometry, between, after, moved, refreshed) && {
            &&& between.positions@ == after.positions@
            &&& between.triangles == before.triangles
            &&& between.normals == before.normals
            &&& between.mask == before.mask
            &&& between.topology == before.topology
            &&& names(moved, places)
            &&& collections::strictly_ascending(changed)
            &&& forall|v: u32| #[trigger]
                changed.contains(v) <==> refreshed.contains(v) || places.contains_key(v)
        }
}

pub(crate) fn relocate<G: Geometry>(mesh: &mut Mesh, places: &Table<Point>, geometry: &G) -> (result: Vec<u32>)
    requires
        geometry.total(),
        old(mesh).well_formed(),
        places.well_formed(),
        proposal::names_vertices(places@, old(mesh).positions@.len()),
    ensures
        relocated(geometry, *old(mesh), *final(mesh), places@, result@),
{
    let ghost before = *mesh;
    proof {
        places.order_names_the_indices();
    }
    let moved = places.keys();
    candidate::replace(&mut mesh.positions, places);
    let ghost between = *mesh;
    let mut changed = mesh.update_deformed_vertices(&moved, geometry);
    let ghost refreshed = changed@;
    proof {
        if before.topology.bvh.fits(before.positions@, before.triangles@) {
            assert forall|v: int|
                0 <= v < before.positions@.len() && !moved@.contains(
                    v as u32,
                ) implies #[trigger] between.positions@[v] == before.positions@[v] by {
                assert(!places@.contains_key(v as u32));
            }
            deform::moving_vertices_unsettles_only_the_faces_around_them(before, between, moved@);
        }
    }
    let mut k: usize = 0;
    while k < moved.len()
        invariant
            k <= moved@.len(),
            changed@ == refreshed + moved@.take(k as int),
        decreases moved@.len() - k,
    {
        changed.push(moved[k]);
        assert(moved@.take(k + 1) =~= moved@.take(k as int).push(moved@[k as int]));
        assert(changed@ =~= refreshed + moved@.take(k + 1));
        k += 1;
    }
    assert(moved@.take(k as int) =~= moved@);
    let ghost listed = changed@;
    collections::sort_and_dedup(&mut changed);
    proof {
        assert forall|v: u32| #[trigger] changed@.contains(v) <==> refreshed.contains(v)
            || places@.contains_key(v) by {
            collections::concat_contains(refreshed, moved@, v);
            assert(listed.contains(v) <==> changed@.contains(v));
            assert(places@.contains_key(v) <==> moved@.contains(v));
        }
        assert(deform::updated(geometry, between, *mesh, moved@, refreshed));
    }
    changed
}

/// What is asked of a sample.
#[derive(Clone, Copy, Debug, PartialEq, Eq, Structural)]
pub struct SampleRequest {
    pub tool: SculptTool,
    pub settings: BrushSettings,
    pub sample: BrushSample,
    pub dab_kind: DabKind,
}

/// Whether a sample can do anything: there is a mesh, and the brush has a size, a strength, a
/// place and a pressure.
pub open spec fn acceptable(mesh: Mesh, request: SampleRequest) -> bool {
    let settings = request.settings;
    let sample = request.sample;
    &&& mesh.positions@.len() > 0
    &&& scalar::finite(settings.radius) && !scalar::le(settings.radius, scalar::EPSILON)
    &&& scalar::finite(settings.strength) && !scalar::le(
        scalar::magnitude(settings.strength) as u32,
        scalar::EPSILON,
    )
    &&& sample.center.finite() && sample.normal.finite() && sample.view_direction.finite()
    &&& scalar::finite(sample.pressure) && !scalar::le(
        scalar::clamped(sample.pressure, scalar::ZERO, scalar::ONE),
        scalar::ZERO,
    )
}

fn is_acceptable(mesh: &Mesh, request: &SampleRequest) -> (result: bool)
    ensures
        result == acceptable(*mesh, *request),
{
    let settings = &request.settings;
    let sample = &request.sample;
    mesh.positions.len() > 0 && scalar::is_finite(settings.radius) && !scalar::is_at_most(
        settings.radius,
        scalar::EPSILON,
    ) && scalar::is_finite(settings.strength) && !scalar::is_at_most(
        scalar::absolute(settings.strength),
        scalar::EPSILON,
    ) && sample.center.is_finite() && sample.normal.is_finite()
        && sample.view_direction.is_finite() && scalar::is_finite(sample.pressure)
        && !scalar::is_at_most(
        scalar::clamp(sample.pressure, scalar::ZERO, scalar::ONE),
        scalar::ZERO,
    )
}

/// The face under the mirror image of a sample: the one of the sample before if it is still near,
/// else the nearest.
pub open spec fn mirrored_seed<O: Arithmetic>(
    ops: &O,
    mesh: Mesh,
    stroke: StrokeState,
    request: SampleRequest,
) -> Option<u32> {
    match request.settings.symmetry {
        None => None,
        Some(axis) => {
            let center = axis.spec_reflect_point(
                ops,
                request.sample.center,
                stroke.symmetry_center,
            );
            if stroke.mirrored_seed is Some && pass::near(
                ops,
                mesh,
                stroke.mirrored_seed->0,
                center,
                request.settings.radius,
            ) {
                stroke.mirrored_seed
            } else {
                query::nearest_face(mesh, ops, center)
            }
        },
    }
}

/// A sample over the face that is nearest to its center, where there is one.
pub open spec fn reseeded<O: Arithmetic>(
    ops: &O,
    mesh: Mesh,
    sample: BrushSample,
) -> BrushSample {
    match query::nearest_face(mesh, ops, sample.center) {
        Some(seed_triangle) => BrushSample { seed_triangle, ..sample },
        None => sample,
    }
}

/// A sample and, where the stroke is mirrored, its mirror image.
pub open spec fn samples_of<O: Arithmetic>(
    ops: &O,
    mesh: Mesh,
    stroke: StrokeState,
    request: SampleRequest,
) -> Seq<BrushSample> {
    let primary = reseeded(ops, mesh, request.sample);
    match mirrored_seed(ops, mesh, stroke, request) {
        Some(seed) => seq![
            primary,
            reseeded(ops, mesh,
                request.sample.spec_reflected(
                    ops,
                    request.settings.symmetry->0,
                    stroke.symmetry_center,
                    seed,
                ),
            ),
        ],
        None => seq![primary],
    }
}

pub open spec fn side_of(i: int) -> PassSide {
    if i == 0 {
        PassSide::Primary
    } else {
        PassSide::Mirrored
    }
}

/// Whether passes are those of some samples.
pub open spec fn passes_of<O: Arithmetic>(
    ops: &O,
    mesh: Mesh,
    samples: Seq<BrushSample>,
    radius: u32,
    passes: Seq<PreparedPass>,
) -> bool {
    &&& passes.len() == samples.len()
    &&& forall|i: int|
        0 <= i < passes.len() ==> pass::prepared(
            ops,
            mesh,
            samples[i],
            radius,
            side_of(i),
            #[trigger] passes[i],
        )
}

fn reseed<O: Arithmetic>(
    ops: &O,
    mesh: &Mesh,
    sample: BrushSample,
) -> (result: BrushSample)
    requires
        ops.total(),
        mesh.well_formed(),
    ensures
        result == reseeded(ops, *mesh, sample),
{
    match mesh.nearest_triangle(sample.center, ops) {
        Some(seed_triangle) => BrushSample { seed_triangle, ..sample },
        None => sample,
    }
}

fn find_mirrored_seed<O: Arithmetic>(
    ops: &O,
    mesh: &Mesh,
    stroke: &StrokeState,
    request: &SampleRequest,
) -> (result: Option<u32>)
    requires
        ops.total(),
        mesh.well_formed(),
    ensures
        result == mirrored_seed(ops, *mesh, *stroke, *request),
{
    match request.settings.symmetry {
        None => None,
        Some(axis) => {
            let center = axis.reflect_point(request.sample.center, stroke.symmetry_center, ops);
            if let Some(seed) = stroke.mirrored_seed {
                if pass::triangle_is_near(mesh, seed, center, request.settings.radius, ops) {
                    return Some(seed);
                }
            }
            mesh.nearest_triangle(center, ops)
        },
    }
}

/// Finds what a sample and its mirror image reach.
fn prepare_passes<O: Arithmetic>(
    ops: &O,
    mesh: &Mesh,
    stroke: &StrokeState,
    request: &SampleRequest,
    seed: Option<u32>,
    traversal: &mut VertexTraversalScratch,
) -> (result: Vec<PreparedPass>)
    requires
        ops.total(),
        mesh.well_formed(),
        seed == mirrored_seed(ops, *mesh, *stroke, *request),
        old(traversal).well_formed(),
    ensures
        final(traversal).well_formed(),
        passes_of(
            ops,
            *mesh,
            samples_of(ops, *mesh, *stroke, *request),
            request.settings.radius,
            result@,
        ),
        pass::sound(result@, mesh.positions@.len()),
{
    let radius = request.settings.radius;
    let primary = reseed(ops, mesh, request.sample);
    let first = PreparedPass::new(mesh, primary, radius, PassSide::Primary, traversal, ops);
    let mut passes: Vec<PreparedPass> = Vec::new();
    passes.push(first);
    if let Some(seed) = seed {
        if let Some(axis) = request.settings.symmetry {
            let mirrored = reseed(ops, mesh,
                request.sample.reflected(axis, stroke.symmetry_center, seed, ops),
            );
            let second = PreparedPass::new(
                mesh,
                mirrored,
                radius,
                PassSide::Mirrored,
                traversal,
                ops,
            );
            passes.push(second);
        }
    }
    passes
}

/// The account that a sample is put on.
pub open spec fn channel_of(request: SampleRequest) -> Option<CoverageChannel> {
    if request.dab_kind == DabKind::Spatial && request.settings.accumulation
        == Accumulation::Capped {
        CoverageChannel::of_sample(
            request.tool,
            request.settings.invert != request.sample.invert_modifier,
        )
    } else {
        None
    }
}

fn find_channel(request: &SampleRequest) -> (result: Option<CoverageChannel>)
    ensures
        result == channel_of(*request),
        result matches Some(channel) ==> 0 <= channel.spec_code() < CHANNEL_COUNT,
{
    if request.dab_kind == DabKind::Spatial && request.settings.accumulation
        == Accumulation::Capped {
        CoverageChannel::for_sample(
            request.tool,
            request.settings.invert != request.sample.invert_modifier,
        )
    } else {
        None
    }
}

/// What has been done on that account.
pub open spec fn account_of(stroke: StrokeState, request: SampleRequest) -> Option<Map<u32, u32>> {
    match channel_of(request) {
        Some(channel) => Some(stroke.coverage@[channel.spec_code()]@),
        None => None,
    }
}

pub open spec fn frames_of<O: Arithmetic>(
    ops: &O,
    mesh: Mesh,
    stroke: StrokeState,
    request: SampleRequest,
    passes: Seq<PreparedPass>,
) -> Seq<BrushFrame> {
    frame::frames_for(ops, mesh, request.tool, request.settings, stroke.planes@, passes)
}

pub open spec fn proposals_of<O: Arithmetic>(
    ops: &O,
    mesh: Mesh,
    stroke: StrokeState,
    request: SampleRequest,
    passes: Seq<PreparedPass>,
) -> Map<u32, proposal::ProposalAccumulator> {
    proposal::gathered(
        ops,
        mesh,
        request.tool,
        request.settings,
        passes,
        frames_of(ops, mesh, stroke, request, passes),
    )
}

/// The moves that a sample comes to.
pub open spec fn moves_of<O: Arithmetic>(
    ops: &O,
    mesh: Mesh,
    stroke: StrokeState,
    request: SampleRequest,
    passes: Seq<PreparedPass>,
) -> Map<u32, Point> {
    proposal::displacements(
        ops,
        account_of(stroke, request),
        proposals_of(ops, mesh, stroke, request, passes),
    )
}

/// The mask weights that a sample comes to.
pub open spec fn masks_of<O: Arithmetic>(
    ops: &O,
    mesh: Mesh,
    stroke: StrokeState,
    request: SampleRequest,
    passes: Seq<PreparedPass>,
) -> Map<u32, u32> {
    proposal::repaintings(
        ops,
        mesh,
        account_of(stroke, request),
        proposal::passes_inverted(request.settings, passes),
        proposal::painted(ops, mesh, request.settings, passes),
    )
}

/// The accounts with one of them replaced by what it comes to.
pub open spec fn coverage_after<O: Arithmetic>(
    ops: &O,
    before: StrokeState,
    after: StrokeState,
    request: SampleRequest,
    staged: Map<u32, u32>,
    scale: Option<u32>,
) -> bool {
    &&& after.coverage@.len() == before.coverage@.len()
    &&& forall|i: int|
        0 <= i < before.coverage@.len() ==> (#[trigger] after.coverage@[i])@ == if channel_of(
            request,
        ) is Some && i == channel_of(request)->0.spec_code() {
            match scale {
                Some(scale) => covered_in_part(ops, before.coverage@[i]@, staged, scale),
                None => covered(before.coverage@[i]@, staged),
            }
        } else {
            before.coverage@[i]@
        }
}

/// The parts of a move that are tried, largest first.
pub open spec fn scale_at(i: int) -> u32 {
    if i == 0 {
        scalar::ONE
    } else if i == 1 {
        scalar::HALF
    } else if i == 2 {
        0x3e80_0000
    } else if i == 3 {
        0x3e00_0000
    } else if i == 4 {
        0x3d80_0000
    } else {
        0x3d00_0000
    }
}

pub const SCALE_COUNT: usize = 6;

pub(crate) fn scale_of(i: usize) -> (result: u32)
    ensures
        result == scale_at(i as int),
{
    if i == 0 {
        scalar::ONE
    } else if i == 1 {
        scalar::HALF
    } else if i == 2 {
        0x3e80_0000
    } else if i == 3 {
        0x3e00_0000
    } else if i == 4 {
        0x3d80_0000
    } else {
        0x3d00_0000
    }
}

/// The largest part of some moves that is safe, from one of the parts on. A part that moves no
/// vertex does not count.
pub open spec fn safe_scale<O: Arithmetic, G: Geometry>(
    ops: &O,
    geometry: &G,
    mesh: Mesh,
    moves: Map<u32, Point>,
    from: int,
) -> Option<u32>
    decreases SCALE_COUNT - from,
{
    if from >= SCALE_COUNT {
        None
    } else if proposal::candidates(ops, mesh, moves, scale_at(from)) != Map::<u32, Point>::empty()
        && candidate::safe(
        geometry,
        mesh,
        proposal::candidates(ops, mesh, moves, scale_at(from)),
    ) {
        Some(scale_at(from))
    } else {
        safe_scale(ops, geometry, mesh, moves, from + 1)
    }
}

/// Finds the largest part of some moves that is safe, and where it takes the vertices.
fn find_safe_scale<O: Arithmetic, G: Geometry>(
    ops: &O,
    geometry: &G,
    mesh: &Mesh,
    moves: &Table<Point>,
) -> (result: Option<(u32, Table<Point>)>)
    requires
        ops.total(),
        geometry.total(),
        mesh.well_formed(),
        moves.well_formed(),
        proposal::names_vertices(moves@, mesh.positions@.len()),
    ensures
        match result {
            Some((scale, places)) => {
                &&& safe_scale(ops, geometry, *mesh, moves@, 0) == Some(scale)
                &&& places.well_formed()
                &&& places@ == proposal::candidates(ops, *mesh, moves@, scale)
                &&& proposal::names_vertices(places@, mesh.positions@.len())
            },
            None => safe_scale(ops, geometry, *mesh, moves@, 0) is None,
        },
{
    let mut i: usize = 0;
    while i < SCALE_COUNT
        invariant
            i <= SCALE_COUNT,
            ops.total(),
            geometry.total(),
            mesh.well_formed(),
            moves.well_formed(),
            proposal::names_vertices(moves@, mesh.positions@.len()),
            safe_scale(ops, geometry, *mesh, moves@, 0) == safe_scale(
                ops,
                geometry,
                *mesh,
                moves@,
                i as int,
            ),
        decreases SCALE_COUNT - i,
    {
        let scale = scale_of(i);
        let places = proposal::candidate_positions(mesh, moves, scale, ops);
        proof {
            lemma_empty_table(places);
        }
        if places.len() > 0 && mesh.validated_deformation_candidates(&places, geometry).is_some() {
            return Some((scale, places));
        }
        i += 1;
    }
    None
}

/// Grabbed vertices whose hold goes with them where another tool moves them.
pub open spec fn carried<O: Arithmetic>(
    ops: &O,
    held: Map<u32, GrabVertex>,
    mesh: Mesh,
    places: Map<u32, Point>,
) -> Map<u32, GrabVertex> {
    Map::new(
        |v: u32| held.contains_key(v),
        |v: u32|
            if places.contains_key(v) {
                GrabVertex {
                    base: arithmetic::spec_plus(
                        ops,
                        held[v].base,
                        arithmetic::spec_minus(ops, places[v], mesh.positions@[v as int]),
                    ),
                    ..held[v]
                }
            } else {
                held[v]
            },
    )
}

fn carry<O: Arithmetic>(
    ops: &O,
    held: &mut Table<GrabVertex>,
    mesh: &Mesh,
    places: &Table<Point>,
)
    requires
        ops.total(),
        old(held).well_formed(),
        places.well_formed(),
        proposal::names_vertices(places@, mesh.positions@.len()),
    ensures
        final(held).well_formed(),
        final(held)@ == carried(ops, old(held)@, *mesh, places@),
{
    let ghost start = held@;
    let ghost wanted = carried(ops, start, *mesh, places@);
    proof {
        places.order_names_the_indices();
    }
    let mut k: usize = 0;
    while k < places.len()
        invariant
            k <= places.order().len(),
            ops.total(),
            places.well_formed(),
            places.order().no_duplicates(),
            proposal::names_vertices(places@, mesh.positions@.len()),
            wanted == carried(ops, start, *mesh, places@),
            held.well_formed(),
            forall|v: u32| #[trigger] held@.contains_key(v) <==> start.contains_key(v),
            forall|v: u32| #[trigger]
                held@.contains_key(v) ==> held@[v] == if places.order().take(k as int).contains(
                    v,
                ) {
                    wanted[v]
                } else {
                    start[v]
                },
        decreases places.order().len() - k,
    {
        let vertex = places.key(k);
        let next = places.value(k);
        proof {
            pass::lemma_take_contains(places.order(), k as int);
            assert(places@.contains_key(vertex));
            assert(!places.order().take(k as int).contains(vertex));
        }
        if let Some(grabbed) = held.get(vertex) {
            let base = arithmetic::plus(
                ops,
                grabbed.base,
                arithmetic::minus(ops, next, mesh.positions[vertex as usize]),
            );
            held.insert(
                vertex,
                GrabVertex {
                    base,
                    primary_influence: grabbed.primary_influence,
                    mirrored_influence: grabbed.mirrored_influence,
                },
            );
        }
        k += 1;
    }
    proof {
        places.order_names_the_indices();
        assert(places.order().take(k as int) =~= places.order());
        assert forall|v: u32| #[trigger] held@.contains_key(v) implies held@[v] == wanted[v] by {
            assert(places.order().contains(v) <==> places@.contains_key(v));
        }
        assert(held@ =~= wanted);
    }
}

/// Whether a warning is the one about a brush that is small against the edges that it goes over.
pub open spec fn warned<O: Arithmetic>(
    ops: &O,
    mesh: Mesh,
    passes: Seq<PreparedPass>,
    radius: u32,
    warning: Option<String>,
) -> bool {
    &&& exists|sides: Seq<collections::EdgeKey>| #[trigger]
        pass::sampled_edges(mesh, passes, sides) && (warning is Some <==> pass::undersampled(
            ops,
            pass::measured(ops, mesh, sides),
            radius,
        ))
    &&& warning matches Some(text) ==> text@ == pass::UNDERSAMPLED@
}

/// Whether a stroke has taken note of a sample: of the face under its mirror image and, with the
/// first sample, of a warning.
pub open spec fn noted<O: Arithmetic>(
    ops: &O,
    mesh: Mesh,
    before: StrokeState,
    after: StrokeState,
    request: SampleRequest,
    passes: Seq<PreparedPass>,
) -> bool {
    let seed = mirrored_seed(ops, mesh, before, request);
    &&& after.symmetry_center == before.symmetry_center
    &&& after.mirrored_seed == if seed is Some {
        seed
    } else {
        before.mirrored_seed
    }
    &&& after.density_checked
    &&& if before.density_checked {
        after.warning == before.warning
    } else {
        warned(ops, mesh, passes, request.settings.radius, after.warning)
    }
}

/// Whether a stroke has kept all that it did.
pub open spec fn nothing_done(before: StrokeState, after: StrokeState) -> bool {
    &&& after.positions == before.positions
    &&& after.masks == before.masks
    &&& after.coverage == before.coverage
    &&& after.planes == before.planes
    &&& after.grab == before.grab
}

/// What a sample came to: whether anything changed, the vertices that did, and what went wrong.
pub struct StepOutcome {
    pub changed: bool,
    pub updated: Vec<u32>,
    pub error: Option<String>,
}

/// Whether nothing changed, and nothing went wrong.
pub open spec fn quiet(outcome: StepOutcome) -> bool {
    !outcome.changed && outcome.updated@.len() == 0 && outcome.error is None
}

/// Whether a mask sample was carried out: the weights that it paints differently are set, the
/// weights before them remembered, and the account charged.
pub open spec fn mask_step<O: Arithmetic>(
    ops: &O,
    mesh: Mesh,
    painted: Mesh,
    before: StrokeState,
    after: StrokeState,
    request: SampleRequest,
    passes: Seq<PreparedPass>,
    outcome: StepOutcome,
) -> bool {
    let masks = masks_of(ops, mesh, before, request, passes);
    if masks == Map::<u32, u32>::empty() {
        quiet(outcome) && painted == mesh && nothing_done(before, after)
    } else {
        &&& outcome.changed && outcome.error is None
        &&& names(outcome.updated@, masks)
        &&& painted.mask@ == candidate::replaced(mesh.mask@, masks)
        &&& painted.positions == mesh.positions
        &&& painted.triangles == mesh.triangles
        &&& painted.normals == mesh.normals
        &&& painted.topology == mesh.topology
        &&& after.masks@ == with_first(before.masks@, masks, mesh.mask@)
        &&& after.positions == before.positions
        &&& coverage_after(
            ops,
            before,
            after,
            request,
            proposal::paint_to_remember(
                account_of(before, request),
                proposal::painted(ops, mesh, request.settings, passes),
            ),
            None,
        )
        &&& after.planes@ == before.planes@
        &&& after.grab == before.grab
    }
}

/// Whether the hold of Grab went along with vertices that another tool moved.
pub open spec fn grab_after<O: Arithmetic>(
    ops: &O,
    tool: SculptTool,
    mesh: Mesh,
    before: Option<GrabState>,
    after: Option<GrabState>,
    places: Map<u32, Point>,
) -> bool {
    match before {
        None => after is None,
        Some(held) => match after {
            None => false,
            Some(still) => {
                &&& still.desired_delta == held.desired_delta
                &&& still.symmetry == held.symmetry
                &&& still.vertices@ == if tool == SculptTool::Grab {
                    held.vertices@
                } else {
                    carried(ops, held.vertices@, mesh, places)
                }
            },
        },
    }
}

/// Whether a sample that moves vertices was carried out: as much of it as is safe, all around the
/// vertices brought up to date, the positions before it remembered, and the account charged in
/// proportion. Where no part of it is safe nothing is done.
pub open spec fn move_step<O: Arithmetic, G: Geometry>(
    ops: &O,
    geometry: &G,
    mesh: Mesh,
    moved: Mesh,
    before: StrokeState,
    after: StrokeState,
    request: SampleRequest,
    passes: Seq<PreparedPass>,
    outcome: StepOutcome,
) -> bool {
    let moves = moves_of(ops, mesh, before, request, passes);
    if proposal::candidates(ops, mesh, moves, scalar::ONE) == Map::<u32, Point>::empty() {
        quiet(outcome) && moved == mesh && nothing_done(before, after)
    } else {
        match safe_scale(ops, geometry, mesh, moves, 0) {
            None => {
                &&& !outcome.changed && outcome.updated@.len() == 0
                &&& outcome.error matches Some(text) && text@ == SAMPLE_REJECTED@
                &&& moved == mesh
                &&& nothing_done(before, after)
            },
            Some(scale) => {
                let places = proposal::candidates(ops, mesh, moves, scale);
                &&& outcome.changed && outcome.error is None
                &&& relocated(geometry, mesh, moved, places, outcome.updated@)
                &&& after.positions@ == with_first(before.positions@, places, mesh.positions@)
                &&& after.masks == before.masks
                &&& coverage_after(
                    ops,
                    before,
                    after,
                    request,
                    proposal::proposals_to_remember(
                        account_of(before, request),
                        proposals_of(ops, mesh, before, request, passes),
                    ),
                    Some(scale),
                )
                &&& after.planes@ == before.planes@.union_prefer_right(
                    frame::planes_from(
                        ops,
                        mesh,
                        request.tool,
                        request.settings,
                        before.planes@,
                        passes,
                    ),
                )
                &&& grab_after(ops, request.tool, mesh, before.grab, after.grab, places)
            },
        }
    }
}

pub proof fn lemma_empty_table<T: Copy>(table: Table<T>)
    requires
        table.well_formed(),
    ensures
        table.order().len() == 0 <==> table@ == Map::<u32, T>::empty(),
{
    table.order_names_the_indices();
    if table.order().len() == 0 {
        assert forall|v: u32| !table@.contains_key(v) by {
            assert(!table.order().contains(v));
        }
        assert(table@ =~= Map::<u32, T>::empty());
    } else {
        assert(table@.contains_key(table.order()[0]));
    }
}

/// Charges the account of a sample.
fn charge<O: Arithmetic>(
    ops: &O,
    stroke: &mut StrokeState,
    request: &SampleRequest,
    staged: &Table<u32>,
    scale: Option<u32>,
)
    requires
        ops.total(),
        old(stroke).well_formed(),
        staged.well_formed(),
    ensures
        final(stroke).well_formed(),
        coverage_after(ops, *old(stroke), *final(stroke), *request, staged@, scale),
        final(stroke).symmetry_center == old(stroke).symmetry_center,
        final(stroke).mirrored_seed == old(stroke).mirrored_seed,
        final(stroke).positions == old(stroke).positions,
        final(stroke).masks == old(stroke).masks,
        final(stroke).planes == old(stroke).planes,
        final(stroke).density_checked == old(stroke).density_checked,
        final(stroke).warning == old(stroke).warning,
        final(stroke).grab == old(stroke).grab,
{
    match find_channel(request) {
        Some(channel) => {
            let code = channel.code();
            assert(stroke.coverage@[code as int].well_formed());
            match scale {
                Some(scale) => commit_coverage_scaled(
                    &mut stroke.coverage[code],
                    staged,
                    scale,
                    ops,
                ),
                None => commit_coverage(&mut stroke.coverage[code], staged),
            }
        },
        None => {},
    }
}

/// Carries out a sample of a stroke.
fn step<O: Arithmetic, G: Geometry>(
    stroke: &mut StrokeState,
    mesh: &mut Mesh,
    request: &SampleRequest,
    traversal: &mut VertexTraversalScratch,
    ops: &O,
    geometry: &G,
) -> (result: StepOutcome)
    requires
        ops.total(),
        geometry.total(),
        old(mesh).well_formed(),
        old(stroke).well_formed(),
        old(traversal).well_formed(),
    ensures
        final(mesh).well_formed(),
        final(stroke).well_formed(),
        final(traversal).well_formed(),
        exists|passes: Seq<PreparedPass>| #[trigger]
            passes_of(
                ops,
                *old(mesh),
                samples_of(ops, *old(mesh), *old(stroke), *request),
                request.settings.radius,
                passes,
            ) && noted(
                ops,
                *old(mesh),
                *old(stroke),
                *final(stroke),
                *request,
                passes,
            ) && if request.tool == SculptTool::Mask {
                mask_step(
                    ops,
                    *old(mesh),
                    *final(mesh),
                    *old(stroke),
                    *final(stroke),
                    *request,
                    passes,
                    result,
                )
            } else {
                move_step(
                    ops,
                    geometry,
                    *old(mesh),
                    *final(mesh),
                    *old(stroke),
                    *final(stroke),
                    *request,
                    passes,
                    result,
                )
            },
{
    let ghost before = *stroke;
    let ghost mesh_before = *mesh;
    let seed = find_mirrored_seed(ops, mesh, stroke, request);
    let passes = prepare_passes(ops, mesh, stroke, request, seed, traversal);
    if seed.is_some() {
        stroke.mirrored_seed = seed;
    }
    let source = pass::capture_source_positions(mesh, request.tool, &passes);
    assert forall|v: u32| #[trigger] pass::passed(passes@, v) implies source@.contains_key(v) by {
        assert(pass::needed(*mesh, request.tool, passes@, v));
    }
    if !stroke.density_checked {
        stroke.density_checked = true;
        stroke.warning = pass::density_warning(mesh, &passes, request.settings.radius, ops);
    }
    assert(noted(ops, mesh_before, before, *stroke, *request, passes@));
    let (frames, staged_planes) = frame::prepare_brush_frames(
        mesh,
        request.tool,
        &request.settings,
        &passes,
        &source,
        &stroke.planes,
        ops,
    );
    let channel = find_channel(request);
    let committed = match channel {
        Some(channel) => {
            let code = channel.code();
            assert(stroke.coverage@[code as int].well_formed());
            Some(&stroke.coverage[code])
        },
        None => None,
    };
    let mut coverage = SampleCoverage { committed, staged: Table::new() };
    assert(coverage.account() == account_of(before, *request));
    let edits = proposal::propose_passes(
        mesh,
        request.tool,
        &request.settings,
        &source,
        &passes,
        &frames,
        &mut coverage,
        ops,
    );
    let staged = coverage.staged;
    if request.tool == SculptTool::Mask {
        proof {
            lemma_empty_table(edits.masks);
        }
        if edits.masks.len() == 0 {
            return StepOutcome { changed: false, updated: Vec::new(), error: None };
        }
        remember(&mut stroke.masks, &edits.masks, &mesh.mask);
        candidate::replace(&mut mesh.mask, &edits.masks);
        let updated = edits.masks.keys();
        charge(ops, stroke, request, &staged, None);
        proof {
            edits.masks.order_names_the_indices();
        }
        return StepOutcome { changed: true, updated, error: None };
    }
    let full = proposal::candidate_positions(mesh, &edits.positions, scalar::ONE, ops);
    proof {
        lemma_empty_table(full);
    }
    if full.len() == 0 {
        return StepOutcome { changed: false, updated: Vec::new(), error: None };
    }
    let (scale, places) = match find_safe_scale(ops, geometry, mesh, &edits.positions) {
        Some(found) => found,
        None => {
            return StepOutcome {
                changed: false,
                updated: Vec::new(),
                error: Some(SAMPLE_REJECTED.to_owned()),
            };
        },
    };
    if request.tool != SculptTool::Grab {
        if let Some(mut grab) = stroke.grab.take() {
            carry(ops, &mut grab.vertices, mesh, &places);
            stroke.grab = Some(grab);
        }
    }
    remember(&mut stroke.positions, &places, &mesh.positions);
    let updated = relocate(mesh, &places, geometry);
    charge(ops, stroke, request, &staged, Some(scale));
    commit_planes(&mut stroke.planes, &staged_planes);
    StepOutcome { changed: true, updated, error: None }
}

impl SculptEngine {
    pub open spec fn well_formed(self) -> bool {
        &&& self.traversal.well_formed()
        &&& self.active matches Some(stroke) ==> stroke.well_formed()
    }

    /// Whether the outputs of a step are cleared and all else is as before.
    pub open spec fn cleared(before: SculptEngine, after: SculptEngine) -> bool {
        &&& after.active == before.active
        &&& after.symmetry_center == before.symmetry_center
        &&& after.updated_vertices@.len() == 0
        &&& after.error is None
        &&& !after.sample_committed
    }

    pub fn new() -> (result: SculptEngine)
        ensures
            result.well_formed(),
            result.active is None,
            result.symmetry_center is None,
            result.traversal.room() == 0,
            result.traversal.seen().len() == 0,
            result.traversal.waiting().len() == 0,
            result.updated_vertices@.len() == 0,
            result.error is None,
            !result.sample_committed,
    {
        SculptEngine {
            active: None,
            symmetry_center: None,
            traversal: VertexTraversalScratch::new(),
            updated_vertices: Vec::new(),
            error: None,
            sample_committed: false,
        }
    }

    #[must_use]
    pub fn is_stroking(&self) -> (result: bool)
        ensures
            result == (self.active is Some),
    {
        self.active.is_some()
    }

    /// Forgets all about the mesh before, and takes the middle of a new one.
    pub fn reset_for_mesh<O: Arithmetic>(&mut self, mesh: &Mesh, ops: &O)
        requires
            ops.total(),
        ensures
            final(self).well_formed(),
            final(self).active is None,
            final(self).symmetry_center == Some(middle_of(ops, *mesh)),
            final(self).traversal.room() == 0,
            final(self).traversal.seen().len() == 0,
            final(self).traversal.waiting().len() == 0,
            final(self).updated_vertices@.len() == 0,
            final(self).error is None,
            !final(self).sample_committed,
    {
        self.active = None;
        self.symmetry_center = Some(middle(mesh, ops));
        self.traversal = VertexTraversalScratch::new();
        self.updated_vertices = Vec::new();
        self.error = None;
        self.sample_committed = false;
    }

    /// Begins a stroke. The first stroke on a mesh fixes the plane of symmetry.
    pub fn begin_stroke<O: Arithmetic>(&mut self, mesh: &Mesh, ops: &O)
        requires
            ops.total(),
            old(self).well_formed(),
        ensures
            final(self).well_formed(),
            final(self).symmetry_center == Some(
                match old(self).symmetry_center {
                    Some(center) => center,
                    None => middle_of(ops, *mesh),
                },
            ),
            final(self).active matches Some(stroke) && fresh(
                stroke,
                final(self).symmetry_center->0,
            ),
            final(self).updated_vertices@.len() == 0,
            final(self).error is None,
            !final(self).sample_committed,
            final(self).active matches Some(stroke) && tracks(
                stroke,
                mesh.positions@,
                mesh.mask@,
                *mesh,
            ),
    {
        let symmetry_center = match self.symmetry_center {
            Some(center) => center,
            None => middle(mesh, ops),
        };
        self.symmetry_center = Some(symmetry_center);
        let mut coverage: Vec<Table<u32>> = Vec::new();
        while coverage.len() < CHANNEL_COUNT
            invariant
                coverage@.len() <= CHANNEL_COUNT,
                forall|i: int|
                    0 <= i < coverage@.len() ==> (#[trigger] coverage@[i]).well_formed()
                        && coverage@[i]@ == Map::<u32, u32>::empty(),
            decreases CHANNEL_COUNT - coverage@.len(),
        {
            coverage.push(Table::new());
        }
        self.active = Some(
            StrokeState {
                symmetry_center,
                mirrored_seed: None,
                positions: Table::new(),
                masks: Table::new(),
                coverage,
                planes: Table::new(),
                density_checked: false,
                warning: None,
                grab: None,
            },
        );
        self.clear_step_outputs();
    }

    pub(crate) fn clear_step_outputs(&mut self)
        ensures
            SculptEngine::cleared(*old(self), *final(self)),
            final(self).traversal == old(self).traversal,
    {
        self.updated_vertices.clear();
        self.error = None;
        self.sample_committed = false;
    }

    /// Takes the vertices that the latest sample changed, each once.
    ///
    /// They are cleared before every sample, so that none means that the latest sample changed
    /// nothing.
    #[must_use]
    pub fn take_updated_vertices(&mut self) -> (result: Vec<u32>)
        ensures
            result == old(self).updated_vertices,
            final(self).updated_vertices@.len() == 0,
            final(self).active == old(self).active,
            final(self).symmetry_center == old(self).symmetry_center,
            final(self).traversal == old(self).traversal,
            final(self).error == old(self).error,
            final(self).sample_committed == old(self).sample_committed,
    {
        let mut taken: Vec<u32> = Vec::new();
        std::mem::swap(&mut taken, &mut self.updated_vertices);
        taken
    }

    #[must_use]
    pub fn take_error(&mut self) -> (result: Option<String>)
        ensures
            result == old(self).error,
            final(self).error is None,
            final(self).active == old(self).active,
            final(self).symmetry_center == old(self).symmetry_center,
            final(self).traversal == old(self).traversal,
            final(self).updated_vertices == old(self).updated_vertices,
            final(self).sample_committed == old(self).sample_committed,
    {
        self.error.take()
    }

    /// Tells once whether the latest sample changed anything.
    #[must_use]
    pub fn take_sample_committed(&mut self) -> (result: bool)
        ensures
            result == old(self).sample_committed,
            !final(self).sample_committed,
            final(self).active == old(self).active,
            final(self).symmetry_center == old(self).symmetry_center,
            final(self).traversal == old(self).traversal,
            final(self).updated_vertices == old(self).updated_vertices,
            final(self).error == old(self).error,
    {
        let committed = self.sample_committed;
        self.sample_committed = false;
        committed
    }

    /// Applies a sample of the stroke, and tells whether it changed the mesh.
    pub fn apply_sample<O: Arithmetic, G: Geometry>(
        &mut self,
        mesh: &mut Mesh,
        tool: SculptTool,
        settings: &BrushSettings,
        sample: BrushSample,
        dab_kind: DabKind,
        ops: &O,
        geometry: &G,
    ) -> (result: bool)
        requires
            ops.total(),
            geometry.total(),
            old(mesh).well_formed(),
            old(self).well_formed(),
        ensures
            final(mesh).well_formed(),
            final(self).well_formed(),
            ({
                let request = SampleRequest { tool, settings: *settings, sample, dab_kind };
                if old(self).active is None || !acceptable(*old(mesh), request) {
                    !result && *final(mesh) == *old(mesh) && SculptEngine::cleared(
                        *old(self),
                        *final(self),
                    )
                } else {
                    final(self).active is Some && sampled(
                        ops,
                        geometry,
                        *old(mesh),
                        *final(mesh),
                        *old(self),
                        *final(self),
                        request,
                        result,
                    )
                }
            }),
            told_truly(*old(mesh), *final(mesh), result),
            final(self).sample_committed == result,
            !result ==> final(self).updated_vertices@.len() == 0,
            old(self).active is Some ==> final(self).active is Some && forall|
                positions: Seq<Point>,
                mask: Seq<u32>,
            | #[trigger]
                tracks(old(self).active->0, positions, mask, *old(mesh)) ==> tracks(
                    final(self).active->0,
                    positions,
                    mask,
                    *final(mesh),
                ),
    {
        let ghost engine = *self;
        let ghost mesh_before = *mesh;
        self.clear_step_outputs();
        let request = SampleRequest { tool, settings: *settings, sample, dab_kind };
        if !is_acceptable(mesh, &request) {
            return false;
        }
        let mut stroke = match self.active.take() {
            Some(stroke) => stroke,
            None => {
                return false;
            },
        };
        let ghost before = stroke;
        let outcome = step(
            &mut stroke,
            mesh,
            &request,
            &mut self.traversal,
            ops,
            geometry,
        );
        let ghost came = outcome;
        proof {
            let passes = choose|passes: Seq<PreparedPass>| #[trigger]
                passes_of(
                    ops,
                    mesh_before,
                    samples_of(ops, mesh_before, before, request),
                    request.settings.radius,
                    passes,
                ) && noted(ops, mesh_before, before, stroke, request, passes)
                    && stepped(
                    ops,
                    geometry,
                    mesh_before,
                    *mesh,
                    before,
                    stroke,
                    request,
                    passes,
                    outcome,
                );
            let samples = samples_of(ops, mesh_before, before, request);
            assert forall|i: int| 0 <= i < passes.len() implies pass::all_vertices(
                (#[trigger] passes[i]).vertices@,
                mesh_before.positions@.len(),
            ) && passes[i].vertices@.no_duplicates() by {
                pass::reached_are_vertices(
                    ops,
                    mesh_before,
                    samples[i],
                    request.settings.radius,
                    passes[i].vertices@,
                );
            }
            lemma_step_tells(
                ops,
                geometry,
                mesh_before,
                *mesh,
                before,
                stroke,
                request,
                passes,
                outcome,
            );
            assert forall|positions: Seq<Point>, mask: Seq<u32>| #[trigger]
                tracks(before, positions, mask, mesh_before) implies tracks(
                stroke,
                positions,
                mask,
                *mesh,
            ) by {
                lemma_step_tracks(
                    ops,
                    geometry,
                    mesh_before,
                    *mesh,
                    before,
                    stroke,
                    request,
                    passes,
                    outcome,
                    positions,
                    mask,
                );
            }
        }
        self.active = Some(stroke);
        self.updated_vertices = outcome.updated;
        self.error = outcome.error;
        self.sample_committed = outcome.changed;
        assert(sampled(
            ops,
            geometry,
            mesh_before,
            *mesh,
            engine,
            *self,
            request,
            outcome.changed,
        )) by {
            assert(exists|passes: Seq<PreparedPass>, outcome: StepOutcome| #[trigger]
                sample_came_to(
                    ops,
                    geometry,
                    mesh_before,
                    *mesh,
                    before,
                    self.active->0,
                    request,
                    passes,
                    outcome,
                ) && reported(engine, *self, outcome, outcome.changed)) by {
                let passes = choose|passes: Seq<PreparedPass>| #[trigger]
                    passes_of(
                        ops,
                        mesh_before,
                        samples_of(ops, mesh_before, before, request),
                        request.settings.radius,
                        passes,
                    ) && noted(ops, mesh_before, before, self.active->0, request, passes)
                        && stepped(
                        ops,
                        geometry,
                        mesh_before,
                        *mesh,
                        before,
                        self.active->0,
                        request,
                        passes,
                        came,
                    );
                assert(sample_came_to(
                    ops,
                    geometry,
                    mesh_before,
                    *mesh,
                    before,
                    self.active->0,
                    request,
                    passes,
                    came,
                ));
                assert(reported(engine, *self, came, came.changed));
            }
        }
        outcome.changed
    }
}

/// Whether a stroke has done nothing yet.
pub open spec fn fresh(stroke: StrokeState, symmetry_center: Point) -> bool {
    &&& stroke.symmetry_center == symmetry_center
    &&& stroke.mirrored_seed is None
    &&& stroke.positions@ == Map::<u32, Point>::empty()
    &&& stroke.masks@ == Map::<u32, u32>::empty()
    &&& forall|i: int|
        0 <= i < stroke.coverage@.len() ==> (#[trigger] stroke.coverage@[i])@ == Map::<
            u32,
            u32,
        >::empty()
    &&& stroke.planes@ == Map::<u32, BrushFrame>::empty()
    &&& !stroke.density_checked
    &&& stroke.warning is None
    &&& stroke.grab is None
}

/// Whether a step was carried out.
pub open spec fn stepped<O: Arithmetic, G: Geometry>(
    ops: &O,
    geometry: &G,
    mesh: Mesh,
    changed: Mesh,
    before: StrokeState,
    after: StrokeState,
    request: SampleRequest,
    passes: Seq<PreparedPass>,
    outcome: StepOutcome,
) -> bool {
    if request.tool == SculptTool::Mask {
        mask_step(ops, mesh, changed, before, after, request, passes, outcome)
    } else {
        move_step(ops, geometry, mesh, changed, before, after, request, passes, outcome)
    }
}

/// Whether a sample reached what it should and was noted and carried out.
pub open spec fn sample_came_to<O: Arithmetic, G: Geometry>(
    ops: &O,
    geometry: &G,
    mesh: Mesh,
    changed: Mesh,
    before: StrokeState,
    after: StrokeState,
    request: SampleRequest,
    passes: Seq<PreparedPass>,
    outcome: StepOutcome,
) -> bool {
    &&& passes_of(
        ops,
        mesh,
        samples_of(ops, mesh, before, request),
        request.settings.radius,
        passes,
    )
    &&& noted(ops, mesh, before, after, request, passes)
    &&& stepped(ops, geometry, mesh, changed, before, after, request, passes, outcome)
}

/// Whether an engine reports what a step came to.
pub open spec fn reported(
    before: SculptEngine,
    after: SculptEngine,
    outcome: StepOutcome,
    result: bool,
) -> bool {
    &&& result == outcome.changed
    &&& after.symmetry_center == before.symmetry_center
    &&& after.updated_vertices == outcome.updated
    &&& after.error == outcome.error
    &&& after.sample_committed == outcome.changed
}

/// Whether a vertex has another position or another weight than before.
pub open spec fn differs_at(before: Mesh, after: Mesh, vertex: u32) -> bool {
    let v = vertex as int;
    &&& v < before.positions@.len()
    &&& !after.positions@[v].same(before.positions@[v]) || !scalar::same(
        after.mask@[v],
        before.mask@[v],
    )
}

/// Whether what is told of a mesh is so: that it has other positions or weights, or else that it
/// is the same.
pub open spec fn told_truly(before: Mesh, after: Mesh, changed: bool) -> bool {
    &&& after.triangles == before.triangles
    &&& changed ==> exists|v: u32| #[trigger] differs_at(before, after, v)
    &&& !changed ==> after == before
}

/// Whether a sample was applied.
pub open spec fn sampled<O: Arithmetic, G: Geometry>(
    ops: &O,
    geometry: &G,
    mesh: Mesh,
    changed: Mesh,
    before: SculptEngine,
    after: SculptEngine,
    request: SampleRequest,
    result: bool,
) -> bool {
    exists|passes: Seq<PreparedPass>, outcome: StepOutcome| #[trigger]
        sample_came_to(
            ops,
            geometry,
            mesh,
            changed,
            before.active->0,
            after.active->0,
            request,
            passes,
            outcome,
        ) && reported(before, after, outcome, result)
}

pub proof fn lemma_first_values<T>(
    start: Seq<T>,
    kept: Map<u32, T>,
    changed: Map<u32, T>,
    values: Seq<T>,
)
    requires
        start.len() == values.len(),
        values.len() <= u32::MAX,
        proposal::names_vertices(kept, values.len()),
        proposal::names_vertices(changed, values.len()),
        forall|v: int|
            0 <= v < start.len() ==> #[trigger] start[v] == proposal::value_or(
                kept,
                v as u32,
                values[v],
            ),
    ensures
        proposal::names_vertices(with_first(kept, changed, values), values.len()),
        forall|v: int|
            0 <= v < start.len() ==> #[trigger] start[v] == proposal::value_or(
                with_first(kept, changed, values),
                v as u32,
                candidate::replaced(values, changed)[v],
            ),
{
}

/// A step tells truly whether it changed the mesh.
proof fn lemma_step_tells<O: Arithmetic, G: Geometry>(
    ops: &O,
    geometry: &G,
    mesh: Mesh,
    changed: Mesh,
    before: StrokeState,
    after: StrokeState,
    request: SampleRequest,
    passes: Seq<PreparedPass>,
    outcome: StepOutcome,
)
    requires
        mesh.well_formed(),
        stepped(ops, geometry, mesh, changed, before, after, request, passes, outcome),
        pass::sound(passes, mesh.positions@.len()),
    ensures
        told_truly(mesh, changed, outcome.changed),
        !outcome.changed ==> outcome.updated@.len() == 0,
{
    if request.tool == SculptTool::Mask {
        let masks = masks_of(ops, mesh, before, request, passes);
        if masks != Map::<u32, u32>::empty() {
            proposal::paint_is_on_vertices(ops, mesh, request.settings, passes);
            let v = lemma_some_key(masks);
            assert(proposal::painted(ops, mesh, request.settings, passes).contains_key(v));
            assert(differs_at(mesh, changed, v));
        }
    } else {
        let moves = moves_of(ops, mesh, before, request, passes);
        lemma_safe_scale(ops, geometry, mesh, moves, 0);
        if let Some(scale) = safe_scale(ops, geometry, mesh, moves, 0) {
            let places = proposal::candidates(ops, mesh, moves, scale);
            if proposal::candidates(ops, mesh, moves, scalar::ONE) != Map::<u32, Point>::empty() {
                let v = lemma_some_key(places);
                assert(differs_at(mesh, changed, v));
            }
        }
    }
}

/// A map that is not empty has a key.
pub proof fn lemma_some_key<T>(map: Map<u32, T>) -> (key: u32)
    requires
        map != Map::<u32, T>::empty(),
    ensures
        map.contains_key(key),
{
    if forall|k: u32| !map.contains_key(k) {
        assert(map =~= Map::<u32, T>::empty());
    }
    choose|k: u32| map.contains_key(k)
}

/// A step keeps track of what was before the stroke.
proof fn lemma_step_tracks<O: Arithmetic, G: Geometry>(
    ops: &O,
    geometry: &G,
    mesh: Mesh,
    changed: Mesh,
    before: StrokeState,
    after: StrokeState,
    request: SampleRequest,
    passes: Seq<PreparedPass>,
    outcome: StepOutcome,
    positions: Seq<Point>,
    mask: Seq<u32>,
)
    requires
        mesh.well_formed(),
        stepped(ops, geometry, mesh, changed, before, after, request, passes, outcome),
        pass::sound(passes, mesh.positions@.len()),
        tracks(before, positions, mask, mesh),
    ensures
        tracks(after, positions, mask, changed),
{
    if request.tool == SculptTool::Mask {
        let masks = masks_of(ops, mesh, before, request, passes);
        if masks != Map::<u32, u32>::empty() {
            proposal::paint_is_on_vertices(ops, mesh, request.settings, passes);
            assert forall|v: u32| #[trigger] masks.contains_key(v) implies v < mesh.mask@.len() by {
                let paint = proposal::painted(ops, mesh, request.settings, passes);
                assert(paint.contains_key(v));
            }
            lemma_first_values(mask, before.masks@, masks, mesh.mask@);
        }
    } else {
        let moves = moves_of(ops, mesh, before, request, passes);
        if let Some(scale) = safe_scale(ops, geometry, mesh, moves, 0) {
            let places = proposal::candidates(ops, mesh, moves, scale);
            lemma_safe_scale(ops, geometry, mesh, moves, 0);
            lemma_first_values(positions, before.positions@, places, mesh.positions@);
        }
    }
}

proof fn lemma_safe_scale<O: Arithmetic, G: Geometry>(
    ops: &O,
    geometry: &G,
    mesh: Mesh,
    moves: Map<u32, Point>,
    from: int,
)
    requires
        0 <= from,
    ensures
        safe_scale(ops, geometry, mesh, moves, from) matches Some(scale) ==> {
            let places = proposal::candidates(ops, mesh, moves, scale);
            places != Map::<u32, Point>::empty() && candidate::safe(geometry, mesh, places)
        },
    decreases SCALE_COUNT - from,
{
    if from < SCALE_COUNT {
        lemma_safe_scale(ops, geometry, mesh, moves, from + 1);
    }
}

/// No dab collapses a face or turns one over: a face that it moves keeps an area and its side.
pub proof fn a_dab_spares_every_face<O: Arithmetic, G: Geometry>(
    ops: &O,
    geometry: &G,
    mesh: Mesh,
    changed: Mesh,
    before: SculptEngine,
    after: SculptEngine,
    request: SampleRequest,
    result: bool,
    face: u32,
)
    requires
        mesh.well_formed(),
        sampled(ops, geometry, mesh, changed, before, after, request, result),
        face < mesh.triangles@.len(),
    ensures
        changed.triangles == mesh.triangles,
        candidate::spared(
            geometry,
            mesh.positions@,
            changed.positions@,
            mesh.triangles@[face as int],
        ),
{
    let (passes, outcome) = choose|passes: Seq<PreparedPass>, outcome: StepOutcome| #[trigger]
        sample_came_to(
            ops,
            geometry,
            mesh,
            changed,
            before.active->0,
            after.active->0,
            request,
            passes,
            outcome,
        ) && reported(before, after, outcome, result);
    if request.tool != SculptTool::Mask {
        let moves = moves_of(ops, mesh, before.active->0, request, passes);
        if let Some(scale) = safe_scale(ops, geometry, mesh, moves, 0) {
            let places = proposal::candidates(ops, mesh, moves, scale);
            lemma_safe_scale(ops, geometry, mesh, moves, 0);
            candidate::safe_places_spare_every_face(geometry, mesh, places, face);
        }
    }
}

/// Whether passes of two samples are alike.
pub open spec fn alike(a: Seq<PreparedPass>, b: Seq<PreparedPass>) -> bool {
    &&& a.len() == b.len()
    &&& forall|i: int|
        0 <= i < a.len() ==> (#[trigger] a[i]).sample == b[i].sample && a[i].side == b[i].side
            && a[i].vertices@ == b[i].vertices@
}

proof fn lemma_alike_front(a: Seq<PreparedPass>, b: Seq<PreparedPass>)
    requires
        alike(a, b),
        a.len() > 0,
    ensures
        alike(a.drop_last(), b.drop_last()),
        a.last().sample == b.last().sample,
        a.last().vertices@ == b.last().vertices@,
{
    let front = a.drop_last();
    assert forall|i: int| 0 <= i < front.len() implies (#[trigger] front[i]).sample
        == b.drop_last()[i].sample && front[i].side == b.drop_last()[i].side && front[i].vertices@
        == b.drop_last()[i].vertices@ by {
        assert(front[i] == a[i]);
    }
    assert(a[a.len() - 1].sample == b[a.len() - 1].sample);
}

proof fn lemma_alike_moves<O: Arithmetic>(
    ops: &O,
    mesh: Mesh,
    tool: SculptTool,
    settings: BrushSettings,
    a: Seq<PreparedPass>,
    b: Seq<PreparedPass>,
    frames: Seq<BrushFrame>,
)
    requires
        alike(a, b),
    ensures
        proposal::gathered(ops, mesh, tool, settings, a, frames) == proposal::gathered(
            ops,
            mesh,
            tool,
            settings,
            b,
            frames,
        ),
    decreases a.len(),
{
    if a.len() > 0 {
        lemma_alike_front(a, b);
        lemma_alike_moves(ops, mesh, tool, settings, a.drop_last(), b.drop_last(), frames);
    }
}

proof fn lemma_alike_paint<O: Arithmetic>(
    ops: &O,
    mesh: Mesh,
    settings: BrushSettings,
    a: Seq<PreparedPass>,
    b: Seq<PreparedPass>,
)
    requires
        alike(a, b),
    ensures
        proposal::painted(ops, mesh, settings, a) == proposal::painted(ops, mesh, settings, b),
    decreases a.len(),
{
    if a.len() > 0 {
        lemma_alike_front(a, b);
        lemma_alike_paint(ops, mesh, settings, a.drop_last(), b.drop_last());
    }
}

/// Passes of the same samples are alike.
proof fn lemma_passes_alike<O: Arithmetic>(
    ops: &O,
    mesh: Mesh,
    samples: Seq<BrushSample>,
    radius: u32,
    a: Seq<PreparedPass>,
    b: Seq<PreparedPass>,
)
    requires
        passes_of(ops, mesh, samples, radius, a),
        passes_of(ops, mesh, samples, radius, b),
    ensures
        alike(a, b),
{
    assert forall|i: int| 0 <= i < a.len() implies (#[trigger] a[i]).sample == b[i].sample
        && a[i].side == b[i].side && a[i].vertices@ == b[i].vertices@ by {
        assert(pass::prepared(ops, mesh, samples[i], radius, side_of(i), b[i]));
        assert(a[i].vertices@ =~= b[i].vertices@);
    }
}

/// Two equal samples of equal strokes on equal meshes that are put on one account, or on none, do
/// the same to the mesh.
pub proof fn equal_dabs_do_the_same<O: Arithmetic, G: Geometry>(
    ops: &O,
    geometry: &G,
    mesh: Mesh,
    one: Mesh,
    other: Mesh,
    before: SculptEngine,
    after_one: SculptEngine,
    after_other: SculptEngine,
    request: SampleRequest,
    kind: DabKind,
    result_one: bool,
    result_other: bool,
)
    requires
        mesh.well_formed(),
        channel_of(request) == channel_of((SampleRequest { dab_kind: kind, ..request })),
        sampled(ops, geometry, mesh, one, before, after_one, request, result_one),
        sampled(
            ops,
            geometry,
            mesh,
            other,
            before,
            after_other,
            (SampleRequest { dab_kind: kind, ..request }),
            result_other,
        ),
    ensures
        result_one == result_other,
        one.positions@ == other.positions@,
        one.mask@ == other.mask@,
        one.triangles == other.triangles,
{
    let stroke = before.active->0;
    let second = SampleRequest { dab_kind: kind, ..request };
    let (a, came_one) = choose|passes: Seq<PreparedPass>, outcome: StepOutcome| #[trigger]
        sample_came_to(
            ops,
            geometry,
            mesh,
            one,
            stroke,
            after_one.active->0,
            request,
            passes,
            outcome,
        ) && reported(before, after_one, outcome, result_one);
    let (b, came_other) = choose|passes: Seq<PreparedPass>, outcome: StepOutcome| #[trigger]
        sample_came_to(
            ops,
            geometry,
            mesh,
            other,
            stroke,
            after_other.active->0,
            second,
            passes,
            outcome,
        ) && reported(before, after_other, outcome, result_other);
    assert(mirrored_seed(ops, mesh, stroke, request) == mirrored_seed(ops, mesh, stroke, second));
    assert(samples_of(ops, mesh, stroke, request) == samples_of(ops, mesh, stroke, second));
    lemma_passes_alike(
        ops,
        mesh,
        samples_of(ops, mesh, stroke, request),
        request.settings.radius,
        a,
        b,
    );
    let frames = frames_of(ops, mesh, stroke, request, a);
    assert(frames =~= frames_of(ops, mesh, stroke, second, b));
    lemma_alike_moves(ops, mesh, request.tool, request.settings, a, b, frames);
    lemma_alike_paint(ops, mesh, request.settings, a, b);
    assert(proposal::passes_inverted(request.settings, a) == proposal::passes_inverted(
        request.settings,
        b,
    ));
    assert(moves_of(ops, mesh, stroke, request, a) == moves_of(ops, mesh, stroke, second, b));
    assert(masks_of(ops, mesh, stroke, request, a) == masks_of(ops, mesh, stroke, second, b));
}

/// In a stroke that accumulates, a dab that is due in time does what one that is due along the way
/// does.
pub proof fn accumulating_dabs_do_not_tell_their_kind<O: Arithmetic, G: Geometry>(
    ops: &O,
    geometry: &G,
    mesh: Mesh,
    one: Mesh,
    other: Mesh,
    before: SculptEngine,
    after_one: SculptEngine,
    after_other: SculptEngine,
    request: SampleRequest,
    kind: DabKind,
    result_one: bool,
    result_other: bool,
)
    requires
        mesh.well_formed(),
        request.settings.accumulation == Accumulation::Accumulate,
        sampled(ops, geometry, mesh, one, before, after_one, request, result_one),
        sampled(
            ops,
            geometry,
            mesh,
            other,
            before,
            after_other,
            (SampleRequest { dab_kind: kind, ..request }),
            result_other,
        ),
    ensures
        result_one == result_other,
        one.positions@ == other.positions@,
        one.mask@ == other.mask@,
        one.triangles == other.triangles,
{
    equal_dabs_do_the_same(
        ops,
        geometry,
        mesh,
        one,
        other,
        before,
        after_one,
        after_other,
        request,
        kind,
        result_one,
        result_other,
    );
}

} // verus!
