#![allow(dead_code)]

use glam::Vec3;
use sculpt_lite::arithmetic::{Arithmetic, Operations};
use sculpt_lite::brush::{
    brush_falloff, Accumulation, BrushSample, BrushSettings, DabKind, SculptTool, SymmetryAxis,
};
use sculpt_lite::geometry::Geometry;
use sculpt_lite::history::{History, HistoryAction, HistoryEntry, DEFAULT_HISTORY_BUDGET};
use sculpt_lite::mesh::Mesh;
use sculpt_lite::region::VertexTraversalScratch;
use sculpt_lite::scalar::Point;
use sculpt_lite::sculpt::SculptEngine;
use sculpt_lite::shapes::Solid;
use std::collections::HashMap;

fn bits(value: f32) -> u32 {
    value.to_bits()
}

fn number(bits: u32) -> f32 {
    f32::from_bits(bits)
}

fn ops() -> impl Arithmetic {
    Operations {
        sum: |a: u32, b: u32| bits(number(a) + number(b)),
        difference: |a: u32, b: u32| bits(number(a) - number(b)),
        product: |a: u32, b: u32| bits(number(a) * number(b)),
        quotient: |a: u32, b: u32| bits(number(a) / number(b)),
        root: |a: u32| bits(number(a).sqrt()),
        count: |items: usize| bits(items as f32),
    }
}

fn solid() -> impl Geometry {
    Solid { ops: ops() }
}

fn p(x: f32, y: f32, z: f32) -> Point {
    Point { x: bits(x), y: bits(y), z: bits(z) }
}

fn vec3(point: Point) -> Vec3 {
    Vec3::new(number(point.x), number(point.y), number(point.z))
}

fn pt(vector: Vec3) -> Point {
    p(vector.x, vector.y, vector.z)
}

fn pts(vectors: &[Vec3]) -> Vec<Point> {
    vectors.iter().map(|&vector| pt(vector)).collect()
}

fn copy(mesh: &Mesh) -> Mesh {
    Mesh::from_indexed(
        mesh.positions.clone(),
        mesh.triangles.clone(),
        mesh.mask.clone(),
        &solid(),
    )
    .unwrap()
}

fn apply(
    engine: &mut SculptEngine,
    mesh: &mut Mesh,
    tool: SculptTool,
    settings: &BrushSettings,
    sample: BrushSample,
    dab_kind: DabKind,
) -> bool {
    engine.apply_sample(
        mesh,
        tool,
        settings,
        sample,
        dab_kind,
        &ops(),
        &solid(),
    )
}

fn bases(engine: &SculptEngine) -> HashMap<u32, Vec3> {
    let stroke = engine.active.as_ref().unwrap();
    let grabbed = &stroke.grab.as_ref().unwrap().vertices;
    (0..grabbed.len())
        .map(|place| (grabbed.key(place), vec3(grabbed.value(place).base)))
        .collect()
}

fn grid() -> Mesh {
    let positions = [
        Vec3::new(-1.0, -1.0, 0.0),
        Vec3::new(0.0, -1.0, 0.0),
        Vec3::new(1.0, -1.0, 0.0),
        Vec3::new(-1.0, 0.0, 0.0),
        Vec3::new(0.0, 0.0, 0.0),
        Vec3::new(1.0, 0.0, 0.0),
        Vec3::new(-1.0, 1.0, 0.0),
        Vec3::new(0.0, 1.0, 0.0),
        Vec3::new(1.0, 1.0, 0.0),
    ];
    let triangles = vec![
        [0, 1, 4],
        [0, 4, 3],
        [1, 2, 5],
        [1, 5, 4],
        [3, 4, 7],
        [3, 7, 6],
        [4, 5, 8],
        [4, 8, 7],
    ];
    Mesh::new(pts(&positions), triangles, &solid()).expect("valid grid")
}

fn octahedron() -> Mesh {
    Mesh::new(
        pts(&[Vec3::X, Vec3::Y, Vec3::NEG_X, Vec3::NEG_Y, Vec3::Z, Vec3::NEG_Z]),
        vec![
            [4, 0, 1],
            [4, 1, 2],
            [4, 2, 3],
            [4, 3, 0],
            [5, 1, 0],
            [5, 2, 1],
            [5, 3, 2],
            [5, 0, 3],
        ],
        &solid(),
    )
    .expect("valid octahedron")
}

fn sample(center: Point, seed_triangle: u32) -> BrushSample {
    BrushSample {
        center,
        normal: pt(Vec3::Z),
        drag_delta: pt(Vec3::ZERO),
        view_direction: pt(Vec3::NEG_Z),
        seed_triangle,
        pressure: bits(1.0),
        invert_modifier: false,
    }
}

fn test_settings() -> BrushSettings {
    BrushSettings {
        radius: bits(2.1),
        strength: bits(1.0),
        falloff: bits(0.0),
        invert: false,
        symmetry: None,
        accumulation: Accumulation::Capped,
    }
}

fn coverage_mesh() -> Mesh {
    let mut mesh = grid();
    mesh.positions[4].z = bits(0.35);
    let _ = mesh.rebuild(&solid());
    mesh
}

fn coverage_settings() -> BrushSettings {
    BrushSettings { strength: bits(0.1), falloff: bits(0.95), ..test_settings() }
}

fn editable_state(mesh: &Mesh) -> (Vec<Point>, Vec<u32>) {
    (mesh.positions.clone(), mesh.mask.clone())
}

fn assert_editable_mesh_eq(actual: &Mesh, expected: &Mesh) {
    assert_eq!(actual.positions, expected.positions);
    assert_eq!(actual.triangles, expected.triangles);
    assert_eq!(actual.mask, expected.mask);
}

#[test]
fn falloff_has_stable_center_and_edge_values() {
    assert_eq!(number(brush_falloff(bits(0.0), bits(0.0), &ops())), 1.0);
    assert_eq!(number(brush_falloff(bits(1.0), bits(0.0), &ops())), 0.0);
    assert_eq!(number(brush_falloff(bits(1.5), bits(0.5), &ops())), 0.0);
    assert_eq!(number(brush_falloff(bits(0.25), bits(0.5), &ops())), 1.0);
    assert!((number(brush_falloff(bits(0.5), bits(0.0), &ops())) - 0.5).abs() < 1.0e-6);
}

#[test]
fn spatial_dab_tools_do_not_accumulate_until_the_next_stroke() {
    let tools = [
        SculptTool::Draw,
        SculptTool::Clay,
        SculptTool::Crease,
        SculptTool::Inflate,
        SculptTool::Smooth,
        SculptTool::Pinch,
        SculptTool::Flatten,
        SculptTool::Mask,
    ];
    for tool in tools {
        let mut mesh = coverage_mesh();
        let settings = coverage_settings();
        let brush_sample = sample(mesh.positions[4], 0);
        let mut engine = SculptEngine::new();
        engine.begin_stroke(&mesh, &ops());

        assert!(apply(&mut engine, &mut mesh, tool, &settings, brush_sample, DabKind::Spatial));
        let after_first = editable_state(&mesh);
        assert!(!apply(&mut engine, &mut mesh, tool, &settings, brush_sample, DabKind::Spatial));
        assert_eq!(editable_state(&mesh), after_first);

        assert!(!engine.end_stroke(&mesh).edit.is_empty());
        engine.begin_stroke(&mesh, &ops());
        assert!(apply(&mut engine, &mut mesh, tool, &settings, brush_sample, DabKind::Spatial));
    }
}

#[test]
fn accumulating_spatial_and_timed_dabs_keep_building_up() {
    for tool in [
        SculptTool::Draw,
        SculptTool::Clay,
        SculptTool::Crease,
        SculptTool::Inflate,
        SculptTool::Smooth,
        SculptTool::Pinch,
        SculptTool::Flatten,
        SculptTool::Mask,
    ] {
        let mut mesh = coverage_mesh();
        let mut settings = coverage_settings();
        settings.accumulation = Accumulation::Accumulate;
        let brush_sample = sample(mesh.positions[4], 0);
        let mut engine = SculptEngine::new();
        engine.begin_stroke(&mesh, &ops());

        assert!(apply(
            &mut engine,
            &mut mesh,
            tool,
            &settings,
            brush_sample,
            DabKind::Spatial,
        ));
        let after_first = editable_state(&mesh);
        assert!(apply(&mut engine, &mut mesh, tool, &settings, brush_sample, DabKind::Spatial));
        assert_ne!(editable_state(&mesh), after_first);

        let after_spatial = editable_state(&mesh);
        assert!(apply(&mut engine, &mut mesh, tool, &settings, brush_sample, DabKind::Timed));
        assert_ne!(editable_state(&mesh), after_spatial);
    }
}

#[test]
fn accumulating_spatial_and_timed_samples_have_identical_effects() {
    for tool in [
        SculptTool::Draw,
        SculptTool::Clay,
        SculptTool::Crease,
        SculptTool::Inflate,
        SculptTool::Smooth,
        SculptTool::Pinch,
        SculptTool::Flatten,
        SculptTool::Mask,
    ] {
        let mut spatial = coverage_mesh();
        let mut timed = copy(&spatial);
        let mut settings = coverage_settings();
        settings.accumulation = Accumulation::Accumulate;
        let brush_sample = sample(spatial.positions[4], 0);
        let mut spatial_engine = SculptEngine::new();
        let mut timed_engine = SculptEngine::new();
        spatial_engine.begin_stroke(&spatial, &ops());
        timed_engine.begin_stroke(&timed, &ops());

        assert!(apply(
            &mut spatial_engine,
            &mut spatial,
            tool,
            &settings,
            brush_sample,
            DabKind::Spatial,
        ));
        assert!(apply(
            &mut timed_engine,
            &mut timed,
            tool,
            &settings,
            brush_sample,
            DabKind::Timed,
        ));
        assert_eq!(editable_state(&spatial), editable_state(&timed));
    }
}

#[test]
fn spatial_coverage_tracks_tool_polarity_pressure_and_masking() {
    let settings = coverage_settings();
    let mut mesh = coverage_mesh();
    let brush_sample = sample(mesh.positions[4], 0);
    let mut engine = SculptEngine::new();
    engine.begin_stroke(&mesh, &ops());

    assert!(apply(
        &mut engine,
        &mut mesh,
        SculptTool::Draw,
        &settings,
        brush_sample,
        DabKind::Spatial,
    ));
    assert!(apply(
        &mut engine,
        &mut mesh,
        SculptTool::Smooth,
        &settings,
        brush_sample,
        DabKind::Spatial,
    ));
    let after_smooth = editable_state(&mesh);
    let mut inverted = brush_sample;
    inverted.invert_modifier = true;
    assert!(!apply(
        &mut engine,
        &mut mesh,
        SculptTool::Smooth,
        &settings,
        inverted,
        DabKind::Spatial,
    ));
    assert_eq!(editable_state(&mesh), after_smooth);
    assert!(apply(
        &mut engine,
        &mut mesh,
        SculptTool::Draw,
        &settings,
        inverted,
        DabKind::Spatial,
    ));

    let mut pressure_mesh = grid();
    let mut pressure_sample = sample(pt(Vec3::ZERO), 0);
    pressure_sample.pressure = bits(0.25);
    let mut pressure_engine = SculptEngine::new();
    pressure_engine.begin_stroke(&pressure_mesh, &ops());
    assert!(apply(
        &mut pressure_engine,
        &mut pressure_mesh,
        SculptTool::Draw,
        &settings,
        pressure_sample,
        DabKind::Spatial,
    ));
    let first_height = number(pressure_mesh.positions[4].z);
    pressure_sample.pressure = bits(0.5);
    assert!(apply(
        &mut pressure_engine,
        &mut pressure_mesh,
        SculptTool::Draw,
        &settings,
        pressure_sample,
        DabKind::Spatial,
    ));
    assert!((number(pressure_mesh.positions[4].z) - first_height * 2.0).abs() < 1.0e-6);
    assert!(!apply(
        &mut pressure_engine,
        &mut pressure_mesh,
        SculptTool::Draw,
        &settings,
        pressure_sample,
        DabKind::Spatial,
    ));

    let mut masked = grid();
    masked.mask[4] = bits(0.5);
    let mut masked_engine = SculptEngine::new();
    masked_engine.begin_stroke(&masked, &ops());
    assert!(apply(
        &mut masked_engine,
        &mut masked,
        SculptTool::Draw,
        &settings,
        sample(pt(Vec3::ZERO), 0),
        DabKind::Spatial,
    ));
    assert!((number(masked.positions[4].z) - first_height * 2.0).abs() < 1.0e-6);
}

#[test]
fn mirrored_spatial_passes_share_coverage() {
    let mut regular = grid();
    let mut mirrored = grid();
    let settings = coverage_settings();
    let mut symmetry_settings = settings;
    symmetry_settings.symmetry = Some(SymmetryAxis::X);
    let brush_sample = sample(pt(Vec3::new(0.1, 0.0, 0.0)), 0);
    let mut regular_engine = SculptEngine::new();
    let mut mirrored_engine = SculptEngine::new();
    regular_engine.begin_stroke(&regular, &ops());
    mirrored_engine.begin_stroke(&mirrored, &ops());

    assert!(apply(
        &mut regular_engine,
        &mut regular,
        SculptTool::Mask,
        &settings,
        brush_sample,
        DabKind::Spatial,
    ));
    assert!(apply(
        &mut mirrored_engine,
        &mut mirrored,
        SculptTool::Mask,
        &symmetry_settings,
        brush_sample,
        DabKind::Spatial,
    ));
    assert_eq!(mirrored.mask, regular.mask);
}

#[test]
fn rejected_spatial_sample_does_not_consume_coverage() {
    let mut mesh = grid();
    let mut settings = test_settings();
    settings.falloff = bits(1.0);
    settings.strength = bits(0.1);
    let mut brush_sample = sample(pt(Vec3::ZERO), 0);
    brush_sample.normal = pt(Vec3::NAN);
    let mut engine = SculptEngine::new();
    engine.begin_stroke(&mesh, &ops());

    assert!(!apply(
        &mut engine,
        &mut mesh,
        SculptTool::Draw,
        &settings,
        brush_sample,
        DabKind::Spatial,
    ));
    brush_sample.normal = pt(Vec3::Z);
    assert!(apply(
        &mut engine,
        &mut mesh,
        SculptTool::Draw,
        &settings,
        brush_sample,
        DabKind::Spatial,
    ));
}

#[test]
fn one_spatial_click_records_one_history_entry_in_each_accumulation_mode() {
    for accumulation in [Accumulation::Capped, Accumulation::Accumulate] {
        let mut mesh = grid();
        let before = copy(&mesh);
        let mut engine = SculptEngine::new();
        let mut settings = coverage_settings();
        settings.accumulation = accumulation;
        engine.begin_stroke(&mesh, &ops());
        assert!(apply(
            &mut engine,
            &mut mesh,
            SculptTool::Draw,
            &settings,
            sample(pt(Vec3::ZERO), 0),
            DabKind::Spatial,
        ));
        let outcome = engine.end_stroke(&mesh);
        let mut history = History::new(DEFAULT_HISTORY_BUDGET, 1);
        assert!(history.record(HistoryEntry::Local(outcome.edit)));

        assert!(matches!(
            history.undo(&mut mesh, &solid()),
            HistoryAction::Local { .. }
        ));
        assert_editable_mesh_eq(&mesh, &before);
        assert!(matches!(history.undo(&mut mesh, &solid()), HistoryAction::Empty));
    }
}

#[test]
fn a_full_mask_prevents_deformation() {
    let mut mesh = grid();
    mesh.mask[4] = bits(1.0);
    let before = mesh.positions[4];
    let mut engine = SculptEngine::new();
    engine.begin_stroke(&mesh, &ops());

    assert!(apply(
        &mut engine,
        &mut mesh,
        SculptTool::Draw,
        &test_settings(),
        sample(pt(Vec3::ZERO), 0),
        DabKind::Spatial,
    ));
    assert_eq!(mesh.positions[4], before);
    assert!(mesh.positions.iter().any(|position| number(position.z) > 0.0));
}

#[test]
fn symmetry_mirrors_brush_deformation() {
    let mut mesh = grid();
    let mut settings = test_settings();
    settings.radius = bits(0.8);
    settings.falloff = bits(0.4);
    settings.symmetry = Some(SymmetryAxis::X);
    let mut engine = SculptEngine::new();
    engine.begin_stroke(&mesh, &ops());

    assert!(apply(
        &mut engine,
        &mut mesh,
        SculptTool::Draw,
        &settings,
        sample(pt(Vec3::new(1.0, 0.0, 0.0)), 2),
        DabKind::Spatial,
    ));
    assert!(number(mesh.positions[5].z) > 0.0);
    assert_eq!(number(mesh.positions[3].z), number(mesh.positions[5].z));
}

#[test]
fn inversion_reverses_an_inflate_brush() {
    let mut outward = grid();
    let mut inward = grid();
    let settings = test_settings();
    let mut normal_engine = SculptEngine::new();
    let mut inverse_engine = SculptEngine::new();
    normal_engine.begin_stroke(&outward, &ops());
    inverse_engine.begin_stroke(&inward, &ops());
    let normal_sample = sample(pt(Vec3::ZERO), 0);
    let mut inverse_sample = normal_sample;
    inverse_sample.invert_modifier = true;

    apply(
        &mut normal_engine,
        &mut outward,
        SculptTool::Inflate,
        &settings,
        normal_sample,
        DabKind::Spatial,
    );
    apply(
        &mut inverse_engine,
        &mut inward,
        SculptTool::Inflate,
        &settings,
        inverse_sample,
        DabKind::Spatial,
    );

    assert!(number(outward.positions[4].z) > 0.0);
    assert_eq!(number(outward.positions[4].z), -number(inward.positions[4].z));
}

#[test]
fn clay_adds_and_subtracts_while_flattening_to_its_local_plane() {
    let mut added = grid();
    let mut subtracted = grid();
    let mut settings = test_settings();
    settings.radius = bits(0.75);
    settings.strength = bits(0.5);
    let mut add_engine = SculptEngine::new();
    let mut subtract_engine = SculptEngine::new();
    add_engine.begin_stroke(&added, &ops());
    subtract_engine.begin_stroke(&subtracted, &ops());
    let add_sample = sample(pt(Vec3::ZERO), 0);
    let mut subtract_sample = add_sample;
    subtract_sample.invert_modifier = true;

    assert!(apply(
        &mut add_engine,
        &mut added,
        SculptTool::Clay,
        &settings,
        add_sample,
        DabKind::Spatial,
    ));
    assert!(apply(
        &mut subtract_engine,
        &mut subtracted,
        SculptTool::Clay,
        &settings,
        subtract_sample,
        DabKind::Spatial,
    ));
    assert!(number(added.positions[4].z) > 0.0);
    assert_eq!(number(added.positions[4].z), -number(subtracted.positions[4].z));

    let mut uneven = grid();
    uneven.positions[4].z = bits(0.4);
    let _ = uneven.rebuild(&solid());
    let mut planar_settings = test_settings();
    planar_settings.falloff = bits(0.95);
    let center = uneven.positions[4];
    let mut engine = SculptEngine::new();
    engine.begin_stroke(&uneven, &ops());
    assert!(apply(
        &mut engine,
        &mut uneven,
        SculptTool::Clay,
        &planar_settings,
        sample(center, 0),
        DabKind::Spatial,
    ));
    let minimum = uneven
        .positions
        .iter()
        .map(|position| number(position.z))
        .fold(f32::INFINITY, f32::min);
    let maximum = uneven
        .positions
        .iter()
        .map(|position| number(position.z))
        .fold(f32::NEG_INFINITY, f32::max);
    assert!(maximum - minimum < 1.0e-5);
}

#[test]
fn crease_builds_ridges_and_grooves_while_always_pinching_inward() {
    let mut ridge = grid();
    let mut groove = grid();
    let mut settings = test_settings();
    settings.radius = bits(1.1);
    settings.strength = bits(0.2);
    settings.falloff = bits(0.95);
    let mut ridge_engine = SculptEngine::new();
    let mut groove_engine = SculptEngine::new();
    ridge_engine.begin_stroke(&ridge, &ops());
    groove_engine.begin_stroke(&groove, &ops());
    let ridge_sample = sample(pt(Vec3::ZERO), 0);
    let mut groove_sample = ridge_sample;
    groove_sample.invert_modifier = true;

    assert!(apply(
        &mut ridge_engine,
        &mut ridge,
        SculptTool::Crease,
        &settings,
        ridge_sample,
        DabKind::Spatial,
    ));
    assert!(apply(
        &mut groove_engine,
        &mut groove,
        SculptTool::Crease,
        &settings,
        groove_sample,
        DabKind::Spatial,
    ));
    assert!(number(ridge.positions[4].z) > 0.0);
    assert_eq!(number(ridge.positions[4].z), -number(groove.positions[4].z));
    assert!(number(ridge.positions[5].x) < 1.0);
    assert!(number(groove.positions[5].x) < 1.0);
    assert_eq!(number(ridge.positions[5].x), number(groove.positions[5].x));
}

#[test]
fn clay_and_crease_scale_linearly_with_pressure() {
    for tool in [SculptTool::Clay, SculptTool::Crease] {
        let mut low = grid();
        let mut high = grid();
        let mut settings = test_settings();
        settings.radius = bits(0.75);
        settings.strength = bits(1.0);
        let mut low_engine = SculptEngine::new();
        let mut high_engine = SculptEngine::new();
        low_engine.begin_stroke(&low, &ops());
        high_engine.begin_stroke(&high, &ops());
        let mut low_sample = sample(pt(Vec3::ZERO), 0);
        low_sample.pressure = bits(0.25);
        let mut high_sample = low_sample;
        high_sample.pressure = bits(0.5);

        assert!(apply(
            &mut low_engine,
            &mut low,
            tool,
            &settings,
            low_sample,
            DabKind::Spatial,
        ));
        assert!(apply(
            &mut high_engine,
            &mut high,
            tool,
            &settings,
            high_sample,
            DabKind::Spatial,
        ));
        assert!((number(high.positions[4].z) - number(low.positions[4].z) * 2.0).abs() < 1.0e-6);
    }
}

#[test]
fn ineffective_pressure_cannot_deform() {
    for tool in [SculptTool::Clay, SculptTool::Crease] {
        for pressure in [0.0, -1.0, f32::NAN, f32::INFINITY] {
            let mut mesh = octahedron();
            let before = copy(&mesh);
            let mut settings = test_settings();
            settings.radius = bits(1.2);
            let mut brush_sample = sample(pt(Vec3::splat(1.0 / 3.0)), 0);
            brush_sample.pressure = bits(pressure);
            let mut engine = SculptEngine::new();
            engine.begin_stroke(&mesh, &ops());

            assert!(!apply(
                &mut engine,
                &mut mesh,
                tool,
                &settings,
                brush_sample,
                DabKind::Spatial,
            ));
            assert!(!engine.take_sample_committed());
            assert_editable_mesh_eq(&mesh, &before);
            let outcome = engine.end_stroke(&mesh);
            assert!(outcome.edit.is_empty());
            assert!(outcome.warning.is_none());
        }
    }
}

#[test]
fn clay_and_crease_respect_full_partial_masks_and_symmetry() {
    for tool in [SculptTool::Clay, SculptTool::Crease] {
        let mut fully_masked = grid();
        fully_masked.mask[4] = bits(1.0);
        let before = fully_masked.positions.clone();
        let mut settings = test_settings();
        settings.radius = bits(0.75);
        settings.strength = bits(0.5);
        let mut engine = SculptEngine::new();
        engine.begin_stroke(&fully_masked, &ops());
        assert!(!apply(
            &mut engine,
            &mut fully_masked,
            tool,
            &settings,
            sample(pt(Vec3::ZERO), 0),
            DabKind::Spatial,
        ));
        assert_eq!(fully_masked.positions, before);

        let mut unmasked = grid();
        let mut partially_masked = grid();
        partially_masked.mask[4] = bits(0.5);
        let mut unmasked_engine = SculptEngine::new();
        let mut partial_engine = SculptEngine::new();
        unmasked_engine.begin_stroke(&unmasked, &ops());
        partial_engine.begin_stroke(&partially_masked, &ops());
        assert!(apply(
            &mut unmasked_engine,
            &mut unmasked,
            tool,
            &settings,
            sample(pt(Vec3::ZERO), 0),
            DabKind::Spatial,
        ));
        assert!(apply(
            &mut partial_engine,
            &mut partially_masked,
            tool,
            &settings,
            sample(pt(Vec3::ZERO), 0),
            DabKind::Spatial,
        ));
        assert!(
            (number(partially_masked.positions[4].z) - number(unmasked.positions[4].z) * 0.5).abs() < 1.0e-6
        );

        let mut symmetric = grid();
        let mut symmetry_settings = settings;
        symmetry_settings.radius = bits(0.8);
        symmetry_settings.symmetry = Some(SymmetryAxis::X);
        let mut symmetry_engine = SculptEngine::new();
        symmetry_engine.begin_stroke(&symmetric, &ops());
        assert!(apply(
            &mut symmetry_engine,
            &mut symmetric,
            tool,
            &symmetry_settings,
            sample(pt(Vec3::X * 0.8), 2),
            DabKind::Spatial,
        ));
        assert!(number(symmetric.positions[5].z) > 0.0);
        assert_eq!(number(symmetric.positions[3].z), number(symmetric.positions[5].z));
        assert_eq!(number(symmetric.positions[3].x), -number(symmetric.positions[5].x));
    }
}

#[test]
fn clay_and_crease_fixed_strokes_have_exact_undo_and_redo() {
    for tool in [SculptTool::Clay, SculptTool::Crease] {
        let mut mesh = grid();
        let before = copy(&mesh);
        let mut settings = test_settings();
        settings.radius = bits(0.75);
        settings.strength = bits(0.5);
        let mut engine = SculptEngine::new();
        engine.begin_stroke(&mesh, &ops());
        assert!(apply(
            &mut engine,
            &mut mesh,
            tool,
            &settings,
            sample(pt(Vec3::ZERO), 0),
            DabKind::Spatial,
        ));
        let outcome = engine.end_stroke(&mesh);
        assert!(!outcome.edit.is_empty());
        let after = copy(&mesh);
        let mut history = History::new(DEFAULT_HISTORY_BUDGET, 1);
        assert!(history.record(HistoryEntry::Local(outcome.edit)));

        assert!(matches!(
            history.undo(&mut mesh, &solid()),
            HistoryAction::Local { .. }
        ));
        assert_editable_mesh_eq(&mesh, &before);
        assert!(matches!(
            history.redo(&mut mesh, &solid()),
            HistoryAction::Local { .. }
        ));
        assert_editable_mesh_eq(&mesh, &after);
    }
}

#[test]
fn smoothing_reduces_a_local_peak() {
    let mut mesh = grid();
    mesh.positions[4].z = bits(1.0);
    let _ = mesh.rebuild(&solid());
    let before = number(mesh.positions[4].z);
    let center = mesh.positions[4];
    let mut settings = test_settings();
    settings.radius = bits(0.75);
    let mut engine = SculptEngine::new();
    engine.begin_stroke(&mesh, &ops());

    assert!(apply(
        &mut engine,
        &mut mesh,
        SculptTool::Smooth,
        &settings,
        sample(center, 0),
        DabKind::Spatial,
    ));
    assert!(number(mesh.positions[4].z) < before);
}

#[test]
fn mask_brush_adds_and_inverted_mask_brush_erases() {
    let mut mesh = grid();
    let settings = test_settings();
    let mut engine = SculptEngine::new();
    engine.begin_stroke(&mesh, &ops());
    let mut brush_sample = sample(pt(Vec3::ZERO), 0);

    assert!(apply(
        &mut engine,
        &mut mesh,
        SculptTool::Mask,
        &settings,
        brush_sample,
        DabKind::Spatial,
    ));
    assert!(number(mesh.mask[4]) > 0.0);

    brush_sample.invert_modifier = true;
    assert!(apply(
        &mut engine,
        &mut mesh,
        SculptTool::Mask,
        &settings,
        brush_sample,
        DabKind::Spatial,
    ));
    assert_eq!(number(mesh.mask[4]), 0.0);
    let outcome = engine.end_stroke(&mesh);
    assert!(outcome.edit.is_empty());
}

#[test]
fn stroke_records_each_original_vertex_once_across_samples() {
    let mut mesh = grid();
    let before = mesh.positions.clone();
    let settings = test_settings();
    let mut engine = SculptEngine::new();
    engine.begin_stroke(&mesh, &ops());

    apply(
        &mut engine,
        &mut mesh,
        SculptTool::Draw,
        &settings,
        sample(pt(Vec3::ZERO), 0),
        DabKind::Spatial,
    );
    apply(
        &mut engine,
        &mut mesh,
        SculptTool::Draw,
        &settings,
        sample(pt(Vec3::ZERO), 0),
        DabKind::Spatial,
    );
    let outcome = engine.end_stroke(&mesh);

    assert!(!outcome.edit.positions.is_empty());
    assert!(
        outcome
            .edit
            .positions
            .windows(2)
            .all(|changes| changes[0].vertex < changes[1].vertex)
    );
    for change in &outcome.edit.positions {
        assert_eq!(change.before, before[change.vertex as usize]);
        assert_eq!(change.after, mesh.positions[change.vertex as usize]);
    }
}

#[test]
fn fixed_topology_step_limits_a_degenerate_position_edit_before_refreshing_derived_data() {
    let mut mesh = grid();
    let before_positions = mesh.positions.clone();
    let before_normals = mesh.normals.clone();
    let mut settings = test_settings();
    settings.falloff = bits(1.0);
    let mut engine = SculptEngine::new();
    engine.begin_stroke(&mesh, &ops());

    assert!(apply(
        &mut engine,
        &mut mesh,
        SculptTool::Pinch,
        &settings,
        sample(pt(Vec3::ZERO), 0),
        DabKind::Spatial,
    ));

    assert_ne!(mesh.positions, before_positions);
    assert_eq!(mesh.normals, before_normals);
    assert!(!engine.take_updated_vertices().is_empty());
    assert!(engine.take_error().is_none());
    assert!(!engine.end_stroke(&mesh).edit.is_empty());
}

#[test]
fn anchored_grab_uses_press_selection_and_total_pointer_displacement() {
    let mut mesh = grid();
    let before = mesh.positions.clone();
    let settings = test_settings();
    let mut engine = SculptEngine::new();
    engine.begin_stroke(&mesh, &ops());
    let centre = sample(pt(Vec3::ZERO), 0);
    assert!(engine.anchor_grab(&mesh, &settings, centre, &ops()));

    let drag = pt(Vec3::new(0.25, 0.0, 0.0));
    assert!(engine.apply_grab_delta(&mut mesh, drag, bits(1.0), &ops(), &solid()));
    assert!(number(mesh.positions[4].x) > number(before[4].x));
    let drag = pt(Vec3::new(-0.25, 0.0, 0.0));
    assert!(engine.apply_grab_delta(&mut mesh, drag, bits(1.0), &ops(), &solid()));
    assert_eq!(mesh.positions, before);
    assert!(engine.end_stroke(&mesh).edit.is_empty());
}

#[test]
fn grab_symmetry_cancels_axis_motion_on_the_plane() {
    let mut mesh = grid();
    let mut settings = test_settings();
    settings.symmetry = Some(SymmetryAxis::X);
    let mut engine = SculptEngine::new();
    engine.begin_stroke(&mesh, &ops());
    let centre = sample(pt(Vec3::ZERO), 0);
    assert!(engine.anchor_grab(&mesh, &settings, centre, &ops()));
    let drag = pt(Vec3::new(0.25, 0.2, 0.0));
    assert!(engine.apply_grab_delta(&mut mesh, drag, bits(1.0), &ops(), &solid()));

    assert!(number(mesh.positions[4].x).abs() < 1.0e-6);
    assert!(number(mesh.positions[4].y) > 0.0);
}

#[test]
fn temporary_smoothing_rebases_an_active_grab_anchor() {
    let mut mesh = grid();
    let mut settings = test_settings();
    settings.accumulation = Accumulation::Accumulate;
    let mut engine = SculptEngine::new();
    engine.begin_stroke(&mesh, &ops());
    let centre = sample(pt(Vec3::ZERO), 0);
    assert!(engine.anchor_grab(&mesh, &settings, centre, &ops()));
    let drag = pt(Vec3::new(0.25, 0.0, 0.0));
    assert!(engine.apply_grab_delta(&mut mesh, drag, bits(1.0), &ops(), &solid()));

    let positions_before_smooth = mesh.positions.clone();
    let bases_before = bases(&engine);
    assert!(apply(
        &mut engine,
        &mut mesh,
        SculptTool::Smooth,
        &settings,
        sample(pt(Vec3::ZERO), 0),
        DabKind::Spatial,
    ));

    let bases_after = bases(&engine);
    assert_eq!(bases_after.len(), bases_before.len());
    for (vertex, base) in bases_after {
        let smooth_delta = vec3(mesh.positions[vertex as usize])
            - vec3(positions_before_smooth[vertex as usize]);
        assert!(base.abs_diff_eq(bases_before[&vertex] + smooth_delta, 1.0e-6));
    }
}

#[test]
fn taubin_smoothing_keeps_more_volume_than_a_full_laplacian_step() {
    fn volume(mesh: &Mesh) -> f32 {
        mesh.triangles
            .iter()
            .map(|triangle| {
                let [a, b, c] = triangle.map(|vertex| vec3(mesh.positions[vertex as usize]));
                a.dot(b.cross(c)) / 6.0
            })
            .sum::<f32>()
            .abs()
    }

    let mut mesh = octahedron();
    let before = volume(&mesh);
    let mut settings = test_settings();
    settings.radius = bits(3.0);
    settings.falloff = bits(1.0);
    let mut engine = SculptEngine::new();
    engine.begin_stroke(&mesh, &ops());
    assert!(apply(
        &mut engine,
        &mut mesh,
        SculptTool::Smooth,
        &settings,
        sample(pt(Vec3::ZERO), 0),
        DabKind::Spatial,
    ));

    assert!(volume(&mesh) > before * 0.4);
}

#[test]
fn undersampled_brush_reports_one_non_blocking_warning() {
    let mut mesh = grid();
    let mut settings = test_settings();
    settings.radius = bits(0.25);
    let mut engine = SculptEngine::new();
    engine.begin_stroke(&mesh, &ops());
    assert!(apply(
        &mut engine,
        &mut mesh,
        SculptTool::Draw,
        &settings,
        sample(pt(Vec3::ZERO), 0),
        DabKind::Spatial,
    ));
    let outcome = engine.end_stroke(&mesh);
    assert!(outcome.warning.is_some());
    assert!(!outcome.edit.is_empty());
}

#[test]
fn dabs_outside_a_stroke_change_nothing() {
    let mut mesh = grid();
    let before = copy(&mesh);
    let mut engine = SculptEngine::new();
    let centre = sample(pt(Vec3::ZERO), 0);
    assert!(!apply(
        &mut engine,
        &mut mesh,
        SculptTool::Draw,
        &test_settings(),
        centre,
        DabKind::Spatial,
    ));
    assert_editable_mesh_eq(&mesh, &before);
    assert!(!engine.is_stroking());
    engine.begin_stroke(&mesh, &ops());
    assert!(engine.is_stroking());
}

#[test]
fn a_capped_draw_dab_raises_its_centre_by_its_share_of_the_radius() {
    let mut mesh = grid();
    let mut engine = SculptEngine::new();
    engine.begin_stroke(&mesh, &ops());
    assert!(apply(
        &mut engine,
        &mut mesh,
        SculptTool::Draw,
        &coverage_settings(),
        sample(pt(Vec3::ZERO), 0),
        DabKind::Spatial,
    ));
    assert!(engine.take_sample_committed());
    assert!(!engine.take_sample_committed());
    assert!(engine.take_updated_vertices().contains(&4));
    assert!(number(mesh.positions[4].z) > 0.0);
    assert_eq!(number(mesh.positions[4].x), 0.0);
}

#[test]
fn a_drag_goes_no_farther_than_the_faces_allow() {
    let mut mesh = grid();
    let mut settings = test_settings();
    settings.radius = bits(0.75);
    let mut engine = SculptEngine::new();
    engine.begin_stroke(&mesh, &ops());
    let centre = sample(pt(Vec3::ZERO), 0);
    assert!(engine.anchor_grab(&mesh, &settings, centre, &ops()));
    let drag = p(3.0, 0.0, 0.0);
    assert!(engine.apply_grab_delta(&mut mesh, drag, bits(1.0), &ops(), &solid()));
    assert_eq!(mesh.positions[4], p(0.75, 0.0, 0.0));
    for &[a, b, c] in &mesh.triangles {
        let [a, b, c] = [a, b, c].map(|vertex| vec3(mesh.positions[vertex as usize]));
        assert!((b - a).cross(c - a).z > 0.0);
    }
}

#[test]
fn a_drag_that_no_part_of_is_safe_moves_nothing() {
    let mut mesh = grid();
    let before = copy(&mesh);
    let mut settings = test_settings();
    settings.radius = bits(0.75);
    let mut engine = SculptEngine::new();
    engine.begin_stroke(&mesh, &ops());
    let centre = sample(pt(Vec3::ZERO), 0);
    assert!(engine.anchor_grab(&mesh, &settings, centre, &ops()));
    let drag = p(1000.0, 0.0, 0.0);
    assert!(!engine.apply_grab_delta(&mut mesh, drag, bits(1.0), &ops(), &solid()));
    assert!(engine.take_error().unwrap().starts_with("Grab could not find a safe"));
    assert_editable_mesh_eq(&mesh, &before);
}

#[test]
fn a_dab_that_only_rounds_away_changes_nothing() {
    let mut mesh = Mesh::new(
        vec![p(16777216.0, 0.0, 0.0), p(16777218.0, -1.0, 0.0), p(16777218.0, 1.0, 0.0)],
        vec![[0, 1, 2]],
        &solid(),
    )
    .unwrap();
    let before = copy(&mesh);
    let mut settings = test_settings();
    settings.radius = bits(1.0);
    let mut engine = SculptEngine::new();
    engine.begin_stroke(&mesh, &ops());
    let dragged = BrushSample { drag_delta: p(1.5, 0.0, 0.0), ..sample(mesh.positions[0], 0) };
    assert!(!apply(
        &mut engine,
        &mut mesh,
        SculptTool::Grab,
        &settings,
        dragged,
        DabKind::Spatial,
    ));
    assert!(engine.take_error().unwrap().starts_with("Sculpt sample rejected"));
    assert!(!engine.take_sample_committed());
    assert!(engine.take_updated_vertices().is_empty());
    assert_editable_mesh_eq(&mesh, &before);
    assert!(engine.end_stroke(&mesh).edit.is_empty());
}

#[test]
fn a_drag_whose_safe_part_is_done_already_changes_nothing() {
    let mut mesh = grid();
    let mut settings = test_settings();
    settings.radius = bits(0.75);
    let mut engine = SculptEngine::new();
    engine.begin_stroke(&mesh, &ops());
    let centre = sample(pt(Vec3::ZERO), 0);
    assert!(engine.anchor_grab(&mesh, &settings, centre, &ops()));
    assert!(engine.apply_grab_delta(&mut mesh, p(3.0, 0.0, 0.0), bits(1.0), &ops(), &solid()));
    assert!(engine.take_sample_committed());
    let before = copy(&mesh);
    assert!(!engine.apply_grab_delta(&mut mesh, p(0.0, 0.0, 0.0), bits(1.0), &ops(), &solid()));
    assert!(!engine.take_sample_committed());
    assert!(engine.take_updated_vertices().is_empty());
    assert_eq!(engine.take_error(), None);
    assert_editable_mesh_eq(&mesh, &before);
}

#[test]
fn a_brush_walks_from_the_corners_of_its_seed_to_their_neighbors() {
    let mesh = grid();
    let mut scratch = VertexTraversalScratch::new();
    let mut reached = Vec::new();
    mesh.connected_front_facing_vertices(
        0,
        pt(Vec3::ZERO),
        bits(10.0),
        pt(Vec3::NEG_Z),
        &ops(),
        &mut scratch,
        &mut reached,
    );
    assert_eq!(reached, vec![0, 1, 4, 3, 2, 5, 7, 8, 6]);
}
