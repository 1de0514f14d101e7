#![allow(dead_code)]

use glam::{Mat4, Vec3, Vec4};
use sculpt_lite::arithmetic::{Arithmetic, Operations};
use sculpt_lite::batch::RenderUpdate;
use sculpt_lite::brush::{Accumulation, SculptTool};
use sculpt_lite::camera::{CameraFrame, CameraMode, ScreenRect};
use sculpt_lite::controls::{
    brush_cursor_color, FlyKeyState, MouseWheelUnit, ShortcutAction, ShortcutDirection,
};
use sculpt_lite::course::PointerState;
use sculpt_lite::editing::{HistoryStep, ShortcutOutcome};
use sculpt_lite::geometry::Geometry;
use sculpt_lite::history::MeshSnapshot;
use sculpt_lite::input::{Modifiers, ScreenPoint};
use sculpt_lite::mesh::Mesh;
use sculpt_lite::optics::{Clip, Lens, Matrix, Optics, View};
use sculpt_lite::painting::Instruments;
use sculpt_lite::prompts::{is_stl_extension, UnsavedAnswer};
use sculpt_lite::scalar::Point;
use sculpt_lite::session::{
    BackgroundTask, BuildUp, FilePath, PendingAction, Session, WorkerReply,
};
use sculpt_lite::shapes::Solid;
use sculpt_lite::stl::{import_triangles, ImportReport};
use sculpt_lite::tasks::AfterReply;
use sculpt_lite::viewport::{FlyInput, OrbitInput};
use std::sync::Arc;

fn bits(value: f32) -> u32 {
    value.to_bits()
}

fn number(bits: u32) -> f32 {
    f32::from_bits(bits)
}

fn ops() -> impl Arithmetic {
    Operations {
        sum: |a: u32, b: u32| bits(number(a) + number(b)),
        difference: |a: u32, b: u32| bits(number(a) - number(b)),
        product: |a: u32, b: u32| bits(number(a) * number(b)),
        quotient: |a: u32, b: u32| bits(number(a) / number(b)),
        root: |a: u32| bits(number(a).sqrt()),
        count: |items: usize| bits(items as f32),
    }
}

fn solid() -> impl Geometry {
    Solid { ops: ops() }
}

fn p(x: f32, y: f32, z: f32) -> Point {
    Point { x: bits(x), y: bits(y), z: bits(z) }
}

fn vec3(point: Point) -> Vec3 {
    Vec3::new(number(point.x), number(point.y), number(point.z))
}

fn pt(vector: Vec3) -> Point {
    p(vector.x, vector.y, vector.z)
}

fn pts(vectors: &[Vec3]) -> Vec<Point> {
    vectors.iter().map(|&vector| pt(vector)).collect()
}

fn at(x: f32, y: f32) -> ScreenPoint {
    ScreenPoint { x: bits(x), y: bits(y) }
}

fn vec4(clip: Clip) -> Vec4 {
    Vec4::new(number(clip.x), number(clip.y), number(clip.z), number(clip.w))
}

fn clip(vector: Vec4) -> Clip {
    Clip { x: bits(vector.x), y: bits(vector.y), z: bits(vector.z), w: bits(vector.w) }
}

fn mat4(matrix: Matrix) -> Mat4 {
    Mat4::from_cols(vec4(matrix.x), vec4(matrix.y), vec4(matrix.z), vec4(matrix.w))
}

fn matrix(columns: Mat4) -> Matrix {
    Matrix {
        x: clip(columns.x_axis),
        y: clip(columns.y_axis),
        z: clip(columns.z_axis),
        w: clip(columns.w_axis),
    }
}

fn view_projection(view: View) -> Matrix {
    let looking = glam::camera::rh::view::look_at_mat4(vec3(view.eye), vec3(view.target), Vec3::Z);
    let projection = glam::camera::rh::proj::directx::perspective(
        number(view.field_of_view),
        number(view.aspect),
        number(view.near),
        number(view.far),
    );
    matrix(projection * looking)
}

fn lens() -> impl Optics {
    Lens {
        sine: |angle: u32| bits(number(angle).sin()),
        cosine: |angle: u32| bits(number(angle).cos()),
        tangent: |angle: u32| bits(number(angle).tan()),
        arc_sine: |value: u32| bits(number(value).asin()),
        arc_tangent: |y: u32, x: u32| bits(number(y).atan2(number(x))),
        exponential: |value: u32| bits(number(value).exp()),
        remainder: |value: u32, modulus: u32| bits(number(value).rem_euclid(number(modulus))),
        view_projection,
        inverse: |from: Matrix| matrix(mat4(from).inverse()),
        transform: |pair: (Matrix, Clip)| clip(mat4(pair.0) * vec4(pair.1)),
    }
}

const MILLISECOND: u128 = 1_000_000;

fn grid() -> Mesh {
    let positions = [
        Vec3::new(-1.0, -1.0, 0.0),
        Vec3::new(0.0, -1.0, 0.0),
        Vec3::new(1.0, -1.0, 0.0),
        Vec3::new(-1.0, 0.0, 0.0),
        Vec3::new(0.0, 0.0, 0.0),
        Vec3::new(1.0, 0.0, 0.0),
        Vec3::new(-1.0, 1.0, 0.0),
        Vec3::new(0.0, 1.0, 0.0),
        Vec3::new(1.0, 1.0, 0.0),
    ];
    let triangles = vec![
        [0, 1, 4],
        [0, 4, 3],
        [1, 2, 5],
        [1, 5, 4],
        [3, 4, 7],
        [3, 7, 6],
        [4, 5, 8],
        [4, 8, 7],
    ];
    Mesh::new(pts(&positions), triangles, &solid()).unwrap()
}

fn triangle_parts() -> (Mesh, ImportReport) {
    let corners = [pt(Vec3::ZERO), pt(Vec3::X), pt(Vec3::Y)];
    import_triangles("part.stl".to_string(), vec![corners], None, &solid()).unwrap()
}

fn path(name: &str) -> FilePath {
    FilePath {
        bytes: name.as_bytes().to_vec(),
        display: format!("/models/{name}"),
        name: Some(name.to_string()),
        stem: Some(name.trim_end_matches(".stl").to_string()),
    }
}

fn session() -> Session {
    Session::new(None, &ops(), &lens())
}

fn receive(session: &mut Session, reply: WorkerReply) -> AfterReply {
    session.receive(reply, "0.5", &ops(), &lens(), &solid())
}

/// A session that has imported the grid.
fn editing() -> Session {
    let mut session = session();
    assert!(session.begin_import(&ops(), &lens()));
    session.import_sent(path("grid.stl"), 0);
    let (_, report) = triangle_parts();
    let after = receive(
        &mut session,
        WorkerReply::Import { path: path("grid.stl"), result: Ok((grid(), report)) },
    );
    assert!(matches!(after.render, RenderUpdate::Mesh));
    session
}

fn mesh(session: &Session) -> &Mesh {
    session.document.as_ref().unwrap().mesh.as_ref().unwrap()
}

fn is_dirty(session: &Session) -> bool {
    session.document.as_ref().unwrap().dirty
}

fn viewport() -> ScreenRect {
    ScreenRect { min: at(0.0, 0.0), max: at(800.0, 600.0) }
}

fn frame(session: &Session) -> CameraFrame {
    session.camera.frame(viewport(), &ops(), &lens()).unwrap()
}

fn apply_shortcut(session: &mut Session, action: ShortcutAction) -> ShortcutOutcome {
    session.apply_shortcut(action, 0, &ops(), &lens(), &solid())
}

/// Presses the pointer at a place and releases it again.
fn click(session: &mut Session, x: f32, y: f32) -> bool {
    let tools = Instruments {
        ops: ops(),
        optics: lens(),
        geometry: solid(),
        hypot: |a: u32, b: u32| bits(number(a).hypot(number(b))),
    };
    let camera = frame(session);
    let begun = session.begin_stroke(Some(at(x, y)), camera, Modifiers::default(), 0, &tools);
    let released = PointerState {
        position: Some(at(x, y)),
        primary_down: false,
        stopped: true,
        modifiers: Modifiers::default(),
    };
    let interval = 50 * MILLISECOND;
    session.continue_stroke(released, camera, interval, &|| false, &tools);
    begun
}

#[test]
fn a_new_session_waits_for_a_mesh() {
    let session = session();
    assert_eq!(session.status, "Import an STL to begin");
    assert_eq!(session.window_title, "SculptLite");
    assert!(session.document.is_none());
    assert!(session.worker_running);
    assert_eq!(session.settings.tool, SculptTool::Draw);
    assert_eq!(session.mesh_heading(), "Mesh · none");
}

#[test]
fn a_session_without_a_worker_cannot_import() {
    let mut session = Session::new(Some("no threads".to_string()), &ops(), &lens());
    assert!(!session.worker_running);
    assert!(!session.begin_import(&ops(), &lens()));
    assert_eq!(session.error.as_deref(), Some("no threads"));
}

#[test]
fn an_imported_mesh_is_framed_and_saved() {
    let session = editing();
    assert_eq!(mesh(&session).positions.len(), 9);
    assert!(!is_dirty(&session));
    assert_eq!(vec3(session.camera.orbit.target), Vec3::ZERO);
    assert!(session.status.starts_with("Loaded /models/grid.stl"));
    assert!(session.background_task.is_none());
}

#[test]
fn a_failed_import_leaves_the_mesh() {
    let mut session = editing();
    assert!(session.begin_import(&ops(), &lens()));
    session.import_sent(path("bad.stl"), 0);
    assert_eq!(session.status, "Reading STL and building mesh topology");
    let result = Err("not an STL".to_string());
    receive(&mut session, WorkerReply::Import { path: path("bad.stl"), result });
    assert_eq!(session.status, "Import failed; the current mesh was left unchanged");
    assert_eq!(
        session.error.as_deref(),
        Some("Could not import /models/bad.stl\n\nnot an STL")
    );
    assert_eq!(mesh(&session).positions, grid().positions);
}

#[test]
fn an_import_that_was_not_sent_reports_the_worker() {
    let mut session = session();
    session.import_not_sent(&path("part.stl"));
    assert_eq!(
        session.worker_error.as_deref(),
        Some("The mesh worker stopped unexpectedly")
    );
    assert_eq!(
        session.error.as_deref(),
        Some(
            "Could not begin importing /models/part.stl\n\n\
             The mesh worker stopped unexpectedly."
        )
    );
}

#[test]
fn a_written_mesh_comes_back_saved() {
    let mut session = editing();
    apply_shortcut(&mut session, ShortcutAction::InvertMask);
    assert!(is_dirty(&session));
    assert_eq!(session.export_as().as_deref(), Some("grid-sculpted.stl"));
    let given = session.begin_export().unwrap();
    assert!(session.document.as_ref().unwrap().mesh.is_none());
    session.export_sent(path("out.stl"), Some(PendingAction::Close), 0);
    let reply = WorkerReply::Export { path: path("out.stl"), mesh: given, result: Ok(()) };
    let after = receive(&mut session, reply);
    assert!(matches!(after.action, Some(PendingAction::Close)));
    assert_eq!(session.status, "Exported /models/out.stl");
    assert!(!is_dirty(&session));
    assert_eq!(mesh(&session).mask, vec![bits(1.0); 9]);
}

#[test]
fn a_mesh_that_could_not_be_written_comes_back_too() {
    let mut session = editing();
    apply_shortcut(&mut session, ShortcutAction::InvertMask);
    let given = session.begin_export().unwrap();
    session.export_sent(path("out.stl"), None, 0);
    let result = Err("disk full".to_string());
    receive(&mut session, WorkerReply::Export { path: path("out.stl"), mesh: given, result });
    assert!(is_dirty(&session));
    assert_eq!(mesh(&session).positions, grid().positions);
    assert_eq!(
        session.error.as_deref(),
        Some("Could not export /models/out.stl\n\ndisk full")
    );
}

#[test]
fn a_stopped_export_restores_the_copy() {
    let mut session = editing();
    let given = session.begin_export().unwrap();
    session.export_sent(path("out.stl"), None, 0);
    let copy = Arc::new(MeshSnapshot::capture(&given));
    receive(&mut session, WorkerReply::ExportCheckpoint(copy));
    assert!(session.document.as_ref().unwrap().mesh.is_none());
    drop(given);
    receive(&mut session, WorkerReply::Stopped);
    assert_eq!(mesh(&session).positions, grid().positions);
    assert_eq!(
        session.worker_error.as_deref(),
        Some("The mesh worker stopped unexpectedly")
    );
    assert_eq!(
        session.error.as_deref(),
        Some("The export stopped; the editable mesh was restored")
    );
}

#[test]
fn a_remesh_can_be_undone() {
    let mut session = editing();
    session.remesh_sent(0);
    assert_eq!(
        session.background_task.as_ref().unwrap().progress_text("1.5"),
        "Voxel remeshing… 1.5s"
    );
    let (replacement, _) = triangle_parts();
    receive(&mut session, WorkerReply::Remesh(Ok(replacement)));
    assert_eq!(session.status, "Voxel remesh finished in 0.5s · 8 → 1 faces");
    assert_eq!(mesh(&session).triangles.len(), 1);
    assert!(is_dirty(&session));

    assert!(matches!(session.undo(0, &solid()), HistoryStep::Restore));
    assert!(session.background_task.is_some());
    receive(&mut session, WorkerReply::Replace(Ok(grid())));
    assert_eq!(mesh(&session).triangles.len(), 8);
    assert_eq!(session.status, "Undo");
    assert!(session.history.can_redo());
}

#[test]
fn a_failed_remesh_changes_no_mesh() {
    let mut session = editing();
    session.remesh_sent(0);
    receive(&mut session, WorkerReply::Remesh(Err("open".to_string())));
    assert_eq!(session.error.as_deref(), Some("Could not remesh the object\n\nopen"));
    assert_eq!(mesh(&session).positions, grid().positions);
}

#[test]
fn progress_names_the_file() {
    let import = BackgroundTask::Import { path: path("part.stl"), started: 0 };
    assert_eq!(import.progress_text("0.1"), "Importing part.stl… 0.1s");
    assert!(!import.owns_mesh());
}

#[test]
fn masks_are_edited_undone_and_redone() {
    let mut session = editing();
    let outcome = apply_shortcut(&mut session, ShortcutAction::InvertMask);
    assert!(matches!(outcome, ShortcutOutcome::Draw(RenderUpdate::Vertices(_))));
    assert_eq!(mesh(&session).mask, vec![bits(1.0); 9]);
    let outcome = apply_shortcut(&mut session, ShortcutAction::Undo);
    assert!(matches!(outcome, ShortcutOutcome::Step(HistoryStep::Vertices(_))));
    assert_eq!(mesh(&session).mask, vec![bits(0.0); 9]);
    apply_shortcut(&mut session, ShortcutAction::Redo);
    assert_eq!(mesh(&session).mask, vec![bits(1.0); 9]);
    apply_shortcut(&mut session, ShortcutAction::ClearMask);
    assert_eq!(mesh(&session).mask, vec![bits(0.0); 9]);
}

#[test]
fn shortcuts_change_the_brush() {
    let mut session = editing();
    apply_shortcut(&mut session, ShortcutAction::SelectTool(SculptTool::Clay));
    assert_eq!(session.settings.tool, SculptTool::Clay);
    let radius = number(session.settings.brush_radius_points);
    apply_shortcut(&mut session, ShortcutAction::AdjustRadius(ShortcutDirection::Increase));
    assert!(number(session.settings.brush_radius_points) > radius);
    apply_shortcut(&mut session, ShortcutAction::ToggleWireframe);
    assert!(session.settings.wireframe);
}

#[test]
fn build_up_goes_round_for_one_tool_at_a_time() {
    let mut session = editing();
    let build_up = |session: &Session, tool| session.settings.build_up.get(tool);
    apply_shortcut(&mut session, ShortcutAction::ToggleAirbrush);
    assert_eq!(build_up(&session, SculptTool::Draw), BuildUp::Accumulate);
    assert_eq!(build_up(&session, SculptTool::Clay), BuildUp::Capped);
    apply_shortcut(&mut session, ShortcutAction::ToggleAirbrush);
    assert_eq!(build_up(&session, SculptTool::Draw), BuildUp::Airbrush);
    apply_shortcut(&mut session, ShortcutAction::ToggleAirbrush);
    assert_eq!(build_up(&session, SculptTool::Draw), BuildUp::Capped);
    assert_eq!(BuildUp::Capped.accumulation(), Accumulation::Capped);
    assert_eq!(BuildUp::Airbrush.accumulation(), Accumulation::Accumulate);
}

#[test]
fn a_click_on_the_surface_is_one_step_of_the_history() {
    let mut session = editing();
    assert!(click(&mut session, 400.0, 300.0));
    assert!(session.stroke_sampler.is_none());
    assert!(!session.sculpt.is_stroking());
    assert!(is_dirty(&session));
    assert_ne!(mesh(&session).positions, grid().positions);
    assert!(session.history.can_undo());
    session.undo(0, &solid());
    assert_eq!(mesh(&session).positions, grid().positions);
    assert!(!session.history.can_undo());
}

#[test]
fn a_click_beside_the_surface_changes_nothing() {
    let mut session = editing();
    assert!(!click(&mut session, 2.0, 2.0));
    assert_eq!(mesh(&session).positions, grid().positions);
    assert!(!session.history.can_undo());
    assert!(!is_dirty(&session));
}

#[test]
fn a_drag_lays_dabs_along_its_path() {
    let mut session = editing();
    let tools = Instruments {
        ops: ops(),
        optics: lens(),
        geometry: solid(),
        hypot: |a: u32, b: u32| bits(number(a).hypot(number(b))),
    };
    let camera = frame(&session);
    let none = Modifiers::default();
    assert!(session.begin_stroke(Some(at(400.0, 300.0)), camera, none, 0, &tools));
    let moved = PointerState {
        position: Some(at(440.0, 300.0)),
        primary_down: true,
        stopped: false,
        modifiers: none,
    };
    session.advance_stroke(10 * MILLISECOND);
    session.continue_stroke(moved, camera, 50 * MILLISECOND, &|| false, &tools);
    assert!(session.sculpt.is_stroking());
    let update = session.frame_render.flush(Some((9, 8)));
    assert!(matches!(update, RenderUpdate::Vertices(_)));
    let released = PointerState { primary_down: false, stopped: true, ..moved };
    session.continue_stroke(released, camera, 50 * MILLISECOND, &|| false, &tools);
    assert!(!session.sculpt.is_stroking());
    assert!(session.history.can_undo());
}

#[test]
fn unsaved_work_is_asked_about_before_it_is_lost() {
    let mut session = editing();
    assert!(matches!(
        session.request_action(PendingAction::OpenDialog),
        Some(PendingAction::OpenDialog)
    ));
    apply_shortcut(&mut session, ShortcutAction::InvertMask);
    assert!(session.request_action(PendingAction::OpenDialog).is_none());
    assert!(session.pending_action.is_some());
    assert!(session.answer_unsaved(UnsavedAnswer::Cancel).is_none());
    assert!(session.pending_action.is_none());

    assert!(session.request_action(PendingAction::Close).is_none());
    assert!(matches!(
        session.answer_unsaved(UnsavedAnswer::Discard),
        Some(PendingAction::Close)
    ));
}

#[test]
fn a_saved_session_closes_at_once() {
    let mut session = editing();
    assert!(!session.close_requested());
    apply_shortcut(&mut session, ShortcutAction::InvertMask);
    assert!(session.close_requested());
    assert!(matches!(session.pending_action, Some(PendingAction::Close)));
    session.close();
    assert!(session.allow_close);
}

#[test]
fn actions_wait_for_a_running_task() {
    let mut session = editing();
    session.remesh_sent(0);
    assert!(session.request_action(PendingAction::OpenDialog).is_none());
    assert_eq!(session.status, "Wait for the current mesh operation to finish");
    assert!(!session.close_requested());

    let mut session = editing();
    assert!(session.begin_export().is_some());
    session.export_sent(path("out.stl"), None, 0);
    assert!(session.close_requested());
    assert_eq!(session.status, "Wait for the current mesh operation before closing");
}

#[test]
fn the_title_tells_of_unsaved_work() {
    let mut session = editing();
    let title = session.retitle().unwrap();
    assert!(title.contains("grid.stl"));
    assert!(session.retitle().is_none());
    apply_shortcut(&mut session, ShortcutAction::InvertMask);
    let changed = session.retitle().unwrap();
    assert_ne!(changed, title);
    assert_eq!(session.mesh_summary(), "9 vertices · 8 faces");
    assert_eq!(session.mesh_heading(), "Mesh · 8 faces");
}

#[test]
fn flight_is_captured_and_released() {
    let mut session = editing();
    session.set_camera_mode(CameraMode::Fly, &ops(), &lens());
    session.begin_flight(true, true, true);
    assert!(session.fly_captured);
    session.enforce_fly_release(false, true, false, true);
    assert!(session.fly_captured);
    session.enforce_fly_release(false, true, true, true);
    assert!(!session.fly_captured);
}

#[test]
fn dragging_turns_the_view_and_keeps_the_flight() {
    let mut session = editing();
    let flight = session.camera.fly;
    let yaw = session.camera.orbit.yaw;
    session.navigate_orbit(
        OrbitInput {
            dragged_secondary: false,
            dragged_middle: true,
            pointer_delta: at(40.0, 0.0),
            viewport_height: bits(600.0),
            hovered: true,
            scroll: bits(0.0),
        },
        &ops(),
        &lens(),
    );
    assert_ne!(session.camera.orbit.yaw, yaw);
    assert_eq!(session.camera.fly, flight);
}

#[test]
fn flying_moves_the_flight_and_keeps_the_orbit() {
    let mut session = editing();
    session.set_camera_mode(CameraMode::Fly, &ops(), &lens());
    session.begin_flight(true, true, true);
    let orbit = session.camera.orbit;
    let start = session.camera.fly.position;
    let mut keys = FlyKeyState::default();
    keys.w = true;
    let input = FlyInput {
        raw_motion: Some(at(0.0, 0.0)),
        pointer_delta: at(0.0, 0.0),
        pixels_per_point: bits(1.0),
        keys,
        boosted: false,
        wheel: vec![(MouseWheelUnit::Line, bits(1.0))],
        viewport_height: bits(600.0),
        delta_seconds: bits(0.05),
    };
    session.navigate_fly(&input, &ops(), &lens());
    assert_ne!(session.camera.fly.position, start);
    assert_eq!(session.camera.orbit, orbit);
}

#[test]
fn the_cursor_shows_where_the_brush_would_act() {
    let session = editing();
    let none = Modifiers::default();
    let (position, color) =
        session.brush_cursor(Some(at(10.0, 20.0)), &viewport(), none).unwrap();
    assert_eq!(position, at(10.0, 20.0));
    assert_eq!(color, brush_cursor_color(SculptTool::Draw, false, none));
    assert!(session.brush_cursor(Some(at(-1.0, 20.0)), &viewport(), none).is_none());
    assert!(session.brush_cursor(None, &viewport(), none).is_none());
}

#[test]
fn errors_are_shown_until_dismissed() {
    let mut session = session();
    session.error = Some("lost".to_string());
    assert!(!session.takes_shortcuts(false, false));
    session.dismiss_error();
    assert!(session.error.is_none());
    assert!(session.takes_shortcuts(false, false));
    assert!(!session.takes_shortcuts(false, true));
}

#[test]
fn stl_files_are_told_by_their_extension() {
    assert!(is_stl_extension("stl"));
    assert!(is_stl_extension("STL"));
    assert!(is_stl_extension("sTl"));
    assert!(!is_stl_extension("obj"));
    assert!(!is_stl_extension("stla"));
}

#[test]
fn a_dab_that_is_due_is_made_however_late_it_is() {
    let mut session = editing();
    session.settings.build_up.set(SculptTool::Draw, BuildUp::Accumulate);
    let tools = Instruments {
        ops: ops(),
        optics: lens(),
        geometry: solid(),
        hypot: |a: u32, b: u32| bits(number(a).hypot(number(b))),
    };
    let camera = frame(&session);
    let none = Modifiers::default();
    assert!(session.begin_stroke(Some(at(400.0, 300.0)), camera, none, 0, &tools));
    let pressed = mesh(&session).positions.clone();
    let moved = PointerState {
        position: Some(at(560.0, 300.0)),
        primary_down: true,
        stopped: false,
        modifiers: none,
    };
    session.advance_stroke(10 * MILLISECOND);
    session.continue_stroke(moved, camera, 50 * MILLISECOND, &|| true, &tools);
    let once = mesh(&session).positions.clone();
    assert_ne!(once, pressed);
    session.continue_stroke(moved, camera, 50 * MILLISECOND, &|| true, &tools);
    assert_ne!(mesh(&session).positions, once);
}
