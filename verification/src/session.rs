//! One sculpting session: the mesh that is open, what is being done with it, and what the user is
//! told.
//!
//! Windows, dialogs, files and the worker are elsewhere. What happens there comes in as calls, and
//! what is to happen there goes out as results.
use crate::arithmetic::Arithmetic;
use crate::batch::FrameRenderBatch;
use crate::bounds;
use crate::bounds::MeshBounds;
use crate::brush::{Accumulation, BrushSettings, SculptTool};
use crate::camera::{Camera, CameraFrame, CameraMode};
use crate::controls;
use crate::controls::FlyCaptureEligibility;
use crate::history;
use crate::history::{History, MeshSnapshot, PendingMeshReplacement};
use crate::mesh;
use crate::mesh::Mesh;
use crate::optics::Optics;
use crate::scalar;
use crate::scalar::Point;
use crate::sculpt;
use crate::sculpt::SculptEngine;
use crate::stl::ImportReport;
use crate::stroke;
use crate::stroke::StrokeSampler;
use crate::text;
use std::sync::Arc;
use vstd::prelude::*;
use vstd::string::StringExecFns;

verus! {

/// Where a file is: the bytes of its path, how the path is shown, and its name and the name
/// without what follows the last dot, where these are texts.
#[derive(Debug)]
pub struct FilePath {
    pub bytes: Vec<u8>,
    pub display: String,
    pub name: Option<String>,
    pub stem: Option<String>,
}

/// What the user wants, once it is clear what becomes of unsaved changes.
#[derive(Debug)]
pub enum PendingAction {
    OpenDialog,
    Import(FilePath),
    Close,
}

/// The mesh that is open. It is away while it is being written.
pub struct MeshDocument {
    pub mesh: Option<Mesh>,
    pub bounds: Option<MeshBounds>,
    pub source_path: FilePath,
    pub dirty: bool,
}

/// What the worker does, and since when, in nanoseconds.
pub enum BackgroundTask {
    Import { path: FilePath, started: u128 },
    Export {
        path: FilePath,
        started: u128,
        recovery: Option<Arc<MeshSnapshot>>,
        dirty_before: bool,
        after: Option<PendingAction>,
    },
    Remesh { started: u128 },
    Replace { pending: PendingMeshReplacement, started: u128 },
}

/// What the worker says.
pub enum WorkerReply {
    Import { path: FilePath, result: Result<(Mesh, ImportReport), String> },
    ExportCheckpoint(Arc<MeshSnapshot>),
    Export { path: FilePath, mesh: Mesh, result: Result<(), String> },
    Remesh(Result<Mesh, String>),
    Replace(Result<Mesh, String>),
    Stopped,
}

impl WorkerReply {
    pub open spec fn sound(self) -> bool {
        match self {
            WorkerReply::Import { path, result } => result matches Ok((mesh, _))
                ==> mesh.well_formed(),
            WorkerReply::ExportCheckpoint(snapshot) => snapshot.spec_triangles().len() <= u32::MAX,
            WorkerReply::Export { path, mesh, result } => mesh.well_formed(),
            WorkerReply::Remesh(result) => result matches Ok(mesh) ==> mesh.well_formed(),
            WorkerReply::Replace(result) => result matches Ok(mesh) ==> mesh.well_formed(),
            WorkerReply::Stopped => true,
        }
    }
}

/// How the dabs of a tool build up.
#[derive(Clone, Copy, Debug, PartialEq, Eq, Structural)]
pub enum BuildUp {
    Capped,
    Accumulate,
    Airbrush,
}

impl BuildUp {
    /// The choice after this one.
    pub open spec fn spec_next(self) -> BuildUp {
        match self {
            BuildUp::Capped => BuildUp::Accumulate,
            BuildUp::Accumulate => BuildUp::Airbrush,
            BuildUp::Airbrush => BuildUp::Capped,
        }
    }

    pub fn next(self) -> (result: BuildUp)
        ensures
            result == self.spec_next(),
    {
        match self {
            BuildUp::Capped => BuildUp::Accumulate,
            BuildUp::Accumulate => BuildUp::Airbrush,
            BuildUp::Airbrush => BuildUp::Capped,
        }
    }

    pub open spec fn spec_accumulation(self) -> Accumulation {
        match self {
            BuildUp::Capped => Accumulation::Capped,
            _ => Accumulation::Accumulate,
        }
    }

    pub fn accumulation(self) -> (result: Accumulation)
        ensures
            result == self.spec_accumulation(),
    {
        match self {
            BuildUp::Capped => Accumulation::Capped,
            _ => Accumulation::Accumulate,
        }
    }
}

/// The choice for each tool.
#[derive(Clone, Copy, Debug, PartialEq, Eq, Structural)]
pub struct BuildUps {
    pub draw: BuildUp,
    pub clay: BuildUp,
    pub crease: BuildUp,
    pub inflate: BuildUp,
    pub smooth: BuildUp,
    pub pinch: BuildUp,
    pub flatten: BuildUp,
    pub grab: BuildUp,
    pub mask: BuildUp,
}

impl BuildUps {
    /// The same choice for all tools.
    pub open spec fn all(choice: BuildUp) -> BuildUps {
        BuildUps {
            draw: choice,
            clay: choice,
            crease: choice,
            inflate: choice,
            smooth: choice,
            pinch: choice,
            flatten: choice,
            grab: choice,
            mask: choice,
        }
    }

    pub open spec fn of(self, tool: SculptTool) -> BuildUp {
        match tool {
            SculptTool::Draw => self.draw,
            SculptTool::Clay => self.clay,
            SculptTool::Crease => self.crease,
            SculptTool::Inflate => self.inflate,
            SculptTool::Smooth => self.smooth,
            SculptTool::Pinch => self.pinch,
            SculptTool::Flatten => self.flatten,
            SculptTool::Grab => self.grab,
            SculptTool::Mask => self.mask,
        }
    }

    pub fn get(&self, tool: SculptTool) -> (result: BuildUp)
        ensures
            result == self.of(tool),
    {
        match tool {
            SculptTool::Draw => self.draw,
            SculptTool::Clay => self.clay,
            SculptTool::Crease => self.crease,
            SculptTool::Inflate => self.inflate,
            SculptTool::Smooth => self.smooth,
            SculptTool::Pinch => self.pinch,
            SculptTool::Flatten => self.flatten,
            SculptTool::Grab => self.grab,
            SculptTool::Mask => self.mask,
        }
    }

    /// The choices with that of one tool changed.
    pub open spec fn with(self, tool: SculptTool, choice: BuildUp) -> BuildUps {
        match tool {
            SculptTool::Draw => BuildUps { draw: choice, ..self },
            SculptTool::Clay => BuildUps { clay: choice, ..self },
            SculptTool::Crease => BuildUps { crease: choice, ..self },
            SculptTool::Inflate => BuildUps { inflate: choice, ..self },
            SculptTool::Smooth => BuildUps { smooth: choice, ..self },
            SculptTool::Pinch => BuildUps { pinch: choice, ..self },
            SculptTool::Flatten => BuildUps { flatten: choice, ..self },
            SculptTool::Grab => BuildUps { grab: choice, ..self },
            SculptTool::Mask => BuildUps { mask: choice, ..self },
        }
    }

    pub fn set(&mut self, tool: SculptTool, choice: BuildUp)
        ensures
            *final(self) == old(self).with(tool, choice),
    {
        match tool {
            SculptTool::Draw => self.draw = choice,
            SculptTool::Clay => self.clay = choice,
            SculptTool::Crease => self.crease = choice,
            SculptTool::Inflate => self.inflate = choice,
            SculptTool::Smooth => self.smooth = choice,
            SculptTool::Pinch => self.pinch = choice,
            SculptTool::Flatten => self.flatten = choice,
            SculptTool::Grab => self.grab = choice,
            SculptTool::Mask => self.mask = choice,
        }
    }
}

/// The choice of one tool is remembered apart from those of the others.
pub proof fn choices_are_separate(
    choices: BuildUps,
    tool: SculptTool,
    other: SculptTool,
    choice: BuildUp,
)
    ensures
        choices.with(tool, choice).of(tool) == choice,
        other != tool ==> choices.with(tool, choice).of(other) == choices.of(other),
        choice.spec_next().spec_next().spec_next() == choice,
{
}

/// What a dab depends on besides the pointer, as it was when the pointer was there.
#[derive(Clone, Copy, Debug, PartialEq, Eq, Structural)]
pub struct SculptInput {
    pub camera: CameraFrame,
    pub tool: SculptTool,
    pub brush: BrushSettings,
    pub radius_points: u32,
}

/// What the tools and the view are set to.
#[derive(Clone, Copy, Debug, PartialEq, Eq, Structural)]
pub struct ToolSettings {
    pub tool: SculptTool,
    pub brush: BrushSettings,
    pub build_up: BuildUps,
    /// A choice that is kept with the others. Every brush leaves the topology as it is, whatever
    /// is chosen here.
    pub adaptive_topology: bool,
    /// The detail that goes with that choice. No brush reads it.
    pub adaptive_detail: u32,
    pub airbrush_dabs_per_second: u32,
    pub brush_radius_points: u32,
    pub wireframe: bool,
    pub show_quick_controls: bool,
}

/// A session.
pub struct Session {
    pub camera: Camera,
    pub fly_captured: bool,
    pub document: Option<MeshDocument>,
    pub history: History,
    pub sculpt: SculptEngine,
    pub settings: ToolSettings,
    pub stroke_build_up: BuildUp,
    pub grab_units_per_point: Option<u32>,
    pub stroke_sampler: Option<StrokeSampler<SculptInput>>,
    pub frame_render: FrameRenderBatch,
    pub pending_action: Option<PendingAction>,
    pub worker_running: bool,
    pub background_task: Option<BackgroundTask>,
    pub worker_error: Option<String>,
    pub allow_close: bool,
    pub window_title: String,
    pub status: String,
    pub error: Option<String>,
}

impl BackgroundTask {
    pub open spec fn sound(self) -> bool {
        match self {
            BackgroundTask::Export { recovery: Some(recovery), .. } =>
                recovery.spec_triangles().len() <= u32::MAX,
            BackgroundTask::Replace { pending, .. } => pending.well_formed(),
            _ => true,
        }
    }

    /// Whether the mesh is with the worker.
    pub fn owns_mesh(&self) -> (result: bool)
        ensures
            result == (self is Export),
    {
        match self {
            BackgroundTask::Export { .. } => true,
            _ => false,
        }
    }

    pub open spec fn name_of(path: FilePath) -> Seq<char> {
        match path.name {
            Some(name) => name@,
            None => "STL mesh"@,
        }
    }

    /// What is being done.
    pub open spec fn doing(self) -> Seq<char> {
        match self {
            BackgroundTask::Import { path, .. } => "Importing "@ + BackgroundTask::name_of(path),
            BackgroundTask::Export { path, .. } => "Exporting "@ + BackgroundTask::name_of(path),
            BackgroundTask::Remesh { .. } => "Voxel remeshing"@,
            BackgroundTask::Replace { .. } => "Restoring mesh"@,
        }
    }

    /// Tells what is being done, and for how many seconds.
    pub fn progress_text(&self, seconds: &str) -> (result: String)
        ensures
            result@ == self.doing() + "… "@ + seconds@ + "s"@,
    {
        let mut text = match self {
            BackgroundTask::Import { path, .. } => {
                let mut text = "Importing ".to_owned();
                match &path.name {
                    Some(name) => text.append(name.as_str()),
                    None => text.append("STL mesh"),
                }
                text
            },
            BackgroundTask::Export { path, .. } => {
                let mut text = "Exporting ".to_owned();
                match &path.name {
                    Some(name) => text.append(name.as_str()),
                    None => text.append("STL mesh"),
                }
                text
            },
            BackgroundTask::Remesh { .. } => "Voxel remeshing".to_owned(),
            BackgroundTask::Replace { .. } => "Restoring mesh".to_owned(),
        };
        text.append("… ");
        text.append(seconds);
        text.append("s");
        text
    }
}

impl MeshDocument {
    pub open spec fn well_formed(self) -> bool {
        self.mesh matches Some(mesh) ==> mesh.well_formed()
    }
}

/// Whether a box is the one round a mesh, if there is one.
pub open spec fn is_box_of(mesh: Option<Mesh>, found: Option<MeshBounds>) -> bool {
    match mesh {
        None => found is None,
        Some(mesh) => {
            &&& found is Some <==> mesh.positions@.len() > 0 && mesh.positions@[0].finite()
            &&& found matches Some(found) ==> {
                &&& found.exact
                &&& bounds::tight(found, mesh.positions@)
                &&& bounds::first_on_sides(found, mesh.positions@)
            }
        },
    }
}

pub(crate) fn box_of(mesh: &Option<Mesh>) -> (result: Option<MeshBounds>)
    requires
        mesh matches Some(mesh) ==> mesh.well_formed(),
    ensures
        is_box_of(*mesh, result),
{
    match mesh {
        Some(mesh) => MeshBounds::from_mesh(mesh),
        None => None,
    }
}

/// What the tools and the view are set to at first.
pub open spec fn initial_settings() -> ToolSettings {
    ToolSettings {
        tool: SculptTool::Draw,
        brush: BrushSettings {
            radius: scalar::ONE,
            strength: crate::brush::DEFAULT_STRENGTH,
            falloff: crate::brush::DEFAULT_FALLOFF,
            invert: false,
            symmetry: None,
            accumulation: Accumulation::Capped,
        },
        build_up: BuildUps::all(BuildUp::Capped),
        adaptive_topology: false,
        adaptive_detail: controls::DEFAULT_ADAPTIVE_DETAIL,
        airbrush_dabs_per_second: controls::DEFAULT_AIRBRUSH_DABS_PER_SECOND,
        brush_radius_points: controls::INITIAL_BRUSH_RADIUS_POINTS,
        wireframe: false,
        show_quick_controls: true,
    }
}

impl Session {
    pub open spec fn well_formed(self) -> bool {
        &&& self.history.well_formed()
        &&& self.sculpt.well_formed()
        &&& self.document matches Some(document) ==> document.well_formed()
        &&& self.stroke_sampler matches Some(sampler) ==> sampler.elapsed_since_dab
            <= stroke::LONGEST
        &&& self.background_task matches Some(task) ==> task.sound()
    }

    /// Whether there is a mesh at hand.
    pub open spec fn has_mesh(self) -> bool {
        self.document matches Some(document) && document.mesh is Some
    }

    /// Whether nothing is going on with the mesh.
    pub open spec fn ready(self) -> bool {
        self.background_task is None && self.sculpt.active is None
    }

    pub open spec fn dirty(self) -> bool {
        self.document matches Some(document) && document.dirty
    }

    /// A session in which nothing is open.
    pub fn new<O: Arithmetic, T: Optics>(worker_error: Option<String>, ops: &O, optics: &T)
     -> (result: Session)
        requires
            ops.total(),
            optics.total(),
        ensures
            result.well_formed(),
            !result.fly_captured,
            result.camera == Camera::initial(ops, optics),
            result.document is None,
            result.sculpt.active is None,
            result.settings == initial_settings(),
            result.stroke_build_up == BuildUp::Capped,
            result.grab_units_per_point is None,
            result.stroke_sampler is None,
            result.frame_render.is_blank(),
            result.pending_action is None,
            result.worker_running == (worker_error is None),
            result.background_task is None,
            result.worker_error == worker_error,
            !result.allow_close,
            result.window_title@ == "SculptLite"@,
            result.status@ == "Import an STL to begin"@,
            result.error is None,
            result.history.undoable().len() == 0 && result.history.redoable().len() == 0,
            result.history.budget() == history::DEFAULT_HISTORY_BUDGET,
    {
        Session {
            camera: Camera::new(ops, optics),
            fly_captured: false,
            document: None,
            history: History::new(history::DEFAULT_HISTORY_BUDGET, 0),
            sculpt: SculptEngine::new(),
            settings: ToolSettings {
                tool: SculptTool::Draw,
                brush: BrushSettings::default(),
                build_up: BuildUps {
                    draw: BuildUp::Capped,
                    clay: BuildUp::Capped,
                    crease: BuildUp::Capped,
                    inflate: BuildUp::Capped,
                    smooth: BuildUp::Capped,
                    pinch: BuildUp::Capped,
                    flatten: BuildUp::Capped,
                    grab: BuildUp::Capped,
                    mask: BuildUp::Capped,
                },
                adaptive_topology: false,
                adaptive_detail: controls::DEFAULT_ADAPTIVE_DETAIL,
                airbrush_dabs_per_second: controls::DEFAULT_AIRBRUSH_DABS_PER_SECOND,
                brush_radius_points: controls::INITIAL_BRUSH_RADIUS_POINTS,
                wireframe: false,
                show_quick_controls: true,
            },
            stroke_build_up: BuildUp::Capped,
            grab_units_per_point: None,
            stroke_sampler: None,
            frame_render: FrameRenderBatch::new(),
            pending_action: None,
            worker_running: worker_error.is_none(),
            background_task: None,
            worker_error,
            allow_close: false,
            window_title: "SculptLite".to_owned(),
            status: "Import an STL to begin".to_owned(),
            error: None,
        }
    }

    pub(crate) fn holds_mesh(&self) -> (result: bool)
        ensures
            result == self.has_mesh(),
    {
        match &self.document {
            Some(document) => document.mesh.is_some(),
            None => false,
        }
    }

    pub(crate) fn is_dirty(&self) -> (result: bool)
        ensures
            result == self.dirty(),
    {
        match &self.document {
            Some(document) => document.dirty,
            None => false,
        }
    }

    pub(crate) fn is_ready(&self) -> (result: bool)
        ensures
            result == self.ready(),
    {
        self.background_task.is_none() && !self.sculpt.is_stroking()
    }

    /// Gives the pointer to the flight.
    pub fn capture_fly(&mut self)
        ensures
            *final(self) == (Session { fly_captured: true, ..*old(self) }),
    {
        self.fly_captured = true;
    }

    /// Takes the pointer back from the flight.
    pub fn release_fly(&mut self)
        ensures
            *final(self) == (Session { fly_captured: false, ..*old(self) }),
    {
        self.fly_captured = false;
    }

    /// Looks through the other camera.
    pub fn set_camera_mode<O: Arithmetic, T: Optics>(
        &mut self,
        mode: CameraMode,
        ops: &O,
        optics: &T,
    )
        requires
            ops.total(),
            optics.total(),
        ensures
            *final(self) == if old(self).camera.mode == mode {
                *old(self)
            } else {
                Session {
                    fly_captured: false,
                    camera: old(self).camera.with_mode(ops, optics, mode),
                    ..*old(self)
                }
            },
    {
        if self.camera.mode() == mode {
            return;
        }
        self.release_fly();
        self.camera.set_mode(mode, ops, optics);
    }

    /// Whether a flight may go on.
    pub open spec fn flight_is_valid(self, close_requested: bool) -> bool {
        &&& self.camera.mode is Fly
        &&& self.has_mesh()
        &&& self.ready()
        &&& self.pending_action is None && self.error is None
        &&& !close_requested
    }

    /// Takes the pointer back where the flight has to end.
    pub fn enforce_fly_release(
        &mut self,
        close_requested: bool,
        secondary_button_down: bool,
        escape_pressed: bool,
        focused: bool,
    )
        ensures
            *final(self) == (Session {
                fly_captured: old(self).fly_captured && secondary_button_down && !escape_pressed
                    && focused && old(self).flight_is_valid(close_requested),
                ..*old(self)
            }),
    {
        let state_valid = self.camera.mode() == CameraMode::Fly && self.holds_mesh()
            && self.is_ready() && self.pending_action.is_none() && self.error.is_none()
            && !close_requested;
        if controls::fly_capture_should_release(
            self.fly_captured,
            secondary_button_down,
            escape_pressed,
            focused,
            state_valid,
        ) {
            self.release_fly();
        }
    }

    /// Whether a flight may begin.
    pub open spec fn may_fly(self, viewport_hovered: bool, focused: bool) -> bool {
        &&& self.camera.mode is Fly
        &&& viewport_hovered && focused
        &&& self.has_mesh()
        &&& self.ready()
        &&& self.pending_action is None && self.error is None
    }

    /// Gives the pointer to the flight where the button for it was pressed and nothing is in the
    /// way.
    pub fn begin_flight(&mut self, pressed: bool, viewport_hovered: bool, focused: bool)
        ensures
            *final(self) == (Session {
                fly_captured: old(self).fly_captured || (pressed && old(self).may_fly(
                    viewport_hovered,
                    focused,
                )),
                ..*old(self)
            }),
    {
        let eligible = controls::fly_capture_eligible(
            FlyCaptureEligibility {
                mode: self.camera.mode(),
                viewport_hovered,
                focused,
                has_mesh: self.holds_mesh(),
                stroke_active: self.sculpt.is_stroking(),
                mesh_job_active: self.background_task.is_some(),
                modal_active: self.pending_action.is_some() || self.error.is_some(),
            },
        );
        if pressed && eligible {
            self.capture_fly();
        }
    }

    /// What becomes of a wish: it waits for an answer about unsaved changes, or is done, or has to
    /// be made again later.
    pub open spec fn asked(
        self,
        after: Session,
        action: PendingAction,
        result: Option<PendingAction>,
    ) -> bool {
        if !self.ready() {
            &&& result is None
            &&& after.status@ == "Wait for the current mesh operation to finish"@
            &&& after == (Session { status: after.status, ..self })
        } else if self.dirty() {
            &&& result is None
            &&& after == (Session {
                fly_captured: false,
                pending_action: Some(action),
                ..self
            })
        } else {
            result == Some(action) && after == self
        }
    }

    /// Takes a wish. It is given back where it can be done at once.
    pub fn request_action(&mut self, action: PendingAction) -> (result: Option<PendingAction>)
        ensures
            old(self).asked(*final(self), action, result),
    {
        if !self.is_ready() {
            self.status = "Wait for the current mesh operation to finish".to_owned();
            return None;
        }
        if self.is_dirty() {
            self.release_fly();
            self.pending_action = Some(action);
            None
        } else {
            Some(action)
        }
    }

    /// Closes for good.
    pub fn close(&mut self)
        ensures
            *final(self) == (Session { fly_captured: false, allow_close: true, ..*old(self) }),
    {
        self.release_fly();
        self.allow_close = true;
    }

    /// Whether a window that is asked to close has to stay, and what is said or asked then.
    pub open spec fn kept_open(self, after: Session, result: bool) -> bool {
        if self.allow_close {
            !result && after == self
        } else if self.background_task matches Some(task) && task is Export {
            &&& result
            &&& after.status@ == "Wait for the current mesh operation before closing"@
            &&& after == (Session { status: after.status, ..self })
        } else if self.dirty() {
            &&& result
            &&& after == (Session {
                pending_action: match self.pending_action {
                    Some(action) => Some(action),
                    None => Some(PendingAction::Close),
                },
                ..self
            })
        } else {
            !result && after == self
        }
    }

    /// Takes the wish to close the window, and tells whether the window has to stay.
    pub fn close_requested(&mut self) -> (result: bool)
        ensures
            old(self).kept_open(*final(self), result),
    {
        if self.allow_close {
            return false;
        }
        let writing = match &self.background_task {
            Some(task) => task.owns_mesh(),
            None => false,
        };
        if writing {
            self.status = "Wait for the current mesh operation before closing".to_owned();
            return true;
        }
        if self.is_dirty() {
            if self.pending_action.is_none() {
                self.pending_action = Some(PendingAction::Close);
            }
            return true;
        }
        false
    }

    /// Gets ready to read a file. Without a worker there is an error instead.
    pub fn begin_import<O: Arithmetic, T: Optics>(&mut self, ops: &O, optics: &T) -> (result: bool)
        requires
            ops.total(),
            optics.total(),
        ensures
            result == old(self).worker_running,
            *final(self) == (Session {
                fly_captured: false,
                camera: old(self).camera.with_mode(ops, optics, CameraMode::Orbit),
                error: final(self).error,
                ..*old(self)
            }),
            result ==> final(self).error == old(self).error,
            !result ==> final(self).error is Some && final(self).error->0@ == match old(
                self).worker_error {
                Some(error) => error@,
                None => "The mesh worker is unavailable"@,
            },
    {
        self.release_fly();
        self.camera.set_mode(CameraMode::Orbit, ops, optics);
        if !self.worker_running {
            let message = match &self.worker_error {
                Some(error) => error.clone(),
                None => "The mesh worker is unavailable".to_owned(),
            };
            self.error = Some(message);
            return false;
        }
        true
    }

    /// Notes that the worker has got a file to read.
    pub fn import_sent(&mut self, path: FilePath, now: u128)
        requires
            old(self).well_formed(),
        ensures
            final(self).well_formed(),
            final(self).status@ == "Reading STL and building mesh topology"@,
            *final(self) == (Session {
                background_task: Some(BackgroundTask::Import { path, started: now }),
                status: final(self).status,
                ..*old(self)
            }),
    {
        self.background_task = Some(BackgroundTask::Import { path, started: now });
        self.status = "Reading STL and building mesh topology".to_owned();
    }

    /// Notes that the worker could not be given a file to read.
    pub fn import_not_sent(&mut self, path: &FilePath)
        ensures
            *final(self) == (Session {
                worker_error: final(self).worker_error,
                error: final(self).error,
                ..*old(self)
            }),
            final(self).worker_error is Some,
            final(self).worker_error->0@ == "The mesh worker stopped unexpectedly"@,
            final(self).error is Some,
            final(self).error->0@ == "Could not begin importing "@ + path.display@
                + "\n\nThe mesh worker stopped unexpectedly."@,
    {
        self.worker_error = Some("The mesh worker stopped unexpectedly".to_owned());
        let mut message = "Could not begin importing ".to_owned();
        message.append(path.display.as_str());
        message.append("\n\nThe mesh worker stopped unexpectedly.");
        self.error = Some(message);
    }

    /// What is said of a file that was read.
    pub open spec fn loaded_text(path: FilePath, report: ImportReport) -> Seq<char> {
        if report.boundary_edges != 0 || report.non_manifold_edges != 0 {
            "Loaded "@ + path.display@ + " with protected topology regions"@
        } else {
            "Loaded "@ + path.display@
        }
    }

    /// The box that is framed where a mesh has none.
    pub open spec fn framed_box(found: Option<MeshBounds>) -> (Point, Point) {
        match found {
            Some(found) => (found.minimum, found.maximum),
            None => (
                Point {
                    x: crate::camera::MINUS_ONE,
                    y: crate::camera::MINUS_ONE,
                    z: crate::camera::MINUS_ONE,
                },
                Point { x: scalar::ONE, y: scalar::ONE, z: scalar::ONE },
            ),
        }
    }

    /// Whether a mesh that was read was put in the place of what was open.
    pub open spec fn installed<O: Arithmetic, T: Optics>(
        self,
        after: Session,
        ops: &O,
        optics: &T,
        path: FilePath,
        mesh: Mesh,
        report: ImportReport,
    ) -> bool {
        &&& after.document matches Some(document) && {
            let (low, high) = Session::framed_box(document.bounds);
            &&& document.mesh == Some(mesh)
            &&& is_box_of(document.mesh, document.bounds)
            &&& document.source_path == path
            &&& !document.dirty
            &&& after.camera == self.camera.fitted(ops, optics, low, high)
        }
        &&& after.history.same_terms(self.history)
        &&& after.history.undoable().len() == 0 && after.history.redoable().len() == 0
        &&& after.history.outstanding() is None
        &&& after.sculpt.active is None
        &&& after.sculpt.symmetry_center == Some(sculpt::middle_of(ops, mesh))
        &&& after.status@ == Session::loaded_text(path, report)
        &&& after.stroke_sampler is None
        &&& after.frame_render.is_blank()
        &&& after == (Session {
            camera: after.camera,
            document: after.document,
            history: after.history,
            sculpt: after.sculpt,
            status: after.status,
            stroke_sampler: after.stroke_sampler,
            frame_render: after.frame_render,
            ..self
        })
    }

    /// Puts a mesh that was read in the place of what was open.
    pub fn install_import<O: Arithmetic, T: Optics>(
        &mut self,
        path: FilePath,
        mesh: Mesh,
        report: ImportReport,
        ops: &O,
        optics: &T,
    )
        requires
            ops.total(),
            optics.total(),
            old(self).well_formed(),
            !(old(self).background_task is Some),
            mesh.well_formed(),
        ensures
            final(self).well_formed(),
            old(self).installed(*final(self), ops, optics, path, mesh, report),
    {
        let mesh = Some(mesh);
        let found = box_of(&mesh);
        let (low, high) = match &found {
            Some(found) => found.min_max(),
            None => (Point::splat(crate::camera::MINUS_ONE), Point::splat(scalar::ONE)),
        };
        self.camera.fit(low, high, ops, optics);
        self.history.clear();
        if let Some(mesh) = &mesh {
            self.sculpt.reset_for_mesh(mesh, ops);
        }
        let mut status = "Loaded ".to_owned();
        status.append(path.display.as_str());
        if report.has_topology_warnings() {
            status.append(" with protected topology regions");
        }
        self.status = status;
        self.document = Some(
            MeshDocument { mesh, bounds: found, source_path: path, dirty: false },
        );
        self.stroke_sampler = None;
        self.frame_render = FrameRenderBatch::new();
    }
}

} // verus!
