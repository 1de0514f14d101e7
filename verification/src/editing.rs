//! What the user does to the mesh and to the tools without a stroke.
use crate::arithmetic::Arithmetic;
use crate::batch::RenderUpdate;
use crate::bounds;
use crate::bounds::MeshBounds;
use crate::brush::BrushSettings;
use crate::camera::CameraMode;
use crate::controls;
use crate::controls::{ShortcutAction, ShortcutAvailability};
use crate::edit::{LocalEdit, MaskChange};
use crate::geometry::Geometry;
use crate::history;
use crate::history::{History, HistoryAction, HistoryDirection, HistoryEntry};
use crate::masking;
use crate::mesh::Mesh;
use crate::optics::Optics;
use crate::scalar;
use crate::session;
use crate::session::{BackgroundTask, MeshDocument, PendingAction, Session, ToolSettings};
use crate::tasks;
use vstd::prelude::*;
use vstd::string::StringExecFns;

verus! {

/// What a step of the history leads to.
pub enum HistoryStep {
    Nothing,
    Vertices(Vec<u32>),
    /// The worker has to build a whole mesh again.
    Restore,
}

/// What a shortcut leads to.
pub enum ShortcutOutcome {
    Nothing,
    Perform(PendingAction),
    Export,
    Draw(RenderUpdate),
    Step(HistoryStep),
}

impl Session {
    /// Whether a step of the history was taken on the mesh.
    pub open spec fn stepped_with<G: Geometry>(
        self,
        after: Session,
        geometry: &G,
        direction: HistoryDirection,
        now: u128,
        stepped: History,
        mesh: Mesh,
        action: HistoryAction,
        result: HistoryStep,
    ) -> bool {
        &&& history::stepped(
            geometry,
            self.history,
            stepped,
            direction,
            self.document->0.mesh->0,
            mesh,
            action,
        )
        &&& match action {
            HistoryAction::Empty => result is Nothing && after == self,
            HistoryAction::Local { changed_vertices } => {
                &&& result == HistoryStep::Vertices(changed_vertices)
                &&& after.document matches Some(document) && {
                    &&& document.mesh == Some(mesh)
                    &&& session::is_box_of(document.mesh, document.bounds)
                    &&& document.source_path == self.document->0.source_path
                    &&& document.dirty
                }
                &&& after.status@ == tasks::step_text(direction)
                &&& after == (Session {
                    document: after.document,
                    history: stepped,
                    status: after.status,
                    ..self
                })
            },
            HistoryAction::MeshReplacement(pending) => if self.worker_running {
                &&& result is Restore
                &&& after == (Session {
                    history: stepped,
                    background_task: Some(BackgroundTask::Replace { pending, started: now }),
                    ..self
                })
            } else {
                &&& result is Nothing
                &&& after.error is Some
                &&& after.error->0@ == "The mesh worker is unavailable"@
                &&& after == (Session { history: after.history, error: after.error, ..self })
                &&& after.history.outstanding() is None
                &&& after.history.undoable() == self.history.undoable()
                &&& after.history.redoable() == self.history.redoable()
            },
        }
    }

    /// Whether a step of the history was taken, if it could be.
    pub open spec fn took_history_step<G: Geometry>(
        self,
        after: Session,
        geometry: &G,
        direction: HistoryDirection,
        now: u128,
        result: HistoryStep,
    ) -> bool {
        if !self.ready() || !self.has_mesh() {
            after == self && result is Nothing
        } else {
            exists|stepped: History, mesh: Mesh, action: HistoryAction| #[trigger]
                self.stepped_with(
                    after,
                    geometry,
                    direction,
                    now,
                    stepped,
                    mesh,
                    action,
                    result,
                )
        }
    }

    #[verifier::rlimit(40)]
    fn step_history<G: Geometry>(
        &mut self,
        direction: HistoryDirection,
        now: u128,
        geometry: &G,
    ) -> (result: HistoryStep)
        requires
            geometry.total(),
            old(self).well_formed(),
        ensures
            final(self).well_formed(),
            old(self).took_history_step(*final(self), geometry, direction, now, result),
    {
        if !self.is_ready() || !self.holds_mesh() {
            return HistoryStep::Nothing;
        }
        let ghost begun = *self;
        let document = match self.document.take() {
            Some(document) => document,
            None => {
                return HistoryStep::Nothing;
            },
        };
        let ghost opened = document;
        let mut mesh = match document.mesh {
            Some(mesh) => mesh,
            None => {
                return HistoryStep::Nothing;
            },
        };
        let action = match direction {
            HistoryDirection::Undo => self.history.undo(&mut mesh, geometry),
            HistoryDirection::Redo => self.history.redo(&mut mesh, geometry),
        };
        let ghost stepped = self.history;
        let ghost changed = mesh;
        let ghost came = action;
        match action {
            HistoryAction::Empty => {
                self.document = Some(
                    MeshDocument {
                        mesh: Some(mesh),
                        bounds: document.bounds,
                        source_path: document.source_path,
                        dirty: document.dirty,
                    },
                );
                let result = HistoryStep::Nothing;
                assert(begun.stepped_with(
                    *self,
                    geometry,
                    direction,
                    now,
                    stepped,
                    changed,
                    came,
                    result,
                ));
                result
            },
            HistoryAction::Local { changed_vertices } => {
                let mesh = Some(mesh);
                let found = session::box_of(&mesh);
                self.document = Some(
                    MeshDocument {
                        mesh,
                        bounds: found,
                        source_path: document.source_path,
                        dirty: true,
                    },
                );
                self.status = match direction {
                    HistoryDirection::Undo => "Undo".to_owned(),
                    HistoryDirection::Redo => "Redo".to_owned(),
                };
                let result = HistoryStep::Vertices(changed_vertices);
                assert(begun.stepped_with(
                    *self,
                    geometry,
                    direction,
                    now,
                    stepped,
                    changed,
                    came,
                    result,
                ));
                result
            },
            HistoryAction::MeshReplacement(pending) => {
                self.document = Some(
                    MeshDocument {
                        mesh: Some(mesh),
                        bounds: document.bounds,
                        source_path: document.source_path,
                        dirty: document.dirty,
                    },
                );
                let result = if self.worker_running {
                    self.background_task = Some(BackgroundTask::Replace { pending, started: now });
                    HistoryStep::Restore
                } else {
                    let _ = self.history.cancel_mesh_replacement(pending);
                    proof {
                        let taken = history::taken_from(begun.history, direction);
                        assert(taken.drop_last().push(taken.last()) =~= taken);
                    }
                    self.error = Some("The mesh worker is unavailable".to_owned());
                    HistoryStep::Nothing
                };
                assert(begun.stepped_with(
                    *self,
                    geometry,
                    direction,
                    now,
                    stepped,
                    changed,
                    came,
                    result,
                ));
                result
            },
        }
    }

    /// Takes the last operation back.
    pub fn undo<G: Geometry>(&mut self, now: u128, geometry: &G) -> (result: HistoryStep)
        requires
            geometry.total(),
            old(self).well_formed(),
        ensures
            final(self).well_formed(),
            old(self).took_history_step(
                *final(self),
                geometry,
                HistoryDirection::Undo,
                now,
                result,
            ),
    {
        self.step_history(HistoryDirection::Undo, now, geometry)
    }

    /// Makes the operation again that was taken back last.
    pub fn redo<G: Geometry>(&mut self, now: u128, geometry: &G) -> (result: HistoryStep)
        requires
            geometry.total(),
            old(self).well_formed(),
        ensures
            final(self).well_formed(),
            old(self).took_history_step(
                *final(self),
                geometry,
                HistoryDirection::Redo,
                now,
                result,
            ),
    {
        self.step_history(HistoryDirection::Redo, now, geometry)
    }

    /// What is said of a mask that was inverted or cleared.
    pub open spec fn mask_text(invert: bool, saved: bool) -> Seq<char> {
        let done = if invert {
            "Mask inverted"@
        } else {
            "Mask cleared"@
        };
        if saved {
            done
        } else {
            done + " (undo memory limit reached)"@
        }
    }

    /// Whether the mask was inverted or cleared as a step that can be undone.
    pub open spec fn masked<O: Arithmetic>(
        self,
        after: Session,
        ops: &O,
        invert: bool,
        edit: LocalEdit,
        saved: bool,
        result: RenderUpdate,
    ) -> bool {
        let mesh = self.document->0.mesh->0;
        let entry = HistoryEntry::Local(edit);
        &&& edit.positions@.len() == 0
        &&& edit.masks@ == masking::altered(ops, mesh.mask@, invert)
        &&& if edit.masks@.len() == 0 {
            after.document == Some(
                MeshDocument { mesh: after.document->0.mesh, ..self.document->0 },
            ) && same_weights(after.document->0.mesh, mesh, ops, invert) && after == (Session {
                document: after.document,
                ..self
            }) && result is Nothing
        } else {
            &&& after.document == Some(
                MeshDocument {
                    mesh: after.document->0.mesh,
                    dirty: true,
                    ..self.document->0
                },
            )
            &&& same_weights(after.document->0.mesh, mesh, ops, invert)
            &&& after.history.same_terms(self.history)
            &&& after.history.outstanding() == self.history.outstanding()
            &&& saved == (self.history.outstanding() is None && entry.bytes()
                <= self.history.budget())
            &&& saved ==> history::newest_within(
                self.history.undoable().push(entry),
                self.history.budget(),
                after.history.undoable(),
            )
            &&& !saved ==> after.history.undoable() == self.history.undoable()
            &&& self.history.outstanding() is None ==> after.history.redoable() == Seq::<
                HistoryEntry,
            >::empty()
            &&& after.status@ == Session::mask_text(invert, saved)
            &&& after == (Session {
                document: after.document,
                history: after.history,
                status: after.status,
                ..self
            })
            &&& result matches RenderUpdate::Vertices(vertices) && vertices@
                == edit.masks@.map_values(|change: MaskChange| change.vertex)
        }
    }

    /// Whether the mask was inverted or cleared, if it could be.
    pub open spec fn edited_mask<O: Arithmetic>(
        self,
        after: Session,
        ops: &O,
        invert: bool,
        result: RenderUpdate,
    ) -> bool {
        if !self.ready() || !self.has_mesh() {
            after == self && result is Nothing
        } else {
            exists|edit: LocalEdit, saved: bool| #[trigger]
                self.masked(after, ops, invert, edit, saved, result)
        }
    }

    /// Inverts or clears the mask.
    pub fn edit_mask<O: Arithmetic>(&mut self, invert: bool, ops: &O) -> (result: RenderUpdate)
        requires
            ops.total(),
            old(self).well_formed(),
        ensures
            final(self).well_formed(),
            old(self).edited_mask(*final(self), ops, invert, result),
    {
        if !self.is_ready() || !self.holds_mesh() {
            return RenderUpdate::Nothing;
        }
        let ghost begun = *self;
        let document = match self.document.take() {
            Some(document) => document,
            None => {
                return RenderUpdate::Nothing;
            },
        };
        let mut mesh = match document.mesh {
            Some(mesh) => mesh,
            None => {
                return RenderUpdate::Nothing;
            },
        };
        let edit = masking::edit_mask(&mut mesh, invert, ops);
        let ghost made = edit;
        if edit.is_empty() {
            self.document = Some(
                MeshDocument {
                    mesh: Some(mesh),
                    bounds: document.bounds,
                    source_path: document.source_path,
                    dirty: document.dirty,
                },
            );
            let result = RenderUpdate::Nothing;
            assert(begun.masked(*self, ops, invert, made, true, result));
            return result;
        }
        let changed_vertices = vertices_of(&edit);
        let saved = self.history.record(HistoryEntry::Local(edit));
        let mut status = if invert {
            "Mask inverted".to_owned()
        } else {
            "Mask cleared".to_owned()
        };
        if !saved {
            status.append(" (undo memory limit reached)");
        }
        self.status = status;
        self.document = Some(
            MeshDocument {
                mesh: Some(mesh),
                bounds: document.bounds,
                source_path: document.source_path,
                dirty: true,
            },
        );
        let result = RenderUpdate::Vertices(changed_vertices);
        assert(begun.masked(*self, ops, invert, made, saved, result));
        result
    }

    /// Whether the box of the document is the one round its mesh, and all else is as it was.
    pub open spec fn box_renewed(self, after: Session) -> bool {
        &&& after == (Session { document: after.document, ..self })
        &&& match self.document {
            None => after.document is None,
            Some(before) => after.document matches Some(document) && {
                &&& document == (MeshDocument { bounds: document.bounds, ..before })
                &&& session::is_box_of(document.mesh, document.bounds)
            },
        }
    }

    pub fn refresh_document_bounds(&mut self)
        requires
            old(self).well_formed(),
        ensures
            final(self).well_formed(),
            old(self).box_renewed(*final(self)),
    {
        match self.document.take() {
            Some(document) => {
                let found = session::box_of(&document.mesh);
                self.document = Some(
                    MeshDocument {
                        mesh: document.mesh,
                        bounds: found,
                        source_path: document.source_path,
                        dirty: document.dirty,
                    },
                );
            },
            None => {},
        }
    }

    /// Whether the box of the document was brought up to date with vertices that have changed.
    pub open spec fn box_updated(self, after: Session, changed: Seq<u32>) -> bool {
        &&& after == (Session { document: after.document, ..self })
        &&& match self.document {
            None => after.document is None,
            Some(before) => after.document matches Some(document) && {
                &&& document == (MeshDocument { bounds: document.bounds, ..before })
                &&& match (before.mesh, before.bounds) {
                    (None, _) => document.bounds is None,
                    (Some(mesh), Some(held)) => document.bounds is Some && bounds::updated(
                        held,
                        document.bounds->0,
                        mesh.positions@,
                        changed,
                    ),
                    (Some(mesh), None) => session::is_box_of(document.mesh, document.bounds),
                }
            },
        }
    }

    pub fn update_document_bounds(&mut self, changed_vertices: &Vec<u32>)
        requires
            old(self).well_formed(),
        ensures
            final(self).well_formed(),
            old(self).box_updated(*final(self), changed_vertices@),
    {
        match self.document.take() {
            Some(document) => {
                let found = match &document.mesh {
                    None => None,
                    Some(mesh) => match document.bounds {
                        Some(held) => {
                            let mut held = held;
                            held.update(mesh, changed_vertices);
                            Some(held)
                        },
                        None => MeshBounds::from_mesh(mesh),
                    },
                };
                self.document = Some(
                    MeshDocument {
                        mesh: document.mesh,
                        bounds: found,
                        source_path: document.source_path,
                        dirty: document.dirty,
                    },
                );
            },
            None => {},
        }
    }

    /// Whether the mesh is framed through the orbit.
    pub open spec fn framed<O: Arithmetic, T: Optics>(
        self,
        after: Session,
        ops: &O,
        optics: &T,
    ) -> bool {
        let orbit = self.camera.with_mode(ops, optics, CameraMode::Orbit);
        &&& after == (Session {
            fly_captured: false,
            camera: after.camera,
            document: after.document,
            ..self
        })
        &&& self.box_renewed(Session { document: after.document, ..self })
        &&& after.camera == match after.document {
            Some(document) => match document.bounds {
                Some(found) => orbit.fitted(ops, optics, found.minimum, found.maximum),
                None => orbit,
            },
            None => orbit,
        }
    }

    /// Frames the mesh, and goes back to the orbit.
    pub fn frame_mesh<O: Arithmetic, T: Optics>(&mut self, ops: &O, optics: &T)
        requires
            ops.total(),
            optics.total(),
            old(self).well_formed(),
        ensures
            final(self).well_formed(),
            old(self).framed(*final(self), ops, optics),
    {
        self.release_fly();
        self.camera.set_mode(CameraMode::Orbit, ops, optics);
        self.refresh_document_bounds();
        let found = match &self.document {
            Some(document) => document.bounds,
            None => None,
        };
        if let Some(found) = found {
            let (low, high) = found.min_max();
            self.camera.fit(low, high, ops, optics);
        }
    }

    pub open spec fn spec_shortcut_availability(self) -> ShortcutAvailability {
        ShortcutAvailability {
            actions_ready: self.ready(),
            mesh_ready: self.ready() && self.has_mesh(),
            can_undo: self.history.outstanding() is None && self.history.undoable().len() > 0,
            can_redo: self.history.outstanding() is None && self.history.redoable().len() > 0,
            tool: self.settings.tool,
        }
    }

    /// What can be done now.
    pub fn shortcut_availability(&self) -> (result: ShortcutAvailability)
        ensures
            result == self.spec_shortcut_availability(),
    {
        let actions_ready = self.is_ready();
        ShortcutAvailability {
            actions_ready,
            mesh_ready: actions_ready && self.holds_mesh(),
            can_undo: self.history.can_undo(),
            can_redo: self.history.can_redo(),
            tool: self.settings.tool,
        }
    }

    /// Whether a shortcut did what it does, if it may.
    pub open spec fn shortcut_taken<O: Arithmetic, T: Optics, G: Geometry>(
        self,
        after: Session,
        ops: &O,
        optics: &T,
        geometry: &G,
        action: ShortcutAction,
        now: u128,
        result: ShortcutOutcome,
    ) -> bool {
        if !controls::enabled(action, self.spec_shortcut_availability()) {
            after == self && result is Nothing
        } else {
            match action {
                ShortcutAction::Open => match result {
                    ShortcutOutcome::Perform(wish) => self.asked(
                        after,
                        PendingAction::OpenDialog,
                        Some(wish),
                    ),
                    ShortcutOutcome::Nothing => self.asked(after, PendingAction::OpenDialog, None),
                    _ => false,
                },
                ShortcutAction::Export => after == self && result is Export,
                ShortcutAction::Undo => result matches ShortcutOutcome::Step(step)
                    && self.took_history_step(
                    after,
                    geometry,
                    HistoryDirection::Undo,
                    now,
                    step,
                ),
                ShortcutAction::Redo => result matches ShortcutOutcome::Step(step)
                    && self.took_history_step(
                    after,
                    geometry,
                    HistoryDirection::Redo,
                    now,
                    step,
                ),
                ShortcutAction::Frame => result is Nothing && self.framed(after, ops, optics),
                ShortcutAction::ClearMask => result matches ShortcutOutcome::Draw(update)
                    && self.edited_mask(after, ops, false, update),
                ShortcutAction::InvertMask => result matches ShortcutOutcome::Draw(update)
                    && self.edited_mask(after, ops, true, update),
                ShortcutAction::ToggleCameraMode => result is Nothing && after == (Session {
                    fly_captured: false,
                    camera: self.camera.with_mode(
                        ops,
                        optics,
                        match self.camera.mode {
                            CameraMode::Orbit => CameraMode::Fly,
                            CameraMode::Fly => CameraMode::Orbit,
                        },
                    ),
                    ..self
                }),
                _ => result is Nothing && after == (Session {
                    settings: self.settings.changed_by(ops, action),
                    ..self
                }),
            }
        }
    }

    /// Does what a shortcut does, if it may.
    pub fn apply_shortcut<O: Arithmetic, T: Optics, G: Geometry>(
        &mut self,
        action: ShortcutAction,
        now: u128,
        ops: &O,
        optics: &T,
        geometry: &G,
    ) -> (result: ShortcutOutcome)
        requires
            ops.total(),
            optics.total(),
            geometry.total(),
            old(self).well_formed(),
        ensures
            final(self).well_formed(),
            old(self).shortcut_taken(*final(self), ops, optics, geometry, action, now, result),
    {
        if !controls::shortcut_is_enabled(action, self.shortcut_availability()) {
            return ShortcutOutcome::Nothing;
        }
        match action {
            ShortcutAction::Open => match self.request_action(PendingAction::OpenDialog) {
                Some(wish) => ShortcutOutcome::Perform(wish),
                None => ShortcutOutcome::Nothing,
            },
            ShortcutAction::Export => ShortcutOutcome::Export,
            ShortcutAction::Undo => ShortcutOutcome::Step(self.undo(now, geometry)),
            ShortcutAction::Redo => ShortcutOutcome::Step(self.redo(now, geometry)),
            ShortcutAction::Frame => {
                self.frame_mesh(ops, optics);
                ShortcutOutcome::Nothing
            },
            ShortcutAction::ClearMask => ShortcutOutcome::Draw(self.edit_mask(false, ops)),
            ShortcutAction::InvertMask => ShortcutOutcome::Draw(self.edit_mask(true, ops)),
            ShortcutAction::ToggleCameraMode => {
                let mode = match self.camera.mode() {
                    CameraMode::Orbit => CameraMode::Fly,
                    CameraMode::Fly => CameraMode::Orbit,
                };
                self.set_camera_mode(mode, ops, optics);
                ShortcutOutcome::Nothing
            },
            _ => {
                self.settings.change(action, ops);
                ShortcutOutcome::Nothing
            },
        }
    }
}

impl ToolSettings {
    /// The settings as a shortcut changes them.
    pub open spec fn changed_by<O: Arithmetic>(self, ops: &O, action: ShortcutAction) -> ToolSettings {
        match action {
            ShortcutAction::ToggleWireframe => ToolSettings {
                wireframe: !self.wireframe,
                ..self
            },
            ShortcutAction::SelectTool(tool) => ToolSettings { tool, ..self },
            ShortcutAction::AdjustRadius(direction) => ToolSettings {
                brush_radius_points: controls::spec_adjusted_radius(
                    ops,
                    self.brush_radius_points,
                    direction,
                ),
                ..self
            },
            ShortcutAction::AdjustStrength(direction) => ToolSettings {
                brush: BrushSettings {
                    strength: controls::spec_adjusted_brush_value(
                        ops,
                        self.brush.strength,
                        direction,
                        controls::MIN_STRENGTH,
                        scalar::ONE,
                    ),
                    ..self.brush
                },
                ..self
            },
            ShortcutAction::AdjustHardness(direction) => ToolSettings {
                brush: BrushSettings {
                    falloff: controls::spec_adjusted_brush_value(
                        ops,
                        self.brush.falloff,
                        direction,
                        scalar::ZERO,
                        controls::MAX_HARDNESS,
                    ),
                    ..self.brush
                },
                ..self
            },
            ShortcutAction::ToggleAirbrush => ToolSettings {
                build_up: self.build_up.with(
                    self.tool,
                    self.build_up.of(self.tool).spec_next(),
                ),
                ..self
            },
            ShortcutAction::ToggleAdaptiveTopology => ToolSettings {
                adaptive_topology: !self.adaptive_topology,
                ..self
            },
            ShortcutAction::ToggleBrushInvert => ToolSettings {
                brush: BrushSettings { invert: !self.brush.invert, ..self.brush },
                ..self
            },
            ShortcutAction::SetSymmetry(symmetry) => ToolSettings {
                brush: BrushSettings { symmetry, ..self.brush },
                ..self
            },
            _ => self,
        }
    }

    /// Changes a setting as a shortcut does.
    pub fn change<O: Arithmetic>(&mut self, action: ShortcutAction, ops: &O)
        requires
            ops.total(),
        ensures
            *final(self) == old(self).changed_by(ops, action),
    {
        match action {
            ShortcutAction::ToggleWireframe => {
                self.wireframe = !self.wireframe;
            },
            ShortcutAction::SelectTool(tool) => {
                self.tool = tool;
            },
            ShortcutAction::AdjustRadius(direction) => {
                self.brush_radius_points = controls::adjusted_radius(
                    self.brush_radius_points,
                    direction,
                    ops,
                );
            },
            ShortcutAction::AdjustStrength(direction) => {
                self.brush.strength = controls::adjusted_brush_value(
                    self.brush.strength,
                    direction,
                    controls::MIN_STRENGTH,
                    scalar::ONE,
                    ops,
                );
            },
            ShortcutAction::AdjustHardness(direction) => {
                self.brush.falloff = controls::adjusted_brush_value(
                    self.brush.falloff,
                    direction,
                    scalar::ZERO,
                    controls::MAX_HARDNESS,
                    ops,
                );
            },
            ShortcutAction::ToggleAirbrush => {
                let tool = self.tool;
                let choice = self.build_up.get(tool).next();
                self.build_up.set(tool, choice);
            },
            ShortcutAction::ToggleAdaptiveTopology => {
                self.adaptive_topology = !self.adaptive_topology;
            },
            ShortcutAction::ToggleBrushInvert => {
                self.brush.invert = !self.brush.invert;
            },
            ShortcutAction::SetSymmetry(symmetry) => {
                self.brush.symmetry = symmetry;
            },
            _ => {},
        }
    }
}

/// Whether a mesh is another with its mask inverted or cleared.
pub open spec fn same_weights<O: Arithmetic>(
    after: Option<Mesh>,
    before: Mesh,
    ops: &O,
    invert: bool,
) -> bool {
    after matches Some(mesh) && {
        &&& mesh == (Mesh { mask: mesh.mask, ..before })
        &&& mesh.mask@ == before.mask@.map_values(
            |weight: u32| masking::weight_written(ops, weight, invert),
        )
    }
}

fn vertices_of(edit: &LocalEdit) -> (result: Vec<u32>)
    ensures
        result@ == edit.masks@.map_values(|change: MaskChange| change.vertex),
{
    let mut vertices: Vec<u32> = Vec::new();
    let mut i: usize = 0;
    while i < edit.masks.len()
        invariant
            i <= edit.masks@.len(),
            vertices@ == edit.masks@.take(i as int).map_values(
                |change: MaskChange| change.vertex,
            ),
        decreases edit.masks@.len() - i,
    {
        vertices.push(edit.masks[i].vertex);
        i += 1;
        assert(vertices@ =~= edit.masks@.take(i as int).map_values(
            |change: MaskChange| change.vertex,
        ));
    }
    assert(edit.masks@.take(i as int) =~= edit.masks@);
    vertices
}

} // verus!
