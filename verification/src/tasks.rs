//! What is given to the worker, and what comes back from it.
use crate::arithmetic::Arithmetic;
use crate::batch::{FrameRenderBatch, RenderUpdate};
use crate::geometry::Geometry;
use crate::history;
use crate::history::{HistoryDirection, HistoryEntry, MeshSnapshot, PendingMeshReplacement};
use crate::mesh;
use crate::mesh::Mesh;
use crate::optics::Optics;
use crate::sculpt;
use crate::session;
use crate::session::{BackgroundTask, FilePath, MeshDocument, PendingAction, Session, WorkerReply};
use crate::stl::ImportReport;
use crate::text;
use std::sync::Arc;
use vstd::prelude::*;
use vstd::string::StringExecFns;

verus! {

/// What a reply leads to: something to draw anew, and a wish that can now be done.
pub struct AfterReply {
    pub render: RenderUpdate,
    pub action: Option<PendingAction>,
}

/// Whether a mesh was built again from a copy, or why it cannot be.
pub open spec fn rebuilt<G: Geometry>(
    geometry: &G,
    snapshot: MeshSnapshot,
    result: Option<Mesh>,
) -> bool {
    match result {
        Some(mesh) => {
            &&& mesh.positions@ == snapshot.spec_positions()
            &&& mesh.triangles@ == snapshot.spec_triangles()
            &&& mesh.mask@ == snapshot.spec_mask()
            &&& mesh.smooth(geometry)
            &&& mesh.well_formed()
        },
        None => exists|error: mesh::MeshError| #[trigger]
            mesh::indexed_geometry_error(
                geometry,
                snapshot.spec_positions(),
                snapshot.spec_triangles(),
                snapshot.spec_mask(),
                error,
            ),
    }
}

/// What is said when a task stops.
pub open spec fn stopped_text(task: BackgroundTask) -> Seq<char> {
    match task {
        BackgroundTask::Import { .. } => "The mesh worker stopped before finishing the import"@,
        BackgroundTask::Export { .. } => "The export stopped; the editable mesh was restored"@,
        BackgroundTask::Remesh { .. } => "The mesh worker stopped before finishing the remesh"@,
        BackgroundTask::Replace { .. } => "The mesh worker stopped before restoring the mesh"@,
    }
}

impl Session {
    /// Whether what a stopped task held was taken back: the mesh that was being written from its
    /// copy, and a step of the history to where it was.
    pub open spec fn recovered<G: Geometry>(
        self,
        after: Session,
        geometry: &G,
        task: BackgroundTask,
        render: RenderUpdate,
    ) -> bool {
        match task {
            BackgroundTask::Export { recovery, dirty_before, after: next, .. } => {
                &&& after == (Session {
                    document: after.document,
                    pending_action: next,
                    ..self
                })
                &&& exists|mesh: Option<Mesh>|
                    #![trigger is_restored(self.document, after.document, mesh, dirty_before, render)]
                    match recovery {
                        Some(snapshot) => rebuilt(geometry, *snapshot, mesh),
                        None => mesh is None,
                    } && is_restored(self.document, after.document, mesh, dirty_before, render)
            },
            BackgroundTask::Replace { pending, .. } => {
                &&& after == (Session { history: after.history, ..self })
                &&& render is Nothing
                &&& history::is_current(self.history, pending) ==> {
                    &&& after.history.outstanding() is None
                    &&& after.history.used() == self.history.used()
                    &&& history::taken_from(after.history, pending.spec_direction())
                        == history::taken_from(self.history, pending.spec_direction()).push(
                        HistoryEntry::MeshReplacement(pending.spec_target()),
                    )
                    &&& history::put_on(after.history, pending.spec_direction())
                        == history::put_on(self.history, pending.spec_direction())
                }
                &&& !history::is_current(self.history, pending) ==> after.history == self.history
            },
            _ => after == self && render is Nothing,
        }
    }

    /// Takes back what a stopped task held, and tells what is to be drawn anew.
    pub(crate) fn recover_background_task<G: Geometry>(
        &mut self,
        task: BackgroundTask,
        geometry: &G,
    ) -> (result: (String, RenderUpdate))
        requires
            geometry.total(),
            old(self).well_formed(),
            old(self).background_task is None,
            task.sound(),
        ensures
            final(self).well_formed(),
            old(self).recovered(*final(self), geometry, task, result.1),
            result.0@ == stopped_text(task),
    {
        match task {
            BackgroundTask::Import { .. } => (
                "The mesh worker stopped before finishing the import".to_owned(),
                RenderUpdate::Nothing,
            ),
            BackgroundTask::Export { recovery, dirty_before, after, .. } => {
                let render = match recovery {
                    Some(recovery) => self.restore_recovery(&recovery, dirty_before, geometry),
                    None => {
                        let render = RenderUpdate::Nothing;
                        assert(is_restored(
                            self.document,
                            self.document,
                            None,
                            dirty_before,
                            render,
                        ));
                        render
                    },
                };
                self.pending_action = after;
                ("The export stopped; the editable mesh was restored".to_owned(), render)
            },
            BackgroundTask::Remesh { .. } => (
                "The mesh worker stopped before finishing the remesh".to_owned(),
                RenderUpdate::Nothing,
            ),
            BackgroundTask::Replace { pending, .. } => {
                let _ = self.history.cancel_mesh_replacement(pending);
                (
                    "The mesh worker stopped before restoring the mesh".to_owned(),
                    RenderUpdate::Nothing,
                )
            },
        }
    }

    fn restore_recovery<G: Geometry>(
        &mut self,
        recovery: &MeshSnapshot,
        dirty: bool,
        geometry: &G,
    ) -> (result: RenderUpdate)
        requires
            geometry.total(),
            old(self).well_formed(),
            recovery.spec_triangles().len() <= u32::MAX,
        ensures
            final(self).well_formed(),
            *final(self) == (Session { document: final(self).document, ..*old(self) }),
            exists|mesh: Option<Mesh>|
                #![trigger is_restored(old(self).document, final(self).document, mesh, dirty, result)]
                rebuilt(geometry, *recovery, mesh) && is_restored(
                    old(self).document,
                    final(self).document,
                    mesh,
                    dirty,
                    result,
                ),
    {
        match recovery.restore_mesh(geometry) {
            Ok(mesh) => {
                let ghost built = Some(mesh);
                assert(rebuilt(geometry, *recovery, built));
                match self.document.take() {
                    Some(document) => {
                        let mesh = Some(mesh);
                        let bounds = session::box_of(&mesh);
                        self.document = Some(
                            MeshDocument {
                                mesh,
                                bounds,
                                source_path: document.source_path,
                                dirty,
                            },
                        );
                        let render = RenderUpdate::Mesh;
                        assert(is_restored(old(self).document, self.document, built, dirty, render));
                        render
                    },
                    None => {
                        let render = RenderUpdate::Nothing;
                        assert(is_restored(old(self).document, self.document, built, dirty, render));
                        render
                    },
                }
            },
            Err(error) => {
                assert(rebuilt(geometry, *recovery, None));
                let render = RenderUpdate::Nothing;
                assert(is_restored(old(self).document, self.document, None, dirty, render));
                render
            },
        }
    }
}

/// What is said of a remesh that is done: for how long it took, and how many faces there were and
/// are.
pub open spec fn remeshed_text(seconds: Seq<char>, before: nat, after: nat, saved: bool) -> Seq<char> {
    let told = "Voxel remesh finished in "@ + seconds + "s · "@ + text::grouped_digits(before)
        + " → "@ + text::grouped_digits(after) + " faces"@;
    if saved {
        told
    } else {
        told + " (undo memory limit reached)"@
    }
}

pub open spec fn step_text(direction: HistoryDirection) -> Seq<char> {
    match direction {
        HistoryDirection::Undo => "Undo"@,
        HistoryDirection::Redo => "Redo"@,
    }
}

impl Session {
    /// Whether a whole mesh was put in the place of the one that was open.
    pub open spec fn replaced<O: Arithmetic>(self, after: Session, ops: &O, mesh: Mesh) -> bool {
        &&& after.document matches Some(document) && {
            &&& document.mesh == Some(mesh)
            &&& session::is_box_of(document.mesh, document.bounds)
            &&& document.source_path == self.document->0.source_path
            &&& document.dirty
        }
        &&& after.sculpt.active is None
        &&& after.sculpt.symmetry_center == Some(sculpt::middle_of(ops, mesh))
        &&& after.stroke_sampler is None
        &&& after.frame_render.is_blank()
    }

    /// Puts a whole mesh in the place of the one that is open, and gives a copy of that one.
    fn replace_mesh<O: Arithmetic>(&mut self, mesh: Mesh, ops: &O) -> (result: MeshSnapshot)
        requires
            ops.total(),
            old(self).well_formed(),
            old(self).has_mesh(),
            mesh.well_formed(),
        ensures
            final(self).well_formed(),
            old(self).replaced(*final(self), ops, mesh),
            *final(self) == (Session {
                document: final(self).document,
                sculpt: final(self).sculpt,
                stroke_sampler: final(self).stroke_sampler,
                frame_render: final(self).frame_render,
                ..*old(self)
            }),
            is_copy(result, old(self).document->0.mesh->0),
    {
        self.sculpt.reset_for_mesh(&mesh, ops);
        self.stroke_sampler = None;
        self.frame_render = FrameRenderBatch::new();
        match self.document.take() {
            Some(document) => match document.mesh {
                Some(before) => {
                    let copy = MeshSnapshot::capture(&before);
                    let mesh = Some(mesh);
                    let bounds = session::box_of(&mesh);
                    self.document = Some(
                        MeshDocument {
                            mesh,
                            bounds,
                            source_path: document.source_path,
                            dirty: true,
                        },
                    );
                    copy
                },
                None => MeshSnapshot::capture(&mesh),
            },
            None => MeshSnapshot::capture(&mesh),
        }
    }

    /// Whether a file that was read was opened, or it was said why not.
    pub open spec fn imported<O: Arithmetic, T: Optics>(
        self,
        after: Session,
        ops: &O,
        optics: &T,
        path: FilePath,
        read: Result<(Mesh, ImportReport), String>,
        outcome: AfterReply,
    ) -> bool {
        &&& outcome.action is None
        &&& match read {
            Ok((mesh, report)) => {
                &&& self.installed(after, ops, optics, path, mesh, report)
                &&& outcome.render is Mesh
            },
            Err(error) => {
                &&& after.status@ == "Import failed; the current mesh was left unchanged"@
                &&& after.error is Some
                &&& after.error->0@ == "Could not import "@ + path.display@ + "\n\n"@ + error@
                &&& after == (Session { status: after.status, error: after.error, ..self })
                &&& outcome.render is Nothing
            },
        }
    }

    /// Whether a mesh that was written is back, and what was to follow is done, or, where it could
    /// not be written, asked about again.
    pub open spec fn wrote(
        self,
        after: Session,
        path: FilePath,
        mesh: Mesh,
        written: Result<(), String>,
        next: Option<PendingAction>,
        outcome: AfterReply,
    ) -> bool {
        &&& after.document == match self.document {
            Some(document) => Some(
                MeshDocument {
                    mesh: Some(mesh),
                    dirty: if written is Ok {
                        false
                    } else {
                        document.dirty
                    },
                    ..document
                },
            ),
            None => None,
        }
        &&& outcome.render is Nothing
        &&& match written {
            Ok(()) => {
                &&& after.status@ == "Exported "@ + path.display@
                &&& after == (Session { document: after.document, status: after.status, ..self })
                &&& outcome.action == next
            },
            Err(error) => {
                &&& after.error is Some
                &&& after.error->0@ == "Could not export "@ + path.display@ + "\n\n"@ + error@
                &&& after == (Session {
                    document: after.document,
                    pending_action: next,
                    error: after.error,
                    ..self
                })
                &&& outcome.action is None
            },
        }
    }

    /// Whether a remeshed mesh is in place and the one before can be gone back to, or it was said
    /// why not.
    pub open spec fn took_remesh<O: Arithmetic>(
        self,
        after: Session,
        ops: &O,
        made: Result<Mesh, String>,
        seconds: Seq<char>,
        outcome: AfterReply,
    ) -> bool {
        &&& outcome.action is None
        &&& match made {
            Ok(mesh) => if self.has_mesh() {
                &&& self.replaced(after, ops, mesh)
                &&& exists|copy: Arc<MeshSnapshot>, saved: bool| #[trigger]
                    kept_for_undo(
                        self.history,
                        after.history,
                        self.document->0.mesh->0,
                        copy,
                        saved,
                    ) && after.status@ == remeshed_text(
                        seconds,
                        self.document->0.mesh->0.triangles@.len(),
                        mesh.triangles@.len(),
                        saved,
                    )
                &&& after == (Session {
                    document: after.document,
                    sculpt: after.sculpt,
                    stroke_sampler: after.stroke_sampler,
                    frame_render: after.frame_render,
                    history: after.history,
                    status: after.status,
                    ..self
                })
                &&& outcome.render is Mesh
            } else {
                after == self && outcome.render is Nothing
            },
            Err(error) => {
                &&& after.error is Some
                &&& after.error->0@ == "Could not remesh the object\n\n"@ + error@
                &&& after == (Session { error: after.error, ..self })
                &&& outcome.render is Nothing
            },
        }
    }

    /// Whether a step of the history over a whole mesh is done, or was given up.
    pub open spec fn took_step<O: Arithmetic, G: Geometry>(
        self,
        after: Session,
        ops: &O,
        geometry: &G,
        pending: PendingMeshReplacement,
        started: u128,
        made: Result<Mesh, String>,
        outcome: AfterReply,
    ) -> bool {
        let task = BackgroundTask::Replace { pending, started };
        &&& outcome.action is None
        &&& match made {
            Ok(mesh) => if self.has_mesh() {
                &&& self.replaced(after, ops, mesh)
                &&& exists|copy: Arc<MeshSnapshot>| #[trigger]
                    stepped_over(
                        self.history,
                        after.history,
                        self.document->0.mesh->0,
                        pending,
                        copy,
                    )
                &&& after.status@ == step_text(pending.spec_direction())
                &&& after == (Session {
                    document: after.document,
                    sculpt: after.sculpt,
                    stroke_sampler: after.stroke_sampler,
                    frame_render: after.frame_render,
                    history: after.history,
                    status: after.status,
                    ..self
                })
                &&& outcome.render is Mesh
            } else {
                self.recovered(after, geometry, task, outcome.render)
            },
            Err(error) => {
                &&& after.error is Some
                &&& after.error->0@ == "Could not restore the mesh\n\n"@ + error@
                &&& self.recovered(
                    Session { error: self.error, ..after },
                    geometry,
                    task,
                    outcome.render,
                )
            },
        }
    }

    /// Whether the reply of the worker was taken up.
    pub open spec fn took_reply<O: Arithmetic, T: Optics, G: Geometry>(
        self,
        after: Session,
        ops: &O,
        optics: &T,
        geometry: &G,
        reply: WorkerReply,
        seconds: Seq<char>,
        result: AfterReply,
    ) -> bool {
        let idle = Session { background_task: None, ..self };
        match (self.background_task, reply) {
            (None, _) => after == self && result.render is Nothing && result.action is None,
            (
                Some(BackgroundTask::Import { .. }),
                WorkerReply::Import { path, result: read },
            ) => idle.imported(after, ops, optics, path, read, result),
            (
                Some(BackgroundTask::Export { path, started, dirty_before, after: next, .. }),
                WorkerReply::ExportCheckpoint(recovery),
            ) => {
                &&& after == (Session {
                    background_task: Some(
                        BackgroundTask::Export {
                            path,
                            started,
                            recovery: Some(recovery),
                            dirty_before,
                            after: next,
                        },
                    ),
                    ..self
                })
                &&& result.render is Nothing && result.action is None
            },
            (
                Some(BackgroundTask::Export { after: next, .. }),
                WorkerReply::Export { path, mesh, result: written },
            ) => idle.wrote(after, path, mesh, written, next, result),
            (
                Some(BackgroundTask::Remesh { .. }),
                WorkerReply::Remesh(made),
            ) => idle.took_remesh(after, ops, made, seconds, result),
            (
                Some(BackgroundTask::Replace { pending, started }),
                WorkerReply::Replace(made),
            ) => idle.took_step(after, ops, geometry, pending, started, made, result),
            (Some(task), WorkerReply::Stopped) => {
                let told = Session { worker_error: after.worker_error, ..idle };
                &&& after.worker_error is Some
                &&& after.worker_error->0@ == "The mesh worker stopped unexpectedly"@
                &&& after.error is Some
                &&& after.error->0@ == stopped_text(task)
                &&& told.recovered(Session { error: self.error, ..after }, geometry, task, result.render)
                &&& result.action is None
            },
            (Some(task), _) => {
                &&& after.error is Some
                &&& after.error->0@ == "The mesh worker returned an unexpected result.\n\n"@
                    + stopped_text(task)
                &&& idle.recovered(Session { error: self.error, ..after }, geometry, task, result.render)
                &&& result.action is None
            },
        }
    }
}

fn reported(text: &str, path: &FilePath, error: &String) -> (result: String)
    ensures
        result@ == text@ + path.display@ + "\n\n"@ + error@,
{
    let mut message = text.to_owned();
    message.append(path.display.as_str());
    message.append("\n\n");
    message.append(error.as_str());
    message
}

fn nothing_more() -> (result: AfterReply)
    ensures
        result.render is Nothing && result.action is None,
{
    AfterReply { render: RenderUpdate::Nothing, action: None }
}

impl Session {
    /// Takes up what the worker says. `seconds` is for how long the task has been going on.
    #[verifier::rlimit(40)]
    pub fn receive<O: Arithmetic, T: Optics, G: Geometry>(
        &mut self,
        reply: WorkerReply,
        seconds: &str,
        ops: &O,
        optics: &T,
        geometry: &G,
    ) -> (result: AfterReply)
        requires
            ops.total(),
            optics.total(),
            geometry.total(),
            old(self).well_formed(),
            reply.sound(),
        ensures
            final(self).well_formed(),
            old(self).took_reply(*final(self), ops, optics, geometry, reply, seconds@, result),
    {
        let task = match self.background_task.take() {
            Some(task) => task,
            None => {
                return nothing_more();
            },
        };
        match (task, reply) {
            (BackgroundTask::Import { .. }, WorkerReply::Import { path, result }) => {
                self.import_finished(path, result, ops, optics)
            },
            (
                BackgroundTask::Export { path, started, dirty_before, after, recovery },
                WorkerReply::ExportCheckpoint(copy),
            ) => {
                self.background_task = Some(
                    BackgroundTask::Export {
                        path,
                        started,
                        recovery: Some(copy),
                        dirty_before,
                        after,
                    },
                );
                nothing_more()
            },
            (
                BackgroundTask::Export { after, .. },
                WorkerReply::Export { path, mesh, result },
            ) => self.exported(path, mesh, result, after),
            (BackgroundTask::Remesh { .. }, WorkerReply::Remesh(result)) => self.remeshed(
                result,
                seconds,
                ops,
            ),
            (BackgroundTask::Replace { pending, started }, WorkerReply::Replace(result)) => {
                self.stepped(pending, started, result, ops, geometry)
            },
            (task, WorkerReply::Stopped) => {
                self.worker_error = Some("The mesh worker stopped unexpectedly".to_owned());
                let (message, render) = self.recover_background_task(task, geometry);
                self.error = Some(message);
                AfterReply { render, action: None }
            },
            (task, _) => {
                let (recovery, render) = self.recover_background_task(task, geometry);
                let mut message = "The mesh worker returned an unexpected result.\n\n".to_owned();
                message.append(recovery.as_str());
                self.error = Some(message);
                AfterReply { render, action: None }
            },
        }
    }

    fn import_finished<O: Arithmetic, T: Optics>(
        &mut self,
        path: FilePath,
        result: Result<(Mesh, ImportReport), String>,
        ops: &O,
        optics: &T,
    ) -> (outcome: AfterReply)
        requires
            ops.total(),
            optics.total(),
            old(self).well_formed(),
            old(self).background_task is None,
            result matches Ok((mesh, _)) ==> mesh.well_formed(),
        ensures
            final(self).well_formed(),
            old(self).imported(*final(self), ops, optics, path, result, outcome),
    {
        match result {
            Ok((mesh, report)) => {
                self.install_import(path, mesh, report, ops, optics);
                AfterReply { render: RenderUpdate::Mesh, action: None }
            },
            Err(error) => {
                self.status = "Import failed; the current mesh was left unchanged".to_owned();
                self.error = Some(reported("Could not import ", &path, &error));
                nothing_more()
            },
        }
    }

    fn exported(
        &mut self,
        path: FilePath,
        mesh: Mesh,
        result: Result<(), String>,
        after: Option<PendingAction>,
    ) -> (outcome: AfterReply)
        requires
            old(self).well_formed(),
            mesh.well_formed(),
        ensures
            final(self).well_formed(),
            old(self).wrote(*final(self), path, mesh, result, after, outcome),
    {
        match self.document.take() {
            Some(document) => {
                let dirty = match &result {
                    Ok(()) => false,
                    Err(_) => document.dirty,
                };
                self.document = Some(
                    MeshDocument {
                        mesh: Some(mesh),
                        bounds: document.bounds,
                        source_path: document.source_path,
                        dirty,
                    },
                );
            },
            None => {},
        }
        match result {
            Ok(()) => {
                let mut status = "Exported ".to_owned();
                status.append(path.display.as_str());
                self.status = status;
                AfterReply { render: RenderUpdate::Nothing, action: after }
            },
            Err(error) => {
                self.pending_action = after;
                self.error = Some(reported("Could not export ", &path, &error));
                nothing_more()
            },
        }
    }

    fn face_count(&self) -> (result: usize)
        ensures
            self.has_mesh() ==> result == self.document->0.mesh->0.triangles@.len(),
    {
        match &self.document {
            Some(document) => match &document.mesh {
                Some(mesh) => mesh.triangles.len(),
                None => 0,
            },
            None => 0,
        }
    }

    fn remeshed<O: Arithmetic>(
        &mut self,
        result: Result<Mesh, String>,
        seconds: &str,
        ops: &O,
    ) -> (outcome: AfterReply)
        requires
            ops.total(),
            old(self).well_formed(),
            result matches Ok(mesh) ==> mesh.well_formed(),
        ensures
            final(self).well_formed(),
            old(self).took_remesh(*final(self), ops, result, seconds@, outcome),
    {
        match result {
            Ok(mesh) => {
                if !self.holds_mesh() {
                    return nothing_more();
                }
                let before = self.face_count();
                let after = mesh.triangles.len();
                let copy = Arc::new(self.replace_mesh(mesh, ops));
                let ghost kept = copy;
                let saved = self.history.record(HistoryEntry::MeshReplacement(copy));
                let mut status = "Voxel remesh finished in ".to_owned();
                status.append(seconds);
                status.append("s · ");
                status.append(text::grouped(before).as_str());
                status.append(" → ");
                status.append(text::grouped(after).as_str());
                status.append(" faces");
                if !saved {
                    status.append(" (undo memory limit reached)");
                }
                self.status = status;
                assert(kept_for_undo(
                    old(self).history,
                    self.history,
                    old(self).document->0.mesh->0,
                    kept,
                    saved,
                ));
                AfterReply { render: RenderUpdate::Mesh, action: None }
            },
            Err(error) => {
                let mut message = "Could not remesh the object\n\n".to_owned();
                message.append(error.as_str());
                self.error = Some(message);
                nothing_more()
            },
        }
    }

    fn stepped<O: Arithmetic, G: Geometry>(
        &mut self,
        pending: PendingMeshReplacement,
        started: u128,
        result: Result<Mesh, String>,
        ops: &O,
        geometry: &G,
    ) -> (outcome: AfterReply)
        requires
            ops.total(),
            geometry.total(),
            old(self).well_formed(),
            old(self).background_task is None,
            pending.well_formed(),
            result matches Ok(mesh) ==> mesh.well_formed(),
        ensures
            final(self).well_formed(),
            old(self).took_step(
                *final(self),
                ops,
                geometry,
                pending,
                started,
                result,
                outcome,
            ),
    {
        match result {
            Ok(mesh) => {
                if !self.holds_mesh() {
                    let given_up = self.recover_background_task(
                        BackgroundTask::Replace { pending, started },
                        geometry,
                    );
                    return AfterReply { render: given_up.1, action: None };
                }
                let direction = pending.direction();
                let ghost token = pending;
                let copy = Arc::new(self.replace_mesh(mesh, ops));
                let ghost kept = copy;
                let _ = self.history.complete_mesh_replacement(pending, copy);
                self.status = match direction {
                    HistoryDirection::Undo => "Undo".to_owned(),
                    HistoryDirection::Redo => "Redo".to_owned(),
                };
                assert(stepped_over(
                    old(self).history,
                    self.history,
                    old(self).document->0.mesh->0,
                    token,
                    kept,
                ));
                AfterReply { render: RenderUpdate::Mesh, action: None }
            },
            Err(error) => {
                let given_up = self.recover_background_task(
                    BackgroundTask::Replace { pending, started },
                    geometry,
                );
                let mut message = "Could not restore the mesh\n\n".to_owned();
                message.append(error.as_str());
                self.error = Some(message);
                AfterReply { render: given_up.1, action: None }
            },
        }
    }

    /// What name is proposed for a file to write, where something can be written.
    pub open spec fn proposed_name(self) -> Option<Seq<char>> {
        if !self.ready() || !self.has_mesh() {
            None
        } else {
            Some(
                match self.document->0.source_path.stem {
                    Some(stem) => stem@ + "-sculpted.stl"@,
                    None => "sculpted.stl"@,
                },
            )
        }
    }

    /// Gets ready to ask for a file to write, and proposes a name.
    pub fn export_as(&mut self) -> (result: Option<String>)
        ensures
            result is Some <==> old(self).proposed_name() is Some,
            result is Some ==> result->0@ == old(self).proposed_name()->0,
            *final(self) == (Session {
                fly_captured: old(self).fly_captured && result is None,
                ..*old(self)
            }),
    {
        if !self.is_ready() || !self.holds_mesh() {
            return None;
        }
        self.release_fly();
        match &self.document {
            Some(document) => match &document.source_path.stem {
                Some(stem) => {
                    let mut name = stem.clone();
                    name.append("-sculpted.stl");
                    Some(name)
                },
                None => Some("sculpted.stl".to_owned()),
            },
            None => None,
        }
    }

    /// Gives the mesh out to be written. Without a worker there is an error, and the mesh stays.
    pub fn begin_export(&mut self) -> (result: Option<Mesh>)
        requires
            old(self).well_formed(),
        ensures
            final(self).well_formed(),
            result matches Some(mesh) ==> mesh.well_formed(),
            result == if old(self).has_mesh() && old(self).worker_running {
                old(self).document->0.mesh
            } else {
                None
            },
            *final(self) == (Session {
                fly_captured: false,
                document: final(self).document,
                error: final(self).error,
                ..*old(self)
            }),
            final(self).document == if result is Some {
                Some(MeshDocument { mesh: None, ..old(self).document->0 })
            } else {
                old(self).document
            },
            if old(self).has_mesh() && !old(self).worker_running {
                &&& final(self).error is Some
                &&& final(self).error->0@ == "The mesh worker is unavailable"@
            } else {
                final(self).error == old(self).error
            },
    {
        self.release_fly();
        if !self.holds_mesh() {
            return None;
        }
        if !self.worker_running {
            self.error = Some("The mesh worker is unavailable".to_owned());
            return None;
        }
        match self.document.take() {
            Some(document) => {
                self.document = Some(
                    MeshDocument {
                        mesh: None,
                        bounds: document.bounds,
                        source_path: document.source_path,
                        dirty: document.dirty,
                    },
                );
                document.mesh
            },
            None => None,
        }
    }

    /// Notes that the worker has got the mesh to write.
    pub fn export_sent(&mut self, path: FilePath, after: Option<PendingAction>, now: u128)
        requires
            old(self).well_formed(),
        ensures
            final(self).well_formed(),
            *final(self) == (Session {
                background_task: Some(
                    BackgroundTask::Export {
                        path,
                        started: now,
                        recovery: None,
                        dirty_before: old(self).dirty(),
                        after,
                    },
                ),
                ..*old(self)
            }),
    {
        let dirty_before = self.is_dirty();
        self.background_task = Some(
            BackgroundTask::Export { path, started: now, recovery: None, dirty_before, after },
        );
    }

    /// Takes the mesh back that the worker could not be given.
    pub fn export_not_sent(&mut self, mesh: Mesh)
        requires
            old(self).well_formed(),
            mesh.well_formed(),
        ensures
            final(self).well_formed(),
            final(self).document == match old(self).document {
                Some(document) => Some(MeshDocument { mesh: Some(mesh), ..document }),
                None => None,
            },
            final(self).worker_error is Some,
            final(self).worker_error->0@ == "The mesh worker stopped unexpectedly"@,
            *final(self) == (Session {
                document: final(self).document,
                worker_error: final(self).worker_error,
                ..*old(self)
            }),
    {
        match self.document.take() {
            Some(document) => {
                self.document = Some(
                    MeshDocument {
                        mesh: Some(mesh),
                        bounds: document.bounds,
                        source_path: document.source_path,
                        dirty: document.dirty,
                    },
                );
            },
            None => {},
        }
        self.worker_error = Some("The mesh worker stopped unexpectedly".to_owned());
    }

    /// Notes that the worker has got a copy of the mesh to remesh.
    pub fn remesh_sent(&mut self, now: u128)
        requires
            old(self).well_formed(),
        ensures
            final(self).well_formed(),
            *final(self) == (Session {
                background_task: Some(BackgroundTask::Remesh { started: now }),
                ..*old(self)
            }),
    {
        self.background_task = Some(BackgroundTask::Remesh { started: now });
    }
}

/// Writing a mesh and getting it back leaves the session as it was, but for what is said of it and
/// that the mesh counts as saved.
pub proof fn a_written_mesh_comes_back<O: Arithmetic, T: Optics, G: Geometry>(
    ops: &O,
    optics: &T,
    geometry: &G,
    before: Session,
    given: Session,
    sent: Session,
    after: Session,
    path: FilePath,
    seconds: Seq<char>,
    result: AfterReply,
)
    requires
        before.has_mesh(),
        given == (Session {
            fly_captured: false,
            document: Some(MeshDocument { mesh: None, ..before.document->0 }),
            ..before
        }),
        sent == (Session {
            background_task: Some(
                BackgroundTask::Export {
                    path,
                    started: 0,
                    recovery: None,
                    dirty_before: given.dirty(),
                    after: None,
                },
            ),
            ..given
        }),
        sent.took_reply(
            after,
            ops,
            optics,
            geometry,
            WorkerReply::Export { path, mesh: before.document->0.mesh->0, result: Ok(()) },
            seconds,
            result,
        ),
    ensures
        after.document == Some(MeshDocument { dirty: false, ..before.document->0 }),
        after.history == before.history,
        after.background_task is None,
        result.action is None,
{
}

/// What the worker could not do leaves the mesh and the history as they were.
pub proof fn a_failed_task_changes_no_mesh<O: Arithmetic, T: Optics, G: Geometry>(
    ops: &O,
    optics: &T,
    geometry: &G,
    before: Session,
    after: Session,
    reply: WorkerReply,
    seconds: Seq<char>,
    result: AfterReply,
)
    requires
        before.took_reply(after, ops, optics, geometry, reply, seconds, result),
        match (before.background_task, reply) {
            (Some(BackgroundTask::Import { .. }), WorkerReply::Import { result: Err(_), .. }) => true,
            (Some(BackgroundTask::Import { .. }), WorkerReply::Stopped) => true,
            (Some(BackgroundTask::Remesh { .. }), WorkerReply::Remesh(Err(_))) => true,
            (Some(BackgroundTask::Remesh { .. }), WorkerReply::Stopped) => true,
            _ => false,
        },
    ensures
        after.document == before.document,
        after.history == before.history,
        after.sculpt == before.sculpt,
        after.camera == before.camera,
        result.render is Nothing,
{
}

/// Whether a copy is one of a mesh.
pub open spec fn is_copy(copy: MeshSnapshot, mesh: Mesh) -> bool {
    &&& copy.spec_positions() == mesh.positions@
    &&& copy.spec_triangles() == mesh.triangles@
    &&& copy.spec_mask() == mesh.mask@
}

/// Whether a history has the mesh before a replacement to go back to, or, where that is too large,
/// has been emptied.
pub open spec fn kept_for_undo(
    before: history::History,
    after: history::History,
    mesh: Mesh,
    copy: Arc<MeshSnapshot>,
    saved: bool,
) -> bool {
    let entry = HistoryEntry::MeshReplacement(copy);
    &&& is_copy(*copy, mesh)
    &&& after.well_formed()
    &&& after.same_terms(before)
    &&& after.outstanding() == before.outstanding()
    &&& saved == (before.outstanding() is None && entry.bytes() <= before.budget())
    &&& saved ==> history::newest_within(
        before.undoable().push(entry),
        before.budget(),
        after.undoable(),
    )
    &&& !saved && before.outstanding() is None ==> after.undoable() == Seq::<HistoryEntry>::empty()
    &&& before.outstanding() is None ==> after.redoable() == Seq::<HistoryEntry>::empty()
}

/// Whether a history has finished a step over a whole mesh, with the mesh before it to go back to.
pub open spec fn stepped_over(
    before: history::History,
    after: history::History,
    mesh: Mesh,
    pending: PendingMeshReplacement,
    copy: Arc<MeshSnapshot>,
) -> bool {
    let entry = HistoryEntry::MeshReplacement(copy);
    let direction = pending.spec_direction();
    &&& is_copy(*copy, mesh)
    &&& after.well_formed()
    &&& after.same_terms(before)
    &&& !history::is_current(before, pending) ==> after == before
    &&& history::is_current(before, pending) ==> {
        let kept = copy.bytes() <= before.budget();
        &&& after.outstanding() is None
        &&& kept && direction is Undo ==> history::trimmed(
            before.undoable(),
            before.redoable().push(entry),
            direction,
            before.budget(),
            after.undoable(),
            after.redoable(),
        )
        &&& kept && direction is Redo ==> history::trimmed(
            before.undoable().push(entry),
            before.redoable(),
            direction,
            before.budget(),
            after.undoable(),
            after.redoable(),
        )
        &&& !kept ==> history::put_on(after, direction) == Seq::<HistoryEntry>::empty()
            && history::taken_from(after, direction) == history::taken_from(before, direction)
    }
}

/// Whether a document has a mesh back, if there is one.
pub open spec fn is_restored(
    before: Option<MeshDocument>,
    after: Option<MeshDocument>,
    mesh: Option<Mesh>,
    dirty: bool,
    render: RenderUpdate,
) -> bool {
    if before is None || mesh is None {
        after == before && render is Nothing
    } else {
        &&& render is Mesh
        &&& after matches Some(document) && {
            &&& document.mesh == mesh
            &&& session::is_box_of(document.mesh, document.bounds)
            &&& document.source_path == before->0.source_path
            &&& document.dirty == dirty
        }
    }
}

} // verus!
