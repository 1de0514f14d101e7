//! Strokes of the pointer over the mesh.
use crate::arithmetic;
use crate::arithmetic::Arithmetic;
use crate::brush::{BrushSample, BrushSettings, DabKind, SculptTool};
use crate::camera::CameraFrame;
use crate::controls;
use crate::geometry::Geometry;
use crate::grab;
use crate::input::{Modifiers, ScreenPoint};
use crate::mesh::Mesh;
use crate::optics::Optics;
use crate::query;
use crate::query::RayHit;
use crate::scalar;
use crate::scalar::Point;
use crate::sculpt;
use crate::sculpt::{SampleRequest, SculptEngine};
use crate::session::{MeshDocument, SculptInput, Session};
use vstd::prelude::*;

verus! {

/// The bit pattern of `0.000001`, below which no distance of a camera is taken to be.
pub const SMALLEST_DISTANCE: u32 = 0x3586_37bd;

/// The bit pattern of `0.05`, below which no depth is taken to be.
pub const SMALLEST_DEPTH: u32 = 0x3d4c_cccd;

/// The functions of a caller that strokes need.
pub struct Instruments<O, T, G, H> {
    pub ops: O,
    pub optics: T,
    pub geometry: G,
    pub hypot: H,
}

impl<
    O: Arithmetic,
    T: Optics,
    G: Geometry,
    H: Fn(u32, u32) -> u32,
> Instruments<O, T, G, H> {
    /// Whether every function can be called, and gives equal arguments equal results.
    pub open spec fn total(&self) -> bool {
        &&& self.ops.total()
        &&& self.optics.total()
        &&& self.geometry.total()
        &&& arithmetic::combines(self.hypot)
    }
}

/// Where the pointer meets the mesh, and along which way it is seen there.
#[derive(Clone, Copy, Debug, PartialEq, Eq, Structural)]
pub struct PointerHit {
    pub hit: RayHit,
    pub view_direction: Point,
}

/// How much of the world a point of the screen covers where a ray meets the mesh.
pub open spec fn units_at<O: Arithmetic>(ops: &O, camera: CameraFrame, hit: RayHit) -> u32 {
    ops.spec_product(
        camera.world_units_per_point,
        scalar::greatest(
            ops.spec_quotient(hit.distance, scalar::greatest(camera.distance, SMALLEST_DISTANCE)),
            SMALLEST_DEPTH,
        ),
    )
}

fn units_per_point<O: Arithmetic>(ops: &O, camera: &CameraFrame, hit: &RayHit) -> (result: u32)
    requires
        ops.total(),
    ensures
        result == units_at(ops, *camera, *hit),
{
    let depth = scalar::max(
        ops.quotient(hit.distance, scalar::max(camera.distance, SMALLEST_DISTANCE)),
        SMALLEST_DEPTH,
    );
    ops.product(camera.world_units_per_point, depth)
}

/// How far a movement of the pointer goes in the world.
pub open spec fn spec_world_drag<O: Arithmetic>(
    ops: &O,
    camera: CameraFrame,
    delta: ScreenPoint,
    units: u32,
) -> Point {
    arithmetic::spec_minus(
        ops,
        arithmetic::spec_times(ops, arithmetic::spec_times(ops, camera.right, delta.x), units),
        arithmetic::spec_times(ops, arithmetic::spec_times(ops, camera.up, delta.y), units),
    )
}

fn world_drag<O: Arithmetic>(ops: &O, camera: &CameraFrame, delta: ScreenPoint, units: u32)
 -> (result: Point)
    requires
        ops.total(),
    ensures
        result == spec_world_drag(ops, *camera, delta, units),
{
    arithmetic::minus(
        ops,
        arithmetic::times(ops, arithmetic::times(ops, camera.right, delta.x), units),
        arithmetic::times(ops, arithmetic::times(ops, camera.up, delta.y), units),
    )
}

/// What a dab asks of the engine.
pub open spec fn request_of<O: Arithmetic>(
    ops: &O,
    input: SculptInput,
    delta: ScreenPoint,
    modifiers: Modifiers,
    kind: DabKind,
    pointer_hit: PointerHit,
) -> SampleRequest {
    let units = units_at(ops, input.camera, pointer_hit.hit);
    SampleRequest {
        tool: controls::tool_with(input.tool, modifiers),
        settings: BrushSettings {
            radius: ops.spec_product(input.radius_points, units),
            ..input.brush
        },
        sample: BrushSample {
            center: pointer_hit.hit.position,
            normal: pointer_hit.hit.normal,
            drag_delta: spec_world_drag(ops, input.camera, delta, units),
            view_direction: pointer_hit.view_direction,
            seed_triangle: pointer_hit.hit.triangle,
            pressure: controls::MOUSE_PRESSURE,
            invert_modifier: modifiers.ctrl,
        },
        dab_kind: kind,
    }
}

fn request_for<O: Arithmetic>(
    ops: &O,
    input: &SculptInput,
    delta: ScreenPoint,
    modifiers: Modifiers,
    kind: DabKind,
    pointer_hit: &PointerHit,
) -> (result: SampleRequest)
    requires
        ops.total(),
    ensures
        result == request_of(ops, *input, delta, modifiers, kind, *pointer_hit),
{
    let units = units_per_point(ops, &input.camera, &pointer_hit.hit);
    let mut settings = input.brush;
    settings.radius = ops.product(input.radius_points, units);
    let drag = world_drag(ops, &input.camera, delta, units);
    SampleRequest {
        tool: controls::effective_tool(input.tool, modifiers),
        settings,
        sample: BrushSample::from_hit(
            &pointer_hit.hit,
            drag,
            pointer_hit.view_direction,
            controls::MOUSE_PRESSURE,
            modifiers.ctrl,
        ),
        dab_kind: kind,
    }
}

/// Whether the engine took a sample, or left it where it is none to take.
pub open spec fn engine_took<O: Arithmetic, G: Geometry>(
    ops: &O,
    geometry: &G,
    mesh: Mesh,
    changed: Mesh,
    before: SculptEngine,
    after: SculptEngine,
    request: SampleRequest,
    result: bool,
) -> bool {
    if before.active is None || !sculpt::acceptable(mesh, request) {
        !result && changed == mesh && SculptEngine::cleared(before, after)
    } else {
        after.active is Some && sculpt::sampled(
            ops,
            geometry,
            mesh,
            changed,
            before,
            after,
            request,
            result,
        )
    }
}

impl Session {
    /// Where the pointer meets the mesh.
    pub open spec fn pointed_at<
        O: Arithmetic,
        T: Optics,
        G: Geometry,
        H: Fn(u32, u32) -> u32,
    >(
        self,
        tools: &Instruments<O, T, G, H>,
        pointer: ScreenPoint,
        camera: CameraFrame,
    ) -> Option<PointerHit> {
        match camera.spec_screen_ray(&tools.ops, &tools.optics, pointer) {
            None => None,
            Some(ray) => if self.has_mesh() {
                match query::hit_by(self.document->0.mesh->0, &tools.ops, ray.origin, ray.direction) {
                    Some(hit) => Some(PointerHit { hit, view_direction: ray.direction }),
                    None => None,
                }
            } else {
                None
            },
        }
    }

    pub fn hit_at<
        O: Arithmetic,
        T: Optics,
        G: Geometry,
        H: Fn(u32, u32) -> u32,
    >(
        &self,
        pointer: ScreenPoint,
        camera: &CameraFrame,
        tools: &Instruments<O, T, G, H>,
    ) -> (result: Option<PointerHit>)
        requires
            tools.total(),
            self.well_formed(),
        ensures
            result == self.pointed_at(tools, pointer, *camera),
    {
        let ray = match camera.screen_ray(pointer, &tools.ops, &tools.optics) {
            Some(ray) => ray,
            None => {
                return None;
            },
        };
        match &self.document {
            Some(document) => match &document.mesh {
                Some(mesh) => match mesh.raycast(ray.origin, ray.direction, &tools.ops) {
                    Some(hit) => Some(PointerHit { hit, view_direction: ray.direction }),
                    None => None,
                },
                None => None,
            },
            None => None,
        }
    }

    /// What a dab depends on now.
    pub open spec fn spec_sculpt_input(self, camera: CameraFrame) -> SculptInput {
        SculptInput {
            camera,
            tool: self.settings.tool,
            brush: BrushSettings {
                accumulation: self.stroke_build_up.spec_accumulation(),
                ..self.settings.brush
            },
            radius_points: self.settings.brush_radius_points,
        }
    }

    pub fn sculpt_input(&self, camera: CameraFrame) -> (result: SculptInput)
        ensures
            result == self.spec_sculpt_input(camera),
    {
        let mut brush = self.settings.brush;
        brush.accumulation = self.stroke_build_up.accumulation();
        SculptInput {
            camera,
            tool: self.settings.tool,
            brush,
            radius_points: self.settings.brush_radius_points,
        }
    }

    /// How far dabs lie apart, in points.
    pub open spec fn spec_brush_spacing<O: Arithmetic>(self, ops: &O) -> u32 {
        scalar::greatest(
            ops.spec_product(
                self.settings.brush_radius_points,
                controls::BRUSH_SPACING_RADIUS_FRACTION,
            ),
            scalar::ONE,
        )
    }

    pub fn brush_spacing<O: Arithmetic>(&self, ops: &O) -> (result: u32)
        requires
            ops.total(),
        ensures
            result == self.spec_brush_spacing(ops),
    {
        scalar::max(
            ops.product(
                self.settings.brush_radius_points,
                controls::BRUSH_SPACING_RADIUS_FRACTION,
            ),
            scalar::ONE,
        )
    }

    /// How many seconds lie between dabs in time.
    pub fn airbrush_seconds<O: Arithmetic>(&self, ops: &O) -> (result: u32)
        requires
            ops.total(),
        ensures
            result == ops.spec_quotient(
                scalar::ONE,
                scalar::clamped(
                    self.settings.airbrush_dabs_per_second,
                    controls::MIN_AIRBRUSH_DABS_PER_SECOND,
                    controls::MAX_AIRBRUSH_DABS_PER_SECOND,
                ),
            ),
    {
        ops.quotient(
            scalar::ONE,
            scalar::clamp(
                self.settings.airbrush_dabs_per_second,
                controls::MIN_AIRBRUSH_DABS_PER_SECOND,
                controls::MAX_AIRBRUSH_DABS_PER_SECOND,
            ),
        )
    }

    /// Whether what the engine did was taken up: the mesh counts as changed, its box is up to date,
    /// what is to be drawn anew is noted, and an error is shown.
    pub open spec fn consumed(self, after: Session, changed: bool, moved: bool) -> bool {
        let engine = self.sculpt;
        let marked = match self.document {
            Some(document) => Some(
                MeshDocument { dirty: document.dirty || engine.sample_committed, ..document },
            ),
            None => None,
        };
        &&& after.sculpt.active == engine.active
        &&& after.sculpt.symmetry_center == engine.symmetry_center
        &&& after.sculpt.traversal == engine.traversal
        &&& after.sculpt.updated_vertices@.len() == 0
        &&& after.sculpt.error is None
        &&& !after.sculpt.sample_committed
        &&& after.error == if engine.error is Some {
            engine.error
        } else {
            self.error
        }
        &&& if changed && moved {
            Session { document: marked, ..self }.box_updated(
                Session { document: after.document, ..self },
                engine.updated_vertices@,
            )
        } else {
            after.document == marked
        }
        &&& if changed {
            after.frame_render.is_queued(self.frame_render, engine.updated_vertices@, None)
        } else {
            after.frame_render == self.frame_render
        }
        &&& after == (Session {
            document: after.document,
            sculpt: after.sculpt,
            frame_render: after.frame_render,
            error: after.error,
            ..self
        })
    }

    /// Takes up what the engine did.
    pub fn consume_sculpt_step(&mut self, changed: bool, geometry_changed: bool)
        requires
            old(self).well_formed(),
        ensures
            final(self).well_formed(),
            old(self).consumed(*final(self), changed, geometry_changed),
    {
        let committed = self.sculpt.take_sample_committed();
        let updated_vertices = self.sculpt.take_updated_vertices();
        match self.sculpt.take_error() {
            Some(error) => {
                self.error = Some(error);
            },
            None => {},
        }
        if committed {
            self.mark_dirty();
        }
        if changed {
            if geometry_changed {
                self.update_document_bounds(&updated_vertices);
            }
            self.frame_render.queue(updated_vertices, None);
        }
    }

    fn mark_dirty(&mut self)
        requires
            old(self).well_formed(),
        ensures
            final(self).well_formed(),
            final(self).document == match old(self).document {
                Some(document) => Some(MeshDocument { dirty: true, ..document }),
                None => None,
            },
            *final(self) == (Session { document: final(self).document, ..*old(self) }),
    {
        match self.document.take() {
            Some(document) => {
                self.document = Some(
                    MeshDocument {
                        mesh: document.mesh,
                        bounds: document.bounds,
                        source_path: document.source_path,
                        dirty: true,
                    },
                );
            },
            None => {},
        }
    }

    /// Whether a sample was applied to the mesh.
    pub open spec fn sample_applied<
        O: Arithmetic,
        T: Optics,
        G: Geometry,
        H: Fn(u32, u32) -> u32,
    >(
        self,
        after: Session,
        tools: &Instruments<O, T, G, H>,
        request: SampleRequest,
        changed: bool,
    ) -> bool {
        &&& after.document matches Some(document) && {
            &&& document.mesh is Some
            &&& document == (MeshDocument { mesh: document.mesh, ..self.document->0 })
            &&& engine_took(
                &tools.ops,
                &tools.geometry,
                self.document->0.mesh->0,
                document.mesh->0,
                self.sculpt,
                after.sculpt,
                request,
                changed,
            )
        }
        &&& after == (Session { document: after.document, sculpt: after.sculpt, ..self })
    }

    /// Whether a dab was made and taken up.
    pub open spec fn dab_made<
        O: Arithmetic,
        T: Optics,
        G: Geometry,
        H: Fn(u32, u32) -> u32,
    >(
        self,
        between: Session,
        after: Session,
        tools: &Instruments<O, T, G, H>,
        request: SampleRequest,
        changed: bool,
    ) -> bool {
        &&& self.sample_applied(between, tools, request, changed)
        &&& between.consumed(after, changed, request.tool != SculptTool::Mask)
    }

    /// Whether a dab was made where the pointer meets the mesh, if it does.
    pub open spec fn dabbed<
        O: Arithmetic,
        T: Optics,
        G: Geometry,
        H: Fn(u32, u32) -> u32,
    >(
        self,
        after: Session,
        tools: &Instruments<O, T, G, H>,
        input: SculptInput,
        delta: ScreenPoint,
        modifiers: Modifiers,
        kind: DabKind,
        pointer_hit: Option<PointerHit>,
    ) -> bool {
        match pointer_hit {
            None => after == self,
            Some(hit) => if self.has_mesh() {
                exists|between: Session, changed: bool| #[trigger]
                    self.dab_made(
                        between,
                        after,
                        tools,
                        request_of(&tools.ops, input, delta, modifiers, kind, hit),
                        changed,
                    )
            } else {
                after == self
            },
        }
    }

    pub(crate) fn apply_pointer_sample<
        O: Arithmetic,
        T: Optics,
        G: Geometry,
        H: Fn(u32, u32) -> u32,
    >(
        &mut self,
        input: &SculptInput,
        delta: ScreenPoint,
        modifiers: Modifiers,
        kind: DabKind,
        pointer_hit: Option<PointerHit>,
        tools: &Instruments<O, T, G, H>,
    )
        requires
            tools.total(),
            old(self).well_formed(),
        ensures
            final(self).well_formed(),
            old(self).dabbed(*final(self), tools, *input, delta, modifiers, kind, pointer_hit),
    {
        let hit = match pointer_hit {
            Some(hit) => hit,
            None => {
                return;
            },
        };
        if !self.holds_mesh() {
            return;
        }
        let request = request_for(&tools.ops, input, delta, modifiers, kind, &hit);
        let changed = self.sculpt_mesh(&request, tools);
        let ghost between = *self;
        self.consume_sculpt_step(changed, request.tool != SculptTool::Mask);
        assert(old(self).dab_made(between, *self, tools, request, changed));
    }

    fn sculpt_mesh<
        O: Arithmetic,
        T: Optics,
        G: Geometry,
        H: Fn(u32, u32) -> u32,
    >(&mut self, request: &SampleRequest, tools: &Instruments<O, T, G, H>) -> (result: bool)
        requires
            tools.total(),
            old(self).well_formed(),
            old(self).has_mesh(),
        ensures
            final(self).well_formed(),
            old(self).sample_applied(*final(self), tools, *request, result),
    {
        match self.document.take() {
            Some(document) => match document.mesh {
                Some(mesh) => {
                    let mut mesh = mesh;
                    let changed = self.sculpt.apply_sample(
                        &mut mesh,
                        request.tool,
                        &request.settings,
                        request.sample,
                        request.dab_kind,
                        &tools.ops,
                        &tools.geometry,
                    );
                    self.document = Some(
                        MeshDocument {
                            mesh: Some(mesh),
                            bounds: document.bounds,
                            source_path: document.source_path,
                            dirty: document.dirty,
                        },
                    );
                    changed
                },
                None => false,
            },
            None => false,
        }
    }

    /// Whether Grab has taken hold where the pointer meets the mesh.
    pub open spec fn took_hold<
        O: Arithmetic,
        T: Optics,
        G: Geometry,
        H: Fn(u32, u32) -> u32,
    >(
        self,
        after: Session,
        tools: &Instruments<O, T, G, H>,
        input: SculptInput,
        modifiers: Modifiers,
        hit: PointerHit,
        result: bool,
    ) -> bool {
        let nowhere = ScreenPoint { x: scalar::ZERO, y: scalar::ZERO };
        let request = request_of(&tools.ops, input, nowhere, modifiers, DabKind::Spatial, hit);
        &&& after == (Session {
            sculpt: after.sculpt,
            grab_units_per_point: Some(units_at(&tools.ops, input.camera, hit.hit)),
            ..self
        })
        &&& after.sculpt.symmetry_center == self.sculpt.symmetry_center
        &&& after.sculpt.updated_vertices == self.sculpt.updated_vertices
        &&& after.sculpt.error == self.sculpt.error
        &&& after.sculpt.sample_committed == self.sculpt.sample_committed
        &&& if self.sculpt.active is None || !grab::can_hold(request.settings, request.sample) {
            !result && after.sculpt.active == self.sculpt.active
        } else {
            after.sculpt.active is Some && grab::anchored(
                &tools.ops,
                self.document->0.mesh->0,
                request.settings,
                request.sample,
                self.sculpt.active->0,
                after.sculpt.active->0,
                result,
            )
        }
    }

    pub(crate) fn take_hold<
        O: Arithmetic,
        T: Optics,
        G: Geometry,
        H: Fn(u32, u32) -> u32,
    >(
        &mut self,
        input: &SculptInput,
        modifiers: Modifiers,
        hit: &PointerHit,
        tools: &Instruments<O, T, G, H>,
    ) -> (result: bool)
        requires
            tools.total(),
            old(self).well_formed(),
            old(self).has_mesh(),
        ensures
            final(self).well_formed(),
            old(self).took_hold(*final(self), tools, *input, modifiers, *hit, result),
    {
        let nowhere = ScreenPoint { x: scalar::ZERO, y: scalar::ZERO };
        let request = request_for(
            &tools.ops,
            input,
            nowhere,
            modifiers,
            DabKind::Spatial,
            hit,
        );
        self.grab_units_per_point = Some(units_per_point(&tools.ops, &input.camera, &hit.hit));
        match &self.document {
            Some(document) => match &document.mesh {
                Some(mesh) => self.sculpt.anchor_grab(
                    mesh,
                    &request.settings,
                    request.sample,
                    &tools.ops,
                ),
                None => false,
            },
            None => false,
        }
    }

    /// Whether what Grab holds was moved along with the pointer.
    pub open spec fn hold_moved<
        O: Arithmetic,
        T: Optics,
        G: Geometry,
        H: Fn(u32, u32) -> u32,
    >(
        self,
        after: Session,
        tools: &Instruments<O, T, G, H>,
        drag: Point,
        changed: bool,
    ) -> bool {
        &&& after.document matches Some(document) && {
            &&& document.mesh is Some
            &&& document == (MeshDocument { mesh: document.mesh, ..self.document->0 })
            &&& after.sculpt.symmetry_center == self.sculpt.symmetry_center
            &&& if !drag.finite() || self.sculpt.active is None
                || self.sculpt.active->0.grab is None {
                !changed && document.mesh == self.document->0.mesh && SculptEngine::cleared(
                    self.sculpt,
                    after.sculpt,
                )
            } else {
                after.sculpt.active is Some && grab::grab_step(
                    &tools.ops,
                    &tools.geometry,
                    self.document->0.mesh->0,
                    document.mesh->0,
                    self.sculpt.active->0,
                    after.sculpt.active->0,
                    after.sculpt,
                    drag,
                    controls::MOUSE_PRESSURE,
                    changed,
                )
            }
        }
        &&& after == (Session { document: after.document, sculpt: after.sculpt, ..self })
    }

    fn move_hold<
        O: Arithmetic,
        T: Optics,
        G: Geometry,
        H: Fn(u32, u32) -> u32,
    >(
        &mut self,
        drag: Point,
        tools: &Instruments<O, T, G, H>,
    ) -> (result: bool)
        requires
            tools.total(),
            old(self).well_formed(),
            old(self).has_mesh(),
        ensures
            final(self).well_formed(),
            old(self).hold_moved(*final(self), tools, drag, result),
    {
        match self.document.take() {
            Some(document) => match document.mesh {
                Some(mesh) => {
                    let mut mesh = mesh;
                    let changed = self.sculpt.apply_grab_delta(
                        &mut mesh,
                        drag,
                        controls::MOUSE_PRESSURE,
                        &tools.ops,
                        &tools.geometry,
                    );
                    self.document = Some(
                        MeshDocument {
                            mesh: Some(mesh),
                            bounds: document.bounds,
                            source_path: document.source_path,
                            dirty: document.dirty,
                        },
                    );
                    changed
                },
                None => false,
            },
            None => false,
        }
    }

    /// Whether a drag of what Grab holds was made and taken up.
    pub open spec fn drag_made<
        O: Arithmetic,
        T: Optics,
        G: Geometry,
        H: Fn(u32, u32) -> u32,
    >(
        self,
        between: Session,
        after: Session,
        tools: &Instruments<O, T, G, H>,
        drag: Point,
        changed: bool,
    ) -> bool {
        self.hold_moved(between, tools, drag, changed) && between.consumed(after, changed, true)
    }

    /// Whether what Grab holds went along with a movement of the pointer, as far as it holds
    /// anything.
    pub open spec fn dragged<
        O: Arithmetic,
        T: Optics,
        G: Geometry,
        H: Fn(u32, u32) -> u32,
    >(
        self,
        after: Session,
        tools: &Instruments<O, T, G, H>,
        camera: CameraFrame,
        delta: ScreenPoint,
    ) -> bool {
        match self.grab_units_per_point {
            Some(units) => if self.has_mesh() {
                exists|between: Session, changed: bool| #[trigger]
                    self.drag_made(
                        between,
                        after,
                        tools,
                        spec_world_drag(&tools.ops, camera, delta, units),
                        changed,
                    )
            } else {
                after == self
            },
            None => after == self,
        }
    }

    pub(crate) fn drag_hold<
        O: Arithmetic,
        T: Optics,
        G: Geometry,
        H: Fn(u32, u32) -> u32,
    >(
        &mut self,
        camera: &CameraFrame,
        delta: ScreenPoint,
        tools: &Instruments<O, T, G, H>,
    )
        requires
            tools.total(),
            old(self).well_formed(),
        ensures
            final(self).well_formed(),
            old(self).dragged(*final(self), tools, *camera, delta),
    {
        let units = match self.grab_units_per_point {
            Some(units) => units,
            None => {
                return;
            },
        };
        if !self.holds_mesh() {
            return;
        }
        let drag = world_drag(&tools.ops, camera, delta, units);
        let changed = self.move_hold(drag, tools);
        let ghost between = *self;
        self.consume_sculpt_step(changed, true);
        assert(old(self).drag_made(between, *self, tools, drag, changed));
    }
}

} // verus!
