//! The course of a stroke, from the press of the button to its release.
use crate::arithmetic::Arithmetic;
use crate::brush::{DabKind, SculptTool};
use crate::camera::CameraFrame;
use crate::controls;
use crate::edit::LocalEdit;
use crate::geometry::Geometry;
use crate::history;
use crate::history::HistoryEntry;
use crate::input::{Modifiers, ScreenPoint};
use crate::optics::Optics;
use crate::painting::{Instruments, PointerHit};
use crate::recording;
use crate::scalar;
use crate::sculpt;
use crate::sculpt::StrokeOutcome;
use crate::session::{BuildUp, MeshDocument, SculptInput, Session};
use crate::stroke;
use crate::stroke::{StrokePoint, StrokeSampler, MAX_DABS_PER_FRAME};
use vstd::prelude::*;
use vstd::string::StringExecFns;

verus! {

/// What the pointer does in a frame.
#[derive(Clone, Copy, Debug, PartialEq, Eq, Structural)]
pub struct PointerState {
    pub position: Option<ScreenPoint>,
    pub primary_down: bool,
    pub stopped: bool,
    pub modifiers: Modifiers,
}

pub open spec fn nowhere() -> ScreenPoint {
    ScreenPoint { x: scalar::ZERO, y: scalar::ZERO }
}

impl Session {
    /// Whether a press begins a stroke.
    pub open spec fn may_begin<
        O: Arithmetic,
        T: Optics,
        G: Geometry,
        H: Fn(u32, u32) -> u32,
    >(
        self,
        tools: &Instruments<O, T, G, H>,
        position: Option<ScreenPoint>,
        camera: CameraFrame,
    ) -> bool {
        &&& !self.fly_captured
        &&& self.background_task is None
        &&& position is Some
        &&& self.pointed_at(tools, position->0, camera) is Some
    }

    /// Whether a stroke is under way with nothing done, and how its dabs build up is settled.
    pub open spec fn opened<O: Arithmetic>(
        self,
        after: Session,
        ops: &O,
        position: ScreenPoint,
        camera: CameraFrame,
        modifiers: Modifiers,
        now: u128,
    ) -> bool {
        let mesh = self.document->0.mesh->0;
        &&& after.stroke_build_up == self.settings.build_up.of(self.settings.tool)
        &&& after.grab_units_per_point is None
        &&& after.sculpt.symmetry_center == Some(
            match self.sculpt.symmetry_center {
                Some(center) => center,
                None => sculpt::middle_of(ops, mesh),
            },
        )
        &&& after.sculpt.active is Some
        &&& sculpt::fresh(after.sculpt.active->0, after.sculpt.symmetry_center->0)
        &&& sculpt::tracks(after.sculpt.active->0, mesh.positions@, mesh.mask@, mesh)
        &&& after.sculpt.updated_vertices@.len() == 0 && after.sculpt.error is None
        &&& !after.sculpt.sample_committed
        &&& after.stroke_sampler matches Some(sampler) && {
            &&& sampler.observed_pointer == (StrokePoint {
                position,
                modifiers,
                spacing: self.spec_brush_spacing(ops),
                context: after.spec_sculpt_input(camera),
            })
            &&& sampler.initial_dab == Some(sampler.observed_pointer)
            &&& sampler.path_pointer == position
            &&& sampler.pending_path@.len() == 0
            &&& sampler.distance_since_dab == scalar::ZERO
            &&& sampler.elapsed_since_dab == 0
            &&& sampler.last_advanced_at == now
            &&& !sampler.released
        }
        &&& after == (Session {
            stroke_build_up: after.stroke_build_up,
            grab_units_per_point: None,
            sculpt: after.sculpt,
            stroke_sampler: after.stroke_sampler,
            ..self
        })
    }

    /// Whether the first dab was made, or Grab has taken hold.
    pub open spec fn first_touch<
        O: Arithmetic,
        T: Optics,
        G: Geometry,
        H: Fn(u32, u32) -> u32,
    >(
        self,
        after: Session,
        tools: &Instruments<O, T, G, H>,
        camera: CameraFrame,
        modifiers: Modifiers,
        hit: PointerHit,
    ) -> bool {
        let input = self.spec_sculpt_input(camera);
        if controls::tool_with(self.settings.tool, modifiers) == SculptTool::Grab {
            exists|held: bool| #[trigger]
                self.took_hold(after, tools, input, modifiers, hit, held)
        } else {
            exists|taken: Session| #[trigger]
                self.initial_taken(taken) && taken.dabbed(
                    after,
                    tools,
                    input,
                    nowhere(),
                    modifiers,
                    DabKind::Spatial,
                    Some(hit),
                )
        }
    }

    /// Whether the first dab was taken off the path.
    pub open spec fn initial_taken(self, after: Session) -> bool {
        &&& self.stroke_sampler is Some && after.stroke_sampler is Some
        &&& after.stroke_sampler->0.initial_dab is None
        &&& after.stroke_sampler->0.same_but_initial(self.stroke_sampler->0)
        &&& after == (Session { stroke_sampler: after.stroke_sampler, ..self })
    }

    /// Begins a stroke where the pointer meets the mesh, with a dab there or a hold.
    pub fn begin_stroke<
        O: Arithmetic,
        T: Optics,
        G: Geometry,
        H: Fn(u32, u32) -> u32,
    >(
        &mut self,
        position: Option<ScreenPoint>,
        camera: CameraFrame,
        modifiers: Modifiers,
        now: u128,
        tools: &Instruments<O, T, G, H>,
    ) -> (result: bool)
        requires
            tools.total(),
            old(self).well_formed(),
        ensures
            final(self).well_formed(),
            result == old(self).may_begin(tools, position, camera),
            !result ==> *final(self) == *old(self),
            result ==> exists|opened: Session| #[trigger]
                old(self).opened(opened, &tools.ops, position->0, camera, modifiers, now)
                    && opened.first_touch(
                    *final(self),
                    tools,
                    camera,
                    modifiers,
                    old(self).pointed_at(tools, position->0, camera)->0,
                ),
    {
        if !controls::sculpting_allowed(self.fly_captured) || self.background_task.is_some() {
            return false;
        }
        let position = match position {
            Some(position) => position,
            None => {
                return false;
            },
        };
        let hit = match self.hit_at(position, &camera, tools) {
            Some(hit) => hit,
            None => {
                return false;
            },
        };
        match &self.document {
            Some(document) => match &document.mesh {
                Some(mesh) => {
                    self.sculpt.begin_stroke(mesh, &tools.ops);
                },
                None => {
                    return false;
                },
            },
            None => {
                return false;
            },
        }
        self.stroke_build_up = self.settings.build_up.get(self.settings.tool);
        self.grab_units_per_point = None;
        let input = self.sculpt_input(camera);
        let spacing = self.brush_spacing(&tools.ops);
        self.stroke_sampler = Some(
            StrokeSampler::begin(position, modifiers, spacing, input, now),
        );
        let ghost opened = *self;
        assert(old(self).opened(opened, &tools.ops, position, camera, modifiers, now));
        if controls::effective_tool(input.tool, modifiers) == SculptTool::Grab {
            let held = self.take_hold(&input, modifiers, &hit, tools);
            assert(opened.took_hold(*self, tools, input, modifiers, hit, held));
        } else {
            let mut sampler = self.stroke_sampler.take();
            if let Some(sampler) = &mut sampler {
                let initial_dab = sampler.take_initial_dab();
            }
            self.stroke_sampler = sampler;
            let ghost taken = *self;
            assert(opened.initial_taken(taken));
            let still = ScreenPoint { x: scalar::ZERO, y: scalar::ZERO };
            self.apply_pointer_sample(
                &input,
                still,
                modifiers,
                DabKind::Spatial,
                Some(hit),
                tools,
            );
        }
        true
    }

    /// Lets time pass for the stroke.
    pub fn advance_stroke(&mut self, now: u128)
        requires
            old(self).well_formed(),
            now <= stroke::LONGEST,
        ensures
            final(self).well_formed(),
            *final(self) == (Session {
                stroke_sampler: final(self).stroke_sampler,
                ..*old(self)
            }),
            match old(self).stroke_sampler {
                None => final(self).stroke_sampler is None,
                Some(before) => final(self).stroke_sampler == Some(
                    StrokeSampler {
                        elapsed_since_dab: final(self).stroke_sampler->0.elapsed_since_dab,
                        last_advanced_at: now,
                        ..before
                    },
                ) && final(self).stroke_sampler->0.elapsed_since_dab == stroke::longer(
                    before.elapsed_since_dab,
                    if now > before.last_advanced_at {
                        now - before.last_advanced_at
                    } else {
                        0
                    },
                ),
            },
    {
        match self.stroke_sampler.take() {
            Some(sampler) => {
                let mut sampler = sampler;
                sampler.advance_to(now);
                self.stroke_sampler = Some(sampler);
            },
            None => {},
        }
    }

    /// How far the pointer has moved, squared.
    pub open spec fn squared<O: Arithmetic>(ops: &O, delta: ScreenPoint) -> u32 {
        ops.spec_sum(ops.spec_product(delta.x, delta.x), ops.spec_product(delta.y, delta.y))
    }

    /// Whether Grab has followed the pointer.
    pub open spec fn grab_followed<
        O: Arithmetic,
        T: Optics,
        G: Geometry,
        H: Fn(u32, u32) -> u32,
    >(
        self,
        taken: Session,
        dragged: Session,
        after: Session,
        tools: &Instruments<O, T, G, H>,
        position: ScreenPoint,
        camera: CameraFrame,
        movement: Option<ScreenPoint>,
    ) -> bool {
        &&& taken.stroke_sampler is Some
        &&& self.stroke_sampler->0.gave_movement(
            taken.stroke_sampler->0,
            &tools.ops,
            position,
            movement,
        )
        &&& taken == (Session { stroke_sampler: taken.stroke_sampler, ..self })
        &&& if movement matches Some(delta) && scalar::lt(
            scalar::EPSILON,
            Session::squared(&tools.ops, delta),
        ) {
            &&& taken.dragged(dragged, tools, camera, movement->0)
            &&& after == (Session {
                stroke_sampler: match dragged.stroke_sampler {
                    Some(sampler) => Some(StrokeSampler { elapsed_since_dab: 0, ..sampler }),
                    None => None,
                },
                ..dragged
            })
        } else {
            dragged == taken && after == taken
        }
    }

    /// Whether the pointer was followed: by Grab at once, else by the path.
    pub open spec fn followed<
        O: Arithmetic,
        T: Optics,
        G: Geometry,
        H: Fn(u32, u32) -> u32,
    >(
        self,
        after: Session,
        tools: &Instruments<O, T, G, H>,
        pointer: PointerState,
        camera: CameraFrame,
    ) -> bool {
        if !(pointer.primary_down || pointer.stopped) || pointer.position is None
            || self.stroke_sampler is None {
            after == self
        } else if controls::tool_with(self.settings.tool, pointer.modifiers) == SculptTool::Grab {
            exists|taken: Session, dragged: Session, movement: Option<ScreenPoint>| #[trigger]
                self.grab_followed(
                    taken,
                    dragged,
                    after,
                    tools,
                    pointer.position->0,
                    camera,
                    movement,
                )
        } else {
            &&& after.stroke_sampler is Some
            &&& self.stroke_sampler->0.went_on(
                after.stroke_sampler->0,
                StrokePoint {
                    position: pointer.position->0,
                    modifiers: pointer.modifiers,
                    spacing: self.spec_brush_spacing(&tools.ops),
                    context: self.spec_sculpt_input(camera),
                },
            )
            &&& after == (Session { stroke_sampler: after.stroke_sampler, ..self })
        }
    }

    fn follow<
        O: Arithmetic,
        T: Optics,
        G: Geometry,
        H: Fn(u32, u32) -> u32,
    >(
        &mut self,
        pointer: PointerState,
        camera: CameraFrame,
        tools: &Instruments<O, T, G, H>,
    )
        requires
            tools.total(),
            old(self).well_formed(),
        ensures
            final(self).well_formed(),
            old(self).followed(*final(self), tools, pointer, camera),
    {
        if !pointer.primary_down && !pointer.stopped {
            return;
        }
        let position = match pointer.position {
            Some(position) => position,
            None => {
                return;
            },
        };
        let ghost begun = *self;
        let mut sampler = match self.stroke_sampler.take() {
            Some(sampler) => sampler,
            None => {
                return;
            },
        };
        if controls::effective_tool(self.settings.tool, pointer.modifiers) == SculptTool::Grab {
            let movement = sampler.consume_grab_delta(position, &tools.ops);
            self.stroke_sampler = Some(sampler);
            let ghost taken = *self;
            if let Some(delta) = movement {
                let squared = tools.ops.sum(
                    tools.ops.product(delta.x, delta.x),
                    tools.ops.product(delta.y, delta.y),
                );
                if scalar::is_less(scalar::EPSILON, squared) {
                    self.drag_hold(&camera, delta, tools);
                    let ghost dragged = *self;
                    self.restart_clock();
                    assert(begun.grab_followed(
                        taken,
                        dragged,
                        *self,
                        tools,
                        position,
                        camera,
                        movement,
                    ));
                    return;
                }
            }
            assert(begun.grab_followed(taken, taken, *self, tools, position, camera, movement));
        } else {
            self.stroke_sampler = None;
            let input = self.sculpt_input(camera);
            let spacing = self.brush_spacing(&tools.ops);
            sampler.enqueue_pointer(position, pointer.modifiers, spacing, input);
            self.stroke_sampler = Some(sampler);
        }
    }

    fn restart_clock(&mut self)
        requires
            old(self).well_formed(),
        ensures
            final(self).well_formed(),
            *final(self) == (Session {
                stroke_sampler: match old(self).stroke_sampler {
                    Some(sampler) => Some(StrokeSampler { elapsed_since_dab: 0, ..sampler }),
                    None => None,
                },
                ..*old(self)
            }),
    {
        match self.stroke_sampler.take() {
            Some(sampler) => {
                let mut sampler = sampler;
                sampler.record_spatial_dab();
                self.stroke_sampler = Some(sampler);
            },
            None => {},
        }
    }

    /// Whether the path was followed to the next dab.
    pub open spec fn walked_to<
        O: Arithmetic,
        T: Optics,
        G: Geometry,
        H: Fn(u32, u32) -> u32,
    >(
        self,
        after: Session,
        tools: &Instruments<O, T, G, H>,
        dab: Option<StrokePoint<SculptInput>>,
    ) -> bool {
        match self.stroke_sampler {
            None => dab is None && after == self,
            Some(sampler) => {
                &&& after.stroke_sampler is Some
                &&& sampler.walked_on(after.stroke_sampler->0, &tools.ops, tools.hypot, dab)
                &&& after == (Session { stroke_sampler: after.stroke_sampler, ..self })
            },
        }
    }

    /// Whether the next dab on the path was made.
    pub open spec fn next_made<
        O: Arithmetic,
        T: Optics,
        G: Geometry,
        H: Fn(u32, u32) -> u32,
    >(
        self,
        walked: Session,
        after: Session,
        tools: &Instruments<O, T, G, H>,
        dab: StrokePoint<SculptInput>,
    ) -> bool {
        &&& self.walked_to(walked, tools, Some(dab))
        &&& walked.dabbed(
            after,
            tools,
            dab.context,
            nowhere(),
            dab.modifiers,
            DabKind::Spatial,
            walked.pointed_at(tools, dab.position, dab.context.camera),
        )
    }

    /// Whether so many dabs on the path were made, one after the other.
    pub open spec fn dabs_made<
        O: Arithmetic,
        T: Optics,
        G: Geometry,
        H: Fn(u32, u32) -> u32,
    >(
        self,
        after: Session,
        tools: &Instruments<O, T, G, H>,
        count: nat,
    ) -> bool
        decreases count,
    {
        if count == 0 {
            after == self
        } else {
            exists|before: Session, walked: Session, dab: StrokePoint<SculptInput>|
                self.dabs_made(before, tools, (count - 1) as nat) && #[trigger] before.next_made(
                    walked,
                    after,
                    tools,
                    dab,
                )
        }
    }

    /// Makes the next dab on the path, if one is due.
    fn make_next_dab<
        O: Arithmetic,
        T: Optics,
        G: Geometry,
        H: Fn(u32, u32) -> u32,
    >(&mut self, tools: &Instruments<O, T, G, H>) -> (result: bool)
        requires
            tools.total(),
            old(self).well_formed(),
        ensures
            final(self).well_formed(),
            result ==> exists|walked: Session, dab: StrokePoint<SculptInput>| #[trigger]
                old(self).next_made(walked, *final(self), tools, dab),
            !result ==> old(self).walked_to(*final(self), tools, None),
    {
        let mut sampler = match self.stroke_sampler.take() {
            Some(sampler) => sampler,
            None => {
                return false;
            },
        };
        let dab = sampler.next_spatial_dab(&tools.ops, &tools.hypot);
        self.stroke_sampler = Some(sampler);
        let dab = match dab {
            Some(dab) => dab,
            None => {
                return false;
            },
        };
        let ghost walked = *self;
        assert(old(self).walked_to(walked, tools, Some(dab)));
        let hit = self.hit_at(dab.position, &dab.context.camera, tools);
        let still = ScreenPoint { x: scalar::ZERO, y: scalar::ZERO };
        self.apply_pointer_sample(
            &dab.context,
            still,
            dab.modifiers,
            DabKind::Spatial,
            hit,
            tools,
        );
        assert(old(self).next_made(walked, *self, tools, dab));
        true
    }

    /// Whether dabs on the path were made as long as some were due and time was left, no more than
    /// a frame allows. The first that is due is made whatever time is left.
    pub open spec fn spatial_dabs_made<
        O: Arithmetic,
        T: Optics,
        G: Geometry,
        H: Fn(u32, u32) -> u32,
        X: Fn() -> bool,
    >(
        self,
        made: Session,
        walked: Session,
        after: Session,
        tools: &Instruments<O, T, G, H>,
        expired: X,
        count: nat,
    ) -> bool {
        &&& self.dabs_made(made, tools, count)
        &&& count <= MAX_DABS_PER_FRAME
        &&& walked == made || made.walked_to(walked, tools, None)
        &&& count == 0 ==> made.walked_to(walked, tools, None)
        &&& count < MAX_DABS_PER_FRAME ==> made.walked_to(walked, tools, None) || expired.ensures(
            (),
            true,
        )
        &&& after == if count > 0 {
            Session {
                stroke_sampler: match walked.stroke_sampler {
                    Some(sampler) => Some(StrokeSampler { elapsed_since_dab: 0, ..sampler }),
                    None => None,
                },
                ..walked
            }
        } else {
            walked
        }
    }

    /// Makes the dabs that are due on the path, until `expired` tells that the time for them is
    /// over. At least one is made where any is due.
    pub fn apply_spatial_dabs<
        O: Arithmetic,
        T: Optics,
        G: Geometry,
        H: Fn(u32, u32) -> u32,
        X: Fn() -> bool,
    >(
        &mut self,
        expired: &X,
        tools: &Instruments<O, T, G, H>,
    )
        requires
            tools.total(),
            expired.requires(()),
            old(self).well_formed(),
        ensures
            final(self).well_formed(),
            exists|made: Session, walked: Session, count: nat| #[trigger]
                old(self).spatial_dabs_made(
                    made,
                    walked,
                    *final(self),
                    tools,
                    *expired,
                    count,
                ),
    {
        let ghost begun = *self;
        let mut processed: usize = 0;
        while processed < MAX_DABS_PER_FRAME
            invariant
                processed <= MAX_DABS_PER_FRAME,
                tools.total(),
                expired.requires(()),
                self.well_formed(),
                begun == *old(self),
                begun.dabs_made(*self, tools, processed as nat),
            decreases MAX_DABS_PER_FRAME - processed,
        {
            let ghost before = *self;
            if !self.make_next_dab(tools) {
                let ghost walked = *self;
                if processed > 0 {
                    self.restart_clock();
                }
                assert(begun.spatial_dabs_made(
                    before,
                    walked,
                    *self,
                    tools,
                    *expired,
                    processed as nat,
                ));
                return;
            }
            processed += 1;
            proof {
                let (walked, dab) = choose|walked: Session, dab: StrokePoint<SculptInput>|
                    #[trigger] before.next_made(walked, *self, tools, dab);
                assert(before.next_made(walked, *self, tools, dab));
                assert(begun.dabs_made(before, tools, (processed - 1) as nat));
            }
            if expired() {
                let ghost made = *self;
                self.restart_clock();
                assert(begun.spatial_dabs_made(
                    made,
                    made,
                    *self,
                    tools,
                    *expired,
                    processed as nat,
                ));
                return;
            }
        }
        let ghost made = *self;
        self.restart_clock();
        assert(begun.spatial_dabs_made(made, made, *self, tools, *expired, processed as nat));
    }

    /// Whether a dab is due because of the time that has passed.
    pub open spec fn timed_dab_due(self, interval: u128) -> bool {
        &&& self.stroke_build_up is Airbrush
        &&& self.settings.tool != SculptTool::Grab
        &&& self.stroke_sampler matches Some(sampler) && !sampler.released
            && sampler.elapsed_since_dab >= interval
    }

    /// Whether a dab that is due in time was made where the pointer is.
    pub open spec fn timed_dab_made<
        O: Arithmetic,
        T: Optics,
        G: Geometry,
        H: Fn(u32, u32) -> u32,
    >(
        self,
        dabbed: Session,
        after: Session,
        tools: &Instruments<O, T, G, H>,
    ) -> bool {
        let pointer = self.stroke_sampler->0.observed_pointer;
        &&& self.dabbed(
            dabbed,
            tools,
            pointer.context,
            nowhere(),
            pointer.modifiers,
            DabKind::Timed,
            self.pointed_at(tools, pointer.position, pointer.context.camera),
        )
        &&& after == (Session {
            stroke_sampler: match dabbed.stroke_sampler {
                Some(sampler) => Some(
                    StrokeSampler {
                        elapsed_since_dab: 0,
                        distance_since_dab: scalar::ZERO,
                        ..sampler
                    },
                ),
                None => None,
            },
            ..dabbed
        })
    }

    /// Makes a dab that is due in time, in an airbrush stroke.
    pub fn apply_airbrush_dab<
        O: Arithmetic,
        T: Optics,
        G: Geometry,
        H: Fn(u32, u32) -> u32,
    >(
        &mut self,
        interval: u128,
        tools: &Instruments<O, T, G, H>,
    )
        requires
            tools.total(),
            old(self).well_formed(),
        ensures
            final(self).well_formed(),
            !old(self).timed_dab_due(interval) ==> *final(self) == *old(self),
            old(self).timed_dab_due(interval) ==> exists|dabbed: Session| #[trigger]
                old(self).timed_dab_made(dabbed, *final(self), tools),
    {
        if self.stroke_build_up != BuildUp::Airbrush || self.settings.tool == SculptTool::Grab {
            return;
        }
        let dab = match &self.stroke_sampler {
            Some(sampler) => if !sampler.is_released() && sampler.airbrush_due(interval) {
                sampler.pointer()
            } else {
                return;
            },
            None => {
                return;
            },
        };
        let hit = self.hit_at(dab.position, &dab.context.camera, tools);
        let still = ScreenPoint { x: scalar::ZERO, y: scalar::ZERO };
        self.apply_pointer_sample(
            &dab.context,
            still,
            dab.modifiers,
            DabKind::Timed,
            hit,
            tools,
        );
        let ghost dabbed = *self;
        match self.stroke_sampler.take() {
            Some(sampler) => {
                let mut sampler = sampler;
                sampler.record_airbrush_dab();
                self.stroke_sampler = Some(sampler);
            },
            None => {},
        }
        assert(old(self).timed_dab_made(dabbed, *self, tools));
    }

    /// What is said of a stroke.
    pub open spec fn stroke_text(
        tool: SculptTool,
        saved: bool,
        warning: Option<String>,
    ) -> Seq<char> {
        match warning {
            Some(warning) => warning@,
            None => if saved {
                tool.spec_label() + " stroke"@
            } else {
                tool.spec_label() + " stroke (undo memory limit reached)"@
            },
        }
    }

    /// Whether what a stroke did is one step that can be undone.
    pub open spec fn stroke_recorded(
        self,
        after: Session,
        outcome: StrokeOutcome,
        saved: bool,
    ) -> bool {
        let entry = HistoryEntry::Local(outcome.edit);
        if outcome.edit.spec_is_empty() {
            &&& after.history == self.history
            &&& after.document == self.document
            &&& match outcome.warning {
                Some(warning) => after.status@ == warning@,
                None => after.status == self.status,
            }
        } else {
            &&& after.history.same_terms(self.history)
            &&& after.history.outstanding() == self.history.outstanding()
            &&& saved == (self.history.outstanding() is None && entry.bytes()
                <= self.history.budget())
            &&& saved ==> history::newest_within(
                self.history.undoable().push(entry),
                self.history.budget(),
                after.history.undoable(),
            )
            &&& !saved ==> after.history.undoable() == self.history.undoable()
            &&& self.history.outstanding() is None ==> after.history.redoable() == Seq::<
                HistoryEntry,
            >::empty()
            &&& after.document == match self.document {
                Some(document) => Some(MeshDocument { dirty: true, ..document }),
                None => None,
            }
            &&& after.status@ == Session::stroke_text(self.settings.tool, saved, outcome.warning)
        }
    }

    /// Whether a stroke is over: the engine has ended it, and what it did can be undone.
    pub open spec fn stroke_ended(
        self,
        ended: Session,
        recorded: Session,
        after: Session,
        outcome: StrokeOutcome,
        saved: bool,
    ) -> bool {
        &&& ended == (Session { sculpt: ended.sculpt, ..self })
        &&& if self.has_mesh() {
            &&& ended.sculpt.active is None
            &&& ended.sculpt.symmetry_center == self.sculpt.symmetry_center
            &&& ended.sculpt.updated_vertices == self.sculpt.updated_vertices
            &&& ended.sculpt.error == self.sculpt.error
            &&& ended.sculpt.sample_committed == self.sculpt.sample_committed
            &&& match self.sculpt.active {
                None => outcome.edit.spec_is_empty() && outcome.warning is None,
                Some(stroke) => recording::records(
                    stroke,
                    self.document->0.mesh->0,
                    outcome.edit,
                ) && outcome.warning == stroke.warning,
            }
        } else {
            ended == self && outcome.edit.spec_is_empty() && outcome.warning is None
        }
        &&& ended.stroke_recorded(recorded, outcome, saved)
        &&& recorded == (Session {
            history: recorded.history,
            document: recorded.document,
            status: recorded.status,
            ..ended
        })
        &&& {
            let inexact = recorded.document matches Some(document) && document.bounds matches Some(
                found,
            ) && !found.exact;
            let done = Session { document: after.document, ..recorded };
            &&& if inexact {
                recorded.box_renewed(done)
            } else {
                done == recorded
            }
            &&& after == (Session {
                stroke_sampler: None,
                grab_units_per_point: None,
                ..done
            })
        }
    }

    /// Ends the stroke.
    pub fn finish_pointer_stroke(&mut self)
        requires
            old(self).well_formed(),
        ensures
            final(self).well_formed(),
            exists|ended: Session, recorded: Session, outcome: StrokeOutcome, saved: bool|
                #[trigger] old(self).stroke_ended(
                    ended,
                    recorded,
                    *final(self),
                    outcome,
                    saved,
                ),
    {
        let outcome = match &self.document {
            Some(document) => match &document.mesh {
                Some(mesh) => self.sculpt.end_stroke(mesh),
                None => no_outcome(),
            },
            None => no_outcome(),
        };
        let ghost ended = *self;
        let ghost came = outcome;
        let saved = self.record_stroke(outcome);
        let ghost recorded = *self;
        let inexact = match &self.document {
            Some(document) => match &document.bounds {
                Some(found) => !found.exact,
                None => false,
            },
            None => false,
        };
        if inexact {
            self.refresh_document_bounds();
        }
        self.stroke_sampler = None;
        self.grab_units_per_point = None;
        assert(old(self).stroke_ended(ended, recorded, *self, came, saved));
    }

    fn record_stroke(&mut self, outcome: StrokeOutcome) -> (result: bool)
        requires
            old(self).well_formed(),
        ensures
            final(self).well_formed(),
            old(self).stroke_recorded(*final(self), outcome, result),
            *final(self) == (Session {
                history: final(self).history,
                document: final(self).document,
                status: final(self).status,
                ..*old(self)
            }),
    {
        let mut saved = false;
        if !outcome.edit.is_empty() {
            match self.document.take() {
                Some(document) => {
                    self.document = Some(
                        MeshDocument {
                            mesh: document.mesh,
                            bounds: document.bounds,
                            source_path: document.source_path,
                            dirty: true,
                        },
                    );
                },
                None => {},
            }
            saved = self.history.record(HistoryEntry::Local(outcome.edit));
            let mut status = self.settings.tool.label().to_owned();
            if saved {
                status.append(" stroke");
            } else {
                status.append(" stroke (undo memory limit reached)");
            }
            self.status = status;
        }
        match outcome.warning {
            Some(warning) => {
                self.status = warning;
            },
            None => {},
        }
        saved
    }
}

impl Session {
    /// The session with the button up, where it is.
    pub open spec fn let_go(self, stopped: bool) -> Session {
        match self.stroke_sampler {
            Some(sampler) => if stopped {
                Session {
                    stroke_sampler: Some(StrokeSampler { released: true, ..sampler }),
                    ..self
                }
            } else {
                self
            },
            None => self,
        }
    }

    /// Whether the stroke has nothing more to do.
    pub open spec fn stroke_is_done(self) -> bool {
        self.stroke_sampler matches Some(sampler) && sampler.released && sampler.pending_path@.len()
            == 0
    }

    /// Whether a frame of a stroke was gone through: the pointer followed, the dabs on the path made
    /// and then one that is due in time, and the stroke ended where the button is up and the path
    /// at its end.
    pub open spec fn frame_passed<
        O: Arithmetic,
        T: Optics,
        G: Geometry,
        H: Fn(u32, u32) -> u32,
        X: Fn() -> bool,
    >(
        self,
        followed: Session,
        dabbed: Session,
        timed: Session,
        after: Session,
        tools: &Instruments<O, T, G, H>,
        pointer: PointerState,
        camera: CameraFrame,
        interval: u128,
        expired: X,
    ) -> bool {
        &&& self.followed(followed, tools, pointer, camera)
        &&& exists|made: Session, walked: Session, count: nat| #[trigger]
            followed.let_go(pointer.stopped).spatial_dabs_made(
                made,
                walked,
                dabbed,
                tools,
                expired,
                count,
            )
        &&& if controls::tool_with(self.settings.tool, pointer.modifiers) != SculptTool::Grab
            && dabbed.timed_dab_due(interval) {
            exists|touched: Session| #[trigger] dabbed.timed_dab_made(touched, timed, tools)
        } else {
            timed == dabbed
        }
        &&& if timed.stroke_is_done() {
            exists|ended: Session, recorded: Session, outcome: StrokeOutcome, saved: bool|
                #[trigger] timed.stroke_ended(ended, recorded, after, outcome, saved)
        } else {
            after == timed
        }
    }

    /// Goes on with the stroke for a frame.
    pub fn continue_stroke<
        O: Arithmetic,
        T: Optics,
        G: Geometry,
        H: Fn(u32, u32) -> u32,
        X: Fn() -> bool,
    >(
        &mut self,
        pointer: PointerState,
        camera: CameraFrame,
        interval: u128,
        expired: &X,
        tools: &Instruments<O, T, G, H>,
    )
        requires
            tools.total(),
            expired.requires(()),
            old(self).well_formed(),
        ensures
            final(self).well_formed(),
            if old(self).fly_captured || old(self).sculpt.active is None {
                *final(self) == *old(self)
            } else {
                exists|followed: Session, dabbed: Session, timed: Session| #[trigger]
                    old(self).frame_passed(
                        followed,
                        dabbed,
                        timed,
                        *final(self),
                        tools,
                        pointer,
                        camera,
                        interval,
                        *expired,
                    )
            },
    {
        if !controls::sculpting_allowed(self.fly_captured) || !self.sculpt.is_stroking() {
            return;
        }
        let grabs = controls::effective_tool(self.settings.tool, pointer.modifiers)
            == SculptTool::Grab;
        self.follow(pointer, camera, tools);
        let ghost followed = *self;
        if pointer.stopped {
            match self.stroke_sampler.take() {
                Some(sampler) => {
                    let mut sampler = sampler;
                    sampler.release();
                    self.stroke_sampler = Some(sampler);
                },
                None => {},
            }
        }
        assert(*self == followed.let_go(pointer.stopped));
        self.apply_spatial_dabs(expired, tools);
        let ghost dabbed = *self;
        if !grabs {
            self.apply_airbrush_dab(interval, tools);
        }
        let ghost timed = *self;
        let done = match &self.stroke_sampler {
            Some(sampler) => sampler.is_released() && !sampler.has_pending_path(),
            None => false,
        };
        if done {
            self.finish_pointer_stroke();
        }
        assert(old(self).frame_passed(
            followed,
            dabbed,
            timed,
            *self,
            tools,
            pointer,
            camera,
            interval,
            *expired,
        ));
    }

    /// When the stroke has to go on, in nanoseconds from now.
    pub open spec fn stroke_wait(self, interval: u128) -> Option<int> {
        match self.stroke_sampler {
            None => None,
            Some(sampler) => if sampler.pending_path@.len() > 0 {
                Some(0)
            } else if self.stroke_build_up is Airbrush && self.settings.tool != SculptTool::Grab
                && !sampler.released {
                Some(
                    if interval > sampler.elapsed_since_dab {
                        interval - sampler.elapsed_since_dab
                    } else {
                        0
                    },
                )
            } else {
                None
            },
        }
    }

    /// When there is something to do next without the user, in nanoseconds from now.
    pub open spec fn spec_next_frame(self, interval: u128) -> Option<int> {
        let stroke = self.stroke_wait(interval);
        if self.fly_captured {
            Some(0)
        } else if self.background_task is Some {
            Some(
                if stroke is Some && stroke->0 < POLL_INTERVAL {
                    stroke->0
                } else {
                    POLL_INTERVAL as int
                },
            )
        } else {
            stroke
        }
    }

    pub fn next_frame(&self, interval: u128) -> (result: Option<u128>)
        ensures
            match (result, self.spec_next_frame(interval)) {
                (Some(wait), Some(due)) => wait == due,
                (None, None) => true,
                _ => false,
            },
    {
        let stroke = match &self.stroke_sampler {
            None => None,
            Some(sampler) => if sampler.has_pending_path() {
                Some(0u128)
            } else if self.stroke_build_up == BuildUp::Airbrush && self.settings.tool
                != SculptTool::Grab && !sampler.is_released() {
                Some(sampler.airbrush_wait(interval))
            } else {
                None
            },
        };
        if self.fly_captured {
            return Some(0u128);
        }
        if self.background_task.is_some() {
            return match stroke {
                Some(wait) => if wait < POLL_INTERVAL {
                    Some(wait)
                } else {
                    Some(POLL_INTERVAL)
                },
                None => Some(POLL_INTERVAL),
            };
        }
        stroke
    }
}

/// A tenth of a second, after which the worker is looked after.
pub const POLL_INTERVAL: u128 = 100_000_000;

/// A dab leaves alone what it does not concern: the history, the file, the settings, the camera and
/// what the worker does.
pub proof fn dabs_change_the_mesh_only<
    O: Arithmetic,
    T: Optics,
    G: Geometry,
    H: Fn(u32, u32) -> u32,
>(
    before: Session,
    after: Session,
    tools: &Instruments<O, T, G, H>,
    input: SculptInput,
    delta: ScreenPoint,
    modifiers: Modifiers,
    kind: DabKind,
    hit: Option<PointerHit>,
)
    requires
        before.dabbed(after, tools, input, delta, modifiers, kind, hit),
    ensures
        after.history == before.history,
        after.settings == before.settings,
        after.camera == before.camera,
        after.stroke_sampler == before.stroke_sampler,
        after.background_task == before.background_task,
        after.pending_action == before.pending_action,
        after.document is Some <==> before.document is Some,
        after.document matches Some(document) ==> document.source_path
            == before.document->0.source_path,
{
}

fn no_outcome() -> (result: StrokeOutcome)
    ensures
        result.edit.spec_is_empty(),
        result.warning is None,
{
    StrokeOutcome {
        edit: LocalEdit { positions: Vec::new(), masks: Vec::new() },
        warning: None,
    }
}

} // verus!
