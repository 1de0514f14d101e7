//! What the pointer does to the view, and what is shown over it.
use crate::arithmetic::Arithmetic;
use crate::camera::{Camera, CameraMode, FlyMovement, ScreenRect};
use crate::controls;
use crate::controls::{Color, FlyKeyState, MouseWheelUnit, NavigationAction, PointerButton};
use crate::input::{Modifiers, ScreenPoint};
use crate::optics::Optics;
use crate::scalar;
use crate::session::Session;
use vstd::prelude::*;
use vstd::string::StringExecFns;

verus! {

/// What the pointer and the wheel do to the orbit in a frame.
#[derive(Clone, Copy, Debug, PartialEq, Eq, Structural)]
pub struct OrbitInput {
    pub dragged_secondary: bool,
    pub dragged_middle: bool,
    pub pointer_delta: ScreenPoint,
    pub viewport_height: u32,
    pub hovered: bool,
    pub scroll: u32,
}

/// What the mouse, the keys and the wheel do to the flight in a frame.
#[derive(Debug)]
pub struct FlyInput {
    pub raw_motion: Option<ScreenPoint>,
    pub pointer_delta: ScreenPoint,
    pub pixels_per_point: u32,
    pub keys: FlyKeyState,
    pub boosted: bool,
    pub wheel: Vec<(MouseWheelUnit, u32)>,
    pub viewport_height: u32,
    pub delta_seconds: u32,
}

/// What the buttons that drag do.
pub open spec fn navigation_of(input: OrbitInput) -> Option<NavigationAction> {
    if input.dragged_secondary {
        controls::navigates(PointerButton::Secondary)
    } else if input.dragged_middle {
        controls::navigates(PointerButton::Middle)
    } else {
        None
    }
}

/// The camera after a frame of going round.
pub open spec fn went_round<O: Arithmetic, T: Optics>(
    camera: Camera,
    ops: &O,
    optics: &T,
    input: OrbitInput,
) -> Camera {
    let moved = match navigation_of(input) {
        Some(NavigationAction::Pan) => camera.panned(
            ops,
            optics,
            input.pointer_delta,
            input.viewport_height,
        ),
        Some(NavigationAction::Orbit) => camera.orbited(ops, optics, input.pointer_delta),
        None => camera,
    };
    if input.hovered && !scalar::same(input.scroll, scalar::ZERO) {
        moved.zoomed(ops, optics, input.scroll)
    } else {
        moved
    }
}

/// The camera after a frame of flight.
pub open spec fn flew<O: Arithmetic, T: Optics>(
    camera: Camera,
    ops: &O,
    optics: &T,
    input: FlyInput,
) -> Camera {
    let movement = FlyMovement {
        forward: controls::axis_of(input.keys.w, input.keys.s),
        right: controls::axis_of(input.keys.d, input.keys.a),
        up: controls::axis_of(input.keys.space, input.keys.shift),
    };
    let flown = camera.looked(
        ops,
        optics,
        controls::spec_fly_look_delta(
            ops,
            input.raw_motion,
            input.pointer_delta,
            input.pixels_per_point,
        ),
    ).flown(ops, optics, movement, input.delta_seconds, input.boosted);
    let wheel = scalar::clamped(
        controls::turned(ops, input.wheel@, input.viewport_height),
        crate::camera::MIN_FLY_WHEEL_POINTS,
        crate::camera::MAX_FLY_WHEEL_POINTS,
    );
    if scalar::same(wheel, scalar::ZERO) {
        flown
    } else {
        flown.sped(ops, optics, wheel)
    }
}

impl Session {
    /// Goes round the mesh, where the orbit is looked through.
    pub fn navigate_orbit<O: Arithmetic, T: Optics>(
        &mut self,
        input: OrbitInput,
        ops: &O,
        optics: &T,
    )
        requires
            ops.total(),
            optics.total(),
        ensures
            *final(self) == if old(self).camera.mode is Orbit {
                Session {
                    camera: went_round(old(self).camera, ops, optics, input),
                    ..*old(self)
                }
            } else {
                *old(self)
            },
    {
        if self.camera.mode() != CameraMode::Orbit {
            return;
        }
        let navigation = if input.dragged_secondary {
            controls::navigation_action(PointerButton::Secondary)
        } else if input.dragged_middle {
            controls::navigation_action(PointerButton::Middle)
        } else {
            None
        };
        match navigation {
            Some(NavigationAction::Pan) => {
                self.camera.pan(input.pointer_delta, input.viewport_height, ops, optics);
            },
            Some(NavigationAction::Orbit) => {
                self.camera.orbit(input.pointer_delta, ops, optics);
            },
            None => {},
        }
        if input.hovered && !scalar::is_same(input.scroll, scalar::ZERO) {
            self.camera.zoom(input.scroll, ops, optics);
        }
    }

    /// Flies, where the flight has the pointer.
    pub fn navigate_fly<O: Arithmetic, T: Optics>(
        &mut self,
        input: &FlyInput,
        ops: &O,
        optics: &T,
    )
        requires
            ops.total(),
            optics.total(),
        ensures
            *final(self) == if old(self).camera.mode is Fly && old(self).fly_captured {
                Session { camera: flew(old(self).camera, ops, optics, *input), ..*old(self) }
            } else {
                *old(self)
            },
    {
        if self.camera.mode() != CameraMode::Fly || !self.fly_captured {
            return;
        }
        let look = controls::fly_look_delta(
            input.raw_motion,
            input.pointer_delta,
            input.pixels_per_point,
            ops,
        );
        let movement = controls::fly_movement(input.keys);
        let wheel = controls::fly_wheel_points(&input.wheel, input.viewport_height, ops);
        self.camera.fly_look(look, ops, optics);
        self.camera.fly_move(movement, input.delta_seconds, input.boosted, ops, optics);
        if !scalar::is_same(wheel, scalar::ZERO) {
            self.camera.adjust_fly_speed(wheel, ops, optics);
        }
    }

    /// Where the brush is shown, and in which color.
    pub fn brush_cursor(
        &self,
        pointer: Option<ScreenPoint>,
        viewport: &ScreenRect,
        modifiers: Modifiers,
    ) -> (result: Option<(ScreenPoint, Color)>)
        ensures
            result == match pointer {
                Some(position) => if !self.fly_captured && viewport.holds(position) {
                    Some(
                        (
                            position,
                            controls::cursor_color(
                                self.settings.tool,
                                self.settings.brush.invert,
                                modifiers,
                            ),
                        ),
                    )
                } else {
                    None
                },
                None => None,
            },
    {
        match pointer {
            Some(position) => if !self.fly_captured && viewport.contains(position) {
                Some(
                    (
                        position,
                        controls::brush_cursor_color(
                            self.settings.tool,
                            self.settings.brush.invert,
                            modifiers,
                        ),
                    ),
                )
            } else {
                None
            },
            None => None,
        }
    }

    /// What is said over the view, with the speed of flight as a text.
    pub open spec fn badge(self, modifiers: Modifiers, speed: Seq<char>) -> Seq<char> {
        let tool = controls::tool_text(
            self.settings.tool,
            self.settings.brush.invert,
            modifiers,
        );
        match self.camera.mode {
            CameraMode::Orbit => tool,
            CameraMode::Fly => if self.fly_captured {
                "Fly · active · "@ + speed + " radii/s · Esc to release"@
            } else {
                "Fly · hold RMB · "@ + speed + " radii/s · "@ + tool
            },
        }
    }

    /// The color of what is said over the view.
    pub open spec fn badge_color(self, modifiers: Modifiers) -> Color {
        if self.camera.mode is Fly && self.fly_captured {
            Color { red: 255, green: 198, blue: 92 }
        } else {
            controls::cursor_color(self.settings.tool, self.settings.brush.invert, modifiers)
        }
    }

    pub fn view_badge(&self, modifiers: Modifiers, speed: &str) -> (result: (Color, String))
        ensures
            result.0 == self.badge_color(modifiers),
            result.1@ == self.badge(modifiers, speed@),
    {
        let tool = controls::active_tool_text(
            self.settings.tool,
            self.settings.brush.invert,
            modifiers,
        );
        let color = controls::brush_cursor_color(
            self.settings.tool,
            self.settings.brush.invert,
            modifiers,
        );
        match self.camera.mode() {
            CameraMode::Orbit => (color, tool),
            CameraMode::Fly => if self.fly_captured {
                let mut text = "Fly · active · ".to_owned();
                text.append(speed);
                text.append(" radii/s · Esc to release");
                (Color { red: 255, green: 198, blue: 92 }, text)
            } else {
                let mut text = "Fly · hold RMB · ".to_owned();
                text.append(speed);
                text.append(" radii/s · ");
                text.append(tool.as_str());
                (color, text)
            },
        }
    }
}

/// Going round leaves the flight as it is, and flying the orbit.
pub proof fn navigation_keeps_the_other_view<O: Arithmetic, T: Optics>(
    ops: &O,
    optics: &T,
    camera: Camera,
    round: OrbitInput,
    flight: FlyInput,
)
    ensures
        went_round(camera, ops, optics, round).fly == camera.fly,
        went_round(camera, ops, optics, round).mode == camera.mode,
        flew(camera, ops, optics, flight).orbit == camera.orbit,
        flew(camera, ops, optics, flight).mode == camera.mode,
{
}

} // verus!
