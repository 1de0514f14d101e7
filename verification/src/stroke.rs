//! The path of the pointer during a stroke, and the dabs along it.
use crate::arithmetic;
use crate::arithmetic::Arithmetic;
use crate::input::Modifiers;
use crate::input::ScreenPoint;
use crate::scalar;
use std::collections::VecDeque;
use vstd::prelude::*;

verus! {

/// The dabs that are applied in one frame at most.
pub const MAX_DABS_PER_FRAME: usize = 64;

/// The longest duration, in nanoseconds.
pub const LONGEST: u128 = 18446744073709551615999999999;

/// A point of the path, with what held when the pointer was there.
#[derive(Clone, Copy, Debug)]
pub struct StrokePoint<T> {
    pub position: ScreenPoint,
    pub modifiers: Modifiers,
    pub spacing: u32,
    pub context: T,
}

/// Spaces dabs evenly along the path of the pointer, and in time. Times are in nanoseconds.
pub struct StrokeSampler<T> {
    pub initial_dab: Option<StrokePoint<T>>,
    pub observed_pointer: StrokePoint<T>,
    pub path_pointer: ScreenPoint,
    pub pending_path: VecDeque<StrokePoint<T>>,
    pub distance_since_dab: u32,
    pub elapsed_since_dab: u128,
    pub last_advanced_at: u128,
    pub released: bool,
}

/// How far a walk along the path has come.
pub struct Walk<T> {
    pub at: ScreenPoint,
    pub since_dab: u32,
    pub ahead: Seq<StrokePoint<T>>,
    pub dab: Option<StrokePoint<T>>,
}

pub open spec fn apart<O: Arithmetic>(ops: &O, from: ScreenPoint, to: ScreenPoint) -> ScreenPoint {
    ScreenPoint { x: ops.spec_difference(to.x, from.x), y: ops.spec_difference(to.y, from.y) }
}

/// How far it is to the next dab on the way to a point.
pub open spec fn to_next_dab<O: Arithmetic>(ops: &O, spacing: u32, since_dab: u32) -> u32 {
    scalar::greatest(
        ops.spec_difference(scalar::greatest(spacing, scalar::ONE), since_dab),
        scalar::EPSILON,
    )
}

/// A place so far along a segment of some length.
pub open spec fn along<O: Arithmetic>(
    ops: &O,
    from: ScreenPoint,
    segment: ScreenPoint,
    length: u32,
    distance: u32,
) -> ScreenPoint {
    ScreenPoint {
        x: ops.spec_sum(from.x, ops.spec_product(ops.spec_quotient(segment.x, length), distance)),
        y: ops.spec_sum(from.y, ops.spec_product(ops.spec_quotient(segment.y, length), distance)),
    }
}

/// Walks along a path up to the next dab, or to the end of the path where none is due on it.
pub open spec fn walked<T, O: Arithmetic, H: Fn(u32, u32) -> u32>(
    ops: &O,
    hypot: H,
    at: ScreenPoint,
    since_dab: u32,
    path: Seq<StrokePoint<T>>,
) -> Walk<T>
    decreases path.len(),
{
    if path.len() == 0 {
        Walk { at, since_dab, ahead: path, dab: None }
    } else {
        let target = path[0];
        let segment = apart(ops, at, target.position);
        let length = arithmetic::combined(hypot, segment.x, segment.y);
        let due = to_next_dab(ops, target.spacing, since_dab);
        if scalar::le(length, scalar::EPSILON) {
            walked(ops, hypot, target.position, since_dab, path.drop_first())
        } else if scalar::lt(ops.spec_sum(length, scalar::EPSILON), due) {
            walked(
                ops,
                hypot,
                target.position,
                ops.spec_sum(since_dab, length),
                path.drop_first(),
            )
        } else {
            let place = along(ops, at, segment, length, due);
            Walk {
                at: place,
                since_dab: scalar::ZERO,
                ahead: path,
                dab: Some(StrokePoint { position: place, ..target }),
            }
        }
    }
}

/// Where no dab is due the walk goes to the end of the path; a dab keeps the modifiers, the
/// spacing and the context of the segment that it lies on, and what lies ahead is the end of what
/// lay ahead.
pub proof fn a_walk_stops_only_for_a_dab<T, O: Arithmetic, H: Fn(u32, u32) -> u32>(
    ops: &O,
    hypot: H,
    at: ScreenPoint,
    since_dab: u32,
    path: Seq<StrokePoint<T>>,
)
    ensures
        ({
            let walk = walked(ops, hypot, at, since_dab, path);
            &&& walk.dab is None <==> walk.ahead.len() == 0
            &&& walk.ahead.len() <= path.len()
            &&& walk.ahead == path.skip(path.len() - walk.ahead.len())
            &&& walk.dab matches Some(dab) ==> {
                &&& dab.position == walk.at
                &&& dab.modifiers == walk.ahead[0].modifiers
                &&& dab.spacing == walk.ahead[0].spacing
                &&& dab.context == walk.ahead[0].context
            }
        }),
    decreases path.len(),
{
    if path.len() > 0 {
        let target = path[0];
        let segment = apart(ops, at, target.position);
        let length = arithmetic::combined(hypot, segment.x, segment.y);
        let due = to_next_dab(ops, target.spacing, since_dab);
        let rest = path.drop_first();
        if scalar::le(length, scalar::EPSILON) {
            a_walk_stops_only_for_a_dab(ops, hypot, target.position, since_dab, rest);
        } else if scalar::lt(ops.spec_sum(length, scalar::EPSILON), due) {
            a_walk_stops_only_for_a_dab(
                ops,
                hypot,
                target.position,
                ops.spec_sum(since_dab, length),
                rest,
            );
        }
        let walk = walked(ops, hypot, at, since_dab, path);
        assert(walk.ahead =~= path.skip(path.len() - walk.ahead.len()));
    }
    assert(path.skip(0) =~= path);
}

/// The longest of durations added up.
pub open spec fn longer(duration: u128, more: int) -> int {
    if duration + more > LONGEST {
        LONGEST as int
    } else {
        duration + more
    }
}

impl<T: Copy> StrokeSampler<T> {
    /// Begins a path where the pointer is. The first dab is due there.
    #[must_use]
    pub fn begin(
        pointer: ScreenPoint,
        modifiers: Modifiers,
        spacing: u32,
        context: T,
        now: u128,
    ) -> (result: StrokeSampler<T>)
        ensures
            result.observed_pointer == (StrokePoint {
                position: pointer,
                modifiers,
                spacing,
                context,
            }),
            result.initial_dab == Some(result.observed_pointer),
            result.path_pointer == pointer,
            result.pending_path@.len() == 0,
            result.distance_since_dab == scalar::ZERO,
            result.elapsed_since_dab == 0,
            result.last_advanced_at == now,
            !result.released,
    {
        let pointer = StrokePoint { position: pointer, modifiers, spacing, context };
        StrokeSampler {
            initial_dab: Some(pointer),
            observed_pointer: pointer,
            path_pointer: pointer.position,
            pending_path: VecDeque::new(),
            distance_since_dab: scalar::ZERO,
            elapsed_since_dab: 0,
            last_advanced_at: now,
            released: false,
        }
    }

    /// Whether two samplers differ in the first dab at most.
    pub open spec fn same_but_initial(self, other: StrokeSampler<T>) -> bool {
        &&& self.observed_pointer == other.observed_pointer
        &&& self.path_pointer == other.path_pointer
        &&& self.pending_path == other.pending_path
        &&& self.distance_since_dab == other.distance_since_dab
        &&& self.elapsed_since_dab == other.elapsed_since_dab
        &&& self.last_advanced_at == other.last_advanced_at
        &&& self.released == other.released
    }

    /// Takes the first dab, which is there once.
    #[must_use]
    pub fn take_initial_dab(&mut self) -> (result: Option<StrokePoint<T>>)
        ensures
            result == old(self).initial_dab,
            final(self).initial_dab is None,
            final(self).same_but_initial(*old(self)),
    {
        self.initial_dab.take()
    }

    /// The path with one more point, which takes the place of the last one where the pointer has
    /// not moved from there.
    pub open spec fn extended(
        path: Seq<StrokePoint<T>>,
        pointer: StrokePoint<T>,
    ) -> Seq<StrokePoint<T>> {
        if path.len() > 0 && path.last().position.same(pointer.position) {
            path.drop_last().push(pointer)
        } else {
            path.push(pointer)
        }
    }

    /// Whether the pointer was noted: if it moved, the path goes on to there.
    pub open spec fn went_on(self, after: StrokeSampler<T>, pointer: StrokePoint<T>) -> bool {
        &&& after.observed_pointer == pointer
        &&& after.pending_path@ == if pointer.position.same(self.observed_pointer.position) {
            self.pending_path@
        } else {
            StrokeSampler::extended(self.pending_path@, pointer)
        }
        &&& after.initial_dab == self.initial_dab
        &&& after.path_pointer == self.path_pointer
        &&& after.distance_since_dab == self.distance_since_dab
        &&& after.elapsed_since_dab == self.elapsed_since_dab
        &&& after.last_advanced_at == self.last_advanced_at
        &&& after.released == self.released
    }

    /// Notes where the pointer is. If it moved, the path goes on to there.
    pub fn enqueue_pointer(
        &mut self,
        position: ScreenPoint,
        modifiers: Modifiers,
        spacing: u32,
        context: T,
    )
        ensures
            old(self).went_on(
                *final(self),
                StrokePoint { position, modifiers, spacing, context },
            ),
    {
        let pointer = StrokePoint { position, modifiers, spacing, context };
        let moved = !position.is_same(&self.observed_pointer.position);
        self.observed_pointer = pointer;
        if moved {
            let count = self.pending_path.len();
            if count > 0 && self.pending_path[count - 1].position.is_same(&position) {
                self.pending_path.pop_back();
            }
            self.pending_path.push_back(pointer);
            assert(self.pending_path@ =~= StrokeSampler::extended(
                old(self).pending_path@,
                pointer,
            ));
        }
    }

    /// Whether the path was followed to the next dab that is due on it.
    pub open spec fn walked_on<O: Arithmetic, H: Fn(u32, u32) -> u32>(
        self,
        after: StrokeSampler<T>,
        ops: &O,
        hypot: H,
        result: Option<StrokePoint<T>>,
    ) -> bool {
        let walk = walked(
            ops,
            hypot,
            self.path_pointer,
            self.distance_since_dab,
            self.pending_path@,
        );
        &&& result == walk.dab
        &&& after.path_pointer == walk.at
        &&& after.distance_since_dab == walk.since_dab
        &&& after.pending_path@ == walk.ahead
        &&& after.initial_dab == self.initial_dab
        &&& after.observed_pointer == self.observed_pointer
        &&& after.elapsed_since_dab == self.elapsed_since_dab
        &&& after.last_advanced_at == self.last_advanced_at
        &&& after.released == self.released
    }

    /// Goes on along the path to the next dab that is due on it.
    #[must_use]
    pub fn next_spatial_dab<O: Arithmetic, H: Fn(u32, u32) -> u32>(
        &mut self,
        ops: &O,
        hypot: &H,
    ) -> (result: Option<StrokePoint<T>>)
        requires
            ops.total(),
            arithmetic::combines(*hypot),
        ensures
            old(self).walked_on(*final(self), ops, *hypot, result),
            result is None ==> final(self).pending_path@.len() == 0,
    {
        proof {
            a_walk_stops_only_for_a_dab(
                ops,
                *hypot,
                self.path_pointer,
                self.distance_since_dab,
                self.pending_path@,
            );
        }
        let ghost whole = walked(
            ops,
            *hypot,
            self.path_pointer,
            self.distance_since_dab,
            self.pending_path@,
        );
        while self.pending_path.len() > 0
            invariant
                ops.total(),
                arithmetic::combines(*hypot),
                walked(
                    ops,
                    *hypot,
                    self.path_pointer,
                    self.distance_since_dab,
                    self.pending_path@,
                ) == whole,
                whole == walked(
                    ops,
                    *hypot,
                    old(self).path_pointer,
                    old(self).distance_since_dab,
                    old(self).pending_path@,
                ),
                whole.dab is None <==> whole.ahead.len() == 0,
                self.initial_dab == old(self).initial_dab,
                self.observed_pointer == old(self).observed_pointer,
                self.elapsed_since_dab == old(self).elapsed_since_dab,
                self.last_advanced_at == old(self).last_advanced_at,
                self.released == old(self).released,
            decreases self.pending_path@.len(),
        {
            let ghost path = self.pending_path@;
            let target = self.pending_path[0];
            let segment = ScreenPoint {
                x: ops.difference(target.position.x, self.path_pointer.x),
                y: ops.difference(target.position.y, self.path_pointer.y),
            };
            let length = hypot(segment.x, segment.y);
            assert(length == arithmetic::combined(*hypot, segment.x, segment.y));
            if scalar::is_at_most(length, scalar::EPSILON) {
                self.path_pointer = target.position;
                self.pending_path.pop_front();
                assert(self.pending_path@ =~= path.drop_first());
                continue;
            }
            let due = scalar::max(
                ops.difference(
                    scalar::max(target.spacing, scalar::ONE),
                    self.distance_since_dab,
                ),
                scalar::EPSILON,
            );
            if scalar::is_less(ops.sum(length, scalar::EPSILON), due) {
                self.distance_since_dab = ops.sum(self.distance_since_dab, length);
                self.path_pointer = target.position;
                self.pending_path.pop_front();
                assert(self.pending_path@ =~= path.drop_first());
                continue;
            }
            let place = ScreenPoint {
                x: ops.sum(
                    self.path_pointer.x,
                    ops.product(ops.quotient(segment.x, length), due),
                ),
                y: ops.sum(
                    self.path_pointer.y,
                    ops.product(ops.quotient(segment.y, length), due),
                ),
            };
            self.path_pointer = place;
            self.distance_since_dab = scalar::ZERO;
            return Some(
                StrokePoint {
                    position: place,
                    modifiers: target.modifiers,
                    spacing: target.spacing,
                    context: target.context,
                },
            );
        }
        None
    }

    /// Whether the pointer's movement was taken, unless part of the path lies ahead: then the
    /// pointer only joins the path.
    pub open spec fn gave_movement<O: Arithmetic>(
        self,
        after: StrokeSampler<T>,
        ops: &O,
        pointer: ScreenPoint,
        result: Option<ScreenPoint>,
    ) -> bool {
        let noted = StrokePoint { position: pointer, ..self.observed_pointer };
        if self.pending_path@.len() > 0 {
            result is None && self.went_on(after, noted)
        } else {
            &&& result == Some(apart(ops, self.observed_pointer.position, pointer))
            &&& after.observed_pointer == noted
            &&& after.pending_path@ == self.pending_path@
            &&& after.path_pointer == pointer
            &&& after.distance_since_dab == scalar::ZERO
            &&& after.initial_dab == self.initial_dab
            &&& after.elapsed_since_dab == self.elapsed_since_dab
            &&& after.last_advanced_at == self.last_advanced_at
            &&& after.released == self.released
        }
    }

    /// Takes the pointer's movement for Grab, which follows the pointer without dabs. As long as
    /// part of the path lies ahead the pointer only joins the path.
    #[must_use]
    pub fn consume_grab_delta<O: Arithmetic>(
        &mut self,
        pointer: ScreenPoint,
        ops: &O,
    ) -> (result: Option<ScreenPoint>)
        requires
            ops.total(),
        ensures
            old(self).gave_movement(*final(self), ops, pointer, result),
    {
        if self.pending_path.len() > 0 {
            let previous = self.observed_pointer;
            self.enqueue_pointer(
                pointer,
                previous.modifiers,
                previous.spacing,
                previous.context,
            );
            return None;
        }
        let from = self.observed_pointer;
        let delta = ScreenPoint {
            x: ops.difference(pointer.x, from.position.x),
            y: ops.difference(pointer.y, from.position.y),
        };
        self.observed_pointer = StrokePoint {
            position: pointer,
            modifiers: from.modifiers,
            spacing: from.spacing,
            context: from.context,
        };
        self.path_pointer = pointer;
        self.distance_since_dab = scalar::ZERO;
        Some(delta)
    }

    /// Lets time pass. A time before the last one counts as none.
    pub fn advance_to(&mut self, now: u128)
        requires
            old(self).elapsed_since_dab <= LONGEST,
            now <= LONGEST,
        ensures
            final(self).elapsed_since_dab == longer(
                old(self).elapsed_since_dab,
                if now > old(self).last_advanced_at {
                    now - old(self).last_advanced_at
                } else {
                    0
                },
            ),
            final(self).elapsed_since_dab <= LONGEST,
            final(self).last_advanced_at == now,
            final(self).initial_dab == old(self).initial_dab,
            final(self).observed_pointer == old(self).observed_pointer,
            final(self).path_pointer == old(self).path_pointer,
            final(self).pending_path == old(self).pending_path,
            final(self).distance_since_dab == old(self).distance_since_dab,
            final(self).released == old(self).released,
    {
        let passed: u128 = if now > self.last_advanced_at {
            now - self.last_advanced_at
        } else {
            0
        };
        let elapsed = self.elapsed_since_dab + passed;
        self.elapsed_since_dab = if elapsed > LONGEST {
            LONGEST
        } else {
            elapsed
        };
        self.last_advanced_at = now;
    }

    pub fn record_spatial_dab(&mut self)
        ensures
            *final(self) == (StrokeSampler { elapsed_since_dab: 0, ..*old(self) }),
    {
        self.elapsed_since_dab = 0;
    }

    pub fn record_airbrush_dab(&mut self)
        ensures
            *final(self) == (StrokeSampler {
                elapsed_since_dab: 0,
                distance_since_dab: scalar::ZERO,
                ..*old(self)
            }),
    {
        self.elapsed_since_dab = 0;
        self.distance_since_dab = scalar::ZERO;
    }

    #[must_use]
    pub fn airbrush_due(&self, interval: u128) -> (result: bool)
        ensures
            result == (self.elapsed_since_dab >= interval),
    {
        self.elapsed_since_dab >= interval
    }

    /// How long it is to the next dab in time.
    #[must_use]
    pub fn airbrush_wait(&self, interval: u128) -> (result: u128)
        ensures
            result == if interval > self.elapsed_since_dab {
                interval - self.elapsed_since_dab
            } else {
                0
            },
    {
        if interval > self.elapsed_since_dab {
            interval - self.elapsed_since_dab
        } else {
            0
        }
    }

    /// Notes that the button is up. The path that lies ahead stays.
    pub fn release(&mut self)
        ensures
            *final(self) == (StrokeSampler { released: true, ..*old(self) }),
    {
        self.released = true;
    }

    #[must_use]
    pub fn is_released(&self) -> (result: bool)
        ensures
            result == self.released,
    {
        self.released
    }

    #[must_use]
    pub fn has_pending_path(&self) -> (result: bool)
        ensures
            result == (self.pending_path@.len() > 0),
    {
        self.pending_path.len() > 0
    }

    #[must_use]
    pub fn pointer(&self) -> (result: StrokePoint<T>)
        ensures
            result == self.observed_pointer,
    {
        self.observed_pointer
    }
}

} // verus!
