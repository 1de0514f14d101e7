//! When a ray enters a box, in numbers.
use crate::arithmetic::Arithmetic;
use crate::dab_laws;
use crate::hit_laws;
use crate::hit_laws::during;
use crate::meaning;
use crate::meaning::{fits, rounds, value};
use crate::scalar;
use crate::scalar::Point;
use crate::shapes;
use vstd::prelude::*;

verus! {

/// Whether when a ray passes between two sides of a box is worked out without rounding: it goes along
/// them, or not too slowly across them.
pub open spec fn passes(origin: u32, direction: u32, min: u32, max: u32) -> bool {
    &&& scalar::finite(origin) && scalar::finite(direction)
    &&& scalar::finite(min) && scalar::finite(max)
    &&& value(min) <= value(max)
    &&& value(direction) == 0 as real || {
        &&& dab_laws::size_of(value(direction)) >= value(shapes::PARALLEL_EPSILON)
        &&& fits(1 as real / value(direction))
        &&& fits(value(min) - value(origin)) && fits(value(max) - value(origin))
        &&& fits((value(min) - value(origin)) * (1 as real / value(direction)))
        &&& fits((value(max) - value(origin)) * (1 as real / value(direction)))
    }
}

/// Whether a time lies in what is left of a span.
pub open spec fn left(span: Option<(u32, u32)>, time: real) -> bool {
    span matches Some((near, far)) && during(time, near, far)
}

/// Whether a span has a start, and ends after it if it ends.
spec fn proper(span: Option<(u32, u32)>) -> bool {
    span matches Some((near, far)) ==> {
        &&& scalar::finite(near)
        &&& far == scalar::INFINITY || (scalar::finite(far) && value(near) <= value(far))
    }
}

proof fn lemma_one_axis<O: Arithmetic>(
    ops: &O,
    round: spec_fn(real) -> u32,
    span: Option<(u32, u32)>,
    origin: u32,
    direction: u32,
    min: u32,
    max: u32,
    time: real,
)
    requires
        rounds(ops, round),
        proper(span),
        passes(origin, direction, min, max),
    ensures
        proper(shapes::slab(ops, span, origin, direction, min, max)),
        left(shapes::slab(ops, span, origin, direction, min, max), time) <==> left(span, time)
            && value(min) <= value(origin) + time * value(direction) <= value(max),
{
    meaning::constants_mean_what_they_say();
    let parallel = shapes::PARALLEL_EPSILON;
    meaning::values_are_ordered(scalar::ZERO, parallel);
    match span {
        None => {},
        Some((near, far)) => {
            if value(direction) == 0 as real {
                dab_laws::magnitudes_are_sizes(direction);
                meaning::values_are_ordered(scalar::magnitude(direction) as u32, parallel);
                meaning::values_are_ordered(origin, min);
                meaning::values_are_ordered(max, origin);
                let d = value(direction);
                assert(time * d == 0 as real) by (nonlinear_arith)
                    requires
                        d == 0 as real,
                ;
            } else {
                hit_laws::a_slab_leaves_the_times_between_its_sides(
                    ops,
                    round,
                    near,
                    far,
                    origin,
                    direction,
                    min,
                    max,
                    time,
                );
            }
        },
    }
}

/// Whether a ray is in a box at a time.
pub open spec fn inside(origin: Point, direction: Point, min: Point, max: Point, time: real) -> bool {
    &&& value(min.x) <= value(origin.x) + time * value(direction.x) <= value(max.x)
    &&& value(min.y) <= value(origin.y) + time * value(direction.y) <= value(max.y)
    &&& value(min.z) <= value(origin.z) + time * value(direction.z) <= value(max.z)
}

proof fn lemma_three_axes<O: Arithmetic>(
    ops: &O,
    round: spec_fn(real) -> u32,
    origin: Point,
    direction: Point,
    min: Point,
    max: Point,
    time: real,
)
    requires
        rounds(ops, round),
        passes(origin.x, direction.x, min.x, max.x),
        passes(origin.y, direction.y, min.y, max.y),
        passes(origin.z, direction.z, min.z, max.z),
    ensures
        ({
            let whole = Some((scalar::ZERO, scalar::INFINITY));
            let x = shapes::slab(ops, whole, origin.x, direction.x, min.x, max.x);
            let y = shapes::slab(ops, x, origin.y, direction.y, min.y, max.y);
            let z = shapes::slab(ops, y, origin.z, direction.z, min.z, max.z);
            &&& proper(z)
            &&& left(z, time) <==> time >= 0 as real && inside(origin, direction, min, max, time)
        }),
{
    meaning::constants_mean_what_they_say();
    let whole = Some((scalar::ZERO, scalar::INFINITY));
    let x = shapes::slab(ops, whole, origin.x, direction.x, min.x, max.x);
    let y = shapes::slab(ops, x, origin.y, direction.y, min.y, max.y);
    lemma_one_axis(ops, round, whole, origin.x, direction.x, min.x, max.x, time);
    lemma_one_axis(ops, round, x, origin.y, direction.y, min.y, max.y, time);
    lemma_one_axis(ops, round, y, origin.z, direction.z, min.z, max.z, time);
}

/// A ray enters a box at the first time from its origin on at which it is inside, and never where there
/// is none.
pub proof fn a_ray_enters_a_box_when_it_is_first_inside<O: Arithmetic>(
    ops: &O,
    round: spec_fn(real) -> u32,
    origin: Point,
    direction: Point,
    min: Point,
    max: Point,
    time: real,
)
    requires
        rounds(ops, round),
        passes(origin.x, direction.x, min.x, max.x),
        passes(origin.y, direction.y, min.y, max.y),
        passes(origin.z, direction.z, min.z, max.z),
        time >= 0 as real,
    ensures
        match shapes::enters(ops, origin, direction, min, max) {
            None => !inside(origin, direction, min, max, time),
            Some(entry) => {
                &&& scalar::finite(entry) && value(entry) >= 0 as real
                &&& inside(origin, direction, min, max, value(entry))
                &&& inside(origin, direction, min, max, time) ==> value(entry) <= time
            },
        },
{
    meaning::constants_mean_what_they_say();
    let whole = Some((scalar::ZERO, scalar::INFINITY));
    let x = shapes::slab(ops, whole, origin.x, direction.x, min.x, max.x);
    let y = shapes::slab(ops, x, origin.y, direction.y, min.y, max.y);
    let z = shapes::slab(ops, y, origin.z, direction.z, min.z, max.z);
    lemma_three_axes(ops, round, origin, direction, min, max, time);
    if let Some((near, far)) = z {
        lemma_three_axes(ops, round, origin, direction, min, max, value(near));
        assert(left(z, value(near)));
        if scalar::finite(far) {
            meaning::values_are_ordered(scalar::ZERO, far);
        }
    }
}

} // verus!
