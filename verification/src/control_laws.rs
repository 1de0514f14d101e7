//! What shortcuts, wheels and masks do to their values, and what faces come to, in numbers.
use crate::arithmetic;
use crate::arithmetic::Arithmetic;
use crate::controls;
use crate::controls::{MouseWheelUnit, ShortcutDirection};
use crate::dab_laws;
use crate::dab_laws::between;
use crate::geometry::Geometry;
use crate::input::ScreenPoint;
use crate::masking;
use crate::meaning;
use crate::meaning::{fits, rounds, value};
use crate::scalar;
use crate::scalar::Point;
use crate::shapes::Solid;
use crate::space;
use crate::space::{added, holds, inner, inner_fits, outer, outer_fits, place, scaled, subtracted};
use vstd::prelude::*;

verus! {

/// The numbers that the controls go by.
pub proof fn controls_go_by_these_numbers()
    ensures
        scalar::finite(controls::BRUSH_VALUE_STEP) && scalar::finite(controls::BRUSH_RADIUS_STEP),
        scalar::finite(controls::MIN_BRUSH_RADIUS_POINTS) && scalar::finite(
            controls::MAX_BRUSH_RADIUS_POINTS,
        ),
        scalar::finite(controls::WHEEL_POINTS_PER_LINE),
        scalar::finite(controls::FINEST_ADAPTIVE_DETAIL) && scalar::finite(
            controls::COARSEST_ADAPTIVE_DETAIL,
        ),
        4999999 as real / (100000000 as real) < value(controls::BRUSH_VALUE_STEP) < 5000001 as real
            / (100000000 as real),
        11199999 as real / (10000000 as real) < value(controls::BRUSH_RADIUS_STEP) < 11200001 as real
            / (10000000 as real),
        value(controls::MIN_BRUSH_RADIUS_POINTS) == 4 as real,
        value(controls::MAX_BRUSH_RADIUS_POINTS) == 300 as real,
        value(controls::WHEEL_POINTS_PER_LINE) == 40 as real,
        2999999 as real / (100000000 as real) < value(controls::FINEST_ADAPTIVE_DETAIL)
            < 3000001 as real / (100000000 as real),
        34999990 as real / (100000000 as real) < value(controls::COARSEST_ADAPTIVE_DETAIL)
            < 35000010 as real / (100000000 as real),
{
    meaning::lemma_powers();
    meaning::lemma_power_next(7);
    meaning::lemma_value_of(controls::BRUSH_VALUE_STEP, 122, 0x4c_cccd);
    meaning::lemma_value_of(controls::BRUSH_RADIUS_STEP, 127, 0xf_5c29);
    meaning::lemma_value_of(controls::MIN_BRUSH_RADIUS_POINTS, 129, 0);
    meaning::lemma_value_of(controls::MAX_BRUSH_RADIUS_POINTS, 135, 0x16_0000);
    meaning::lemma_value_of(controls::WHEEL_POINTS_PER_LINE, 132, 0x20_0000);
    meaning::lemma_value_of(controls::FINEST_ADAPTIVE_DETAIL, 121, 0x75_c28f);
    meaning::lemma_value_of(controls::COARSEST_ADAPTIVE_DETAIL, 125, 0x33_3333);
}

/// A shortcut raises or lowers a value by one step of `0.05`, within its bounds.
pub proof fn a_shortcut_goes_one_step<O: Arithmetic>(
    ops: &O,
    round: spec_fn(real) -> u32,
    number: u32,
    direction: ShortcutDirection,
    minimum: u32,
    maximum: u32,
)
    requires
        rounds(ops, round),
        scalar::finite(number) && scalar::finite(minimum) && scalar::finite(maximum),
        value(minimum) <= value(maximum),
        fits(value(number) + value(controls::BRUSH_VALUE_STEP)),
        fits(value(number) - value(controls::BRUSH_VALUE_STEP)),
    ensures
        value(
            controls::spec_adjusted_brush_value(ops, number, direction, minimum, maximum),
        ) == between(
            if direction is Increase {
                value(number) + value(controls::BRUSH_VALUE_STEP)
            } else {
                value(number) - value(controls::BRUSH_VALUE_STEP)
            },
            value(minimum),
            value(maximum),
        ),
{
    controls_go_by_these_numbers();
    let step = controls::BRUSH_VALUE_STEP;
    meaning::the_sign_is_the_sign(step);
    meaning::lemma_sum(ops, round, number, step);
    meaning::lemma_sum(ops, round, number, scalar::negated(step));
    match direction {
        ShortcutDirection::Increase => {
            dab_laws::clamping_brings_between(ops.spec_sum(number, step), minimum, maximum);
        },
        ShortcutDirection::Decrease => {
            dab_laws::clamping_brings_between(
                ops.spec_sum(number, scalar::negated(step)),
                minimum,
                maximum,
            );
        },
    }
}

/// A shortcut widens a radius by a factor of `1.12`, up to its bound, and narrows it by the same
/// factor, down to its bound.
pub proof fn a_radius_grows_and_shrinks_by_one_factor<O: Arithmetic>(
    ops: &O,
    round: spec_fn(real) -> u32,
    radius: u32,
)
    requires
        rounds(ops, round),
        scalar::finite(radius),
        fits(value(radius) * value(controls::BRUSH_RADIUS_STEP)),
        fits(value(radius) / value(controls::BRUSH_RADIUS_STEP)),
    ensures
        ({
            let wider = value(radius) * value(controls::BRUSH_RADIUS_STEP);
            value(controls::spec_adjusted_radius(ops, radius, ShortcutDirection::Increase))
                == if wider > 300 as real {
                300 as real
            } else {
                wider
            }
        }),
        ({
            let narrower = value(radius) / value(controls::BRUSH_RADIUS_STEP);
            value(controls::spec_adjusted_radius(ops, radius, ShortcutDirection::Decrease))
                == if narrower < 4 as real {
                4 as real
            } else {
                narrower
            }
        }),
{
    controls_go_by_these_numbers();
    let step = controls::BRUSH_RADIUS_STEP;
    meaning::lemma_product(ops, round, radius, step);
    meaning::lemma_quotient(ops, round, radius, step);
    dab_laws::extremes_bound_both(
        ops.spec_product(radius, step),
        controls::MAX_BRUSH_RADIUS_POINTS,
    );
    dab_laws::extremes_bound_both(
        ops.spec_quotient(radius, step),
        controls::MIN_BRUSH_RADIUS_POINTS,
    );
}

/// Edges are made as long as the detail's share of the radius, but not shorter than a point of the
/// screen.
pub proof fn edges_are_a_share_of_the_radius<O: Arithmetic>(
    ops: &O,
    round: spec_fn(real) -> u32,
    radius: u32,
    detail: u32,
    units_per_point: u32,
)
    requires
        rounds(ops, round),
        scalar::finite(radius) && scalar::finite(detail) && scalar::finite(units_per_point),
        fits(
            value(radius) * between(
                value(detail),
                value(controls::FINEST_ADAPTIVE_DETAIL),
                value(controls::COARSEST_ADAPTIVE_DETAIL),
            ),
        ),
    ensures
        ({
            let share = value(radius) * between(
                value(detail),
                value(controls::FINEST_ADAPTIVE_DETAIL),
                value(controls::COARSEST_ADAPTIVE_DETAIL),
            );
            let found = controls::spec_adaptive_target_edge_length(
                ops,
                radius,
                detail,
                units_per_point,
            );
            value(found) == if share < value(units_per_point) {
                value(units_per_point)
            } else {
                share
            }
        }),
{
    controls_go_by_these_numbers();
    let (low, high) = (controls::FINEST_ADAPTIVE_DETAIL, controls::COARSEST_ADAPTIVE_DETAIL);
    dab_laws::clamping_brings_between(detail, low, high);
    let share = scalar::clamped(detail, low, high);
    meaning::lemma_product(ops, round, radius, share);
    dab_laws::extremes_bound_both(ops.spec_product(radius, share), units_per_point);
}

/// What a mouse reports in pixels is brought to points: as many times the pixels of a point, it is
/// what was reported. Without such a report the pointer's own way counts.
pub proof fn a_look_is_in_points<O: Arithmetic>(
    ops: &O,
    round: spec_fn(real) -> u32,
    motion: ScreenPoint,
    pointer: ScreenPoint,
    pixels_per_point: u32,
)
    requires
        rounds(ops, round),
        scalar::finite(motion.x) && scalar::finite(motion.y) && scalar::finite(pixels_per_point),
        value(pixels_per_point) > 0 as real,
        fits(value(motion.x) / value(pixels_per_point)),
        fits(value(motion.y) / value(pixels_per_point)),
    ensures
        ({
            let look = controls::spec_fly_look_delta(ops, Some(motion), pointer, pixels_per_point);
            &&& value(look.x) * value(pixels_per_point) == value(motion.x)
            &&& value(look.y) * value(pixels_per_point) == value(motion.y)
        }),
        controls::spec_fly_look_delta(ops, None, pointer, pixels_per_point) == pointer,
{
    meaning::constants_mean_what_they_say();
    meaning::values_are_ordered(scalar::ZERO, pixels_per_point);
    meaning::lemma_quotient(ops, round, motion.x, pixels_per_point);
    meaning::lemma_quotient(ops, round, motion.y, pixels_per_point);
    let (x, y, p) = (value(motion.x), value(motion.y), value(pixels_per_point));
    assert(x / p * p == x) by (nonlinear_arith)
        requires
            p > 0 as real,
    ;
    assert(y / p * p == y) by (nonlinear_arith)
        requires
            p > 0 as real,
    ;
}

/// A wheel that turns by points, by lines of forty points or by pages as high as the viewport.
pub proof fn a_wheel_turns_by_its_unit<O: Arithmetic>(
    ops: &O,
    round: spec_fn(real) -> u32,
    unit: MouseWheelUnit,
    delta: u32,
    height: u32,
)
    requires
        rounds(ops, round),
        scalar::finite(delta) && scalar::finite(height),
        value(height) >= 0 as real,
        fits(value(delta) * (40 as real)) && fits(value(delta) * value(height)),
    ensures
        value(controls::spec_wheel_delta_points(ops, unit, delta, height)) == value(delta)
            * match unit {
            MouseWheelUnit::Point => 1 as real,
            MouseWheelUnit::Line => 40 as real,
            MouseWheelUnit::Page => value(height),
        },
{
    meaning::constants_mean_what_they_say();
    controls_go_by_these_numbers();
    assert(fits(value(delta)));
    let d = value(delta);
    assert(d * (1 as real) == d);
    meaning::lemma_product(ops, round, delta, scalar::ONE);
    meaning::lemma_product(ops, round, delta, controls::WHEEL_POINTS_PER_LINE);
    dab_laws::extremes_bound_both(height, scalar::ZERO);
    meaning::lemma_product(ops, round, delta, scalar::greatest(height, scalar::ZERO));
}

/// Inverting a mask leaves of each weight what it lacks to one, and inverting it twice gives it back;
/// clearing it leaves nothing.
pub proof fn inverting_a_mask_twice_gives_it_back<O: Arithmetic>(
    ops: &O,
    round: spec_fn(real) -> u32,
    weight: u32,
)
    requires
        rounds(ops, round),
        scalar::finite(weight),
        (0 as real) <= value(weight) <= 1 as real,
        fits(1 as real - value(weight)),
    ensures
        value(masking::weight_after(ops, weight, true)) == 1 as real - value(weight),
        value(masking::weight_after(ops, masking::weight_after(ops, weight, true), true)) == value(
            weight,
        ),
        value(masking::weight_after(ops, weight, false)) == 0 as real,
{
    meaning::constants_mean_what_they_say();
    dab_laws::clamping_brings_between(weight, scalar::ZERO, scalar::ONE);
    let clamped = scalar::clamped(weight, scalar::ZERO, scalar::ONE);
    meaning::lemma_difference(ops, round, scalar::ONE, clamped);
    let after = masking::weight_after(ops, weight, true);
    dab_laws::clamping_brings_between(after, scalar::ZERO, scalar::ONE);
    assert(fits(value(weight)));
    meaning::lemma_difference(
        ops,
        round,
        scalar::ONE,
        scalar::clamped(after, scalar::ZERO, scalar::ONE),
    );
}

/// The cross of a face is the outer product of the sides from its first corner: across the face, and
/// twice as long as it is large; and the extent of a box goes from its low to its high corner.
pub proof fn a_cross_is_across_the_face<O: Arithmetic>(
    solid: &Solid<O>,
    round: spec_fn(real) -> u32,
    a: Point,
    b: Point,
    c: Point,
)
    requires
        rounds(&solid.ops, round),
        a.finite() && b.finite() && c.finite(),
        holds(subtracted(place(b), place(a))) && holds(subtracted(place(c), place(a))),
    ensures
        outer_fits(subtracted(place(b), place(a)), subtracted(place(c), place(a))) ==> place(
            solid.spec_cross(a, b, c),
        ) == outer(subtracted(place(b), place(a)), subtracted(place(c), place(a))),
        place(solid.spec_extent(a, b)) == subtracted(place(b), place(a)),
{
    space::differences_subtract_places(&solid.ops, round, b, a);
    space::differences_subtract_places(&solid.ops, round, c, a);
    if outer_fits(subtracted(place(b), place(a)), subtracted(place(c), place(a))) {
        space::crosses_are_outer_products(
            &solid.ops,
            round,
            arithmetic::spec_minus(&solid.ops, b, a),
            arithmetic::spec_minus(&solid.ops, c, a),
        );
    }
}

/// The centroid of a face is the average of its corners.
pub proof fn a_centroid_is_the_average_of_the_corners<O: Arithmetic>(
    solid: &Solid<O>,
    round: spec_fn(real) -> u32,
    a: Point,
    b: Point,
    c: Point,
    middle: (real, real, real),
)
    requires
        rounds(&solid.ops, round),
        a.finite() && b.finite() && c.finite(),
        holds(added(place(a), place(b))),
        holds(added(added(place(a), place(b)), place(c))),
        scaled(middle, 3 as real) == added(added(place(a), place(b)), place(c)),
        holds(middle),
    ensures
        solid.spec_centroid(a, b, c).finite(),
        place(solid.spec_centroid(a, b, c)) == middle,
{
    meaning::constants_mean_what_they_say();
    space::sums_add_places(&solid.ops, round, a, b);
    let two = arithmetic::spec_plus(&solid.ops, a, b);
    space::sums_add_places(&solid.ops, round, two, c);
    let all = arithmetic::spec_plus(&solid.ops, two, c);
    dab_laws::lemma_times_over(middle.0, 3 as real);
    dab_laws::lemma_times_over(middle.1, 3 as real);
    dab_laws::lemma_times_over(middle.2, 3 as real);
    space::parts_divide_places(&solid.ops, round, all, scalar::THREE);
}

/// The direction of vectors is that of their total, with length one.
pub proof fn a_direction_is_that_of_the_total<O: Arithmetic>(
    solid: &Solid<O>,
    round: spec_fn(real) -> u32,
    vectors: Seq<Point>,
    length: real,
)
    requires
        rounds(&solid.ops, round),
        space::adds_up(vectors),
        space::has_unit(space::total(vectors), length),
    ensures
        solid.spec_direction(vectors).finite(),
        scaled(place(solid.spec_direction(vectors)), length) == space::total(vectors),
{
    space::totals_add_places(&solid.ops, round, vectors);
    space::units_point_along(
        &solid.ops,
        round,
        arithmetic::spec_total(&solid.ops, vectors),
        length,
    );
}

/// Two vectors are opposed where they point more against than along each other.
pub proof fn opposed_vectors_point_against_each_other<O: Arithmetic>(
    solid: &Solid<O>,
    round: spec_fn(real) -> u32,
    u: Point,
    v: Point,
)
    requires
        rounds(&solid.ops, round),
        u.finite() && v.finite(),
        inner_fits(place(u), place(v)),
    ensures
        solid.spec_opposed(u, v) <==> inner(place(u), place(v)) < 0 as real,
{
    meaning::constants_mean_what_they_say();
    space::dots_are_inner_products(&solid.ops, round, u, v);
    meaning::values_are_ordered(arithmetic::spec_dot(&solid.ops, u, v), scalar::ZERO);
}

} // verus!
