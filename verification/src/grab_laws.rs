//! Where a drag takes what is held, and what plane a brush works on, in numbers.
use crate::arithmetic;
use crate::arithmetic::Arithmetic;
use crate::brush::SymmetryAxis;
use crate::dab_laws;
use crate::dab_laws::between;
use crate::frame;
use crate::frame::BrushFrame;
use crate::grab;
use crate::meaning;
use crate::meaning::{fits, rounds, value};
use crate::mesh::Mesh;
use crate::scalar;
use crate::scalar::Point;
use crate::sculpt;
use crate::sculpt::{GrabState, GrabVertex};
use crate::space;
use crate::space::{added, holds, outer, outer_fits, place, scaled, subtracted};
use vstd::prelude::*;

verus! {

/// A drag goes on from how far it has come, by as much of the movement as is pressed.
pub proof fn a_drag_goes_on_by_the_pressure<O: Arithmetic>(
    ops: &O,
    round: spec_fn(real) -> u32,
    grab: GrabState,
    delta: Point,
    pressure: u32,
)
    requires
        rounds(ops, round),
        grab.desired_delta.finite() && delta.finite() && scalar::finite(pressure),
        holds(scaled(place(delta), between(value(pressure), 0 as real, 1 as real))),
        holds(
            added(
                place(grab.desired_delta),
                scaled(place(delta), between(value(pressure), 0 as real, 1 as real)),
            ),
        ),
    ensures
        grab::drag_after(ops, grab, delta, pressure).finite(),
        place(grab::drag_after(ops, grab, delta, pressure)) == added(
            place(grab.desired_delta),
            scaled(place(delta), between(value(pressure), 0 as real, 1 as real)),
        ),
{
    meaning::constants_mean_what_they_say();
    dab_laws::clamping_brings_between(pressure, scalar::ZERO, scalar::ONE);
    let part = scalar::clamped(pressure, scalar::ZERO, scalar::ONE);
    space::multiples_scale_places(ops, round, delta, part);
    space::sums_add_places(
        ops,
        round,
        grab.desired_delta,
        arithmetic::spec_times(ops, delta, part),
    );
}

/// The drag as it is on the other side of the symmetry.
pub open spec fn across(
    symmetry: Option<SymmetryAxis>,
    drag: (real, real, real),
) -> (real, real, real) {
    match symmetry {
        None => drag,
        Some(SymmetryAxis::X) => (-drag.0, drag.1, drag.2),
        Some(SymmetryAxis::Y) => (drag.0, -drag.1, drag.2),
        Some(SymmetryAxis::Z) => (drag.0, drag.1, -drag.2),
    }
}

/// What is held on one side goes with the drag, or with its mirror image, by as much as it is held.
pub proof fn what_is_held_on_one_side_goes_with_that_side<O: Arithmetic>(
    ops: &O,
    round: spec_fn(real) -> u32,
    grab: GrabState,
    drag: Point,
    vertex: u32,
)
    requires
        rounds(ops, round),
        drag.finite(),
        ({
            let hold = grab.vertices@[vertex];
            let way = if value(hold.mirrored_influence) > 0 as real {
                scaled(across(grab.symmetry, place(drag)), value(hold.mirrored_influence))
            } else {
                scaled(place(drag), value(hold.primary_influence))
            };
            &&& hold.base.finite()
            &&& scalar::finite(hold.primary_influence) && scalar::finite(hold.mirrored_influence)
            &&& value(hold.primary_influence) <= 0 as real || value(hold.mirrored_influence)
                <= 0 as real
            &&& holds(way)
            &&& holds(added(place(hold.base), way))
        }),
    ensures
        ({
            let hold = grab.vertices@[vertex];
            let way = if value(hold.mirrored_influence) > 0 as real {
                scaled(across(grab.symmetry, place(drag)), value(hold.mirrored_influence))
            } else {
                scaled(place(drag), value(hold.primary_influence))
            };
            &&& grab::target_of(ops, grab, drag, vertex).finite()
            &&& place(grab::target_of(ops, grab, drag, vertex)) == added(place(hold.base), way)
        }),
{
    meaning::constants_mean_what_they_say();
    let hold = grab.vertices@[vertex];
    meaning::values_are_ordered(scalar::ZERO, hold.primary_influence);
    meaning::values_are_ordered(scalar::ZERO, hold.mirrored_influence);
    meaning::the_sign_is_the_sign(drag.x);
    meaning::the_sign_is_the_sign(drag.y);
    meaning::the_sign_is_the_sign(drag.z);
    let reflected = grab::mirrored_drag(grab.symmetry, drag);
    assert(reflected.finite() && place(reflected) == across(grab.symmetry, place(drag)));
    if value(hold.mirrored_influence) > 0 as real {
        space::multiples_scale_places(ops, round, reflected, hold.mirrored_influence);
    } else {
        space::multiples_scale_places(ops, round, drag, hold.primary_influence);
    }
    space::sums_add_places(
        ops,
        round,
        hold.base,
        grab::dragged_by(ops, hold, drag, grab.symmetry),
    );
}

/// What is held on both sides goes with the average of the drag and its mirror image, weighted by how
/// much either side holds it, by as much as the stronger side does.
pub proof fn what_is_held_on_both_sides_goes_with_their_average<O: Arithmetic>(
    ops: &O,
    round: spec_fn(real) -> u32,
    hold: GrabVertex,
    drag: Point,
    symmetry: Option<SymmetryAxis>,
    average: (real, real, real),
)
    requires
        rounds(ops, round),
        drag.finite(),
        scalar::finite(hold.primary_influence) && scalar::finite(hold.mirrored_influence),
        value(hold.primary_influence) > 0 as real && value(hold.mirrored_influence) > 0 as real,
        ({
            let (p, m) = (value(hold.primary_influence), value(hold.mirrored_influence));
            let both = added(
                scaled(place(drag), p),
                scaled(across(symmetry, place(drag)), m),
            );
            &&& holds(scaled(place(drag), p)) && holds(scaled(across(symmetry, place(drag)), m))
            &&& holds(both)
            &&& fits(p + m)
            &&& scaled(average, p + m) == both
            &&& holds(average)
            &&& holds(scaled(average, if p > m { p } else { m }))
        }),
    ensures
        ({
            let (p, m) = (value(hold.primary_influence), value(hold.mirrored_influence));
            &&& grab::dragged_by(ops, hold, drag, symmetry).finite()
            &&& place(grab::dragged_by(ops, hold, drag, symmetry)) == scaled(
                average,
                if p > m {
                    p
                } else {
                    m
                },
            )
        }),
{
    meaning::constants_mean_what_they_say();
    let (primary, mirrored) = (hold.primary_influence, hold.mirrored_influence);
    let (p, m) = (value(primary), value(mirrored));
    meaning::values_are_ordered(scalar::ZERO, primary);
    meaning::values_are_ordered(scalar::ZERO, mirrored);
    meaning::the_sign_is_the_sign(drag.x);
    meaning::the_sign_is_the_sign(drag.y);
    meaning::the_sign_is_the_sign(drag.z);
    let reflected = grab::mirrored_drag(symmetry, drag);
    assert(reflected.finite() && place(reflected) == across(symmetry, place(drag)));
    space::multiples_scale_places(ops, round, drag, primary);
    space::multiples_scale_places(ops, round, reflected, mirrored);
    let (a, b) = (
        arithmetic::spec_times(ops, drag, primary),
        arithmetic::spec_times(ops, reflected, mirrored),
    );
    space::sums_add_places(ops, round, a, b);
    let both = arithmetic::spec_plus(ops, a, b);
    meaning::lemma_sum(ops, round, primary, mirrored);
    let whole = ops.spec_sum(primary, mirrored);
    let (x, y, z) = average;
    dab_laws::lemma_times_over(x, p + m);
    dab_laws::lemma_times_over(y, p + m);
    dab_laws::lemma_times_over(z, p + m);
    space::parts_divide_places(ops, round, both, whole);
    dab_laws::extremes_bound_both(primary, mirrored);
    space::multiples_scale_places(
        ops,
        round,
        arithmetic::spec_over(ops, both, whole),
        scalar::greatest(primary, mirrored),
    );
}

/// A share of the way to a target starts at where the vertex was taken hold of, and the whole of it
/// ends at the target.
pub proof fn a_share_of_the_way_starts_at_the_base<O: Arithmetic>(
    ops: &O,
    round: spec_fn(real) -> u32,
    grab: GrabState,
    vertex: u32,
    target: Point,
    scale: u32,
)
    requires
        rounds(ops, round),
        target.finite() && scalar::finite(scale),
        ({
            let base = grab.vertices@[vertex].base;
            let way = subtracted(place(target), place(base));
            &&& base.finite()
            &&& holds(way)
            &&& holds(scaled(way, value(scale)))
            &&& holds(added(place(base), scaled(way, value(scale))))
        }),
    ensures
        ({
            let base = place(grab.vertices@[vertex].base);
            let found = grab::place_on_way(ops, grab, vertex, target, scale);
            &&& found.finite()
            &&& place(found) == added(
                base,
                scaled(subtracted(place(target), base), value(scale)),
            )
            &&& value(scale) == 1 as real ==> place(found) == place(target)
            &&& value(scale) == 0 as real ==> place(found) == base
        }),
{
    let base = grab.vertices@[vertex].base;
    space::differences_subtract_places(ops, round, target, base);
    let way = arithmetic::spec_minus(ops, target, base);
    space::multiples_scale_places(ops, round, way, scale);
    space::sums_add_places(ops, round, base, arithmetic::spec_times(ops, way, scale));
    let (x, y, z) = place(way);
    let s = value(scale);
    if s == 0 as real {
        assert(x * s == 0 as real);
        assert(y * s == 0 as real);
        assert(z * s == 0 as real);
    }
    if s == 1 as real {
        assert(x * s == x);
        assert(y * s == y);
        assert(z * s == z);
    }
}

/// The shares of a step that are tried start with the whole of it, and each is half the one before.
pub proof fn each_share_tried_is_half_the_one_before(i: int)
    requires
        0 <= i < sculpt::SCALE_COUNT - 1,
    ensures
        value(sculpt::scale_at(0)) == 1 as real,
        scalar::finite(sculpt::scale_at(i + 1)),
        value(sculpt::scale_at(i + 1)) * (2 as real) == value(sculpt::scale_at(i)),
{
    meaning::constants_mean_what_they_say();
    meaning::lemma_powers();
    meaning::lemma_value_of(0x3e80_0000, 125, 0);
    meaning::lemma_value_of(0x3e00_0000, 124, 0);
    meaning::lemma_value_of(0x3d80_0000, 123, 0);
    meaning::lemma_value_of(0x3d00_0000, 122, 0);
}

/// The numbers that a frame goes by.
pub proof fn frames_go_by_these_numbers()
    ensures
        scalar::finite(frame::SIX) && value(frame::SIX) == 6 as real,
        scalar::finite(frame::PLANE_GAIN) && scalar::finite(frame::PLANE_KEEP),
        34999999 as real / (100000000 as real) < value(frame::PLANE_GAIN) < 35000001 as real / (
        100000000 as real),
        64999990 as real / (100000000 as real) < value(frame::PLANE_KEEP) < 65000001 as real / (
        100000000 as real),
{
    meaning::lemma_powers();
    meaning::lemma_value_of(frame::SIX, 129, 0x40_0000);
    meaning::lemma_value_of(frame::PLANE_GAIN, 125, 0x33_3333);
    meaning::lemma_value_of(frame::PLANE_KEEP, 126, 0x26_6666);
}

/// A face gives each of its corners a third of its area: six times that is the length of the outer
/// product of two sides, which is twice the area.
pub proof fn a_corner_gets_a_third_of_the_area<O: Arithmetic>(
    ops: &O,
    round: spec_fn(real) -> u32,
    mesh: Mesh,
    face: u32,
    doubled: real,
)
    requires
        rounds(ops, round),
        ({
            let corners = mesh.triangles@[face as int];
            let a = mesh.positions@[corners@[0] as int];
            let b = mesh.positions@[corners@[1] as int];
            let c = mesh.positions@[corners@[2] as int];
            let (ab, ac) = (subtracted(place(b), place(a)), subtracted(place(c), place(a)));
            &&& a.finite() && b.finite() && c.finite()
            &&& holds(ab) && holds(ac) && outer_fits(ab, ac)
            &&& space::inner_fits(outer(ab, ac), outer(ab, ac))
            &&& doubled >= 0 as real
            &&& doubled * doubled == space::inner(outer(ab, ac), outer(ab, ac))
            &&& fits(doubled) && fits(doubled / (6 as real))
        }),
    ensures
        scalar::finite(frame::third_of_area(ops, mesh, face)),
        value(frame::third_of_area(ops, mesh, face)) * (6 as real) == doubled,
{
    let corners = mesh.triangles@[face as int];
    let a = mesh.positions@[corners@[0] as int];
    let b = mesh.positions@[corners@[1] as int];
    let c = mesh.positions@[corners@[2] as int];
    frames_go_by_these_numbers();
    space::differences_subtract_places(ops, round, b, a);
    space::differences_subtract_places(ops, round, c, a);
    let (ab, ac) = (arithmetic::spec_minus(ops, b, a), arithmetic::spec_minus(ops, c, a));
    space::crosses_are_outer_products(ops, round, ab, ac);
    let cross = arithmetic::spec_cross(ops, ab, ac);
    space::lengths_are_roots_of_squares(ops, round, cross, doubled);
    meaning::lemma_quotient(ops, round, arithmetic::spec_length(ops, cross), frame::SIX);
}

/// A plane that is kept follows the surface by a part of the way: its origin goes from where it was
/// towards where the surface is, by `0.35` of the way, and the rest is kept.
pub proof fn a_kept_plane_follows_the_surface<O: Arithmetic>(
    ops: &O,
    round: spec_fn(real) -> u32,
    previous: BrushFrame,
    raw: BrushFrame,
)
    requires
        rounds(ops, round),
        previous.origin.finite() && raw.origin.finite(),
        ({
            let gain = value(frame::PLANE_GAIN);
            let kept = scaled(place(previous.origin), 1 as real - gain);
            let more = scaled(place(raw.origin), gain);
            fits(1 as real - gain) && holds(kept) && holds(more) && holds(added(kept, more))
        }),
    ensures
        frame::settled_frame(ops, previous, raw).origin.finite(),
        place(frame::settled_frame(ops, previous, raw).origin) == added(
            place(previous.origin),
            scaled(
                subtracted(place(raw.origin), place(previous.origin)),
                value(frame::PLANE_GAIN),
            ),
        ),
{
    meaning::constants_mean_what_they_say();
    frames_go_by_these_numbers();
    meaning::lemma_difference(ops, round, scalar::ONE, frame::PLANE_GAIN);
    let keep = ops.spec_difference(scalar::ONE, frame::PLANE_GAIN);
    space::multiples_scale_places(ops, round, previous.origin, keep);
    space::multiples_scale_places(ops, round, raw.origin, frame::PLANE_GAIN);
    space::sums_add_places(
        ops,
        round,
        arithmetic::spec_times(ops, previous.origin, keep),
        arithmetic::spec_times(ops, raw.origin, frame::PLANE_GAIN),
    );
    let g = value(frame::PLANE_GAIN);
    let (x, y, z) = place(previous.origin);
    let (a, b, c) = place(raw.origin);
    lemma_blend(x, a, g);
    lemma_blend(y, b, g);
    lemma_blend(z, c, g);
}

/// The normal of a kept plane goes the way of what it was and of the surface's, turned to its side,
/// together: `0.65` of the one and `0.35` of the other, brought to length one.
pub proof fn a_kept_plane_turns_with_the_surface<O: Arithmetic>(
    ops: &O,
    round: spec_fn(real) -> u32,
    previous: BrushFrame,
    raw: BrushFrame,
    length: real,
)
    requires
        rounds(ops, round),
        previous.normal.finite() && raw.normal.finite(),
        space::inner_fits(place(raw.normal), place(previous.normal)),
        ({
            let kept = scaled(place(previous.normal), value(frame::PLANE_KEEP));
            let side = crate::tool_laws::facing(place(raw.normal), place(previous.normal));
            let more = scaled(side, value(frame::PLANE_GAIN));
            &&& holds(kept) && holds(more) && holds(added(kept, more))
            &&& space::has_unit(added(kept, more), length)
        }),
    ensures
        ({
            let kept = scaled(place(previous.normal), value(frame::PLANE_KEEP));
            let side = crate::tool_laws::facing(place(raw.normal), place(previous.normal));
            let more = scaled(side, value(frame::PLANE_GAIN));
            let normal = frame::settled_frame(ops, previous, raw).normal;
            &&& normal.finite()
            &&& scaled(place(normal), length) == added(kept, more)
        }),
{
    frames_go_by_these_numbers();
    crate::tool_laws::lemma_facing(ops, round, raw.normal, previous.normal);
    let side = frame::turned(ops, raw.normal, previous.normal);
    space::multiples_scale_places(ops, round, previous.normal, frame::PLANE_KEEP);
    space::multiples_scale_places(ops, round, side, frame::PLANE_GAIN);
    let (kept, more) = (
        arithmetic::spec_times(ops, previous.normal, frame::PLANE_KEEP),
        arithmetic::spec_times(ops, side, frame::PLANE_GAIN),
    );
    space::sums_add_places(ops, round, kept, more);
    space::units_point_along(ops, round, arithmetic::spec_plus(ops, kept, more), length);
}

/// A frame's origin is the average of the vertices that a brush reaches, weighted by the falloff and
/// the surface around each: one more vertex adds its position by its weight, and its weight.
pub proof fn a_frame_averages_what_it_reaches<O: Arithmetic>(
    ops: &O,
    round: spec_fn(real) -> u32,
    mesh: Mesh,
    settings: crate::brush::BrushSettings,
    sample: crate::brush::BrushSample,
    sum: frame::FrameSum,
    vertex: u32,
)
    requires
        rounds(ops, round),
        sum.position.finite() && scalar::finite(sum.weight),
        mesh.positions@[vertex as int].finite(),
        scalar::finite(frame::surface_at(ops, mesh, vertex)),
        ({
            let position = mesh.positions@[vertex as int];
            let falloff = crate::brush::weight_at(ops, settings, sample.center, position);
            let surface = value(frame::surface_at(ops, mesh, vertex));
            let weight = value(falloff) * surface;
            &&& scalar::finite(falloff) && value(falloff) > value(scalar::EPSILON)
            &&& surface >= value(scalar::EPSILON)
            &&& fits(weight) && fits(value(sum.weight) + weight)
            &&& holds(scaled(place(position), weight))
            &&& holds(added(place(sum.position), scaled(place(position), weight)))
        }),
    ensures
        ({
            let position = mesh.positions@[vertex as int];
            let falloff = crate::brush::weight_at(ops, settings, sample.center, position);
            let weight = value(falloff) * value(frame::surface_at(ops, mesh, vertex));
            let more = frame::summed_with(ops, mesh, settings, sample, sum, vertex);
            &&& more.position.finite() && scalar::finite(more.weight)
            &&& value(more.weight) == value(sum.weight) + weight
            &&& place(more.position) == added(
                place(sum.position),
                scaled(place(position), weight),
            )
        }),
{
    let position = mesh.positions@[vertex as int];
    let falloff = crate::brush::weight_at(ops, settings, sample.center, position);
    let surface = frame::surface_at(ops, mesh, vertex);
    meaning::values_are_ordered(falloff, scalar::EPSILON);
    dab_laws::extremes_bound_both(surface, scalar::EPSILON);
    let larger = scalar::greatest(surface, scalar::EPSILON);
    meaning::lemma_product(ops, round, falloff, larger);
    let weight = ops.spec_product(falloff, larger);
    space::multiples_scale_places(ops, round, position, weight);
    space::sums_add_places(
        ops,
        round,
        sum.position,
        arithmetic::spec_times(ops, position, weight),
    );
    meaning::lemma_sum(ops, round, sum.weight, weight);
}

/// What was added up is divided by the weight of it all.
pub proof fn a_frame_lies_at_the_weighted_average<O: Arithmetic>(
    ops: &O,
    round: spec_fn(real) -> u32,
    mesh: Mesh,
    settings: crate::brush::BrushSettings,
    sample: crate::brush::BrushSample,
    vertices: Seq<u32>,
    average: (real, real, real),
)
    requires
        rounds(ops, round),
        ({
            let sum = frame::summed(ops, mesh, settings, sample, vertices);
            &&& sum.position.finite() && scalar::finite(sum.weight)
            &&& value(sum.weight) > value(scalar::EPSILON)
            &&& scaled(average, value(sum.weight)) == place(sum.position)
            &&& holds(average)
        }),
    ensures
        frame::raw_frame(ops, mesh, settings, sample, vertices).origin.finite(),
        place(frame::raw_frame(ops, mesh, settings, sample, vertices).origin) == average,
{
    let sum = frame::summed(ops, mesh, settings, sample, vertices);
    meaning::constants_mean_what_they_say();
    meaning::values_are_ordered(sum.weight, scalar::EPSILON);
    meaning::values_are_ordered(scalar::ZERO, scalar::EPSILON);
    let w = value(sum.weight);
    let (x, y, z) = average;
    dab_laws::lemma_times_over(x, w);
    dab_laws::lemma_times_over(y, w);
    dab_laws::lemma_times_over(z, w);
    space::parts_divide_places(ops, round, sum.position, sum.weight);
}

proof fn lemma_blend(x: real, a: real, g: real)
    ensures
        x * (1 as real - g) + a * g == x + (a - x) * g,
{
    assert(x * (1 as real - g) + a * g == x + (a - x) * g) by (nonlinear_arith);
}

} // verus!
