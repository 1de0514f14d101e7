//! How strongly a dab moves and masks a vertex, in numbers.
use crate::arithmetic;
use crate::arithmetic::Arithmetic;
use crate::brush;
use crate::brush::{BrushSample, BrushSettings};
use crate::meaning;
use crate::meaning::{fits, rounds, value};
use crate::mesh::Mesh;
use crate::proposal;
use crate::proposal::{Contribution, ProposalAccumulator};
use crate::scalar;
use crate::scalar::Point;
use crate::space;
use crate::space::{added, holds, place, scaled};
use vstd::prelude::*;

verus! {

/// A number brought between two others.
pub open spec fn between(number: real, low: real, high: real) -> real {
    if number < low {
        low
    } else if number > high {
        high
    } else {
        number
    }
}

/// Clamping a number brings it between its bounds, and leaves what lies there as it is.
pub proof fn clamping_brings_between(bits: u32, low: u32, high: u32)
    requires
        scalar::finite(bits) && scalar::finite(low) && scalar::finite(high),
        value(low) <= value(high),
    ensures
        scalar::finite(scalar::clamped(bits, low, high)),
        value(scalar::clamped(bits, low, high)) == between(value(bits), value(low), value(high)),
{
    meaning::values_are_ordered(bits, low);
    meaning::values_are_ordered(high, bits);
}

/// The smaller and the larger of two numbers are among them, and bound them.
pub proof fn extremes_bound_both(a: u32, b: u32)
    requires
        scalar::finite(a) && scalar::finite(b),
    ensures
        scalar::finite(scalar::least(a, b)) && scalar::finite(scalar::greatest(a, b)),
        value(scalar::least(a, b)) == value(a) || value(scalar::least(a, b)) == value(b),
        value(scalar::greatest(a, b)) == value(a) || value(scalar::greatest(a, b)) == value(b),
        value(scalar::least(a, b)) <= value(a) && value(scalar::least(a, b)) <= value(b),
        value(scalar::greatest(a, b)) >= value(a) && value(scalar::greatest(a, b)) >= value(b),
{
    meaning::values_are_ordered(a, b);
    meaning::values_are_ordered(b, a);
}

/// How large a number is without its sign.
pub open spec fn size_of(number: real) -> real {
    if number < 0 as real {
        -number
    } else {
        number
    }
}

/// Dropping the sign of a pattern drops the sign of the number.
pub proof fn magnitudes_are_sizes(bits: u32)
    requires
        scalar::finite(bits),
    ensures
        scalar::finite(scalar::magnitude(bits) as u32),
        value(scalar::magnitude(bits) as u32) == size_of(value(bits)),
{
    let positive = scalar::magnitude(bits) as u32;
    meaning::constants_mean_what_they_say();
    meaning::the_sign_is_the_sign(bits);
    meaning::values_are_ordered(positive, scalar::ZERO);
    meaning::values_are_ordered(bits, scalar::ZERO);
    assert(positive == bits || positive == scalar::negated(bits));
}

/// How strong a dab is: its strength without its sign, by the pressure.
pub open spec fn force(settings: BrushSettings, sample: BrushSample) -> real {
    size_of(value(settings.strength)) * between(value(sample.pressure), 0 as real, 1 as real)
}

/// The share of a vertex that is not masked.
pub open spec fn free(mask: u32) -> real {
    1 as real - between(value(mask), 0 as real, 1 as real)
}

/// The strength of a dab is that of the brush by the pressure, which counts from nothing to full.
pub proof fn a_dab_is_as_strong_as_it_is_pressed<O: Arithmetic>(
    ops: &O,
    round: spec_fn(real) -> u32,
    settings: BrushSettings,
    sample: BrushSample,
)
    requires
        rounds(ops, round),
        scalar::finite(settings.strength) && scalar::finite(sample.pressure),
        fits(force(settings, sample)),
    ensures
        scalar::finite(proposal::dab_strength(ops, settings, sample)),
        value(proposal::dab_strength(ops, settings, sample)) == force(settings, sample),
{
    meaning::constants_mean_what_they_say();
    magnitudes_are_sizes(settings.strength);
    clamping_brings_between(sample.pressure, scalar::ZERO, scalar::ONE);
    meaning::lemma_product(
        ops,
        round,
        scalar::magnitude(settings.strength) as u32,
        scalar::clamped(sample.pressure, scalar::ZERO, scalar::ONE),
    );
}

/// The influence of a dab on a vertex is its strength by the falloff there, by the share that is not
/// masked.
pub proof fn an_influence_is_what_the_mask_leaves<O: Arithmetic>(
    ops: &O,
    round: spec_fn(real) -> u32,
    mesh: Mesh,
    settings: BrushSettings,
    sample: BrushSample,
    vertex: u32,
)
    requires
        rounds(ops, round),
        scalar::finite(settings.strength) && scalar::finite(sample.pressure),
        scalar::finite(mesh.mask@[vertex as int]),
        fits(force(settings, sample)),
        fits(free(mesh.mask@[vertex as int])),
        ({
            let weight = brush::weight_at(
                ops,
                settings,
                sample.center,
                mesh.positions@[vertex as int],
            );
            &&& scalar::finite(weight)
            &&& fits(force(settings, sample) * value(weight))
            &&& fits(force(settings, sample) * value(weight) * free(mesh.mask@[vertex as int]))
        }),
    ensures
        ({
            let weight = brush::weight_at(
                ops,
                settings,
                sample.center,
                mesh.positions@[vertex as int],
            );
            value(proposal::influence_at(ops, mesh, settings, sample, vertex)) == force(
                settings,
                sample,
            ) * value(weight) * free(mesh.mask@[vertex as int])
        }),
        scalar::finite(proposal::influence_at(ops, mesh, settings, sample, vertex)),
{
    meaning::constants_mean_what_they_say();
    let mask = mesh.mask@[vertex as int];
    let weight = brush::weight_at(ops, settings, sample.center, mesh.positions@[vertex as int]);
    a_dab_is_as_strong_as_it_is_pressed(ops, round, settings, sample);
    let strength = proposal::dab_strength(ops, settings, sample);
    clamping_brings_between(mask, scalar::ZERO, scalar::ONE);
    meaning::lemma_difference(
        ops,
        round,
        scalar::ONE,
        scalar::clamped(mask, scalar::ZERO, scalar::ONE),
    );
    meaning::lemma_product(ops, round, strength, weight);
    meaning::lemma_product(
        ops,
        round,
        ops.spec_product(strength, weight),
        proposal::unmasked_at(ops, mesh, vertex),
    );
}

/// What a dab paints on a mask is its strength by the falloff, where both are more than negligible.
pub proof fn paint_is_as_strong_as_the_dab<O: Arithmetic>(
    ops: &O,
    round: spec_fn(real) -> u32,
    mesh: Mesh,
    settings: BrushSettings,
    sample: BrushSample,
    vertex: u32,
)
    requires
        rounds(ops, round),
        scalar::finite(settings.strength) && scalar::finite(sample.pressure),
        fits(force(settings, sample)),
        force(settings, sample) > value(scalar::EPSILON),
        ({
            let weight = brush::weight_at(
                ops,
                settings,
                sample.center,
                mesh.positions@[vertex as int],
            );
            &&& scalar::finite(weight)
            &&& value(weight) > value(scalar::EPSILON)
            &&& fits(force(settings, sample) * value(weight))
        }),
    ensures
        ({
            let weight = brush::weight_at(
                ops,
                settings,
                sample.center,
                mesh.positions@[vertex as int],
            );
            proposal::paint_at(ops, mesh, settings, sample, vertex) matches Some(paint)
                && scalar::finite(paint) && value(paint) == force(settings, sample) * value(weight)
        }),
{
    let weight = brush::weight_at(ops, settings, sample.center, mesh.positions@[vertex as int]);
    a_dab_is_as_strong_as_it_is_pressed(ops, round, settings, sample);
    let strength = proposal::dab_strength(ops, settings, sample);
    meaning::values_are_ordered(strength, scalar::EPSILON);
    meaning::values_are_ordered(weight, scalar::EPSILON);
    meaning::lemma_product(ops, round, strength, weight);
}

/// What is left of an influence beyond what was done is their difference, or nothing.
pub proof fn what_was_done_is_taken_off<O: Arithmetic>(
    ops: &O,
    round: spec_fn(real) -> u32,
    previous: u32,
    current: u32,
)
    requires
        rounds(ops, round),
        scalar::finite(previous) && scalar::finite(current),
        fits(value(current) - value(previous)),
    ensures
        scalar::finite(proposal::beyond(ops, previous, current)),
        value(proposal::beyond(ops, previous, current)) == if value(current) > value(previous) {
            value(current) - value(previous)
        } else {
            0 as real
        },
{
    meaning::constants_mean_what_they_say();
    meaning::values_are_ordered(current, previous);
    meaning::lemma_difference(ops, round, current, previous);
}

/// Contributions to a vertex add up by their influences, and the largest influence is kept.
pub proof fn contributions_add_up<O: Arithmetic>(
    ops: &O,
    round: spec_fn(real) -> u32,
    proposal: ProposalAccumulator,
    more: Contribution,
)
    requires
        rounds(ops, round),
        proposal.weighted_unit.finite() && more.unit.finite(),
        scalar::finite(proposal.influence_sum) && scalar::finite(more.influence),
        scalar::finite(proposal.maximum_influence),
        holds(scaled(place(more.unit), value(more.influence))),
        holds(
            added(
                place(proposal.weighted_unit),
                scaled(place(more.unit), value(more.influence)),
            ),
        ),
        fits(value(proposal.influence_sum) + value(more.influence)),
    ensures
        ({
            let joined = proposal::joined(ops, proposal, more);
            &&& joined.weighted_unit.finite() && scalar::finite(joined.influence_sum)
            &&& place(joined.weighted_unit) == added(
                place(proposal.weighted_unit),
                scaled(place(more.unit), value(more.influence)),
            )
            &&& value(joined.influence_sum) == value(proposal.influence_sum) + value(
                more.influence,
            )
            &&& value(joined.maximum_influence) >= value(proposal.maximum_influence)
            &&& value(joined.maximum_influence) >= value(more.influence)
            &&& joined.maximum_influence == proposal.maximum_influence || joined.maximum_influence
                == more.influence
        }),
{
    space::multiples_scale_places(ops, round, more.unit, more.influence);
    space::sums_add_places(
        ops,
        round,
        proposal.weighted_unit,
        arithmetic::spec_times(ops, more.unit, more.influence),
    );
    meaning::lemma_sum(ops, round, proposal.influence_sum, more.influence);
    extremes_bound_both(proposal.maximum_influence, more.influence);
}

/// A vertex is moved by the average of what was proposed, each weighted by its influence, and by no
/// more than all of it: as far as the largest influence goes that the stroke still allows.
pub proof fn a_vertex_moves_by_the_weighted_average<O: Arithmetic>(
    ops: &O,
    round: spec_fn(real) -> u32,
    account: Option<Map<u32, u32>>,
    vertex: u32,
    proposal: ProposalAccumulator,
    average: (real, real, real),
)
    requires
        rounds(ops, round),
        proposal.weighted_unit.finite(),
        scalar::finite(proposal.influence_sum),
        value(proposal.influence_sum) > 0 as real,
        scaled(average, value(proposal.influence_sum)) == place(proposal.weighted_unit),
        holds(average),
        ({
            let influence = proposal::allowed(ops, account, vertex, proposal.maximum_influence);
            &&& scalar::finite(influence)
            &&& holds(scaled(average, between(value(influence), value(influence), 1 as real)))
        }),
    ensures
        ({
            let influence = proposal::allowed(ops, account, vertex, proposal.maximum_influence);
            proposal::displacement(ops, account, vertex, proposal) matches Some(step)
                ==> step.finite() && place(step) == scaled(
                average,
                if value(influence) > 1 as real {
                    1 as real
                } else {
                    value(influence)
                },
            )
        }),
        account is None ==> proposal::allowed(ops, account, vertex, proposal.maximum_influence)
            == proposal.maximum_influence,
{
    meaning::constants_mean_what_they_say();
    let influence = proposal::allowed(ops, account, vertex, proposal.maximum_influence);
    extremes_bound_both(influence, scalar::ONE);
    let s = value(proposal.influence_sum);
    let (x, y, z) = average;
    lemma_times_over(x, s);
    lemma_times_over(y, s);
    lemma_times_over(z, s);
    space::parts_divide_places(ops, round, proposal.weighted_unit, proposal.influence_sum);
    space::multiples_scale_places(
        ops,
        round,
        arithmetic::spec_over(ops, proposal.weighted_unit, proposal.influence_sum),
        scalar::least(influence, scalar::ONE),
    );
}

/// Dividing undoes multiplying.
pub proof fn lemma_times_over(x: real, s: real)
    requires
        s != 0 as real,
    ensures
        x * s / s == x,
{
    assert(x * s / s == x) by (nonlinear_arith)
        requires
            s != 0 as real,
    ;
}

/// Painting a mask adds what the stroke allows, and the other way round takes it off; the mask stays
/// between nothing and full.
pub proof fn painting_adds_to_the_mask<O: Arithmetic>(
    ops: &O,
    round: spec_fn(real) -> u32,
    mesh: Mesh,
    account: Option<Map<u32, u32>>,
    inverted: bool,
    vertex: u32,
    paint: u32,
)
    requires
        rounds(ops, round),
        scalar::finite(mesh.mask@[vertex as int]),
        scalar::finite(proposal::allowed(ops, account, vertex, paint)),
        ({
            let more = value(proposal::allowed(ops, account, vertex, paint));
            let mask = value(mesh.mask@[vertex as int]);
            fits(mask + more) && fits(mask - more)
        }),
    ensures
        ({
            let more = value(proposal::allowed(ops, account, vertex, paint));
            let mask = value(mesh.mask@[vertex as int]);
            value(proposal::repainted(ops, mesh, account, inverted, vertex, paint)) == between(
                if inverted {
                    mask - more
                } else {
                    mask + more
                },
                0 as real,
                1 as real,
            )
        }),
        scalar::finite(proposal::repainted(ops, mesh, account, inverted, vertex, paint)),
{
    meaning::constants_mean_what_they_say();
    crate::tool_laws::tools_go_by_these_numbers();
    let mask = mesh.mask@[vertex as int];
    let allowed = proposal::allowed(ops, account, vertex, paint);
    let sign = proposal::sign_of(inverted);
    meaning::lemma_product(ops, round, sign, allowed);
    meaning::the_sign_is_the_sign(allowed);
    assert(fits(value(allowed)) && fits(value(scalar::negated(allowed))));
    let a = value(allowed);
    assert(1 as real * a == a);
    assert(-(1 as real) * a == -a);
    let signed = ops.spec_product(sign, allowed);
    assert(value(signed) == if inverted {
        -a
    } else {
        a
    });
    meaning::lemma_sum(ops, round, mask, signed);
    clamping_brings_between(ops.spec_sum(mask, signed), scalar::ZERO, scalar::ONE);
}

/// A vertex is moved from where it is by a share of its step.
pub proof fn a_step_is_taken_from_where_the_vertex_is<O: Arithmetic>(
    ops: &O,
    round: spec_fn(real) -> u32,
    mesh: Mesh,
    vertex: u32,
    step: Point,
    scale: u32,
)
    requires
        rounds(ops, round),
        mesh.positions@[vertex as int].finite() && step.finite() && scalar::finite(scale),
        holds(scaled(place(step), value(scale))),
        holds(added(place(mesh.positions@[vertex as int]), scaled(place(step), value(scale)))),
    ensures
        proposal::moved_by(ops, mesh, vertex, step, scale).finite(),
        place(proposal::moved_by(ops, mesh, vertex, step, scale)) == added(
            place(mesh.positions@[vertex as int]),
            scaled(place(step), value(scale)),
        ),
{
    space::multiples_scale_places(ops, round, step, scale);
    space::sums_add_places(
        ops,
        round,
        mesh.positions@[vertex as int],
        arithmetic::spec_times(ops, step, scale),
    );
}

} // verus!
