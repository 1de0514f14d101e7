//! Where each tool moves a vertex, in numbers.
use crate::arithmetic;
use crate::arithmetic::Arithmetic;
use crate::brush::{BrushSample, BrushSettings, SculptTool};
use crate::frame::BrushFrame;
use crate::meaning;
use crate::meaning::{fits, rounds, value};
use crate::mesh::Mesh;
use crate::proposal;
use crate::scalar;
use crate::scalar::Point;
use crate::space;
use crate::space::{added, holds, inner, inner_fits, place, scaled, subtracted};
use vstd::prelude::*;

verus! {

/// The numbers that the tools go by: a full dab is `0.15` radii high, and a crease pulls its sides
/// two thirds of the way together.
pub proof fn tools_go_by_these_numbers()
    ensures
        value(proposal::MINUS_ONE) == -(1 as real),
        scalar::finite(proposal::MINUS_ONE),
        scalar::finite(proposal::HEIGHT),
        scalar::finite(proposal::TWO_THIRDS),
        14999999 as real / (100000000 as real) < value(proposal::HEIGHT) < 15000001 as real / (
        100000000 as real),
        66666660 as real / (100000000 as real) < value(proposal::TWO_THIRDS) < 66666670 as real / (
        100000000 as real),
{
    meaning::constants_mean_what_they_say();
    meaning::the_sign_is_the_sign(scalar::ONE);
    assert(scalar::negated(scalar::ONE) == proposal::MINUS_ONE);
    meaning::lemma_powers();
    meaning::lemma_value_of(proposal::HEIGHT, 124, 0x19_999a);
    meaning::lemma_value_of(proposal::TWO_THIRDS, 126, 0x2a_aaab);
}

/// One, or minus one where a brush works the other way: where either its setting or the modifier
/// says so, but not both.
pub open spec fn sense(settings: BrushSettings, sample: BrushSample) -> real {
    if settings.invert && !sample.invert_modifier || !settings.invert && sample.invert_modifier {
        -(1 as real)
    } else {
        1 as real
    }
}

/// How high a full dab raises the surface.
pub open spec fn rise(settings: BrushSettings, sample: BrushSample) -> real {
    sense(settings, sample) * value(settings.radius) * value(proposal::HEIGHT)
}

proof fn lemma_sense(settings: BrushSettings, sample: BrushSample)
    ensures
        value(proposal::sign_of(proposal::inverted(settings, sample))) == sense(settings, sample),
        scalar::finite(proposal::sign_of(proposal::inverted(settings, sample))),
{
    meaning::constants_mean_what_they_say();
    tools_go_by_these_numbers();
}

proof fn lemma_rise<O: Arithmetic>(
    ops: &O,
    round: spec_fn(real) -> u32,
    settings: BrushSettings,
    sample: BrushSample,
)
    requires
        rounds(ops, round),
        scalar::finite(settings.radius),
        fits(rise(settings, sample)),
    ensures
        scalar::finite(proposal::height_of(ops, settings, sample)),
        value(proposal::height_of(ops, settings, sample)) == rise(settings, sample),
{
    lemma_sense(settings, sample);
    tools_go_by_these_numbers();
    let sign = proposal::sign_of(proposal::inverted(settings, sample));
    meaning::lemma_product(ops, round, sign, settings.radius);
    let r = value(settings.radius);
    meaning::the_sign_is_the_sign(settings.radius);
    assert(fits(value(settings.radius)) && fits(value(scalar::negated(settings.radius))));
    let reach = ops.spec_product(sign, settings.radius);
    meaning::lemma_product(ops, round, reach, proposal::HEIGHT);
}

/// Draw raises the surface along the normal of the frame, and the other way round lowers it by as
/// much.
pub proof fn draw_raises_along_the_normal<O: Arithmetic>(
    ops: &O,
    round: spec_fn(real) -> u32,
    mesh: Mesh,
    settings: BrushSettings,
    sample: BrushSample,
    frame: BrushFrame,
    smoothed: Map<u32, Point>,
    vertex: u32,
)
    requires
        rounds(ops, round),
        scalar::finite(settings.radius),
        frame.normal.finite(),
        fits(rise(settings, sample)),
        holds(scaled(place(frame.normal), rise(settings, sample))),
    ensures
        proposal::unit_step(
            ops,
            mesh,
            SculptTool::Draw,
            settings,
            sample,
            frame,
            smoothed,
            vertex,
        ) matches Some(step) && step.finite() && place(step) == scaled(
            place(frame.normal),
            rise(settings, sample),
        ),
{
    lemma_rise(ops, round, settings, sample);
    space::multiples_scale_places(
        ops,
        round,
        frame.normal,
        proposal::height_of(ops, settings, sample),
    );
}

/// The way to a plane, along its normal.
pub open spec fn onto(
    point: (real, real, real),
    plane: (real, real, real),
    normal: (real, real, real),
) -> (real, real, real) {
    scaled(normal, inner(subtracted(plane, point), normal))
}

/// An inner product grows with its first factor.
pub proof fn lemma_inner_of_scaled(a: (real, real, real), t: real, b: (real, real, real))
    ensures
        inner(scaled(a, t), b) == t * inner(a, b),
{
    let (x, y, z) = a;
    let (p, q, r) = b;
    assert(x * t * p == t * (x * p)) by (nonlinear_arith);
    assert(y * t * q == t * (y * q)) by (nonlinear_arith);
    assert(z * t * r == t * (z * r)) by (nonlinear_arith);
    let (i, j, k) = (x * p, y * q, z * r);
    assert(t * i + t * j + t * k == t * (i + j + k)) by (nonlinear_arith);
}

/// The inner product of a difference is the difference of the inner products.
pub proof fn lemma_inner_of_subtracted(
    a: (real, real, real),
    b: (real, real, real),
    c: (real, real, real),
)
    ensures
        inner(subtracted(a, b), c) == inner(a, c) - inner(b, c),
{
    let (x, y, z) = a;
    let (i, j, k) = b;
    let (p, q, r) = c;
    assert((x - i) * p == x * p - i * p) by (nonlinear_arith);
    assert((y - j) * q == y * q - j * q) by (nonlinear_arith);
    assert((z - k) * r == z * r - k * r) by (nonlinear_arith);
}

/// Going that way, a point comes to lie on the plane, where the normal has length one.
pub proof fn going_onto_a_plane_ends_on_it(
    point: (real, real, real),
    plane: (real, real, real),
    normal: (real, real, real),
)
    requires
        inner(normal, normal) == 1 as real,
    ensures
        inner(subtracted(added(point, onto(point, plane, normal)), plane), normal) == 0 as real,
{
    let d = subtracted(plane, point);
    let t = inner(d, normal);
    let s = scaled(normal, t);
    lemma_inner_of_scaled(normal, t, normal);
    assert(t * (1 as real) == t);
    lemma_inner_of_subtracted(s, d, normal);
    assert(subtracted(added(point, s), plane) == subtracted(s, d));
}

/// Whether the way to a plane is worked out without rounding.
pub open spec fn onto_fits(
    point: (real, real, real),
    plane: (real, real, real),
    normal: (real, real, real),
) -> bool {
    &&& holds(subtracted(plane, point))
    &&& inner_fits(subtracted(plane, point), normal)
    &&& holds(onto(point, plane, normal))
}

/// Clay brings the surface up to the plane of the frame raised by the height of a dab, along its
/// normal; the other way round, down to the plane lowered.
pub proof fn clay_fills_up_to_the_raised_plane<O: Arithmetic>(
    ops: &O,
    round: spec_fn(real) -> u32,
    mesh: Mesh,
    settings: BrushSettings,
    sample: BrushSample,
    frame: BrushFrame,
    smoothed: Map<u32, Point>,
    vertex: u32,
)
    requires
        rounds(ops, round),
        scalar::finite(settings.radius),
        frame.normal.finite() && frame.origin.finite(),
        mesh.positions@[vertex as int].finite(),
        fits(rise(settings, sample)),
        holds(scaled(place(frame.normal), rise(settings, sample))),
        ({
            let plane = added(
                place(frame.origin),
                scaled(place(frame.normal), rise(settings, sample)),
            );
            holds(plane) && onto_fits(
                place(mesh.positions@[vertex as int]),
                plane,
                place(frame.normal),
            )
        }),
    ensures
        ({
            let plane = added(
                place(frame.origin),
                scaled(place(frame.normal), rise(settings, sample)),
            );
            let at = place(mesh.positions@[vertex as int]);
            proposal::unit_step(
                ops,
                mesh,
                SculptTool::Clay,
                settings,
                sample,
                frame,
                smoothed,
                vertex,
            ) matches Some(step) && step.finite() && place(step) == onto(
                at,
                plane,
                place(frame.normal),
            )
        }),
{
    let position = mesh.positions@[vertex as int];
    lemma_rise(ops, round, settings, sample);
    let height = proposal::height_of(ops, settings, sample);
    space::multiples_scale_places(ops, round, frame.normal, height);
    let raised = arithmetic::spec_times(ops, frame.normal, height);
    space::sums_add_places(ops, round, frame.origin, raised);
    let plane = arithmetic::spec_plus(ops, frame.origin, raised);
    lemma_onto(ops, round, position, plane, frame.normal);
}

proof fn lemma_onto<O: Arithmetic>(
    ops: &O,
    round: spec_fn(real) -> u32,
    position: Point,
    plane: Point,
    normal: Point,
)
    requires
        rounds(ops, round),
        position.finite() && plane.finite() && normal.finite(),
        onto_fits(place(position), place(plane), place(normal)),
    ensures
        ({
            let part = arithmetic::spec_dot(
                ops,
                arithmetic::spec_minus(ops, plane, position),
                normal,
            );
            &&& scalar::finite(part)
            &&& value(part) == inner(subtracted(place(plane), place(position)), place(normal))
            &&& arithmetic::spec_times(ops, normal, part).finite()
            &&& place(arithmetic::spec_times(ops, normal, part)) == onto(
                place(position),
                place(plane),
                place(normal),
            )
        }),
{
    space::differences_subtract_places(ops, round, plane, position);
    let way = arithmetic::spec_minus(ops, plane, position);
    space::dots_are_inner_products(ops, round, way, normal);
    space::multiples_scale_places(
        ops,
        round,
        normal,
        arithmetic::spec_dot(ops, way, normal),
    );
}

/// Flatten brings the surface onto the plane of the frame, along its normal; the other way round, it
/// takes it away by as much.
pub proof fn flatten_goes_onto_the_plane<O: Arithmetic>(
    ops: &O,
    round: spec_fn(real) -> u32,
    mesh: Mesh,
    settings: BrushSettings,
    sample: BrushSample,
    frame: BrushFrame,
    smoothed: Map<u32, Point>,
    vertex: u32,
)
    requires
        rounds(ops, round),
        frame.normal.finite() && frame.origin.finite(),
        mesh.positions@[vertex as int].finite(),
        onto_fits(
            place(mesh.positions@[vertex as int]),
            place(frame.origin),
            place(frame.normal),
        ),
    ensures
        ({
            let way = onto(
                place(mesh.positions@[vertex as int]),
                place(frame.origin),
                place(frame.normal),
            );
            proposal::unit_step(
                ops,
                mesh,
                SculptTool::Flatten,
                settings,
                sample,
                frame,
                smoothed,
                vertex,
            ) matches Some(step) && step.finite() && place(step) == scaled(
                way,
                sense(settings, sample),
            )
        }),
{
    let position = mesh.positions@[vertex as int];
    lemma_onto(ops, round, position, frame.origin, frame.normal);
    lemma_sense(settings, sample);
    let part = arithmetic::spec_dot(
        ops,
        arithmetic::spec_minus(ops, frame.origin, position),
        frame.normal,
    );
    let sign = proposal::sign_of(proposal::inverted(settings, sample));
    lemma_signed(ops, round, sign, part);
    let way = arithmetic::spec_times(ops, frame.normal, part);
    let t = value(part);
    lemma_scaled_around(place(frame.normal), t);
    lemma_opposite_holds(way);
    let w = place(way);
    assert(scaled(w, 1 as real) == w);
    assert(scaled(w, -(1 as real)) == (-w.0, -w.1, -w.2));
    space::multiples_scale_places(ops, round, frame.normal, ops.spec_product(sign, part));
}

/// A number times one or minus one.
proof fn lemma_signed<O: Arithmetic>(ops: &O, round: spec_fn(real) -> u32, sign: u32, number: u32)
    requires
        rounds(ops, round),
        scalar::finite(sign) && scalar::finite(number),
        value(sign) == 1 as real || value(sign) == -(1 as real),
    ensures
        scalar::finite(ops.spec_product(sign, number)),
        value(sign) == 1 as real ==> value(ops.spec_product(sign, number)) == value(number),
        value(sign) == -(1 as real) ==> value(ops.spec_product(sign, number)) == -value(number),
{
    meaning::lemma_product(ops, round, sign, number);
    meaning::the_sign_is_the_sign(number);
    assert(fits(value(number)) && fits(value(scalar::negated(number))));
    let t = value(number);
    if value(sign) == 1 as real {
        assert(value(sign) * t == t);
    } else {
        assert(value(sign) * t == -t);
    }
}

proof fn lemma_scaled_around(a: (real, real, real), t: real)
    ensures
        scaled(a, -t) == (-scaled(a, t).0, -scaled(a, t).1, -scaled(a, t).2),
{
    let (x, y, z) = a;
    assert(x * -t == -(x * t)) by (nonlinear_arith);
    assert(y * -t == -(y * t)) by (nonlinear_arith);
    assert(z * -t == -(z * t)) by (nonlinear_arith);
}

proof fn lemma_opposite_holds(a: Point)
    requires
        a.finite(),
    ensures
        holds(place(a)),
        holds((-value(a.x), -value(a.y), -value(a.z))),
{
    meaning::the_sign_is_the_sign(a.x);
    meaning::the_sign_is_the_sign(a.y);
    meaning::the_sign_is_the_sign(a.z);
    assert(fits(value(a.x)) && fits(value(a.y)) && fits(value(a.z)));
    assert(fits(value(scalar::negated(a.x))));
    assert(fits(value(scalar::negated(a.y))));
    assert(fits(value(scalar::negated(a.z))));
}

/// The way to the center of a dab along the plane with a normal.
pub open spec fn inward(
    point: (real, real, real),
    center: (real, real, real),
    normal: (real, real, real),
) -> (real, real, real) {
    subtracted(subtracted(center, point), onto(point, center, normal))
}

/// That way keeps to the plane, where the normal has length one.
pub proof fn going_inward_keeps_to_the_plane(
    point: (real, real, real),
    center: (real, real, real),
    normal: (real, real, real),
)
    requires
        inner(normal, normal) == 1 as real,
    ensures
        inner(inward(point, center, normal), normal) == 0 as real,
        added(inward(point, center, normal), onto(point, center, normal)) == subtracted(
            center,
            point,
        ),
{
    let d = subtracted(center, point);
    let t = inner(d, normal);
    lemma_inner_of_scaled(normal, t, normal);
    assert(t * (1 as real) == t);
    lemma_inner_of_subtracted(d, scaled(normal, t), normal);
}

/// Whether the way inward is worked out without rounding.
pub open spec fn inward_fits(
    point: (real, real, real),
    center: (real, real, real),
    normal: (real, real, real),
) -> bool {
    onto_fits(point, center, normal) && holds(inward(point, center, normal))
}

proof fn lemma_inward<O: Arithmetic>(
    ops: &O,
    round: spec_fn(real) -> u32,
    sample: BrushSample,
    normal: Point,
    position: Point,
)
    requires
        rounds(ops, round),
        position.finite() && sample.center.finite() && normal.finite(),
        inward_fits(place(position), place(sample.center), place(normal)),
    ensures
        proposal::tangent_of(ops, sample, normal, position).finite(),
        place(proposal::tangent_of(ops, sample, normal, position)) == inward(
            place(position),
            place(sample.center),
            place(normal),
        ),
{
    lemma_onto(ops, round, position, sample.center, normal);
    space::differences_subtract_places(ops, round, sample.center, position);
    let way = arithmetic::spec_minus(ops, sample.center, position);
    space::differences_subtract_places(
        ops,
        round,
        way,
        arithmetic::spec_times(ops, normal, arithmetic::spec_dot(ops, way, normal)),
    );
}

/// Pinch draws the surface towards the center of the dab, along the plane of the frame; the other way
/// round, it pushes it away by as much.
pub proof fn pinch_draws_inward<O: Arithmetic>(
    ops: &O,
    round: spec_fn(real) -> u32,
    mesh: Mesh,
    settings: BrushSettings,
    sample: BrushSample,
    frame: BrushFrame,
    smoothed: Map<u32, Point>,
    vertex: u32,
)
    requires
        rounds(ops, round),
        frame.normal.finite() && sample.center.finite(),
        mesh.positions@[vertex as int].finite(),
        inward_fits(
            place(mesh.positions@[vertex as int]),
            place(sample.center),
            place(frame.normal),
        ),
    ensures
        ({
            let way = inward(
                place(mesh.positions@[vertex as int]),
                place(sample.center),
                place(frame.normal),
            );
            proposal::unit_step(
                ops,
                mesh,
                SculptTool::Pinch,
                settings,
                sample,
                frame,
                smoothed,
                vertex,
            ) matches Some(step) && step.finite() && place(step) == scaled(
                way,
                sense(settings, sample),
            )
        }),
{
    let position = mesh.positions@[vertex as int];
    lemma_inward(ops, round, sample, frame.normal, position);
    lemma_sense(settings, sample);
    let way = proposal::tangent_of(ops, sample, frame.normal, position);
    meaning::the_sign_is_the_sign(way.x);
    meaning::the_sign_is_the_sign(way.y);
    meaning::the_sign_is_the_sign(way.z);
    let (x, y, z) = place(way);
    assert(fits(value(scalar::negated(way.x))) && fits(value(scalar::negated(way.y))) && fits(
        value(scalar::negated(way.z)),
    ));
    assert(fits(value(way.x)) && fits(value(way.y)) && fits(value(way.z)));
    space::multiples_scale_places(
        ops,
        round,
        way,
        proposal::sign_of(proposal::inverted(settings, sample)),
    );
}

/// Crease raises the surface as draw does, and draws it inward by two thirds of the way.
pub proof fn crease_raises_and_draws_inward<O: Arithmetic>(
    ops: &O,
    round: spec_fn(real) -> u32,
    mesh: Mesh,
    settings: BrushSettings,
    sample: BrushSample,
    frame: BrushFrame,
    smoothed: Map<u32, Point>,
    vertex: u32,
)
    requires
        rounds(ops, round),
        scalar::finite(settings.radius),
        frame.normal.finite() && sample.center.finite(),
        mesh.positions@[vertex as int].finite(),
        fits(rise(settings, sample)),
        holds(scaled(place(frame.normal), rise(settings, sample))),
        inward_fits(
            place(mesh.positions@[vertex as int]),
            place(sample.center),
            place(frame.normal),
        ),
        ({
            let way = inward(
                place(mesh.positions@[vertex as int]),
                place(sample.center),
                place(frame.normal),
            );
            let part = scaled(way, value(proposal::TWO_THIRDS));
            &&& holds(part)
            &&& holds(added(scaled(place(frame.normal), rise(settings, sample)), part))
        }),
    ensures
        ({
            let way = inward(
                place(mesh.positions@[vertex as int]),
                place(sample.center),
                place(frame.normal),
            );
            proposal::unit_step(
                ops,
                mesh,
                SculptTool::Crease,
                settings,
                sample,
                frame,
                smoothed,
                vertex,
            ) matches Some(step) && step.finite() && place(step) == added(
                scaled(place(frame.normal), rise(settings, sample)),
                scaled(way, value(proposal::TWO_THIRDS)),
            )
        }),
{
    let position = mesh.positions@[vertex as int];
    lemma_rise(ops, round, settings, sample);
    let height = proposal::height_of(ops, settings, sample);
    space::multiples_scale_places(ops, round, frame.normal, height);
    lemma_inward(ops, round, sample, frame.normal, position);
    tools_go_by_these_numbers();
    let way = proposal::tangent_of(ops, sample, frame.normal, position);
    space::multiples_scale_places(ops, round, way, proposal::TWO_THIRDS);
    space::sums_add_places(
        ops,
        round,
        arithmetic::spec_times(ops, frame.normal, height),
        arithmetic::spec_times(ops, way, proposal::TWO_THIRDS),
    );
}

/// A vector turned to the side of another points the same or the opposite way, and never against it.
pub open spec fn facing(vector: (real, real, real), side: (real, real, real)) -> (real, real, real) {
    if inner(vector, side) < 0 as real {
        scaled(vector, -(1 as real))
    } else {
        vector
    }
}

/// Inflate raises the surface along its own normal, on the side of the frame's.
pub proof fn inflate_raises_along_the_surface_normal<O: Arithmetic>(
    ops: &O,
    round: spec_fn(real) -> u32,
    mesh: Mesh,
    settings: BrushSettings,
    sample: BrushSample,
    frame: BrushFrame,
    smoothed: Map<u32, Point>,
    vertex: u32,
    length: real,
)
    requires
        rounds(ops, round),
        scalar::finite(settings.radius),
        frame.normal.finite(),
        mesh.normals@[vertex as int].finite(),
        fits(rise(settings, sample)),
        space::has_unit(place(mesh.normals@[vertex as int]), length),
        ({
            let unit = scaled(place(mesh.normals@[vertex as int]), 1 as real / length);
            &&& inner_fits(unit, place(frame.normal))
            &&& holds(scaled(facing(unit, place(frame.normal)), rise(settings, sample)))
        }),
    ensures
        ({
            let unit = scaled(place(mesh.normals@[vertex as int]), 1 as real / length);
            proposal::unit_step(
                ops,
                mesh,
                SculptTool::Inflate,
                settings,
                sample,
                frame,
                smoothed,
                vertex,
            ) matches Some(step) && step.finite() && place(step) == scaled(
                facing(unit, place(frame.normal)),
                rise(settings, sample),
            )
        }),
{
    lemma_rise(ops, round, settings, sample);
    let normal = mesh.normals@[vertex as int];
    space::units_point_along(ops, round, normal, length);
    let unit = arithmetic::spec_unit(ops, normal);
    lemma_facing(ops, round, unit, frame.normal);
    space::multiples_scale_places(
        ops,
        round,
        crate::frame::turned(ops, unit, frame.normal),
        proposal::height_of(ops, settings, sample),
    );
}

/// Turning a vector to a side.
pub proof fn lemma_facing<O: Arithmetic>(
    ops: &O,
    round: spec_fn(real) -> u32,
    vector: Point,
    side: Point,
)
    requires
        rounds(ops, round),
        vector.finite() && side.finite(),
        inner_fits(place(vector), place(side)),
    ensures
        crate::frame::turned(ops, vector, side).finite(),
        place(crate::frame::turned(ops, vector, side)) == facing(place(vector), place(side)),
        inner(place(crate::frame::turned(ops, vector, side)), place(side)) >= 0 as real,
{
    meaning::constants_mean_what_they_say();
    space::dots_are_inner_products(ops, round, vector, side);
    meaning::values_are_ordered(arithmetic::spec_dot(ops, vector, side), scalar::ZERO);
    meaning::the_sign_is_the_sign(vector.x);
    meaning::the_sign_is_the_sign(vector.y);
    meaning::the_sign_is_the_sign(vector.z);
    let (x, y, z) = place(vector);
    let (a, b, c) = place(side);
    lemma_inner_of_scaled(place(vector), -(1 as real), place(side));
    let i = inner(place(vector), place(side));
    assert(-(1 as real) * i == -i);
}

/// Grab goes where it is dragged, smooth where smoothing takes it, and mask moves nothing.
pub proof fn other_tools_go_where_they_are_told<O: Arithmetic>(
    ops: &O,
    mesh: Mesh,
    settings: BrushSettings,
    sample: BrushSample,
    frame: BrushFrame,
    smoothed: Map<u32, Point>,
    vertex: u32,
)
    ensures
        proposal::unit_step(
            ops,
            mesh,
            SculptTool::Grab,
            settings,
            sample,
            frame,
            smoothed,
            vertex,
        ) == Some(sample.drag_delta),
        proposal::unit_step(
            ops,
            mesh,
            SculptTool::Smooth,
            settings,
            sample,
            frame,
            smoothed,
            vertex,
        ) == smoothed.get(vertex),
        proposal::unit_step(
            ops,
            mesh,
            SculptTool::Mask,
            settings,
            sample,
            frame,
            smoothed,
            vertex,
        ) is None,
{
}

} // verus!
