//! What a brush reaches, how far a drag goes in the world, and which side of a surface a point is on,
//! in numbers.
use crate::arithmetic;
use crate::arithmetic::Arithmetic;
use crate::brush::{BrushSample, SymmetryAxis};
use crate::brush_laws;
use crate::camera::CameraFrame;
use crate::collections::EdgeKey;
use crate::dab_laws;
use crate::input::ScreenPoint;
use crate::meaning;
use crate::meaning::{fits, rounds, value};
use crate::mesh::Mesh;
use crate::painting;
use crate::pass;
use crate::query;
use crate::query::RayHit;
use crate::region;
use crate::region::Dab;
use crate::scalar;
use crate::scalar::Point;
use crate::sculpt;
use crate::sculpt::GrabVertex;
use crate::search::RayIntersectionCount;
use crate::space;
use crate::space::{added, holds, inner, inner_fits, outer, outer_fits, place, scaled, subtracted};
use crate::stl;
use crate::voxel_remesh;
use crate::voxel_remesh::FieldValue;
use crate::wide;
use crate::wide::WideArithmetic;
use crate::wide_meaning;
use crate::wide_meaning::{wide_fits, wide_rounds, wide_value};
use vstd::prelude::*;

verus! {

/// Numbers that are no less than zero are ordered as their squares.
proof fn lemma_squares_are_ordered(a: real, b: real)
    requires
        a >= 0 as real,
        b >= 0 as real,
    ensures
        a <= b <==> a * a <= b * b,
{
    if a <= b {
        assert(a * a <= b * b) by (nonlinear_arith)
            requires
                (0 as real) <= a <= b,
        ;
    } else {
        assert(a * a > b * b) by (nonlinear_arith)
            requires
                (0 as real) <= b < a,
        ;
    }
}

/// A dab reaches the points that are no farther from its center than its radius.
pub proof fn a_dab_reaches_as_far_as_its_radius<O: Arithmetic>(
    ops: &O,
    round: spec_fn(real) -> u32,
    dab: Dab,
    position: Point,
    away: real,
)
    requires
        rounds(ops, round),
        dab.center.finite() && position.finite() && scalar::finite(dab.radius),
        value(dab.radius) >= 0 as real,
        fits(value(dab.radius) * value(dab.radius)),
        space::apart(place(position), place(dab.center), away),
    ensures
        dab.within(ops, position) <==> away <= value(dab.radius),
{
    space::distances_are_lengths(ops, round, position, dab.center, away);
    meaning::lemma_product(ops, round, dab.radius, dab.radius);
    let square = ops.spec_product(dab.radius, dab.radius);
    meaning::values_are_ordered(
        square,
        arithmetic::spec_distance_squared(ops, position, dab.center),
    );
    lemma_squares_are_ordered(away, value(dab.radius));
}

/// A dab works on the side of the surface that it was set on: along the view where its seed faces
/// along it, and against it otherwise; a surface right across the view belongs to both.
pub proof fn a_dab_works_on_one_side<O: Arithmetic>(
    ops: &O,
    round: spec_fn(real) -> u32,
    dab: Dab,
    normal: Point,
)
    requires
        rounds(ops, round),
        dab.view matches Some(view) && view.finite() && inner_fits(place(normal), place(view)),
        normal.finite(),
        place(normal) != space::nothing(),
    ensures
        dab.along ==> (dab.facing(ops, normal) <==> inner(place(normal), place(dab.view->0))
            >= 0 as real),
        !dab.along ==> (dab.facing(ops, normal) <==> inner(place(normal), place(dab.view->0))
            <= 0 as real),
{
    meaning::constants_mean_what_they_say();
    let view = dab.view->0;
    space::dots_are_inner_products(ops, round, normal, view);
    let dot = arithmetic::spec_dot(ops, normal, view);
    meaning::values_are_ordered(scalar::ZERO, dot);
    meaning::values_are_ordered(dot, scalar::ZERO);
    meaning::values_are_ordered(normal.x, scalar::ZERO);
    meaning::values_are_ordered(normal.y, scalar::ZERO);
    meaning::values_are_ordered(normal.z, scalar::ZERO);
}

/// The normal of a seed is the sum of those at its corners.
pub proof fn a_seed_faces_as_its_corners_do<O: Arithmetic>(
    ops: &O,
    round: spec_fn(real) -> u32,
    mesh: Mesh,
    seed: [u32; 3],
)
    requires
        rounds(ops, round),
        ({
            let a = mesh.normals@[seed@[0] as int];
            let b = mesh.normals@[seed@[1] as int];
            let c = mesh.normals@[seed@[2] as int];
            &&& a.finite() && b.finite() && c.finite()
            &&& holds(added(place(a), place(b)))
            &&& holds(added(added(place(a), place(b)), place(c)))
        }),
    ensures
        region::seed_normal(ops, mesh, seed).finite(),
        place(region::seed_normal(ops, mesh, seed)) == added(
            added(
                place(mesh.normals@[seed@[0] as int]),
                place(mesh.normals@[seed@[1] as int]),
            ),
            place(mesh.normals@[seed@[2] as int]),
        ),
{
    meaning::constants_mean_what_they_say();
    let a = mesh.normals@[seed@[0] as int];
    let b = mesh.normals@[seed@[1] as int];
    let c = mesh.normals@[seed@[2] as int];
    assert(fits(value(a.x)) && fits(value(a.y)) && fits(value(a.z)));
    assert(added(place(arithmetic::origin()), place(a)) == place(a));
    space::sums_add_places(ops, round, arithmetic::origin(), a);
    let one = arithmetic::spec_plus(ops, arithmetic::origin(), a);
    space::sums_add_places(ops, round, one, b);
    space::sums_add_places(ops, round, arithmetic::spec_plus(ops, one, b), c);
}

/// An edge is as long as the distance of its ends.
pub proof fn an_edge_is_as_long_as_its_ends_are_apart<O: Arithmetic>(
    ops: &O,
    round: spec_fn(real) -> u32,
    mesh: Mesh,
    side: EdgeKey,
    away: real,
)
    requires
        rounds(ops, round),
        mesh.positions@[side.0 as int].finite() && mesh.positions@[side.1 as int].finite(),
        space::apart(
            place(mesh.positions@[side.0 as int]),
            place(mesh.positions@[side.1 as int]),
            away,
        ),
    ensures
        scalar::finite(pass::edge_length(ops, mesh, side)),
        value(pass::edge_length(ops, mesh, side)) == away,
{
    space::distances_are_lengths(
        ops,
        round,
        mesh.positions@[side.0 as int],
        mesh.positions@[side.1 as int],
        away,
    );
}

/// A point of the screen is as large at a hit as it is at the camera's distance, by how much farther
/// away the hit is.
pub proof fn points_grow_with_the_depth<O: Arithmetic>(
    ops: &O,
    round: spec_fn(real) -> u32,
    camera: CameraFrame,
    hit: RayHit,
)
    requires
        rounds(ops, round),
        scalar::finite(camera.world_units_per_point) && scalar::finite(camera.distance),
        scalar::finite(hit.distance),
        scalar::finite(painting::SMALLEST_DISTANCE) && scalar::finite(painting::SMALLEST_DEPTH),
        value(camera.distance) >= value(painting::SMALLEST_DISTANCE),
        value(camera.distance) > 0 as real,
        fits(value(hit.distance) / value(camera.distance)),
        value(hit.distance) / value(camera.distance) >= value(painting::SMALLEST_DEPTH),
        fits(
            value(camera.world_units_per_point) * (value(hit.distance) / value(camera.distance)),
        ),
    ensures
        value(painting::units_at(ops, camera, hit)) * value(camera.distance) == value(
            camera.world_units_per_point,
        ) * value(hit.distance),
{
    dab_laws::extremes_bound_both(camera.distance, painting::SMALLEST_DISTANCE);
    let distance = scalar::greatest(camera.distance, painting::SMALLEST_DISTANCE);
    meaning::lemma_quotient(ops, round, hit.distance, distance);
    let depth = ops.spec_quotient(hit.distance, distance);
    dab_laws::extremes_bound_both(depth, painting::SMALLEST_DEPTH);
    let deeper = scalar::greatest(depth, painting::SMALLEST_DEPTH);
    meaning::lemma_product(ops, round, camera.world_units_per_point, deeper);
    let (u, h, d) = (
        value(camera.world_units_per_point),
        value(hit.distance),
        value(camera.distance),
    );
    let q = h / d;
    assert(q * d == h) by (nonlinear_arith)
        requires
            q == h / d,
            d > 0 as real,
    ;
    assert(u * q * d == u * (q * d)) by (nonlinear_arith);
}

/// A drag goes in the world as it goes on the screen: to the right of the camera as it goes right, and
/// down as it goes down, since the screen counts downwards.
pub proof fn a_drag_in_the_world_follows_the_pointer<O: Arithmetic>(
    ops: &O,
    round: spec_fn(real) -> u32,
    camera: CameraFrame,
    delta: ScreenPoint,
    units: u32,
)
    requires
        rounds(ops, round),
        camera.right.finite() && camera.up.finite(),
        scalar::finite(delta.x) && scalar::finite(delta.y) && scalar::finite(units),
        ({
            let across = scaled(place(camera.right), value(delta.x));
            let along = scaled(place(camera.up), value(delta.y));
            &&& holds(across) && holds(along)
            &&& holds(scaled(across, value(units))) && holds(scaled(along, value(units)))
            &&& holds(subtracted(scaled(across, value(units)), scaled(along, value(units))))
        }),
    ensures
        painting::spec_world_drag(ops, camera, delta, units).finite(),
        place(painting::spec_world_drag(ops, camera, delta, units)) == subtracted(
            scaled(scaled(place(camera.right), value(delta.x)), value(units)),
            scaled(scaled(place(camera.up), value(delta.y)), value(units)),
        ),
{
    space::multiples_scale_places(ops, round, camera.right, delta.x);
    space::multiples_scale_places(ops, round, camera.up, delta.y);
    let across = arithmetic::spec_times(ops, camera.right, delta.x);
    let along = arithmetic::spec_times(ops, camera.up, delta.y);
    space::multiples_scale_places(ops, round, across, units);
    space::multiples_scale_places(ops, round, along, units);
    space::differences_subtract_places(
        ops,
        round,
        arithmetic::spec_times(ops, across, units),
        arithmetic::spec_times(ops, along, units),
    );
}

/// The plane of symmetry goes through the middle of the box around the mesh.
pub proof fn the_symmetry_goes_through_the_middle<O: Arithmetic>(
    ops: &O,
    round: spec_fn(real) -> u32,
    mesh: Mesh,
)
    requires
        rounds(ops, round),
        query::bounds_of(mesh.positions@) matches Some((min, max)) && min.finite() && max.finite()
            && holds(added(place(min), place(max))) && holds(
            scaled(added(place(min), place(max)), 1 as real / (2 as real)),
        ),
    ensures
        sculpt::middle_of(ops, mesh).finite(),
        ({
            let (min, max) = query::bounds_of(mesh.positions@)->0;
            scaled(place(sculpt::middle_of(ops, mesh)), 2 as real) == added(
                place(min),
                place(max),
            )
        }),
{
    meaning::constants_mean_what_they_say();
    let (min, max) = query::bounds_of(mesh.positions@)->0;
    space::sums_add_places(ops, round, min, max);
    space::multiples_scale_places(
        ops,
        round,
        arithmetic::spec_plus(ops, min, max),
        scalar::HALF,
    );
}

/// Where only a share of a step was taken, only that share of what it would have covered is counted.
pub proof fn a_share_of_a_step_covers_a_share<O: Arithmetic>(
    ops: &O,
    round: spec_fn(real) -> u32,
    account: Map<u32, u32>,
    staged: Map<u32, u32>,
    scale: u32,
    vertex: u32,
)
    requires
        rounds(ops, round),
        account.contains_key(vertex) && staged.contains_key(vertex),
        scalar::finite(account[vertex]) && scalar::finite(staged[vertex]) && scalar::finite(scale),
        value(staged[vertex]) >= value(account[vertex]),
        ({
            let more = value(staged[vertex]) - value(account[vertex]);
            &&& fits(more) && fits(more * value(scale))
            &&& fits(value(account[vertex]) + more * value(scale))
        }),
    ensures
        ({
            let covered = sculpt::covered_in_part(ops, account, staged, scale);
            &&& covered.contains_key(vertex)
            &&& value(covered[vertex]) == value(account[vertex]) + (value(staged[vertex]) - value(
                account[vertex],
            )) * value(scale)
        }),
{
    meaning::constants_mean_what_they_say();
    let previous = account[vertex];
    meaning::lemma_difference(ops, round, staged[vertex], previous);
    let more = ops.spec_difference(staged[vertex], previous);
    dab_laws::extremes_bound_both(more, scalar::ZERO);
    let kept = scalar::greatest(more, scalar::ZERO);
    meaning::lemma_product(ops, round, kept, scale);
    meaning::lemma_sum(ops, round, previous, ops.spec_product(kept, scale));
}

/// What is held is carried along where a dab moves it: its base moves by as much as the vertex does.
pub proof fn what_is_held_is_carried_along<O: Arithmetic>(
    ops: &O,
    round: spec_fn(real) -> u32,
    held: Map<u32, GrabVertex>,
    mesh: Mesh,
    places: Map<u32, Point>,
    vertex: u32,
)
    requires
        rounds(ops, round),
        held.contains_key(vertex) && places.contains_key(vertex),
        held[vertex].base.finite() && places[vertex].finite(),
        mesh.positions@[vertex as int].finite(),
        ({
            let step = subtracted(
                place(places[vertex]),
                place(mesh.positions@[vertex as int]),
            );
            holds(step) && holds(added(place(held[vertex].base), step))
        }),
    ensures
        ({
            let after = sculpt::carried(ops, held, mesh, places)[vertex];
            &&& after.base.finite()
            &&& subtracted(place(after.base), place(held[vertex].base)) == subtracted(
                place(places[vertex]),
                place(mesh.positions@[vertex as int]),
            )
            &&& after.primary_influence == held[vertex].primary_influence
            &&& after.mirrored_influence == held[vertex].mirrored_influence
        }),
{
    let position = mesh.positions@[vertex as int];
    space::differences_subtract_places(ops, round, places[vertex], position);
    space::sums_add_places(
        ops,
        round,
        held[vertex].base,
        arithmetic::spec_minus(ops, places[vertex], position),
    );
}

/// A mirrored dab is the dab seen in the mirror: what it points at along the axis is turned around,
/// and it is pressed as hard, and the same way.
pub proof fn a_mirrored_dab_is_the_dab_in_the_mirror<O: Arithmetic>(
    ops: &O,
    axis: SymmetryAxis,
    sample: BrushSample,
    center: Point,
    seed: u32,
)
    ensures
        ({
            let mirrored = sample.spec_reflected(ops, axis, center, seed);
            &&& mirrored.center == axis.spec_reflect_point(ops, sample.center, center)
            &&& value(brush_laws::along(axis, mirrored.normal)) == -value(
                brush_laws::along(axis, sample.normal),
            )
            &&& value(brush_laws::along(axis, mirrored.drag_delta)) == -value(
                brush_laws::along(axis, sample.drag_delta),
            )
            &&& value(brush_laws::along(axis, mirrored.view_direction)) == -value(
                brush_laws::along(axis, sample.view_direction),
            )
            &&& forall|other: SymmetryAxis|
                other != axis ==> #[trigger] brush_laws::along(other, mirrored.normal)
                    == brush_laws::along(other, sample.normal)
            &&& forall|other: SymmetryAxis|
                other != axis ==> #[trigger] brush_laws::along(other, mirrored.drag_delta)
                    == brush_laws::along(other, sample.drag_delta)
            &&& forall|other: SymmetryAxis|
                other != axis ==> #[trigger] brush_laws::along(other, mirrored.view_direction)
                    == brush_laws::along(other, sample.view_direction)
            &&& mirrored.pressure == sample.pressure
            &&& mirrored.invert_modifier == sample.invert_modifier
            &&& mirrored.seed_triangle == seed
        }),
{
    meaning::the_sign_is_the_sign(brush_laws::along(axis, sample.normal));
    meaning::the_sign_is_the_sign(brush_laws::along(axis, sample.drag_delta));
    meaning::the_sign_is_the_sign(brush_laws::along(axis, sample.view_direction));
}

/// The normal that is exported with a face is across its sides, with length one, on the side from
/// which its corners go round to the left.
pub proof fn an_exported_normal_is_across_the_face<O: Arithmetic>(
    ops: &O,
    round: spec_fn(real) -> u32,
    mesh: Mesh,
    face: int,
    length: real,
)
    requires
        rounds(ops, round),
        ({
            let corners = mesh.triangles@[face];
            let a = mesh.positions@[corners@[0] as int];
            let b = mesh.positions@[corners@[1] as int];
            let c = mesh.positions@[corners@[2] as int];
            let (ab, ac) = (subtracted(place(b), place(a)), subtracted(place(c), place(a)));
            &&& a.finite() && b.finite() && c.finite()
            &&& holds(ab) && holds(ac) && outer_fits(ab, ac)
            &&& space::has_unit(outer(ab, ac), length)
        }),
    ensures
        ({
            let corners = mesh.triangles@[face];
            let a = place(mesh.positions@[corners@[0] as int]);
            let b = place(mesh.positions@[corners@[1] as int]);
            let c = place(mesh.positions@[corners@[2] as int]);
            let written = stl::exported(ops, mesh, face);
            &&& written.normal.finite()
            &&& scaled(place(written.normal), length) == outer(subtracted(b, a), subtracted(c, a))
            &&& place(written.vertices@[0]) == a && place(written.vertices@[1]) == b && place(
                written.vertices@[2],
            ) == c
        }),
{
    let corners = mesh.triangles@[face];
    let a = mesh.positions@[corners@[0] as int];
    let b = mesh.positions@[corners@[1] as int];
    let c = mesh.positions@[corners@[2] as int];
    space::differences_subtract_places(ops, round, b, a);
    space::differences_subtract_places(ops, round, c, a);
    let (ab, ac) = (arithmetic::spec_minus(ops, b, a), arithmetic::spec_minus(ops, c, a));
    space::crosses_are_outer_products(ops, round, ab, ac);
    space::units_point_along(ops, round, arithmetic::spec_cross(ops, ab, ac), length);
}

/// A distance counts as positive inside the surface and as negative outside it, and a point on it has
/// none.
pub proof fn inside_is_positive_and_outside_negative<W: WideArithmetic>(
    wide: &W,
    round: spec_fn(real) -> u64,
    distance: u32,
)
    requires
        wide_rounds(wide, round),
        scalar::finite(distance),
    ensures
        wide_value(FieldValue::Inside { distance }.spec_number(wide)) == value(distance),
        wide_value(FieldValue::Outside { distance }.spec_number(wide)) == -value(distance),
        wide_value(FieldValue::OnSurface.spec_number(wide)) == 0 as real,
        wide_value(FieldValue::Missing.spec_number(wide)) == -(1 as real),
{
    meaning::constants_mean_what_they_say();
    wide_meaning::wide_constants_mean_what_they_say();
    meaning::the_sign_is_the_sign(distance);
    meaning::the_sign_is_the_sign(scalar::ONE);
    wide_meaning::lemma_widened(wide, round, distance);
    wide_meaning::lemma_widened(wide, round, scalar::negated(distance));
    wide_meaning::lemma_widened(wide, round, scalar::negated(scalar::ONE));
}

/// A point is inside where a ray from it leaves the surface once more than it enters it: one crossing
/// more turns inside to outside, and a ray that crosses nothing starts outside. What one ray cannot
/// tell is no answer.
pub proof fn every_crossing_changes_sides(count: RayIntersectionCount, more: RayIntersectionCount)
    requires
        !count.ambiguous && !more.ambiguous,
        more.intersections == count.intersections + 1,
    ensures
        voxel_remesh::parity_of_count(more) matches Some(after)
            && voxel_remesh::parity_of_count(count) matches Some(before) && after == !before,
        count.intersections == 0 ==> voxel_remesh::parity_of_count(count) == Some(false),
        forall|doubt: RayIntersectionCount|
            doubt.ambiguous ==> #[trigger] voxel_remesh::parity_of_count(doubt) is None,
{
}

/// The square of twice the area of a triangle is that of the outer product of two of its sides.
pub proof fn an_area_is_that_of_the_outer_product<W: WideArithmetic>(
    wide: &W,
    round: spec_fn(real) -> u64,
    a: Point,
    b: Point,
    c: Point,
)
    requires
        wide_rounds(wide, round),
        a.finite() && b.finite() && c.finite(),
        ({
            let (p, q) = (subtracted(place(b), place(a)), subtracted(place(c), place(a)));
            let n = outer(p, q);
            &&& wide_fits(p.0) && wide_fits(p.1) && wide_fits(p.2)
            &&& wide_fits(q.0) && wide_fits(q.1) && wide_fits(q.2)
            &&& wide_fits(p.1 * q.2) && wide_fits(p.2 * q.1)
            &&& wide_fits(p.2 * q.0) && wide_fits(p.0 * q.2)
            &&& wide_fits(p.0 * q.1) && wide_fits(p.1 * q.0)
            &&& wide_fits(n.0) && wide_fits(n.1) && wide_fits(n.2)
            &&& wide_fits(n.0 * n.0) && wide_fits(n.1 * n.1) && wide_fits(n.2 * n.2)
            &&& wide_fits(n.0 * n.0 + n.1 * n.1) && wide_fits(inner(n, n))
        }),
    ensures
        ({
            let n = outer(subtracted(place(b), place(a)), subtracted(place(c), place(a)));
            wide_value(wide::area_squared(wide, a, b, c)) == inner(n, n)
        }),
{
    let (p, q) = (subtracted(place(b), place(a)), subtracted(place(c), place(a)));
    let n = outer(p, q);
    lemma_wide_way(wide, round, b, a);
    lemma_wide_way(wide, round, c, a);
    let corner = wide::widened_point(wide, a);
    let ab = wide::spec_minus(wide, wide::widened_point(wide, b), corner);
    let ac = wide::spec_minus(wide, wide::widened_point(wide, c), corner);
    lemma_turn(p.2, q.1);
    lemma_turn(p.0, q.2);
    lemma_turn(p.1, q.0);
    lemma_wide_minor(wide, round, ab.y, ac.z, ab.z, ac.y);
    lemma_wide_minor(wide, round, ab.z, ac.x, ab.x, ac.z);
    lemma_wide_minor(wide, round, ab.x, ac.y, ab.y, ac.x);
    let x = wide.spec_difference(wide.spec_product(ab.y, ac.z), wide.spec_product(ab.z, ac.y));
    let y = wide.spec_difference(wide.spec_product(ab.z, ac.x), wide.spec_product(ab.x, ac.z));
    let z = wide.spec_difference(wide.spec_product(ab.x, ac.y), wide.spec_product(ab.y, ac.x));
    assert(wide_value(x) == n.0 && wide_value(y) == n.1 && wide_value(z) == n.2);
    wide_meaning::lemma_wide_product(wide, round, x, x);
    wide_meaning::lemma_wide_product(wide, round, y, y);
    wide_meaning::lemma_wide_product(wide, round, z, z);
    let (i, j, k) = (wide.spec_product(x, x), wide.spec_product(y, y), wide.spec_product(z, z));
    wide_meaning::lemma_wide_sum(wide, round, i, j);
    wide_meaning::lemma_wide_sum(wide, round, wide.spec_sum(i, j), k);
}

proof fn lemma_turn(a: real, b: real)
    ensures
        a * b == b * a,
{
    assert(a * b == b * a) by (nonlinear_arith);
}

proof fn lemma_wide_way<W: WideArithmetic>(
    wide: &W,
    round: spec_fn(real) -> u64,
    b: Point,
    a: Point,
)
    requires
        wide_rounds(wide, round),
        a.finite() && b.finite(),
        ({
            let p = subtracted(place(b), place(a));
            wide_fits(p.0) && wide_fits(p.1) && wide_fits(p.2)
        }),
    ensures
        ({
            let p = subtracted(place(b), place(a));
            let way = wide::spec_minus(
                wide,
                wide::widened_point(wide, b),
                wide::widened_point(wide, a),
            );
            &&& scalar::wide_finite(way.x) && wide_value(way.x) == p.0
            &&& scalar::wide_finite(way.y) && wide_value(way.y) == p.1
            &&& scalar::wide_finite(way.z) && wide_value(way.z) == p.2
        }),
{
    wide_meaning::lemma_widened(wide, round, a.x);
    wide_meaning::lemma_widened(wide, round, a.y);
    wide_meaning::lemma_widened(wide, round, a.z);
    wide_meaning::lemma_widened(wide, round, b.x);
    wide_meaning::lemma_widened(wide, round, b.y);
    wide_meaning::lemma_widened(wide, round, b.z);
    wide_meaning::lemma_wide_difference(
        wide,
        round,
        wide.spec_widened(b.x),
        wide.spec_widened(a.x),
    );
    wide_meaning::lemma_wide_difference(
        wide,
        round,
        wide.spec_widened(b.y),
        wide.spec_widened(a.y),
    );
    wide_meaning::lemma_wide_difference(
        wide,
        round,
        wide.spec_widened(b.z),
        wide.spec_widened(a.z),
    );
}

proof fn lemma_wide_minor<W: WideArithmetic>(
    wide: &W,
    round: spec_fn(real) -> u64,
    a: u64,
    b: u64,
    c: u64,
    d: u64,
)
    requires
        wide_rounds(wide, round),
        scalar::wide_finite(a) && scalar::wide_finite(b) && scalar::wide_finite(c)
            && scalar::wide_finite(d),
        wide_fits(wide_value(a) * wide_value(b)) && wide_fits(wide_value(c) * wide_value(d)),
        wide_fits(wide_value(a) * wide_value(b) - wide_value(c) * wide_value(d)),
    ensures
        ({
            let minor = wide.spec_difference(wide.spec_product(a, b), wide.spec_product(c, d));
            scalar::wide_finite(minor) && wide_value(minor) == wide_value(a) * wide_value(b)
                - wide_value(c) * wide_value(d)
        }),
{
    wide_meaning::lemma_wide_product(wide, round, a, b);
    wide_meaning::lemma_wide_product(wide, round, c, d);
    wide_meaning::lemma_wide_difference(
        wide,
        round,
        wide.spec_product(a, b),
        wide.spec_product(c, d),
    );
}

} // verus!
