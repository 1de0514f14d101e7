//! What smoothing does to a surface, in numbers.
use crate::arithmetic;
use crate::arithmetic::Arithmetic;
use crate::meaning;
use crate::meaning::{fits, rounds, value};
use crate::mesh::Mesh;
use crate::scalar;
use crate::scalar::Point;
use crate::smooth;
use crate::space;
use crate::space::{added, holds, place, scaled, subtracted};
use vstd::prelude::*;

verus! {

/// Where the mean of points is: as often as there are points, it makes their total.
pub open spec fn middle(points: Seq<Point>) -> (real, real, real) {
    let total = space::total(points);
    let count = points.len() as real;
    (total.0 / count, total.1 / count, total.2 / count)
}

/// Whether the mean of points is worked out without rounding.
pub open spec fn averages(points: Seq<Point>) -> bool {
    &&& 0 < points.len() <= usize::MAX
    &&& space::adds_up(points)
    &&& fits(points.len() as real)
    &&& holds(middle(points))
}

/// The mean of points is their total divided by how many they are: taken that many times, it gives
/// the total back.
pub proof fn a_mean_shares_the_total_out<O: Arithmetic>(
    ops: &O,
    round: spec_fn(real) -> u32,
    points: Seq<Point>,
)
    requires
        rounds(ops, round),
        averages(points),
    ensures
        smooth::mean(ops, points).finite(),
        place(smooth::mean(ops, points)) == middle(points),
        scaled(place(smooth::mean(ops, points)), points.len() as real) == space::total(points),
{
    space::totals_add_places(ops, round, points);
    let count = points.len() as usize;
    assert(count as real == points.len() as real);
    meaning::lemma_count(ops, round, count);
    space::parts_divide_places(
        ops,
        round,
        arithmetic::spec_total(ops, points),
        ops.spec_count(count),
    );
    let (x, y, z) = space::total(points);
    let n = points.len() as real;
    assert(x / n * n == x && y / n * n == y && z / n * n == z) by (nonlinear_arith)
        requires
            n > 0 as real,
    ;
}

/// Points that are all at one place add up to that many times the place.
proof fn lemma_total_of_copies(points: Seq<Point>, at: (real, real, real))
    requires
        forall|i: int| 0 <= i < points.len() ==> place(#[trigger] points[i]) == at,
    ensures
        space::total(points) == scaled(at, points.len() as real),
    decreases points.len(),
{
    let n = points.len() as real;
    let (x, y, z) = at;
    if points.len() > 0 {
        let rest = points.drop_last();
        lemma_total_of_copies(rest, at);
        let m = rest.len() as real;
        assert(place(points[points.len() - 1]) == at);
        assert(n == m + 1 as real);
        assert(x * m + x == x * n && y * m + y == y * n && z * m + z == z * n)
            by (nonlinear_arith)
            requires
                n == m + 1 as real,
        ;
    } else {
        assert(x * n == 0 as real && y * n == 0 as real && z * n == 0 as real) by (nonlinear_arith)
            requires
                n == 0 as real,
        ;
    }
}

/// The mean of any number of points at one place is that place.
pub proof fn the_mean_of_copies_is_the_point<O: Arithmetic>(
    ops: &O,
    round: spec_fn(real) -> u32,
    points: Seq<Point>,
    point: Point,
)
    requires
        rounds(ops, round),
        point.finite(),
        0 < points.len() <= usize::MAX,
        forall|i: int| 0 <= i < points.len() ==> #[trigger] points[i] == point,
        space::adds_up(points),
        fits(points.len() as real),
    ensures
        place(smooth::mean(ops, points)) == place(point),
{
    lemma_total_of_copies(points, place(point));
    let (x, y, z) = place(point);
    let n = points.len() as real;
    assert(x * n / n == x && y * n / n == y && z * n / n == z) by (nonlinear_arith)
        requires
            n > 0 as real,
    ;
    assert(fits(value(point.x)) && fits(value(point.y)) && fits(value(point.z)));
    a_mean_shares_the_total_out(ops, round, points);
}

/// A vertex whose neighbors average to its own position is not moved by the first step, whatever is
/// rounded on the way to the average.
pub proof fn an_average_vertex_stays<O: Arithmetic>(
    ops: &O,
    round: spec_fn(real) -> u32,
    mesh: Mesh,
    vertex: u32,
)
    requires
        rounds(ops, round),
        vertex < mesh.positions@.len(),
        mesh.positions@[vertex as int].finite(),
        smooth::mean(ops, smooth::places(mesh, smooth::smoothing_of(mesh, vertex))).finite(),
        place(smooth::mean(ops, smooth::places(mesh, smooth::smoothing_of(mesh, vertex)))) == place(
            mesh.positions@[vertex as int],
        ),
    ensures
        smooth::first_step(ops, mesh, vertex).finite(),
        place(smooth::first_step(ops, mesh, vertex)) == place(mesh.positions@[vertex as int]),
{
    meaning::constants_mean_what_they_say();
    let position = mesh.positions@[vertex as int];
    let mean = smooth::mean(ops, smooth::places(mesh, smooth::smoothing_of(mesh, vertex)));
    assert(fits(value(scalar::ZERO)));
    assert(fits(value(position.x)) && fits(value(position.y)) && fits(value(position.z)));
    space::differences_subtract_places(ops, round, mean, position);
    let way = arithmetic::spec_minus(ops, mean, position);
    let half = value(scalar::HALF);
    assert(0 as real * half == 0 as real) by (nonlinear_arith);
    space::multiples_scale_places(ops, round, way, scalar::HALF);
    let step = arithmetic::spec_times(ops, way, scalar::HALF);
    let (x, y, z) = place(position);
    assert(added(place(position), place(step)) == place(position));
    space::sums_add_places(ops, round, position, step);
}

/// Where the first step of smoothing takes a vertex: halfway to the mean of what it is smoothed
/// against.
pub open spec fn halfway(mesh: Mesh, vertex: u32) -> (real, real, real) {
    let position = place(mesh.positions@[vertex as int]);
    let mean = middle(smooth::places(mesh, smooth::smoothing_of(mesh, vertex)));
    added(position, scaled(subtracted(mean, position), 1 as real / (2 as real)))
}

/// Whether that is worked out without rounding.
pub open spec fn steps(mesh: Mesh, vertex: u32) -> bool {
    let points = smooth::places(mesh, smooth::smoothing_of(mesh, vertex));
    let position = place(mesh.positions@[vertex as int]);
    &&& mesh.positions@[vertex as int].finite()
    &&& averages(points)
    &&& holds(subtracted(middle(points), position))
    &&& holds(scaled(subtracted(middle(points), position), 1 as real / (2 as real)))
    &&& holds(halfway(mesh, vertex))
}

/// The first step goes halfway to the mean: twice where it leads is the vertex and the mean together.
pub proof fn the_first_step_goes_halfway<O: Arithmetic>(
    ops: &O,
    round: spec_fn(real) -> u32,
    mesh: Mesh,
    vertex: u32,
)
    requires
        rounds(ops, round),
        steps(mesh, vertex),
    ensures
        smooth::first_step(ops, mesh, vertex).finite(),
        place(smooth::first_step(ops, mesh, vertex)) == halfway(mesh, vertex),
        scaled(place(smooth::first_step(ops, mesh, vertex)), 2 as real) == added(
            place(mesh.positions@[vertex as int]),
            middle(smooth::places(mesh, smooth::smoothing_of(mesh, vertex))),
        ),
{
    meaning::constants_mean_what_they_say();
    let points = smooth::places(mesh, smooth::smoothing_of(mesh, vertex));
    let position = mesh.positions@[vertex as int];
    a_mean_shares_the_total_out(ops, round, points);
    let mean = smooth::mean(ops, points);
    space::differences_subtract_places(ops, round, mean, position);
    let way = arithmetic::spec_minus(ops, mean, position);
    space::multiples_scale_places(ops, round, way, scalar::HALF);
    let step = arithmetic::spec_times(ops, way, scalar::HALF);
    space::sums_add_places(ops, round, position, step);
}

/// Where a vertex is after the first step of smoothing some vertices.
pub open spec fn relaxed(mesh: Mesh, vertices: Seq<u32>, vertex: u32) -> (real, real, real) {
    if vertices.contains(vertex) && smooth::relaxable(mesh, vertex) {
        halfway(mesh, vertex)
    } else {
        place(mesh.positions@[vertex as int])
    }
}

/// The places added up.
pub open spec fn sum_of(vectors: Seq<(real, real, real)>) -> (real, real, real)
    decreases vectors.len(),
{
    if vectors.len() == 0 {
        space::nothing()
    } else {
        added(sum_of(vectors.drop_last()), vectors.last())
    }
}

/// Where the neighbors of a vertex are on average after the first step.
pub open spec fn relaxed_middle(mesh: Mesh, vertices: Seq<u32>, vertex: u32) -> (real, real, real) {
    let around = smooth::smoothing_of(mesh, vertex);
    let total = sum_of(Seq::new(around.len(), |i: int| relaxed(mesh, vertices, around[i])));
    let count = around.len() as real;
    (total.0 / count, total.1 / count, total.2 / count)
}

/// The number that the second step goes by: it goes back, and farther than the first went.
pub proof fn the_second_step_goes_back_farther()
    ensures
        scalar::finite(smooth::MU),
        -(5300001 as real / (10000000 as real)) < value(smooth::MU) < -(5299999 as real / (
        10000000 as real)),
{
    meaning::lemma_powers();
    let positive = scalar::negated(smooth::MU);
    meaning::the_sign_is_the_sign(smooth::MU);
    meaning::lemma_value_of(positive, 126, 0x7_ae14);
}

/// Whether smoothing a vertex is worked out without rounding.
pub open spec fn smooths<O: Arithmetic>(
    ops: &O,
    mesh: Mesh,
    vertices: Seq<u32>,
    vertex: u32,
) -> bool {
    let around = smooth::smoothing_of(mesh, vertex);
    let position = place(mesh.positions@[vertex as int]);
    let first = halfway(mesh, vertex);
    let second = relaxed_middle(mesh, vertices, vertex);
    let mu = value(smooth::MU);
    &&& steps(mesh, vertex)
    &&& forall|i: int|
        #![trigger around[i]]
        0 <= i < around.len() && vertices.contains(around[i]) && smooth::relaxable(mesh, around[i])
            ==> steps(mesh, around[i])
    &&& averages(smooth::places_after_first(ops, mesh, vertices, around))
    &&& holds(subtracted(first, position))
    &&& holds(subtracted(second, first))
    &&& holds(scaled(subtracted(second, first), mu))
    &&& holds(added(subtracted(first, position), scaled(subtracted(second, first), mu)))
}

proof fn lemma_sum_of_places(points: Seq<Point>, vectors: Seq<(real, real, real)>)
    requires
        points.len() == vectors.len(),
        forall|i: int| 0 <= i < points.len() ==> place(#[trigger] points[i]) == vectors[i],
    ensures
        space::total(points) == sum_of(vectors),
    decreases points.len(),
{
    if points.len() > 0 {
        assert(place(points[points.len() - 1]) == vectors[points.len() - 1]);
        lemma_sum_of_places(points.drop_last(), vectors.drop_last());
    }
}

/// Smoothing moves a vertex halfway to the mean of its neighbors, and from there by `-0.53` of the
/// way to where their mean is after that step.
pub proof fn smoothing_steps_out_and_back<O: Arithmetic>(
    ops: &O,
    round: spec_fn(real) -> u32,
    mesh: Mesh,
    vertices: Seq<u32>,
    vertex: u32,
)
    requires
        rounds(ops, round),
        smooths(ops, mesh, vertices, vertex),
    ensures
        smooth::smooth_unit(ops, mesh, vertices, vertex).finite(),
        place(smooth::smooth_unit(ops, mesh, vertices, vertex)) == added(
            subtracted(halfway(mesh, vertex), place(mesh.positions@[vertex as int])),
            scaled(
                subtracted(relaxed_middle(mesh, vertices, vertex), halfway(mesh, vertex)),
                value(smooth::MU),
            ),
        ),
{
    let around = smooth::smoothing_of(mesh, vertex);
    let position = mesh.positions@[vertex as int];
    the_first_step_goes_halfway(ops, round, mesh, vertex);
    let first = smooth::first_step(ops, mesh, vertex);
    let points = smooth::places_after_first(ops, mesh, vertices, around);
    let vectors = Seq::new(around.len(), |i: int| relaxed(mesh, vertices, around[i]));
    assert forall|i: int| 0 <= i < points.len() implies place(#[trigger] points[i])
        == vectors[i] by {
        let neighbor = around[i];
        if vertices.contains(neighbor) && smooth::relaxable(mesh, neighbor) {
            the_first_step_goes_halfway(ops, round, mesh, neighbor);
        }
    }
    lemma_sum_of_places(points, vectors);
    a_mean_shares_the_total_out(ops, round, points);
    let mean = smooth::mean(ops, points);
    the_second_step_goes_back_farther();
    space::differences_subtract_places(ops, round, first, position);
    space::differences_subtract_places(ops, round, mean, first);
    let back = arithmetic::spec_minus(ops, mean, first);
    space::multiples_scale_places(ops, round, back, smooth::MU);
    space::sums_add_places(
        ops,
        round,
        arithmetic::spec_minus(ops, first, position),
        arithmetic::spec_times(ops, back, smooth::MU),
    );
}

/// Whether a mesh is another one moved as a whole.
pub open spec fn moved(mesh: Mesh, other: Mesh, offset: (real, real, real)) -> bool {
    &&& other.triangles == mesh.triangles
    &&& other.topology == mesh.topology
    &&& other.positions@.len() == mesh.positions@.len()
    &&& forall|v: int|
        0 <= v < mesh.positions@.len() ==> place(#[trigger] other.positions@[v]) == added(
            place(mesh.positions@[v]),
            offset,
        )
}

proof fn lemma_sums_move(
    a: Seq<(real, real, real)>,
    b: Seq<(real, real, real)>,
    offset: (real, real, real),
)
    requires
        a.len() == b.len(),
        forall|i: int| 0 <= i < a.len() ==> #[trigger] b[i] == added(a[i], offset),
    ensures
        sum_of(b) == added(sum_of(a), scaled(offset, a.len() as real)),
    decreases a.len(),
{
    let n = a.len() as real;
    let (x, y, z) = offset;
    if a.len() > 0 {
        lemma_sums_move(a.drop_last(), b.drop_last(), offset);
        assert(b[a.len() - 1] == added(a[a.len() - 1], offset));
        let m = a.drop_last().len() as real;
        assert(n == m + 1 as real);
        assert(x * m + x == x * n && y * m + y == y * n && z * m + z == z * n)
            by (nonlinear_arith)
            requires
                n == m + 1 as real,
        ;
    } else {
        assert(x * n == 0 as real && y * n == 0 as real && z * n == 0 as real) by (nonlinear_arith)
            requires
                n == 0 as real,
        ;
    }
}

/// A mean moves as its points do.
proof fn lemma_parts_move(
    a: (real, real, real),
    b: (real, real, real),
    offset: (real, real, real),
    n: real,
)
    requires
        b == added(a, scaled(offset, n)),
        n > 0 as real,
    ensures
        b.0 / n == a.0 / n + offset.0,
        b.1 / n == a.1 / n + offset.1,
        b.2 / n == a.2 / n + offset.2,
{
    let (p, q, r) = a;
    let (x, y, z) = offset;
    assert((p + x * n) / n == p / n + x && (q + y * n) / n == q / n + y && (r + z * n) / n == r / n
        + z) by (nonlinear_arith)
        requires
            n > 0 as real,
    ;
}

proof fn lemma_middles_move(mesh: Mesh, other: Mesh, offset: (real, real, real), around: Seq<u32>)
    requires
        moved(mesh, other, offset),
        around.len() > 0,
        forall|i: int| 0 <= i < around.len() ==> #[trigger] around[i] < mesh.positions@.len(),
    ensures
        middle(smooth::places(other, around)) == added(
            middle(smooth::places(mesh, around)),
            offset,
        ),
{
    let (a, b) = (smooth::places(mesh, around), smooth::places(other, around));
    let p = Seq::new(around.len(), |i: int| place(a[i]));
    let q = Seq::new(around.len(), |i: int| place(b[i]));
    lemma_sum_of_places(a, p);
    lemma_sum_of_places(b, q);
    assert forall|i: int| 0 <= i < p.len() implies #[trigger] q[i] == added(p[i], offset) by {
        assert(around[i] < mesh.positions@.len());
    }
    lemma_sums_move(p, q, offset);
    lemma_parts_move(space::total(a), space::total(b), offset, around.len() as real);
}

/// Whether what a vertex is smoothed against are vertices of the mesh.
pub open spec fn within(mesh: Mesh, vertex: u32) -> bool {
    let around = smooth::smoothing_of(mesh, vertex);
    &&& vertex < mesh.positions@.len()
    &&& around.len() > 0
    &&& forall|i: int| 0 <= i < around.len() ==> #[trigger] around[i] < mesh.positions@.len()
}

proof fn lemma_same_neighbors(mesh: Mesh, other: Mesh, vertex: u32)
    requires
        other.triangles == mesh.triangles,
        other.topology == mesh.topology,
    ensures
        smooth::smoothing_of(other, vertex) == smooth::smoothing_of(mesh, vertex),
{
    let a = |neighbor: u32| smooth::lone_edge(mesh, vertex, neighbor);
    let b = |neighbor: u32| smooth::lone_edge(other, vertex, neighbor);
    assert(a =~= b);
}

proof fn lemma_halfway_moves(mesh: Mesh, other: Mesh, offset: (real, real, real), vertex: u32)
    requires
        moved(mesh, other, offset),
        within(mesh, vertex),
    ensures
        halfway(other, vertex) == added(halfway(mesh, vertex), offset),
{
    let around = smooth::smoothing_of(mesh, vertex);
    lemma_same_neighbors(mesh, other, vertex);
    lemma_middles_move(mesh, other, offset, around);
    let p = place(mesh.positions@[vertex as int]);
    assert(place(other.positions@[vertex as int]) == added(p, offset));
    let m = middle(smooth::places(mesh, around));
    assert(subtracted(added(m, offset), added(p, offset)) == subtracted(m, p));
}

/// How far smoothing moves a vertex does not depend on where the mesh is: where nothing is rounded,
/// it moves the vertices of a mesh that was moved as a whole by as much as those of the mesh.
pub proof fn smoothing_does_not_depend_on_where_the_mesh_is<O: Arithmetic>(
    ops: &O,
    round: spec_fn(real) -> u32,
    mesh: Mesh,
    other: Mesh,
    offset: (real, real, real),
    vertices: Seq<u32>,
    vertex: u32,
)
    requires
        rounds(ops, round),
        moved(mesh, other, offset),
        within(mesh, vertex),
        forall|v: u32| vertices.contains(v) && #[trigger] smooth::relaxable(mesh, v) ==> within(
            mesh,
            v,
        ),
        smooths(ops, mesh, vertices, vertex),
        smooths(ops, other, vertices, vertex),
    ensures
        place(smooth::smooth_unit(ops, other, vertices, vertex)) == place(
            smooth::smooth_unit(ops, mesh, vertices, vertex),
        ),
{
    smoothing_steps_out_and_back(ops, round, mesh, vertices, vertex);
    smoothing_steps_out_and_back(ops, round, other, vertices, vertex);
    lemma_halfway_moves(mesh, other, offset, vertex);
    let around = smooth::smoothing_of(mesh, vertex);
    lemma_same_neighbors(mesh, other, vertex);
    let p = Seq::new(around.len(), |i: int| relaxed(mesh, vertices, around[i]));
    let q = Seq::new(around.len(), |i: int| relaxed(other, vertices, around[i]));
    assert forall|i: int| 0 <= i < p.len() implies #[trigger] q[i] == added(p[i], offset) by {
        let v = around[i];
        assert(v < mesh.positions@.len());
        lemma_same_neighbors(mesh, other, v);
        assert(smooth::relaxable(other, v) == smooth::relaxable(mesh, v));
        if vertices.contains(v) && smooth::relaxable(mesh, v) {
            lemma_halfway_moves(mesh, other, offset, v);
        }
    }
    lemma_sums_move(p, q, offset);
    lemma_parts_move(sum_of(p), sum_of(q), offset, around.len() as real);
    let (h, m) = (halfway(mesh, vertex), relaxed_middle(mesh, vertices, vertex));
    let position = place(mesh.positions@[vertex as int]);
    assert(place(other.positions@[vertex as int]) == added(position, offset));
    assert(relaxed_middle(other, vertices, vertex) == added(m, offset));
    assert(subtracted(added(m, offset), added(h, offset)) == subtracted(m, h));
    assert(subtracted(added(h, offset), added(position, offset)) == subtracted(h, position));
}

} // verus!
