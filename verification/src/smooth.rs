//! Smoothing that does not shrink the surface.
use crate::arithmetic;
use crate::arithmetic::Arithmetic;
use crate::frame;
use crate::mesh::Mesh;
use crate::pass;
use crate::scalar;
use crate::scalar::Point;
use crate::table::Table;
use crate::topology;
use vstd::prelude::*;

verus! {

/// The bit pattern of `-0.53`, by which the second step goes back.
pub const MU: u32 = 0xbf07_ae14;

/// Whether an edge at a vertex belongs to one face only.
pub open spec fn lone_edge(mesh: Mesh, vertex: u32, neighbor: u32) -> bool {
    topology::edge_uses(mesh.triangles@, topology::edge(vertex, neighbor)).len() == 1
}

/// The vertices that a vertex is smoothed against: its neighbors, on a boundary those along it.
pub open spec fn smoothing_of(mesh: Mesh, vertex: u32) -> Seq<u32> {
    let neighbors = mesh.topology.vertex_neighbors@[vertex as int]@;
    if topology::on_boundary(mesh.triangles@, vertex) {
        neighbors.filter(|neighbor: u32| lone_edge(mesh, vertex, neighbor))
    } else {
        neighbors
    }
}

pub fn smoothing_neighbors(mesh: &Mesh, vertex: u32) -> (result: Vec<u32>)
    requires
        mesh.well_formed(),
        vertex < mesh.positions@.len(),
    ensures
        result@ == smoothing_of(*mesh, vertex),
        forall|i: int| 0 <= i < result@.len() ==> #[trigger] result@[i] < mesh.positions@.len(),
{
    let neighbors = mesh.topology.vertex_neighbors[vertex as usize].as_slice();
    let boundary = mesh.topology.boundary_vertices[vertex as usize];
    let mut result: Vec<u32> = Vec::with_capacity(neighbors.len());
    let ghost keep = |neighbor: u32| lone_edge(*mesh, vertex, neighbor);
    let mut n: usize = 0;
    while n < neighbors.len()
        invariant
            n <= neighbors@.len(),
            mesh.well_formed(),
            vertex < mesh.positions@.len(),
            neighbors@ == mesh.topology.vertex_neighbors@[vertex as int]@,
            boundary == topology::on_boundary(mesh.triangles@, vertex),
            keep == (|neighbor: u32| lone_edge(*mesh, vertex, neighbor)),
            boundary ==> result@ == neighbors@.take(n as int).filter(keep),
            !boundary ==> result@ == neighbors@.take(n as int),
            forall|i: int|
                0 <= i < result@.len() ==> #[trigger] result@[i] < mesh.positions@.len(),
        decreases neighbors@.len() - n,
    {
        let neighbor = neighbors[n];
        proof {
            assert(neighbors@.contains(neighbors@[n as int]));
            assert(topology::adjacent(mesh.triangles@, vertex, neighbor));
            pass::lemma_adjacent_exists(*mesh, vertex, neighbor);
            assert(neighbors@.take(n + 1).drop_last() =~= neighbors@.take(n as int));
            reveal(Seq::filter);
        }
        let kept = if boundary {
            let edge = topology::edge_key(vertex, neighbor);
            match mesh.topology.edge_faces.faces(edge) {
                Some(faces) => faces.len() == 1,
                None => false,
            }
        } else {
            true
        };
        proof {
            let side = topology::edge(vertex, neighbor);
            assert(crate::collections::listed(mesh.topology.edge_faces@, side)
                == topology::edge_uses(mesh.triangles@, side));
            assert(boundary ==> kept == keep(neighbor));
        }
        if kept {
            result.push(neighbor);
        }
        n += 1;
    }
    assert(neighbors@.take(n as int) =~= neighbors@);
    result
}

/// The mean of points.
pub open spec fn mean<O: Arithmetic>(ops: &O, points: Seq<Point>) -> Point {
    arithmetic::spec_over(
        ops,
        arithmetic::spec_total(ops, points),
        ops.spec_count(points.len() as usize),
    )
}

/// Whether a vertex can be smoothed: its faces make one fan, and it has vertices to be smoothed
/// against.
pub open spec fn relaxable(mesh: Mesh, vertex: u32) -> bool {
    &&& vertex < mesh.positions@.len()
    &&& !topology::non_manifold(mesh.triangles@, vertex)
    &&& smoothing_of(mesh, vertex).len() > 0
}

pub open spec fn places(mesh: Mesh, vertices: Seq<u32>) -> Seq<Point> {
    Seq::new(vertices.len(), |i: int| mesh.positions@[vertices[i] as int])
}

/// Where the first step takes a vertex: halfway to the mean.
pub open spec fn first_step<O: Arithmetic>(ops: &O, mesh: Mesh, vertex: u32) -> Point {
    let position = mesh.positions@[vertex as int];
    arithmetic::spec_plus(
        ops,
        position,
        arithmetic::spec_times(
            ops,
            arithmetic::spec_minus(
                ops,
                mean(ops, places(mesh, smoothing_of(mesh, vertex))),
                position,
            ),
            scalar::HALF,
        ),
    )
}

/// Where a vertex is after the first step over some vertices.
pub open spec fn after_first<O: Arithmetic>(
    ops: &O,
    mesh: Mesh,
    vertices: Seq<u32>,
    vertex: u32,
) -> Point {
    if vertices.contains(vertex) && relaxable(mesh, vertex) {
        first_step(ops, mesh, vertex)
    } else {
        mesh.positions@[vertex as int]
    }
}

pub open spec fn places_after_first<O: Arithmetic>(
    ops: &O,
    mesh: Mesh,
    vertices: Seq<u32>,
    around: Seq<u32>,
) -> Seq<Point> {
    Seq::new(around.len(), |i: int| after_first(ops, mesh, vertices, around[i]))
}

/// How far both steps together move a vertex.
pub open spec fn smooth_unit<O: Arithmetic>(
    ops: &O,
    mesh: Mesh,
    vertices: Seq<u32>,
    vertex: u32,
) -> Point {
    let first = first_step(ops, mesh, vertex);
    arithmetic::spec_plus(
        ops,
        arithmetic::spec_minus(ops, first, mesh.positions@[vertex as int]),
        arithmetic::spec_times(
            ops,
            arithmetic::spec_minus(
                ops,
                mean(
                    ops,
                    places_after_first(ops, mesh, vertices, smoothing_of(mesh, vertex)),
                ),
                first,
            ),
            MU,
        ),
    )
}

/// The moves of the vertices that can be smoothed.
pub open spec fn smooth_units<O: Arithmetic>(ops: &O, mesh: Mesh, vertices: Seq<u32>) -> Map<
    u32,
    Point,
> {
    Map::new(
        |v: u32| vertices.contains(v) && relaxable(mesh, v),
        |v: u32| smooth_unit(ops, mesh, vertices, v),
    )
}

fn mean_of<O: Arithmetic>(ops: &O, points: &Vec<Point>) -> (result: Point)
    requires
        ops.total(),
    ensures
        result == mean(ops, points@),
{
    let mut total = Point { x: scalar::ZERO, y: scalar::ZERO, z: scalar::ZERO };
    let mut i: usize = 0;
    while i < points.len()
        invariant
            i <= points@.len(),
            ops.total(),
            total == arithmetic::spec_total(ops, points@.take(i as int)),
        decreases points@.len() - i,
    {
        total = arithmetic::plus(ops, total, points[i]);
        assert(points@.take(i + 1).drop_last() =~= points@.take(i as int));
        i += 1;
    }
    assert(points@.take(i as int) =~= points@);
    arithmetic::over(ops, total, ops.count(points.len()))
}

/// The first step over some vertices.
fn first_positions<O: Arithmetic>(
    mesh: &Mesh,
    vertices: &Vec<u32>,
    source: &Table<Point>,
    ops: &O,
) -> (result: Table<Point>)
    requires
        ops.total(),
        mesh.well_formed(),
        source.well_formed(),
        pass::holds_positions(*mesh, source@),
        pass::all_vertices(vertices@, mesh.positions@.len()),
        vertices@.no_duplicates(),
    ensures
        result.well_formed(),
        forall|v: u32| #[trigger]
            result@.contains_key(v) <==> vertices@.contains(v) && relaxable(*mesh, v),
        forall|v: u32| #[trigger]
            result@.contains_key(v) ==> result@[v] == first_step(ops, *mesh, v),
{
    let mut first: Table<Point> = Table::new();
    let mut i: usize = 0;
    while i < vertices.len()
        invariant
            i <= vertices@.len(),
            ops.total(),
            mesh.well_formed(),
            source.well_formed(),
            pass::holds_positions(*mesh, source@),
            pass::all_vertices(vertices@, mesh.positions@.len()),
            first.well_formed(),
            forall|v: u32| #[trigger]
                first@.contains_key(v) <==> vertices@.take(i as int).contains(v) && relaxable(
                    *mesh,
                    v,
                ),
            forall|v: u32| #[trigger]
                first@.contains_key(v) ==> first@[v] == first_step(ops, *mesh, v),
        decreases vertices@.len() - i,
    {
        let vertex = vertices[i];
        assert(vertices@[i as int] < mesh.positions@.len());
        proof {
            pass::lemma_take_contains(vertices@, i as int);
        }
        i += 1;
        if mesh.topology.non_manifold_vertices[vertex as usize] {
            continue;
        }
        let neighbors = smoothing_neighbors(mesh, vertex);
        if neighbors.len() == 0 {
            continue;
        }
        let position = frame::source_position(mesh, source, vertex);
        let points = places_of(mesh, &neighbors, source);
        let average = mean_of(ops, &points);
        first.insert(
            vertex,
            arithmetic::plus(
                ops,
                position,
                arithmetic::times(ops, arithmetic::minus(ops, average, position), scalar::HALF),
            ),
        );
    }
    assert(vertices@.take(i as int) =~= vertices@);
    first
}

fn places_of(mesh: &Mesh, vertices: &Vec<u32>, source: &Table<Point>) -> (result: Vec<Point>)
    requires
        source.well_formed(),
        pass::holds_positions(*mesh, source@),
        forall|i: int|
            0 <= i < vertices@.len() ==> #[trigger] vertices@[i] < mesh.positions@.len(),
    ensures
        result@ == places(*mesh, vertices@),
{
    let mut points: Vec<Point> = Vec::with_capacity(vertices.len());
    let mut i: usize = 0;
    while i < vertices.len()
        invariant
            i <= vertices@.len(),
            source.well_formed(),
            pass::holds_positions(*mesh, source@),
            forall|k: int|
                0 <= k < vertices@.len() ==> #[trigger] vertices@[k] < mesh.positions@.len(),
            points@.len() == i,
            forall|k: int| 0 <= k < i ==> #[trigger] points@[k] == places(*mesh, vertices@)[k],
        decreases vertices@.len() - i,
    {
        assert(vertices@[i as int] < mesh.positions@.len());
        points.push(frame::source_position(mesh, source, vertices[i]));
        i += 1;
    }
    assert(points@ =~= places(*mesh, vertices@));
    points
}

/// Works out how far smoothing moves each of some vertices: halfway to the mean of its neighbors
/// and, seen from there, a little more than halfway back.
pub fn taubin_smooth_units<O: Arithmetic>(
    mesh: &Mesh,
    vertices: &Vec<u32>,
    source: &Table<Point>,
    ops: &O,
) -> (result: Table<Point>)
    requires
        ops.total(),
        mesh.well_formed(),
        source.well_formed(),
        pass::holds_positions(*mesh, source@),
        pass::all_vertices(vertices@, mesh.positions@.len()),
        vertices@.no_duplicates(),
    ensures
        result.well_formed(),
        result@ == smooth_units(ops, *mesh, vertices@),
{
    let first = first_positions(mesh, vertices, source, ops);
    let mut units: Table<Point> = Table::new();
    proof {
        first.order_names_the_indices();
    }
    let mut k: usize = 0;
    while k < first.len()
        invariant
            k <= first.order().len(),
            ops.total(),
            mesh.well_formed(),
            source.well_formed(),
            pass::holds_positions(*mesh, source@),
            first.well_formed(),
            first.order().no_duplicates(),
            forall|i: int|
                0 <= i < first.order().len() ==> first@.contains_key(#[trigger] first.order()[i]),
            forall|v: u32| #[trigger]
                first@.contains_key(v) <==> vertices@.contains(v) && relaxable(*mesh, v),
            forall|v: u32| #[trigger]
                first@.contains_key(v) ==> first@[v] == first_step(ops, *mesh, v),
            units.well_formed(),
            forall|v: u32| #[trigger]
                units@.contains_key(v) <==> first.order().take(k as int).contains(v),
            forall|v: u32| #[trigger]
                units@.contains_key(v) ==> units@[v] == smooth_unit(ops, *mesh, vertices@, v),
        decreases first.order().len() - k,
    {
        let vertex = first.key(k);
        let first_position = first.value(k);
        assert(first@.contains_key(vertex));
        let neighbors = smoothing_neighbors(mesh, vertex);
        let mut points: Vec<Point> = Vec::with_capacity(neighbors.len());
        let mut n: usize = 0;
        while n < neighbors.len()
            invariant
                n <= neighbors@.len(),
                source.well_formed(),
                pass::holds_positions(*mesh, source@),
                first.well_formed(),
                forall|v: u32| #[trigger]
                    first@.contains_key(v) <==> vertices@.contains(v) && relaxable(*mesh, v),
                forall|v: u32| #[trigger]
                    first@.contains_key(v) ==> first@[v] == first_step(ops, *mesh, v),
                forall|i: int|
                    0 <= i < neighbors@.len() ==> #[trigger] neighbors@[i] < mesh.positions@.len(),
                points@.len() == n,
                forall|i: int|
                    0 <= i < n ==> #[trigger] points@[i] == after_first(
                        ops,
                        *mesh,
                        vertices@,
                        neighbors@[i],
                    ),
            decreases neighbors@.len() - n,
        {
            let neighbor = neighbors[n];
            assert(neighbors@[n as int] < mesh.positions@.len());
            let point = match first.get(neighbor) {
                Some(point) => point,
                None => frame::source_position(mesh, source, neighbor),
            };
            points.push(point);
            n += 1;
        }
        assert(points@ =~= places_after_first(
            ops,
            *mesh,
            vertices@,
            smoothing_of(*mesh, vertex),
        ));
        let average = mean_of(ops, &points);
        let original = frame::source_position(mesh, source, vertex);
        let unit = arithmetic::plus(
            ops,
            arithmetic::minus(ops, first_position, original),
            arithmetic::times(ops, arithmetic::minus(ops, average, first_position), MU),
        );
        units.insert(vertex, unit);
        proof {
            pass::lemma_take_contains(first.order(), k as int);
        }
        k += 1;
    }
    proof {
        first.order_names_the_indices();
        assert(first.order().take(k as int) =~= first.order());
        let wanted = smooth_units(ops, *mesh, vertices@);
        assert forall|v: u32| #[trigger] units@.contains_key(v) <==> wanted.contains_key(v) by {
            assert(first.order().take(k as int).contains(v) <==> first@.contains_key(v));
        }
        assert(units@ =~= wanted);
    }
    units
}

} // verus!
