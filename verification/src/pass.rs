//! The part of a surface that a sample of a stroke reaches.
use crate::arithmetic;
use crate::arithmetic::Arithmetic;
use crate::brush::BrushSample;
use crate::brush::SculptTool;
use crate::collections;
use crate::collections::EdgeKey;
use crate::collections::EdgeSet;
use crate::mesh::Mesh;
use crate::region;
use crate::region::VertexTraversalScratch;
use crate::scalar;
use crate::scalar::Point;
use crate::table::Table;
use crate::topology;
use vstd::prelude::*;

verus! {

/// Whether a pass is over the pointer or over its mirror image.
#[derive(Clone, Copy, Debug, PartialEq, Eq, Hash, Structural)]
pub enum PassSide {
    Primary,
    Mirrored,
}

/// A sample and the vertices that it reaches.
#[derive(Debug)]
pub struct PreparedPass {
    pub sample: BrushSample,
    pub vertices: Vec<u32>,
    pub side: PassSide,
}

/// Whether vertices are those that a sample reaches: taken by its brush, and connected to its seed
/// triangle by vertices that are, in the order of a walk from that triangle.
pub open spec fn reached<O: Arithmetic>(
    ops: &O,
    mesh: Mesh,
    sample: BrushSample,
    radius: u32,
    vertices: Seq<u32>,
) -> bool {
    &&& vertices.no_duplicates()
    &&& if sample.seed_triangle < mesh.triangles@.len() && region::brush_is_real(
        sample.center,
        radius,
    ) {
        let seed = mesh.triangles@[sample.seed_triangle as int];
        let dab = region::dab_at(mesh, seed, sample.center, radius, sample.view_direction, ops);
        &&& vertices == region::walk(mesh, ops, dab, seed)
        &&& forall|v: u32| #[trigger]
            vertices.contains(v) <==> region::in_region(mesh, ops, dab, seed, v)
    } else {
        vertices.len() == 0
    }
}

/// Whether a pass is what a sample reaches.
pub open spec fn prepared<O: Arithmetic>(
    ops: &O,
    mesh: Mesh,
    sample: BrushSample,
    radius: u32,
    side: PassSide,
    pass: PreparedPass,
) -> bool {
    &&& pass.sample == sample
    &&& pass.side == side
    &&& reached(ops, mesh, sample, radius, pass.vertices@)
}

/// Whether every vertex of a list is a vertex of a mesh.
pub open spec fn all_vertices(vertices: Seq<u32>, vertex_count: nat) -> bool {
    forall|i: int| 0 <= i < vertices.len() ==> #[trigger] vertices[i] < vertex_count
}

/// Whether passes go over vertices of a mesh, each over one once.
pub open spec fn sound(passes: Seq<PreparedPass>, vertex_count: nat) -> bool {
    forall|i: int|
        0 <= i < passes.len() ==> all_vertices((#[trigger] passes[i]).vertices@, vertex_count)
            && passes[i].vertices@.no_duplicates()
}

/// What a sample reaches are vertices.
pub proof fn reached_are_vertices<O: Arithmetic>(
    ops: &O,
    mesh: Mesh,
    sample: BrushSample,
    radius: u32,
    vertices: Seq<u32>,
)
    requires
        reached(ops, mesh, sample, radius, vertices),
    ensures
        all_vertices(vertices, mesh.positions@.len()),
{
    assert forall|i: int| 0 <= i < vertices.len() implies #[trigger] vertices[i]
        < mesh.positions@.len() by {
        let v = vertices[i];
        assert(vertices.contains(v));
        let seed = mesh.triangles@[sample.seed_triangle as int];
        let dab = region::dab_at(
            mesh,
            seed,
            sample.center,
            radius,
            sample.view_direction,
            ops,
        );
        assert(region::in_region(mesh, ops, dab, seed, v));
        let path = choose|path: Seq<u32>| #[trigger]
            region::is_path(mesh, ops, dab, seed, path) && path.last() == v;
        assert(region::taken(mesh, ops, dab, path[path.len() - 1]));
    }
}

impl PreparedPass {
    /// Finds what a sample reaches.
    pub fn new<O: Arithmetic>(
        mesh: &Mesh,
        sample: BrushSample,
        radius: u32,
        side: PassSide,
        traversal: &mut VertexTraversalScratch,
        ops: &O,
    ) -> (result: PreparedPass)
        requires
            ops.total(),
            mesh.well_formed(),
            old(traversal).well_formed(),
        ensures
            final(traversal).well_formed(),
            prepared(ops, *mesh, sample, radius, side, result),
            all_vertices(result.vertices@, mesh.positions@.len()),
    {
        let mut vertices: Vec<u32> = Vec::new();
        mesh.connected_front_facing_vertices(
            sample.seed_triangle,
            sample.center,
            radius,
            sample.view_direction,
            ops,
            traversal,
            &mut vertices,
        );
        proof {
            reached_are_vertices(ops, *mesh, sample, radius, vertices@);
        }
        PreparedPass { sample, vertices, side }
    }
}

/// Whether one of some passes goes over a vertex.
pub open spec fn passed(passes: Seq<PreparedPass>, vertex: u32) -> bool {
    exists|i: int| 0 <= i < passes.len() && (#[trigger] passes[i]).vertices@.contains(vertex)
}

/// Whether a vertex is beside one of some vertices.
pub open spec fn beside(mesh: Mesh, vertices: Seq<u32>, vertex: u32) -> bool {
    exists|u: u32| #[trigger]
        vertices.contains(u) && topology::adjacent(mesh.triangles@, u, vertex)
}

/// Whether some passes need the position of a vertex: they go over it, or to smooth over a vertex
/// beside it.
pub open spec fn needed(mesh: Mesh, tool: SculptTool, passes: Seq<PreparedPass>, vertex: u32) -> bool {
    exists|i: int|
        0 <= i < passes.len() && ((#[trigger] passes[i]).vertices@.contains(vertex) || (tool
            == SculptTool::Smooth && beside(mesh, passes[i].vertices@, vertex)))
}

/// Whether a table holds positions of a mesh.
pub open spec fn holds_positions(mesh: Mesh, source: Map<u32, Point>) -> bool {
    forall|v: u32| #[trigger]
        source.contains_key(v) ==> v < mesh.positions@.len() && source[v]
            == mesh.positions@[v as int]
}

proof fn lemma_needed_next(
    mesh: Mesh,
    tool: SculptTool,
    passes: Seq<PreparedPass>,
    i: int,
    vertex: u32,
)
    requires
        0 <= i < passes.len(),
    ensures
        needed(mesh, tool, passes.take(i + 1), vertex) <==> (needed(
            mesh,
            tool,
            passes.take(i),
            vertex,
        ) || passes[i].vertices@.contains(vertex) || (tool == SculptTool::Smooth && beside(
            mesh,
            passes[i].vertices@,
            vertex,
        ))),
{
    let more = passes.take(i + 1);
    let less = passes.take(i);
    assert(more[i] == passes[i]);
    assert forall|k: int| 0 <= k < i implies #[trigger] more[k] == less[k] by {}
    if needed(mesh, tool, less, vertex) {
        let k = choose|k: int|
            0 <= k < less.len() && ((#[trigger] less[k]).vertices@.contains(vertex) || (tool
                == SculptTool::Smooth && beside(mesh, less[k].vertices@, vertex)));
        assert(more[k] == less[k]);
    }
    if needed(mesh, tool, more, vertex) {
        let k = choose|k: int|
            0 <= k < more.len() && ((#[trigger] more[k]).vertices@.contains(vertex) || (tool
                == SculptTool::Smooth && beside(mesh, more[k].vertices@, vertex)));
        if k < i {
            assert(more[k] == less[k]);
        }
    }
}

/// Collects the positions that some passes need.
pub fn capture_source_positions(
    mesh: &Mesh,
    tool: SculptTool,
    passes: &Vec<PreparedPass>,
) -> (result: Table<Point>)
    requires
        mesh.well_formed(),
        sound(passes@, mesh.positions@.len()),
    ensures
        result.well_formed(),
        holds_positions(*mesh, result@),
        forall|v: u32| #[trigger]
            result@.contains_key(v) <==> needed(*mesh, tool, passes@, v),
{
    let mut source: Table<Point> = Table::new();
    let mut p: usize = 0;
    while p < passes.len()
        invariant
            p <= passes@.len(),
            mesh.well_formed(),
            sound(passes@, mesh.positions@.len()),
            source.well_formed(),
            holds_positions(*mesh, source@),
            forall|v: u32| #[trigger]
                source@.contains_key(v) <==> needed(*mesh, tool, passes@.take(p as int), v),
        decreases passes@.len() - p,
    {
        let ghost before = source@;
        let vertices = &passes[p].vertices;
        let ghost reach = vertices@;
        assert(all_vertices(passes@[p as int].vertices@, mesh.positions@.len()));
        let mut i: usize = 0;
        while i < vertices.len()
            invariant
                i <= vertices@.len(),
                vertices@ == reach,
                mesh.well_formed(),
                all_vertices(reach, mesh.positions@.len()),
                source.well_formed(),
                holds_positions(*mesh, source@),
                forall|v: u32| #[trigger]
                    source@.contains_key(v) <==> (before.contains_key(v) || reach.take(
                        i as int,
                    ).contains(v) || (tool == SculptTool::Smooth && beside(
                        *mesh,
                        reach.take(i as int),
                        v,
                    ))),
            decreases vertices@.len() - i,
        {
            let vertex = vertices[i];
            assert(reach[i as int] < mesh.positions@.len());
            let ghost seen = reach.take(i as int);
            let ghost more = reach.take(i + 1);
            let ghost at_vertex = source@;
            if source.get(vertex).is_none() {
                source.insert(vertex, mesh.positions[vertex as usize]);
            }
            let ghost with_vertex = source@;
            if tool == SculptTool::Smooth {
                let neighbors = mesh.topology.vertex_neighbors[vertex as usize].as_slice();
                let mut n: usize = 0;
                while n < neighbors.len()
                    invariant
                        n <= neighbors@.len(),
                        mesh.well_formed(),
                        vertex < mesh.positions@.len(),
                        neighbors@ == mesh.topology.vertex_neighbors@[vertex as int]@,
                        source.well_formed(),
                        holds_positions(*mesh, source@),
                        forall|v: u32| #[trigger]
                            source@.contains_key(v) <==> (with_vertex.contains_key(v)
                                || neighbors@.take(n as int).contains(v)),
                    decreases neighbors@.len() - n,
                {
                    let neighbor = neighbors[n];
                    proof {
                        assert(neighbors@.contains(neighbors@[n as int]));
                        assert(topology::adjacent(mesh.triangles@, vertex, neighbor));
                        lemma_adjacent_exists(*mesh, vertex, neighbor);
                        lemma_take_contains(neighbors@, n as int);
                    }
                    if source.get(neighbor).is_none() {
                        source.insert(neighbor, mesh.positions[neighbor as usize]);
                    }
                    n += 1;
                }
                assert(neighbors@.take(n as int) =~= neighbors@);
            }
            proof {
                lemma_take_contains(reach, i as int);
                assert forall|v: u32| #[trigger] source@.contains_key(v) <==> (
                before.contains_key(v) || more.contains(v) || (tool == SculptTool::Smooth
                    && beside(*mesh, more, v))) by {
                    assert(at_vertex.contains_key(v) <==> (before.contains_key(v)
                        || seen.contains(v) || (tool == SculptTool::Smooth && beside(
                        *mesh,
                        seen,
                        v,
                    ))));
                    assert(with_vertex.contains_key(v) <==> at_vertex.contains_key(v) || v
                        == vertex);
                    lemma_beside_next(*mesh, reach, i as int, v);
                    assert(mesh.topology.vertex_neighbors@[vertex as int]@.contains(v)
                        <==> topology::adjacent(mesh.triangles@, vertex, v));
                }
            }
            i += 1;
        }
        proof {
            assert(reach.take(i as int) =~= reach);
            assert forall|v: u32| #[trigger] source@.contains_key(v) <==> needed(
                *mesh,
                tool,
                passes@.take(p + 1),
                v,
            ) by {
                assert(before.contains_key(v) <==> needed(*mesh, tool, passes@.take(p as int), v));
                lemma_needed_next(*mesh, tool, passes@, p as int, v);
            }
        }
        p += 1;
    }
    assert(passes@.take(p as int) =~= passes@);
    source
}

pub proof fn lemma_take_contains(items: Seq<u32>, i: int)
    requires
        0 <= i < items.len(),
    ensures
        forall|v: u32| #[trigger]
            items.take(i + 1).contains(v) <==> (items.take(i).contains(v) || v == items[i]),
{
    let more = items.take(i + 1);
    let less = items.take(i);
    assert(more =~= less.push(items[i]));
    assert forall|v: u32| #[trigger] more.contains(v) <==> (less.contains(v) || v == items[i]) by {
        collections::push_contains(less, items[i], v);
    }
}

proof fn lemma_beside_next(mesh: Mesh, vertices: Seq<u32>, i: int, vertex: u32)
    requires
        0 <= i < vertices.len(),
    ensures
        beside(mesh, vertices.take(i + 1), vertex) <==> (beside(mesh, vertices.take(i), vertex)
            || topology::adjacent(mesh.triangles@, vertices[i], vertex)),
{
    let more = vertices.take(i + 1);
    let less = vertices.take(i);
    lemma_take_contains(vertices, i);
    if beside(mesh, less, vertex) {
        let u = choose|u: u32| #[trigger]
            less.contains(u) && topology::adjacent(mesh.triangles@, u, vertex);
        assert(more.contains(u));
    }
    assert(more.contains(vertices[i]));
    if beside(mesh, more, vertex) {
        let u = choose|u: u32| #[trigger]
            more.contains(u) && topology::adjacent(mesh.triangles@, u, vertex);
        assert(less.contains(u) || u == vertices[i]);
    }
}

/// What is beside a vertex is a vertex.
pub proof fn lemma_adjacent_exists(mesh: Mesh, a: u32, b: u32)
    requires
        mesh.well_formed(),
        topology::adjacent(mesh.triangles@, a, b),
    ensures
        a < mesh.positions@.len(),
        b < mesh.positions@.len(),
{
    let i = choose|i: int|
        0 <= i < mesh.triangles@.len() && topology::is_corner(#[trigger] mesh.triangles@[i], a)
            && topology::is_corner(mesh.triangles@[i], b);
    let triangle = mesh.triangles@[i];
    assert(topology::distinct_corners(triangle));
}

/// Whether a corner of a triangle is within two radii of a point.
pub open spec fn near<O: Arithmetic>(
    ops: &O,
    mesh: Mesh,
    triangle: u32,
    point: Point,
    radius: u32,
) -> bool {
    let reach = ops.spec_product(radius, scalar::TWO);
    triangle < mesh.triangles@.len() && exists|k: int|
        0 <= k < 3 && scalar::le(
            arithmetic::spec_distance_squared(
                ops,
                mesh.positions@[#[trigger] mesh.triangles@[triangle as int]@[k] as int],
                point,
            ),
            ops.spec_product(reach, reach),
        )
}

pub fn triangle_is_near<O: Arithmetic>(
    mesh: &Mesh,
    triangle: u32,
    point: Point,
    radius: u32,
    ops: &O,
) -> (result: bool)
    requires
        ops.total(),
        mesh.well_formed(),
    ensures
        result == near(ops, *mesh, triangle, point, radius),
{
    if triangle as usize >= mesh.triangles.len() {
        return false;
    }
    let corners = mesh.triangles[triangle as usize];
    assert(topology::distinct_corners(mesh.triangles@[triangle as int]));
    let reach = ops.product(radius, scalar::TWO);
    let limit = ops.product(reach, reach);
    let mut k: usize = 0;
    while k < 3
        invariant
            k <= 3,
            ops.total(),
            mesh.well_formed(),
            triangle < mesh.triangles@.len(),
            corners == mesh.triangles@[triangle as int],
            corners@[0] < mesh.positions@.len(),
            corners@[1] < mesh.positions@.len(),
            corners@[2] < mesh.positions@.len(),
            reach == ops.spec_product(radius, scalar::TWO),
            limit == ops.spec_product(reach, reach),
            forall|j: int|
                0 <= j < k ==> !scalar::le(
                    arithmetic::spec_distance_squared(
                        ops,
                        mesh.positions@[#[trigger] mesh.triangles@[triangle as int]@[j] as int],
                        point,
                    ),
                    limit,
                ),
        decreases 3 - k,
    {
        let corner = corners[k];
        assert(corners@[k as int] == corner);
        assert(corner < mesh.positions@.len());
        if scalar::is_at_most(
            arithmetic::distance_squared(ops, mesh.positions[corner as usize], point),
            limit,
        ) {
            return true;
        }
        k += 1;
    }
    false
}

/// Whether an edge leaves a vertex that some passes go over.
pub open spec fn sampled_edge(mesh: Mesh, passes: Seq<PreparedPass>, side: EdgeKey) -> bool {
    exists|v: u32, u: u32| #[trigger]
        topology::adjacent(mesh.triangles@, v, u) && passed(passes, v) && side == topology::edge(
            v,
            u,
        )
}

pub open spec fn edge_length<O: Arithmetic>(ops: &O, mesh: Mesh, side: EdgeKey) -> u32 {
    arithmetic::spec_distance(
        ops,
        mesh.positions@[side.0 as int],
        mesh.positions@[side.1 as int],
    )
}

/// The lengths of edges that have one.
pub open spec fn measured<O: Arithmetic>(ops: &O, mesh: Mesh, sides: Seq<EdgeKey>) -> Seq<u32>
    decreases sides.len(),
{
    if sides.len() == 0 {
        Seq::empty()
    } else {
        let front = measured(ops, mesh, sides.drop_last());
        let length = edge_length(ops, mesh, sides.last());
        if scalar::finite(length) && scalar::lt(scalar::EPSILON, length) {
            front.push(length)
        } else {
            front
        }
    }
}

/// Whether a list names the edges that leave vertices that some passes go over, each once.
pub open spec fn sampled_edges(mesh: Mesh, passes: Seq<PreparedPass>, sides: Seq<EdgeKey>) -> bool {
    &&& sides.no_duplicates()
    &&& forall|side: EdgeKey| #[trigger]
        sides.contains(side) <==> sampled_edge(mesh, passes, side)
}

/// Whether a radius is less than twice the median of some lengths.
pub open spec fn undersampled<O: Arithmetic>(ops: &O, lengths: Seq<u32>, radius: u32) -> bool {
    lengths.len() > 0 && exists|ordered: Seq<u32>| #[trigger]
        collections::ascending(ordered) && ordered.to_multiset() == lengths.to_multiset()
            && scalar::lt(
            radius,
            ops.spec_product(ordered[ordered.len() as int / 2], scalar::TWO),
        )
}

pub const UNDERSAMPLED: &'static str =
    "Brush is undersampled by this mesh; increase its radius or voxel-remesh a closed mesh at finer resolution";

proof fn lemma_ascending_unique(a: Seq<u32>, b: Seq<u32>)
    requires
        collections::ascending(a),
        collections::ascending(b),
        a.to_multiset() == b.to_multiset(),
    ensures
        a == b,
{
    vstd::seq_lib::lemma_sorted_unique(a, b, |x: u32, y: u32| x <= y);
}

proof fn lemma_passed_next(passes: Seq<PreparedPass>, p: int, i: int, v: u32)
    requires
        0 <= p < passes.len(),
        0 <= i < passes[p].vertices@.len(),
    ensures
        visited(passes, p, i + 1, v) <==> (visited(passes, p, i, v) || v
            == passes[p].vertices@[i]),
{
    lemma_take_contains(passes[p].vertices@, i);
}

/// Whether a vertex is among the vertices of the first passes, or the first of the next.
pub closed spec fn visited(passes: Seq<PreparedPass>, p: int, i: int, v: u32) -> bool {
    passed(passes.take(p), v) || passes[p].vertices@.take(i).contains(v)
}

/// Whether an edge leaves such a vertex.
pub closed spec fn visited_edge(
    mesh: Mesh,
    passes: Seq<PreparedPass>,
    p: int,
    i: int,
    side: EdgeKey,
) -> bool {
    exists|v: u32, u: u32| #[trigger]
        topology::adjacent(mesh.triangles@, v, u) && visited(passes, p, i, v) && side
            == topology::edge(v, u)
}

/// Warns where the brush is small against the edges that it goes over.
pub fn density_warning<O: Arithmetic>(
    mesh: &Mesh,
    passes: &Vec<PreparedPass>,
    radius: u32,
    ops: &O,
) -> (result: Option<String>)
    requires
        ops.total(),
        mesh.well_formed(),
        sound(passes@, mesh.positions@.len()),
    ensures
        exists|sides: Seq<EdgeKey>| #[trigger]
            sampled_edges(*mesh, passes@, sides) && (result is Some <==> undersampled(
                ops,
                measured(ops, *mesh, sides),
                radius,
            )),
        result matches Some(text) ==> text@ == UNDERSAMPLED@,
{
    let mut edges = EdgeSet::new();
    let mut lengths: Vec<u32> = Vec::new();
    let ghost mut sides: Seq<EdgeKey> = Seq::empty();
    let mut p: usize = 0;
    while p < passes.len()
        invariant
            p <= passes@.len(),
            ops.total(),
            mesh.well_formed(),
            sound(passes@, mesh.positions@.len()),
            sides.no_duplicates(),
            forall|side: EdgeKey| #[trigger] edges@.contains(side) <==> sides.contains(side),
            forall|side: EdgeKey| #[trigger]
                sides.contains(side) <==> sampled_edge(*mesh, passes@.take(p as int), side),
            lengths@ == measured(ops, *mesh, sides),
        decreases passes@.len() - p,
    {
        let vertices = &passes[p].vertices;
        assert(all_vertices(passes@[p as int].vertices@, mesh.positions@.len()));
        let mut i: usize = 0;
        assert forall|side: EdgeKey| #[trigger] sides.contains(side) <==> visited_edge(
            *mesh,
            passes@,
            p as int,
            0,
            side,
        ) by {
            assert forall|v: u32| #[trigger] visited(passes@, p as int, 0, v) <==> passed(
                passes@.take(p as int),
                v,
            ) by {}
            if sampled_edge(*mesh, passes@.take(p as int), side) {
                let (v, u) = choose|v: u32, u: u32| #[trigger]
                    topology::adjacent(mesh.triangles@, v, u) && passed(passes@.take(p as int), v)
                        && side == topology::edge(v, u);
                assert(visited(passes@, p as int, 0, v));
            }
            if visited_edge(*mesh, passes@, p as int, 0, side) {
                let (v, u) = choose|v: u32, u: u32| #[trigger]
                    topology::adjacent(mesh.triangles@, v, u) && visited(passes@, p as int, 0, v)
                        && side == topology::edge(v, u);
                assert(passed(passes@.take(p as int), v));
            }
        }
        while i < vertices.len()
            invariant
                p < passes@.len(),
                i <= vertices@.len(),
                vertices@ == passes@[p as int].vertices@,
                ops.total(),
                mesh.well_formed(),
                all_vertices(vertices@, mesh.positions@.len()),
                sides.no_duplicates(),
                forall|side: EdgeKey| #[trigger] edges@.contains(side) <==> sides.contains(side),
                forall|side: EdgeKey| #[trigger]
                    sides.contains(side) <==> visited_edge(
                        *mesh,
                        passes@,
                        p as int,
                        i as int,
                        side,
                    ),
                lengths@ == measured(ops, *mesh, sides),
            decreases vertices@.len() - i,
        {
            let vertex = vertices[i];
            assert(vertices@[i as int] < mesh.positions@.len());
            let neighbors = mesh.topology.vertex_neighbors[vertex as usize].as_slice();
            let ghost earlier = sides;
            let mut n: usize = 0;
            while n < neighbors.len()
                invariant
                    n <= neighbors@.len(),
                    ops.total(),
                    mesh.well_formed(),
                    vertex < mesh.positions@.len(),
                    neighbors@ == mesh.topology.vertex_neighbors@[vertex as int]@,
                    sides.no_duplicates(),
                    forall|side: EdgeKey| #[trigger]
                        edges@.contains(side) <==> sides.contains(side),
                    forall|side: EdgeKey| #[trigger]
                        sides.contains(side) <==> (earlier.contains(side) || exists|k: int|
                            0 <= k < n && side == topology::edge(
                                vertex,
                                #[trigger] neighbors@[k],
                            )),
                    lengths@ == measured(ops, *mesh, sides),
                decreases neighbors@.len() - n,
            {
                let neighbor = neighbors[n];
                proof {
                    assert(neighbors@.contains(neighbors@[n as int]));
                    assert(topology::adjacent(mesh.triangles@, vertex, neighbor));
                    lemma_adjacent_exists(*mesh, vertex, neighbor);
                }
                let edge = topology::edge_key(vertex, neighbor);
                let ghost old_sides = sides;
                assert(edges@.contains(edge) <==> old_sides.contains(edge));
                if edges.insert(edge) {
                    let length = arithmetic::distance(
                        ops,
                        mesh.positions[edge.0 as usize],
                        mesh.positions[edge.1 as usize],
                    );
                    proof {
                        assert(!sides.contains(edge));
                        sides = sides.push(edge);
                        assert(sides.drop_last() =~= old_sides);
                    }
                    if scalar::is_finite(length) && scalar::is_less(scalar::EPSILON, length) {
                        lengths.push(length);
                    }
                }
                proof {
                    assert forall|side: EdgeKey| #[trigger] sides.contains(side) <==> (
                    old_sides.contains(side) || side == edge) by {
                        if old_sides.contains(edge) {
                            assert(sides == old_sides);
                        } else {
                            assert(sides == old_sides.push(edge));
                            if old_sides.contains(side) {
                                let k = choose|k: int|
                                    0 <= k < old_sides.len() && old_sides[k] == side;
                                assert(sides[k] == side);
                            }
                            assert(sides[sides.len() - 1] == edge);
                        }
                    }
                    assert forall|side: EdgeKey| #[trigger] sides.contains(side) <==> (
                    earlier.contains(side) || exists|k: int|
                        0 <= k < n + 1 && side == topology::edge(vertex, #[trigger] neighbors@[k]))
                        by {
                        assert(edge == topology::edge(vertex, neighbors@[n as int]));
                        assert(old_sides.contains(side) <==> (earlier.contains(side) || exists|k: int|
                            0 <= k < n && side == topology::edge(
                                vertex,
                                #[trigger] neighbors@[k],
                            )));
                    }
                }
                n += 1;
            }
            proof {
                assert forall|side: EdgeKey| #[trigger] sides.contains(side) <==> visited_edge(
                    *mesh,
                    passes@,
                    p as int,
                    i + 1,
                    side,
                ) by {
                    lemma_visited_edge_next(*mesh, passes@, p as int, i as int, side);
                    assert(earlier.contains(side) <==> visited_edge(
                        *mesh,
                        passes@,
                        p as int,
                        i as int,
                        side,
                    ));
                    if exists|k: int|
                        0 <= k < neighbors@.len() && side == topology::edge(
                            vertex,
                            #[trigger] neighbors@[k],
                        ) {
                        let k = choose|k: int|
                            0 <= k < neighbors@.len() && side == topology::edge(
                                vertex,
                                #[trigger] neighbors@[k],
                            );
                        assert(neighbors@.contains(neighbors@[k]));
                        assert(topology::adjacent(mesh.triangles@, vertex, neighbors@[k]));
                    }
                    if exists|u: u32| #[trigger]
                        topology::adjacent(mesh.triangles@, vertex, u) && side == topology::edge(
                            vertex,
                            u,
                        ) {
                        let u = choose|u: u32| #[trigger]
                            topology::adjacent(mesh.triangles@, vertex, u) && side
                                == topology::edge(vertex, u);
                        assert(mesh.topology.vertex_neighbors@[vertex as int]@.contains(u));
                        let k = choose|k: int| 0 <= k < neighbors@.len() && neighbors@[k] == u;
                        assert(side == topology::edge(vertex, neighbors@[k]));
                    }
                }
            }
            i += 1;
        }
        assert forall|side: EdgeKey| #[trigger] sides.contains(side) <==> sampled_edge(
            *mesh,
            passes@.take(p + 1),
            side,
        ) by {
            lemma_visited_all(*mesh, passes@, p as int, side);
        }
        p += 1;
    }
    assert(passes@.take(p as int) =~= passes@);
    assert(sampled_edges(*mesh, passes@, sides));
    if lengths.len() == 0 {
        return None;
    }
    let ghost unordered = lengths@;
    collections::sort_indices(&mut lengths);
    assert(lengths@.len() == unordered.len()) by {
        unordered.to_multiset_ensures();
        lengths@.to_multiset_ensures();
    }
    let median = lengths[lengths.len() / 2];
    let small = scalar::is_less(radius, ops.product(median, scalar::TWO));
    proof {
        if undersampled(ops, unordered, radius) {
            let ordered = choose|ordered: Seq<u32>| #[trigger]
                collections::ascending(ordered) && ordered.to_multiset() == unordered.to_multiset()
                    && scalar::lt(
                    radius,
                    ops.spec_product(ordered[ordered.len() as int / 2], scalar::TWO),
                );
            lemma_ascending_unique(ordered, lengths@);
        }
    }
    if small {
        Some(UNDERSAMPLED.to_owned())
    } else {
        None
    }
}

proof fn lemma_visited_edge_next(
    mesh: Mesh,
    passes: Seq<PreparedPass>,
    p: int,
    i: int,
    side: EdgeKey,
)
    requires
        0 <= p < passes.len(),
        0 <= i < passes[p].vertices@.len(),
    ensures
        visited_edge(mesh, passes, p, i + 1, side) <==> (visited_edge(mesh, passes, p, i, side)
            || exists|u: u32| #[trigger]
            topology::adjacent(mesh.triangles@, passes[p].vertices@[i], u) && side
                == topology::edge(passes[p].vertices@[i], u)),
{
    let vertex = passes[p].vertices@[i];
    if visited_edge(mesh, passes, p, i, side) {
        let (v, u) = choose|v: u32, u: u32| #[trigger]
            topology::adjacent(mesh.triangles@, v, u) && visited(passes, p, i, v) && side
                == topology::edge(v, u);
        lemma_passed_next(passes, p, i, v);
        assert(visited(passes, p, i + 1, v));
    }
    if visited_edge(mesh, passes, p, i + 1, side) {
        let (v, u) = choose|v: u32, u: u32| #[trigger]
            topology::adjacent(mesh.triangles@, v, u) && visited(passes, p, i + 1, v) && side
                == topology::edge(v, u);
        lemma_passed_next(passes, p, i, v);
    }
    if exists|u: u32| #[trigger]
        topology::adjacent(mesh.triangles@, vertex, u) && side == topology::edge(vertex, u) {
        lemma_passed_next(passes, p, i, vertex);
        assert(visited(passes, p, i + 1, vertex));
    }
}

proof fn lemma_visited_all(mesh: Mesh, passes: Seq<PreparedPass>, p: int, side: EdgeKey)
    requires
        0 <= p < passes.len(),
    ensures
        visited_edge(mesh, passes, p, passes[p].vertices@.len() as int, side) <==> sampled_edge(
            mesh,
            passes.take(p + 1),
            side,
        ),
{
    let all = passes[p].vertices@.len() as int;
    let more = passes.take(p + 1);
    let less = passes.take(p);
    assert(passes[p].vertices@.take(all) =~= passes[p].vertices@);
    assert forall|v: u32| visited(passes, p, all, v) <==> passed(more, v) by {
        assert(more[p] == passes[p]);
        if passed(less, v) {
            let k = choose|k: int|
                0 <= k < less.len() && (#[trigger] less[k]).vertices@.contains(v);
            assert(more[k] == less[k]);
        }
        if passed(more, v) {
            let k = choose|k: int|
                0 <= k < more.len() && (#[trigger] more[k]).vertices@.contains(v);
            if k < p {
                assert(more[k] == less[k]);
            }
        }
    }
    if sampled_edge(mesh, more, side) {
        let (v, u) = choose|v: u32, u: u32| #[trigger]
            topology::adjacent(mesh.triangles@, v, u) && passed(more, v) && side
                == topology::edge(v, u);
        assert(visited(passes, p, all, v));
    }
    if visited_edge(mesh, passes, p, all, side) {
        let (v, u) = choose|v: u32, u: u32| #[trigger]
            topology::adjacent(mesh.triangles@, v, u) && visited(passes, p, all, v) && side
                == topology::edge(v, u);
        assert(passed(more, v));
    }
}

} // verus!
