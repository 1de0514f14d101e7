//! How the faces of an indexed triangle mesh hang together.
use crate::bvh;
use crate::bvh::MeshBvh;
use crate::collections;
use crate::collections::{EdgeKey, EdgeMap, IndexList};
use crate::geometry::Geometry;
use crate::scalar::Point;
use vstd::prelude::*;

verus! {

/// Whether a vertex is a corner of a triangle.
pub open spec fn is_corner(triangle: [u32; 3], vertex: u32) -> bool {
    triangle@[0] == vertex || triangle@[1] == vertex || triangle@[2] == vertex
}

pub open spec fn distinct_corners(triangle: [u32; 3]) -> bool {
    triangle@[0] != triangle@[1] && triangle@[1] != triangle@[2] && triangle@[2] != triangle@[0]
}

/// The undirected edge between two vertices.
pub open spec fn edge(a: u32, b: u32) -> EdgeKey {
    if a < b {
        (a, b)
    } else {
        (b, a)
    }
}

pub open spec fn is_edge(triangle: [u32; 3], side: EdgeKey) -> bool {
    side == edge(triangle@[0], triangle@[1]) || side == edge(triangle@[1], triangle@[2]) || side
        == edge(triangle@[2], triangle@[0])
}

pub open spec fn at_edge(side: EdgeKey, vertex: u32) -> bool {
    side.0 == vertex || side.1 == vertex
}

/// Every corner is one of `vertex_count` vertices, and no triangle has a corner twice.
pub open spec fn well_indexed(triangles: Seq<[u32; 3]>, vertex_count: nat) -> bool {
    forall|i: int|
        0 <= i < triangles.len() ==> {
            let triangle = #[trigger] triangles[i];
            &&& triangle@[0] < vertex_count
            &&& triangle@[1] < vertex_count
            &&& triangle@[2] < vertex_count
            &&& distinct_corners(triangle)
        }
}

/// The indices of the triangles that have a property, in ascending order.
pub open spec fn faces_with(
    triangles: Seq<[u32; 3]>,
    property: spec_fn([u32; 3]) -> bool,
) -> Seq<u32>
    decreases triangles.len(),
{
    if triangles.len() == 0 {
        Seq::empty()
    } else if property(triangles.last()) {
        faces_with(triangles.drop_last(), property).push((triangles.len() - 1) as u32)
    } else {
        faces_with(triangles.drop_last(), property)
    }
}

/// The triangles around a vertex.
pub open spec fn incident_faces(triangles: Seq<[u32; 3]>, vertex: u32) -> Seq<u32> {
    faces_with(triangles, |triangle: [u32; 3]| is_corner(triangle, vertex))
}

/// The triangles that share an edge.
pub open spec fn edge_uses(triangles: Seq<[u32; 3]>, side: EdgeKey) -> Seq<u32> {
    faces_with(triangles, |triangle: [u32; 3]| is_edge(triangle, side))
}

/// Whether two vertices are corners of one triangle.
pub open spec fn adjacent(triangles: Seq<[u32; 3]>, a: u32, b: u32) -> bool {
    a != b && exists|i: int|
        0 <= i < triangles.len() && is_corner(#[trigger] triangles[i], a) && is_corner(
            triangles[i],
            b,
        )
}

/// Whether a vertex lies on an edge that only one triangle uses.
pub open spec fn on_boundary(triangles: Seq<[u32; 3]>, vertex: u32) -> bool {
    exists|side: EdgeKey|
        at_edge(side, vertex) && #[trigger] edge_uses(triangles, side).len() == 1
}

/// Whether a vertex lies on an edge that more than two triangles use.
pub open spec fn on_crowded_edge(triangles: Seq<[u32; 3]>, vertex: u32) -> bool {
    exists|side: EdgeKey|
        at_edge(side, vertex) && #[trigger] edge_uses(triangles, side).len() > 2
}

/// The far ends of the boundary edges at a vertex.
pub open spec fn boundary_ends(triangles: Seq<[u32; 3]>, vertex: u32) -> Set<u32> {
    Set::new(
        |end: u32|
            adjacent(triangles, vertex, end) && edge_uses(triangles, edge(vertex, end)).len() == 1,
    )
}

/// Whether two triangles meet at an edge of `vertex` that no third triangle uses.
pub open spec fn linked(triangles: Seq<[u32; 3]>, vertex: u32, from: u32, to: u32) -> bool {
    exists|side: EdgeKey|
        at_edge(side, vertex) && #[trigger] edge_uses(triangles, side).len() == 2 && edge_uses(
            triangles,
            side,
        ).contains(from) && edge_uses(triangles, side).contains(to)
}

/// A walk around a vertex, from triangle to linked triangle.
pub open spec fn is_walk(triangles: Seq<[u32; 3]>, vertex: u32, walk: Seq<u32>) -> bool {
    forall|i: int|
        0 <= i < walk.len() - 1 ==> linked(triangles, vertex, #[trigger] walk[i], walk[i + 1])
}

pub open spec fn reaches(triangles: Seq<[u32; 3]>, vertex: u32, from: u32, to: u32) -> bool {
    exists|walk: Seq<u32>|
        #[trigger] is_walk(triangles, vertex, walk) && walk.len() > 0 && walk[0] == from
            && walk.last() == to
}

/// Whether the triangles around a vertex form one fan, linked edge by edge.
pub open spec fn one_fan(triangles: Seq<[u32; 3]>, vertex: u32) -> bool {
    let faces = incident_faces(triangles, vertex);
    forall|i: int| 0 <= i < faces.len() ==> reaches(triangles, vertex, faces[0], #[trigger] faces[i])
}

/// Whether a vertex has a neighborhood that no surface has: a crowded edge, a boundary that does
/// not run through it once, or triangles that form more than one fan.
pub open spec fn non_manifold(triangles: Seq<[u32; 3]>, vertex: u32) -> bool {
    ||| on_crowded_edge(triangles, vertex)
    ||| boundary_ends(triangles, vertex).len() != 0 && boundary_ends(triangles, vertex).len() != 2
    ||| !one_fan(triangles, vertex)
}

pub proof fn lemma_faces_with(triangles: Seq<[u32; 3]>, property: spec_fn([u32; 3]) -> bool)
    requires
        triangles.len() <= u32::MAX,
    ensures
        collections::strictly_ascending(faces_with(triangles, property)),
        forall|face: u32|
            faces_with(triangles, property).contains(face) <==> face < triangles.len() && property(
                triangles[face as int],
            ),
        forall|i: int|
            0 <= i < faces_with(triangles, property).len() ==> #[trigger] faces_with(
                triangles,
                property,
            )[i] < triangles.len(),
        faces_with(triangles, property).len() <= triangles.len(),
    decreases triangles.len(),
{
    if triangles.len() > 0 {
        let front = triangles.drop_last();
        lemma_faces_with(front, property);
        let before = faces_with(front, property);
        let all = faces_with(triangles, property);
        assert forall|face: u32|
            all.contains(face) <==> face < triangles.len() && property(triangles[face as int]) by {
            if all.contains(face) {
                let i = choose|i: int| 0 <= i < all.len() && all[i] == face;
                if i < before.len() {
                    assert(before[i] == face);
                    assert(before.contains(face));
                }
            }
            if face < triangles.len() && property(triangles[face as int]) {
                if face < front.len() {
                    assert(front[face as int] == triangles[face as int]);
                    assert(before.contains(face));
                    let i = choose|i: int| 0 <= i < before.len() && before[i] == face;
                    assert(all[i] == face);
                } else {
                    assert(all[before.len() as int] == face);
                }
            }
        }
    }
}

/// One more triangle adds its index to the lists that it belongs in.
pub proof fn lemma_faces_with_next(
    triangles: Seq<[u32; 3]>,
    count: int,
    property: spec_fn([u32; 3]) -> bool,
)
    requires
        0 <= count < triangles.len(),
    ensures
        faces_with(triangles.take(count + 1), property) == if property(triangles[count]) {
            faces_with(triangles.take(count), property).push(count as u32)
        } else {
            faces_with(triangles.take(count), property)
        },
{
    assert(triangles.take(count + 1).drop_last() =~= triangles.take(count));
    assert(triangles.take(count + 1).last() == triangles[count]);
}

/// The lists that a mesh is searched by, once the given triangles have been entered.
pub open spec fn entered(
    neighbors: Seq<IndexList>,
    incident: Seq<IndexList>,
    edges: Map<EdgeKey, Seq<u32>>,
    triangles: Seq<[u32; 3]>,
) -> bool {
    &&& forall|v: int|
        #![trigger neighbors[v]]
        0 <= v < neighbors.len() ==> forall|u: u32|
            neighbors[v]@.contains(u) <==> adjacent(triangles, v as u32, u)
    &&& forall|v: int|
        #![trigger incident[v]]
        0 <= v < incident.len() ==> incident[v]@ == incident_faces(triangles, v as u32)
    &&& lists_edges(edges, triangles)
}

pub fn edge_key(a: u32, b: u32) -> (result: EdgeKey)
    ensures
        result == edge(a, b),
{
    if a < b {
        (a, b)
    } else {
        (b, a)
    }
}

pub(crate) fn empty_lists(count: usize) -> (result: Vec<IndexList>)
    ensures
        result@.len() == count,
        forall|v: int| 0 <= v < count ==> (#[trigger] result@[v])@ == Seq::<u32>::empty(),
{
    let mut lists: Vec<IndexList> = Vec::with_capacity(count);
    let mut v: usize = 0;
    while v < count
        invariant
            v <= count,
            lists@.len() == v,
            forall|i: int| 0 <= i < v ==> (#[trigger] lists@[i])@ == Seq::<u32>::empty(),
        decreases count - v,
    {
        lists.push(IndexList::new());
        v += 1;
    }
    lists
}

/// Enters a triangle in the lists of the faces around its corners.
fn enter_corners(incident: &mut Vec<IndexList>, triangle: [u32; 3], face: u32)
    requires
        triangle@[0] < old(incident)@.len(),
        triangle@[1] < old(incident)@.len(),
        triangle@[2] < old(incident)@.len(),
        distinct_corners(triangle),
        old(incident)@.len() <= u32::MAX,
    ensures
        final(incident)@.len() == old(incident)@.len(),
        forall|v: int|
            0 <= v < old(incident)@.len() ==> (#[trigger] final(incident)@[v])@ == if is_corner(
                triangle,
                v as u32,
            ) {
                old(incident)@[v]@.push(face)
            } else {
                old(incident)@[v]@
            },
{
    incident[triangle[0] as usize].push(face);
    incident[triangle[1] as usize].push(face);
    incident[triangle[2] as usize].push(face);
}

/// Enters an edge in the neighbor lists of its two ends.
fn enter_neighbors(neighbors: &mut Vec<IndexList>, a: u32, b: u32)
    requires
        a < old(neighbors)@.len(),
        b < old(neighbors)@.len(),
        a != b,
    ensures
        final(neighbors)@.len() == old(neighbors)@.len(),
        forall|v: int|
            0 <= v < old(neighbors)@.len() ==> (#[trigger] final(neighbors)@[v])@ == if v == a {
                old(neighbors)@[v]@.push(b)
            } else if v == b {
                old(neighbors)@[v]@.push(a)
            } else {
                old(neighbors)@[v]@
            },
{
    neighbors[a as usize].push(b);
    neighbors[b as usize].push(a);
}

/// A triangle's three edges are distinct, and its corners are the ends of its edges.
proof fn lemma_sides(triangle: [u32; 3])
    requires
        distinct_corners(triangle),
    ensures
        edge(triangle@[0], triangle@[1]) != edge(triangle@[1], triangle@[2]),
        edge(triangle@[1], triangle@[2]) != edge(triangle@[2], triangle@[0]),
        edge(triangle@[2], triangle@[0]) != edge(triangle@[0], triangle@[1]),
{
}

/// Entering one more triangle in every list.
pub(crate) fn enter_triangle(
    neighbors: &mut Vec<IndexList>,
    incident: &mut Vec<IndexList>,
    edges: &mut EdgeMap,
    triangles: &Vec<[u32; 3]>,
    face: usize,
)
    requires
        face < triangles@.len() <= u32::MAX,
        old(neighbors)@.len() == old(incident)@.len() <= u32::MAX,
        well_indexed(triangles@, old(neighbors)@.len()),
        entered(old(neighbors)@, old(incident)@, old(edges)@, triangles@.take(face as int)),
    ensures
        final(neighbors)@.len() == old(neighbors)@.len(),
        final(incident)@.len() == old(incident)@.len(),
        entered(final(neighbors)@, final(incident)@, final(edges)@, triangles@.take(face + 1)),
{
    let triangle = triangles[face];
    let (a, b, c) = (triangle[0], triangle[1], triangle[2]);
    assert(triangles@[face as int] == triangle);
    let ghost before = triangles@.take(face as int);
    let ghost after = triangles@.take(face + 1);
    assert(after =~= before.push(triangle));
    enter_corners(incident, triangle, face as u32);
    enter_neighbors(neighbors, a, b);
    enter_neighbors(neighbors, b, c);
    enter_neighbors(neighbors, c, a);
    edges.add_face(edge_key(a, b), face as u32);
    edges.add_face(edge_key(b, c), face as u32);
    edges.add_face(edge_key(c, a), face as u32);
    proof {
        assert forall|v: int| #![trigger incident@[v]] 0 <= v < incident@.len() implies incident@[v]@
            == incident_faces(after, v as u32) by {
            lemma_faces_with_next(
                triangles@,
                face as int,
                |triangle: [u32; 3]| is_corner(triangle, v as u32),
            );
            assert(old(incident)@[v]@ == incident_faces(before, v as u32));
        }
        lemma_sides(triangle);
        assert forall|side: EdgeKey|
            #![trigger edges@.contains_key(side)]
            #![trigger edge_uses(after, side)]
            collections::listed(edges@, side) == edge_uses(after, side) && (edges@.contains_key(
                side,
            ) <==> edge_uses(after, side).len() > 0) by {
            lemma_faces_with_next(
                triangles@,
                face as int,
                |triangle: [u32; 3]| is_edge(triangle, side),
            );
            assert(collections::listed(old(edges)@, side) == edge_uses(before, side));
            assert(old(edges)@.contains_key(side) <==> edge_uses(before, side).len() > 0);
        }
        assert forall|v: int| #![trigger neighbors@[v]] 0 <= v < neighbors@.len() implies forall|
            u: u32,
        |
            neighbors@[v]@.contains(u) <==> adjacent(after, v as u32, u) by {
            assert forall|u: u32| neighbors@[v]@.contains(u) <==> adjacent(after, v as u32, u) by {
                lemma_adjacent_next(before, triangle, v as u32, u);
                lemma_neighbors_next(old(neighbors)@[v]@, neighbors@[v]@, triangle, v as u32, u);
                assert(old(neighbors)@[v]@.contains(u) <==> adjacent(before, v as u32, u));
            }
        }
    }
}

proof fn lemma_adjacent_next(before: Seq<[u32; 3]>, triangle: [u32; 3], v: u32, u: u32)
    ensures
        adjacent(before.push(triangle), v, u) <==> adjacent(before, v, u) || (v != u && is_corner(
            triangle,
            v,
        ) && is_corner(triangle, u)),
{
    let after = before.push(triangle);
    if adjacent(before, v, u) {
        let i = choose|i: int|
            0 <= i < before.len() && is_corner(#[trigger] before[i], v) && is_corner(before[i], u);
        assert(after[i] == before[i]);
    }
    if v != u && is_corner(triangle, v) && is_corner(triangle, u) {
        assert(after[before.len() as int] == triangle);
    }
    if adjacent(after, v, u) {
        let i = choose|i: int|
            0 <= i < after.len() && is_corner(#[trigger] after[i], v) && is_corner(after[i], u);
        if i < before.len() {
            assert(before[i] == after[i]);
        }
    }
}

/// What three entered edges add to one neighbor list.
proof fn lemma_neighbors_next(
    before: Seq<u32>,
    after: Seq<u32>,
    triangle: [u32; 3],
    v: u32,
    u: u32,
)
    requires
        distinct_corners(triangle),
        v == triangle@[0] ==> after == before.push(triangle@[1]).push(triangle@[2]),
        v == triangle@[1] ==> after == before.push(triangle@[0]).push(triangle@[2]),
        v == triangle@[2] ==> after == before.push(triangle@[1]).push(triangle@[0]),
        !is_corner(triangle, v) ==> after == before,
    ensures
        after.contains(u) <==> before.contains(u) || (v != u && is_corner(triangle, v)
            && is_corner(triangle, u)),
{
    broadcast use vstd::seq_lib::group_seq_properties;

}

/// Marks the vertices of boundary edges in the first list, of crowded edges in the second.
fn mark_edge_ends(
    edges: &EdgeMap,
    vertex_count: usize,
    triangles: Ghost<Seq<[u32; 3]>>,
) -> (result: (Vec<bool>, Vec<bool>))
    requires
        vertex_count <= u32::MAX,
        triangles@.len() <= u32::MAX,
        well_indexed(triangles@, vertex_count as nat),
        lists_edges(edges@, triangles@),
    ensures
        result.0@.len() == vertex_count,
        result.1@.len() == vertex_count,
        forall|v: int|
            0 <= v < vertex_count ==> #[trigger] result.0@[v] == on_boundary(triangles@, v as u32),
        forall|v: int|
            0 <= v < vertex_count ==> #[trigger] result.1@[v] == on_crowded_edge(
                triangles@,
                v as u32,
            ),
{
    let mut boundary: Vec<bool> = vec![false; vertex_count];
    let mut crowded: Vec<bool> = vec![false; vertex_count];
    let keys = edges.edges();
    let mut k: usize = 0;
    while k < keys.len()
        invariant
            k <= keys@.len(),
            vertex_count <= u32::MAX,
            triangles@.len() <= u32::MAX,
            well_indexed(triangles@, vertex_count as nat),
            boundary@.len() == vertex_count,
            crowded@.len() == vertex_count,
            forall|edge: EdgeKey|
                #![trigger keys@.contains(edge)]
                #![trigger edges@.contains_key(edge)]
                keys@.contains(edge) <==> edges@.contains_key(edge),
            lists_edges(edges@, triangles@),
            forall|v: int|
                0 <= v < vertex_count ==> (#[trigger] boundary@[v] <==> exists|i: int|
                    0 <= i < k && at_edge(#[trigger] keys@[i], v as u32) && edge_uses(
                        triangles@,
                        keys@[i],
                    ).len() == 1),
            forall|v: int|
                0 <= v < vertex_count ==> (#[trigger] crowded@[v] <==> exists|i: int|
                    0 <= i < k && at_edge(#[trigger] keys@[i], v as u32) && edge_uses(
                        triangles@,
                        keys@[i],
                    ).len() > 2),
        decreases keys@.len() - k,
    {
        let side = keys[k];
        let ghost boundary_before = boundary@;
        let ghost crowded_before = crowded@;
        assert(keys@.contains(side));
        assert(edges@.contains_key(side));
        proof {
            lemma_used_edge(triangles@, vertex_count as nat, side);
        }
        let uses: usize = match edges.faces(side) {
            Some(faces) => faces.len(),
            None => 0,
        };
        assert(uses == edge_uses(triangles@, side).len());
        if uses == 1 {
            boundary.set(side.0 as usize, true);
            boundary.set(side.1 as usize, true);
        } else if uses != 2 {
            crowded.set(side.0 as usize, true);
            crowded.set(side.1 as usize, true);
        }
        proof {
            assert forall|v: int| 0 <= v < vertex_count implies (#[trigger] boundary@[v]
                <==> exists|i: int|
                0 <= i < k + 1 && at_edge(#[trigger] keys@[i], v as u32) && edge_uses(
                    triangles@,
                    keys@[i],
                ).len() == 1) by {
                assert(boundary_before[v] <==> exists|i: int|
                    0 <= i < k && at_edge(#[trigger] keys@[i], v as u32) && edge_uses(
                        triangles@,
                        keys@[i],
                    ).len() == 1);
                if boundary@[v] && !boundary_before[v] {
                    assert(at_edge(keys@[k as int], v as u32));
                }
            }
            assert forall|v: int| 0 <= v < vertex_count implies (#[trigger] crowded@[v]
                <==> exists|i: int|
                0 <= i < k + 1 && at_edge(#[trigger] keys@[i], v as u32) && edge_uses(
                    triangles@,
                    keys@[i],
                ).len() > 2) by {
                assert(crowded_before[v] <==> exists|i: int|
                    0 <= i < k && at_edge(#[trigger] keys@[i], v as u32) && edge_uses(
                        triangles@,
                        keys@[i],
                    ).len() > 2);
                if crowded@[v] && !crowded_before[v] {
                    assert(at_edge(keys@[k as int], v as u32));
                }
            }
        }
        k += 1;
    }
    proof {
        assert forall|v: int| 0 <= v < vertex_count implies #[trigger] boundary@[v] == on_boundary(
            triangles@,
            v as u32,
        ) by {
            if on_boundary(triangles@, v as u32) {
                let side = choose|side: EdgeKey|
                    at_edge(side, v as u32) && #[trigger] edge_uses(triangles@, side).len() == 1;
                assert(keys@.contains(side));
                let i = choose|i: int| 0 <= i < keys@.len() && keys@[i] == side;
                assert(at_edge(keys@[i], v as u32));
            }
        }
        assert forall|v: int| 0 <= v < vertex_count implies #[trigger] crowded@[v]
            == on_crowded_edge(triangles@, v as u32) by {
            if on_crowded_edge(triangles@, v as u32) {
                let side = choose|side: EdgeKey|
                    at_edge(side, v as u32) && #[trigger] edge_uses(triangles@, side).len() > 2;
                assert(keys@.contains(side));
                let i = choose|i: int| 0 <= i < keys@.len() && keys@[i] == side;
                assert(at_edge(keys@[i], v as u32));
            }
        }
    }
    (boundary, crowded)
}

/// The ends of an edge that some triangle uses are vertices.
pub proof fn lemma_used_edge(triangles: Seq<[u32; 3]>, vertex_count: nat, side: EdgeKey)
    requires
        triangles.len() <= u32::MAX,
        well_indexed(triangles, vertex_count),
        edge_uses(triangles, side).len() > 0,
    ensures
        side.0 < vertex_count,
        side.1 < vertex_count,
        side.0 != side.1,
        side == edge(side.0, side.1),
        adjacent(triangles, side.0, side.1),
{
    let property = |triangle: [u32; 3]| is_edge(triangle, side);
    lemma_faces_with(triangles, property);
    let face = edge_uses(triangles, side)[0];
    assert(edge_uses(triangles, side).contains(face));
    let triangle = triangles[face as int];
    assert(is_edge(triangle, side));
    assert(is_corner(triangles[face as int], side.0) && is_corner(triangles[face as int], side.1));
}

/// Faces that a search has come by, and those of them that it has still to leave from.
///
/// Marks of earlier searches are told apart by their number, so that a new search starts without
/// touching the marks.
pub(crate) struct FaceSearch {
    marks: Vec<u32>,
    current: u32,
    pending: Vec<u32>,
}

impl FaceSearch {
    pub(crate) closed spec fn face_count(self) -> nat {
        self.marks@.len()
    }

    pub(crate) closed spec fn waiting(self) -> Seq<u32> {
        self.pending@
    }

    pub(crate) closed spec fn seen(self, face: u32) -> bool {
        face < self.marks@.len() && self.marks@[face as int] == self.current
    }

    pub(crate) closed spec fn well_formed(self) -> bool {
        &&& forall|i: int| 0 <= i < self.marks@.len() ==> #[trigger] self.marks@[i] <= self.current
        &&& self.pending@.no_duplicates()
        &&& forall|i: int| 0 <= i < self.pending@.len() ==> self.seen(#[trigger] self.pending@[i])
    }

    pub(crate) fn new(face_count: usize) -> (result: FaceSearch)
        ensures
            result.well_formed(),
            result.face_count() == face_count,
    {
        FaceSearch { marks: vec![0; face_count], current: 0, pending: Vec::new() }
    }

    /// Forgets every face.
    fn begin(&mut self)
        requires
            old(self).well_formed(),
        ensures
            final(self).well_formed(),
            final(self).face_count() == old(self).face_count(),
            final(self).waiting() == Seq::<u32>::empty(),
            forall|face: u32| !final(self).seen(face),
    {
        self.pending.clear();
        if self.current == u32::MAX {
            let count = self.marks.len();
            self.marks = vec![0; count];
            self.current = 1;
        } else {
            self.current = self.current + 1;
        }
    }

    /// Comes by a face, which waits where it is new.
    fn visit(&mut self, face: u32)
        requires
            old(self).well_formed(),
            face < old(self).face_count(),
        ensures
            final(self).well_formed(),
            final(self).face_count() == old(self).face_count(),
            forall|f: u32| final(self).seen(f) <==> old(self).seen(f) || f == face,
            final(self).waiting() == if old(self).seen(face) {
                old(self).waiting()
            } else {
                old(self).waiting().push(face)
            },
    {
        if self.marks[face as usize] != self.current {
            let current = self.current;
            self.marks.set(face as usize, current);
            self.pending.push(face);
        }
    }

    /// Takes a waiting face.
    fn leave(&mut self) -> (result: Option<u32>)
        requires
            old(self).well_formed(),
        ensures
            final(self).well_formed(),
            final(self).face_count() == old(self).face_count(),
            forall|f: u32| final(self).seen(f) <==> old(self).seen(f),
            old(self).waiting().len() == 0 ==> result is None && final(self).waiting() == old(self).waiting(),
            old(self).waiting().len() > 0 ==> result == Some(old(self).waiting().last()) && final(self).waiting() == old(self).waiting().drop_last() && old(self).seen(
                old(self).waiting().last(),
            ) && !final(self).waiting().contains(old(self).waiting().last()),
    {
        let ghost before = *self;
        let result = self.pending.pop();
        proof {
            if before.pending@.len() > 0 {
                assert(self.pending@ =~= before.pending@.drop_last());
                assert(before.seen(before.pending@[before.pending@.len() - 1]));
                assert forall|i: int| 0 <= i < self.pending@.len() implies self.seen(
                    #[trigger] self.pending@[i],
                ) by {
                    assert(before.seen(before.pending@[i]));
                }
            }
        }
        result
    }

    /// Comes by the two faces at an edge of the vertex, where exactly two use it.
    fn cross(
        &mut self,
        triangles: &Vec<[u32; 3]>,
        edges: &EdgeMap,
        vertex: u32,
        a: u32,
        b: u32,
    )
        requires
            old(self).well_formed(),
            old(self).face_count() == triangles@.len() <= u32::MAX,
            lists_edges(edges@, triangles@),
        ensures
            final(self).well_formed(),
            final(self).face_count() == old(self).face_count(),
            forall|f: u32|
                final(self).seen(f) <==> old(self).seen(f) || (crosses(
                    triangles@,
                    vertex,
                    edge(a, b),
                ) && edge_uses(triangles@, edge(a, b)).contains(f)),
            forall|f: u32|
                final(self).waiting().contains(f) <==> old(self).waiting().contains(f) || (
                !old(self).seen(f) && final(self).seen(f)),
    {
        broadcast use vstd::seq_lib::group_seq_properties;

        if a != vertex && b != vertex {
            assert(!at_edge(edge(a, b), vertex));
            return;
        }
        assert(at_edge(edge(a, b), vertex));
        let side = edge_key(a, b);
        proof {
            lemma_faces_with(triangles@, |triangle: [u32; 3]| is_edge(triangle, side));
            assert(collections::listed(edges@, side) == edge_uses(triangles@, side));
        }
        match edges.faces(side) {
            Some(faces) => {
                if faces.len() == 2 {
                    let ghost uses = edge_uses(triangles@, side);
                    assert(faces@ == uses);
                    self.visit(faces[0]);
                    self.visit(faces[1]);
                    assert forall|f: u32| uses.contains(f) <==> f == uses[0] || f == uses[1] by {
                        assert(uses.contains(uses[0]));
                        assert(uses.contains(uses[1]));
                    }
                }
            },
            None => {},
        }
    }
}

/// Whether an edge map lists the triangles at every edge.
pub open spec fn lists_edges(edges: Map<EdgeKey, Seq<u32>>, triangles: Seq<[u32; 3]>) -> bool {
    forall|side: EdgeKey|
        #![trigger edges.contains_key(side)]
        #![trigger edge_uses(triangles, side)]
        collections::listed(edges, side) == edge_uses(triangles, side) && (edges.contains_key(side)
            <==> edge_uses(triangles, side).len() > 0)
}

/// Whether an edge of a vertex links the two triangles that use it.
pub open spec fn crosses(triangles: Seq<[u32; 3]>, vertex: u32, side: EdgeKey) -> bool {
    at_edge(side, vertex) && edge_uses(triangles, side).len() == 2
}

proof fn lemma_reaches_itself(triangles: Seq<[u32; 3]>, vertex: u32, face: u32)
    ensures
        reaches(triangles, vertex, face, face),
{
    assert(is_walk(triangles, vertex, seq![face]));
}

proof fn lemma_reaches_next(
    triangles: Seq<[u32; 3]>,
    vertex: u32,
    from: u32,
    face: u32,
    next: u32,
)
    requires
        reaches(triangles, vertex, from, face),
        linked(triangles, vertex, face, next),
    ensures
        reaches(triangles, vertex, from, next),
{
    let walk = choose|walk: Seq<u32>|
        #[trigger] is_walk(triangles, vertex, walk) && walk.len() > 0 && walk[0] == from
            && walk.last() == face;
    let longer = walk.push(next);
    assert forall|i: int| 0 <= i < longer.len() - 1 implies linked(
        triangles,
        vertex,
        #[trigger] longer[i],
        longer[i + 1],
    ) by {
        if i < walk.len() - 1 {
            assert(linked(triangles, vertex, walk[i], walk[i + 1]));
        }
    }
    assert(is_walk(triangles, vertex, longer));
}

/// A walk does not leave a set of faces that has every face linked to one of its own.
proof fn lemma_walk_stays(
    triangles: Seq<[u32; 3]>,
    vertex: u32,
    faces: Set<u32>,
    walk: Seq<u32>,
)
    requires
        is_walk(triangles, vertex, walk),
        walk.len() > 0,
        faces.contains(walk[0]),
        forall|f: u32, g: u32|
            faces.contains(f) && #[trigger] linked(triangles, vertex, f, g) ==> faces.contains(g),
    ensures
        faces.contains(walk.last()),
    decreases walk.len(),
{
    if walk.len() > 1 {
        let front = walk.drop_last();
        assert forall|i: int| 0 <= i < front.len() - 1 implies linked(
            triangles,
            vertex,
            #[trigger] front[i],
            front[i + 1],
        ) by {
            assert(linked(triangles, vertex, walk[i], walk[i + 1]));
        }
        lemma_walk_stays(triangles, vertex, faces, front);
        assert(linked(triangles, vertex, walk[walk.len() - 2], walk[walk.len() - 1]));
    }
}

/// A face is linked only across one of its own edges, to a face that has the vertex as a corner.
proof fn lemma_linked(triangles: Seq<[u32; 3]>, vertex: u32, from: u32, to: u32)
    requires
        triangles.len() <= u32::MAX,
    ensures
        linked(triangles, vertex, from, to) <==> {
            &&& from < triangles.len()
            &&& exists|side: EdgeKey|
                is_edge(triangles[from as int], side) && #[trigger] crosses(
                    triangles,
                    vertex,
                    side,
                ) && edge_uses(triangles, side).contains(to)
        },
        linked(triangles, vertex, from, to) ==> incident_faces(triangles, vertex).contains(to),
{
    lemma_faces_with(triangles, |triangle: [u32; 3]| is_corner(triangle, vertex));
    if linked(triangles, vertex, from, to) {
        let side = choose|side: EdgeKey|
            at_edge(side, vertex) && #[trigger] edge_uses(triangles, side).len() == 2 && edge_uses(
                triangles,
                side,
            ).contains(from) && edge_uses(triangles, side).contains(to);
        lemma_faces_with(triangles, |triangle: [u32; 3]| is_edge(triangle, side));
        assert(crosses(triangles, vertex, side));
        assert(is_edge(triangles[to as int], side));
        assert(is_corner(triangles[to as int], vertex));
    }
    if from < triangles.len() && exists|side: EdgeKey|
        is_edge(triangles[from as int], side) && #[trigger] crosses(triangles, vertex, side)
            && edge_uses(triangles, side).contains(to) {
        let side = choose|side: EdgeKey|
            is_edge(triangles[from as int], side) && #[trigger] crosses(triangles, vertex, side)
                && edge_uses(triangles, side).contains(to);
        lemma_faces_with(triangles, |triangle: [u32; 3]| is_edge(triangle, side));
        assert(edge_uses(triangles, side).contains(from));
    }
}

/// Whether the faces around a vertex form one fan.
pub(crate) fn is_one_fan(
    triangles: &Vec<[u32; 3]>,
    edges: &EdgeMap,
    vertex: u32,
    incident: &[u32],
    search: &mut FaceSearch,
) -> (result: bool)
    requires
        triangles@.len() <= u32::MAX,
        lists_edges(edges@, triangles@),
        incident@ == incident_faces(triangles@, vertex),
        incident@.len() > 0,
        old(search).well_formed(),
        old(search).face_count() == triangles@.len(),
    ensures
        result == one_fan(triangles@, vertex),
        final(search).well_formed(),
        final(search).face_count() == triangles@.len(),
{
    broadcast use vstd::seq_lib::group_seq_properties;

    let first = incident[0];
    let ghost all = incident@.to_set();
    proof {
        lemma_faces_with(triangles@, |triangle: [u32; 3]| is_corner(triangle, vertex));
        assert(incident@.contains(first));
        assert(incident@.no_duplicates());
        incident@.unique_seq_to_set();
        lemma_reaches_itself(triangles@, vertex, first);
    }
    search.begin();
    search.visit(first);
    let count = incident.len();
    let mut left: usize = 0;
    let ghost mut done: Set<u32> = Set::empty();
    loop
        invariant
            triangles@.len() <= u32::MAX,
            lists_edges(edges@, triangles@),
            incident@ == incident_faces(triangles@, vertex),
            count == incident@.len() > 0,
            first == incident@[0],
            all == incident@.to_set(),
            all.finite(),
            all.len() == incident@.len(),
            search.well_formed(),
            search.face_count() == triangles@.len(),
            search.seen(first),
            done.finite(),
            done.len() == left,
            done.subset_of(all),
            forall|f: u32| search.seen(f) <==> done.contains(f) || search.waiting().contains(f),
            forall|f: u32| done.contains(f) ==> !search.waiting().contains(f),
            forall|f: u32|
                #[trigger] search.seen(f) ==> incident@.contains(f) && reaches(
                    triangles@,
                    vertex,
                    first,
                    f,
                ),
            forall|f: u32, g: u32|
                done.contains(f) && #[trigger] linked(triangles@, vertex, f, g) ==> search.seen(g),
        ensures
            search.waiting().len() == 0,
        decreases incident@.len() - left,
    {
        let ghost queue = search.waiting();
        let face = match search.leave() {
            Some(face) => face,
            None => {
                break;
            },
        };
        let triangle = triangles[face as usize];
        let ghost before = *search;
        let ghost finished = done.insert(face);
        proof {
            assert forall|f: u32| queue.contains(f) <==> search.waiting().contains(f) || f
                == face by {
                if queue.contains(f) && f != face {
                    let i = choose|i: int| 0 <= i < queue.len() && queue[i] == f;
                    assert(search.waiting()[i] == f);
                }
                if search.waiting().contains(f) {
                    let i = choose|i: int|
                        0 <= i < search.waiting().len() && search.waiting()[i] == f;
                    assert(queue[i] == f);
                }
                assert(queue[queue.len() - 1] == face);
            }
            assert(search.seen(face));
            assert(all.contains(face));
            assert(!done.contains(face));
            assert(finished.subset_of(all));
            vstd::set_lib::lemma_len_subset(finished, all);
            lemma_sides_complete(triangle);
        }
        left = left + 1;
        search.cross(triangles, edges, vertex, triangle[0], triangle[1]);
        search.cross(triangles, edges, vertex, triangle[1], triangle[2]);
        search.cross(triangles, edges, vertex, triangle[2], triangle[0]);
        proof {
            assert forall|g: u32| search.seen(g) && !before.seen(g) implies linked(
                triangles@,
                vertex,
                face,
                g,
            ) by {
                lemma_linked(triangles@, vertex, face, g);
                assert(is_edge(triangle, edge(triangle@[0], triangle@[1])));
                assert(is_edge(triangle, edge(triangle@[1], triangle@[2])));
                assert(is_edge(triangle, edge(triangle@[2], triangle@[0])));
            }
            assert forall|g: u32| #[trigger] linked(triangles@, vertex, face, g) implies search.seen(
                g,
            ) by {
                lemma_linked(triangles@, vertex, face, g);
            }
            assert forall|f: u32| #[trigger] search.seen(f) implies incident@.contains(f)
                && reaches(triangles@, vertex, first, f) by {
                if !before.seen(f) {
                    lemma_linked(triangles@, vertex, face, f);
                    lemma_reaches_next(triangles@, vertex, first, face, f);
                }
            }
            done = finished;
        }
    }
    proof {
        assert(forall|f: u32| search.seen(f) <==> done.contains(f));
        if one_fan(triangles@, vertex) {
            assert forall|f: u32| all.contains(f) implies done.contains(f) by {
                let i = choose|i: int| 0 <= i < incident@.len() && incident@[i] == f;
                assert(reaches(triangles@, vertex, first, incident@[i]));
                let walk = choose|walk: Seq<u32>|
                    #[trigger] is_walk(triangles@, vertex, walk) && walk.len() > 0 && walk[0]
                        == first && walk.last() == f;
                lemma_walk_stays(triangles@, vertex, done, walk);
            }
            assert(done =~= all);
        }
        if left == incident@.len() {
            vstd::set_lib::lemma_subset_equality(done, all);
            assert forall|i: int| 0 <= i < incident@.len() implies reaches(
                triangles@,
                vertex,
                incident@[0],
                #[trigger] incident@[i],
            ) by {
                assert(all.contains(incident@[i]));
            }
        }
    }
    left == count
}

/// A triangle has no edges but the three between its corners.
proof fn lemma_sides_complete(triangle: [u32; 3])
    ensures
        forall|side: EdgeKey| #[trigger]
            is_edge(triangle, side) ==> side == edge(triangle@[0], triangle@[1]) || side == edge(
                triangle@[1],
                triangle@[2],
            ) || side == edge(triangle@[2], triangle@[0]),
{
}

/// The number of boundary edges at a vertex.
fn boundary_degree(
    edges: &EdgeMap,
    vertex: u32,
    neighbors: &IndexList,
    triangles: Ghost<Seq<[u32; 3]>>,
) -> (result: usize)
    requires
        lists_edges(edges@, triangles@),
        collections::strictly_ascending(neighbors@),
        forall|u: u32| #[trigger] neighbors@.contains(u) <==> adjacent(triangles@, vertex, u),
    ensures
        boundary_ends(triangles@, vertex).finite(),
        result == boundary_ends(triangles@, vertex).len(),
{
    let ends = neighbors.as_slice();
    let ghost all = boundary_ends(triangles@, vertex);
    let ghost mut found: Set<u32> = Set::empty();
    let mut degree: usize = 0;
    let mut k: usize = 0;
    while k < ends.len()
        invariant
            degree <= k <= ends@.len(),
            lists_edges(edges@, triangles@),
            ends@ == neighbors@,
            collections::strictly_ascending(neighbors@),
            forall|u: u32| #[trigger] neighbors@.contains(u) <==> adjacent(triangles@, vertex, u),
            all == boundary_ends(triangles@, vertex),
            found.finite(),
            found.len() == degree,
            forall|u: u32| #[trigger]
                found.contains(u) <==> all.contains(u) && exists|i: int|
                    0 <= i < k && ends@[i] == u,
        decreases ends@.len() - k,
    {
        let end = ends[k];
        let side = edge_key(vertex, end);
        assert(neighbors@.contains(end));
        let ghost before = found;
        let uses: usize = match edges.faces(side) {
            Some(faces) => faces.len(),
            None => 0,
        };
        assert(uses == edge_uses(triangles@, edge(vertex, end)).len());
        if uses == 1 {
            degree += 1;
            proof {
                assert(!found.contains(end));
                found = found.insert(end);
            }
        }
        proof {
            assert forall|u: u32| #[trigger]
                found.contains(u) <==> all.contains(u) && exists|i: int|
                    0 <= i < k + 1 && ends@[i] == u by {
                if all.contains(u) && exists|i: int| 0 <= i < k + 1 && ends@[i] == u {
                    let i = choose|i: int| 0 <= i < k + 1 && ends@[i] == u;
                    if i < k {
                        assert(before.contains(u));
                    }
                }
                if found.contains(u) {
                    if before.contains(u) {
                        let i = choose|i: int| 0 <= i < k && ends@[i] == u;
                        assert(ends@[i] == u);
                    } else {
                        assert(ends@[k as int] == u);
                    }
                }
            }
        }
        k += 1;
    }
    proof {
        assert forall|u: u32| all.contains(u) implies found.contains(u) by {
            assert(neighbors@.contains(u));
            let i = choose|i: int| 0 <= i < ends@.len() && ends@[i] == u;
            assert(ends@[i] == u);
        }
        assert(found =~= all);
    }
    degree
}

/// How often a flag is set.
pub open spec fn count_set(flags: Seq<bool>) -> nat
    decreases flags.len(),
{
    if flags.len() == 0 {
        0
    } else {
        count_set(flags.drop_last()) + if flags.last() {
            1nat
        } else {
            0
        }
    }
}

fn count_flags(flags: &Vec<bool>) -> (result: usize)
    ensures
        result == count_set(flags@),
{
    let mut count: usize = 0;
    let mut i: usize = 0;
    assert(flags@.take(0) =~= Seq::<bool>::empty());
    while i < flags.len()
        invariant
            count <= i <= flags@.len(),
            count == count_set(flags@.take(i as int)),
        decreases flags@.len() - i,
    {
        assert(flags@.take(i + 1).drop_last() =~= flags@.take(i as int));
        if flags[i] {
            count += 1;
        }
        i += 1;
    }
    assert(flags@.take(i as int) =~= flags@);
    count
}

/// The edges that exactly one face uses.
pub open spec fn boundary_edges(edges: Map<EdgeKey, Seq<u32>>) -> Set<EdgeKey> {
    Set::new(|side: EdgeKey| edges.contains_key(side) && edges[side].len() == 1)
}

/// The edges that more than two faces use.
pub open spec fn crowded_edges(edges: Map<EdgeKey, Seq<u32>>) -> Set<EdgeKey> {
    Set::new(|side: EdgeKey| edges.contains_key(side) && edges[side].len() > 2)
}

pub proof fn lemma_nothing_entered(
    neighbors: Seq<IndexList>,
    incident: Seq<IndexList>,
    edges: Map<EdgeKey, Seq<u32>>,
    triangles: Seq<[u32; 3]>,
)
    requires
        triangles.len() == 0,
        (edges == Map::<EdgeKey, Seq<u32>>::empty()),
        forall|v: int|
            0 <= v < neighbors.len() ==> (#[trigger] neighbors[v])@ == Seq::<u32>::empty(),
        forall|v: int|
            0 <= v < incident.len() ==> (#[trigger] incident[v])@ == Seq::<u32>::empty(),
    ensures
        entered(neighbors, incident, edges, triangles),
{
    assert forall|v: int| #![trigger neighbors[v]] 0 <= v < neighbors.len() implies forall|u: u32|
        neighbors[v]@.contains(u) <==> adjacent(triangles, v as u32, u) by {
        assert(neighbors[v]@ == Seq::<u32>::empty());
    }
}

/// A vertex that no face uses has nothing around it that could be amiss.
proof fn lemma_no_faces(triangles: Seq<[u32; 3]>, vertex: u32)
    requires
        triangles.len() <= u32::MAX,
        incident_faces(triangles, vertex).len() == 0,
    ensures
        !non_manifold(triangles, vertex),
        !on_crowded_edge(triangles, vertex),
{
    lemma_faces_with(triangles, |triangle: [u32; 3]| is_corner(triangle, vertex));
    assert(forall|f: u32| f < triangles.len() ==> !is_corner(triangles[f as int], vertex)) by {
        assert forall|f: u32| f < triangles.len() implies !is_corner(
            triangles[f as int],
            vertex,
        ) by {
            assert(!incident_faces(triangles, vertex).contains(f));
        }
    }
    assert forall|side: EdgeKey| at_edge(side, vertex) implies #[trigger] edge_uses(
        triangles,
        side,
    ).len() == 0 by {
        lemma_faces_with(triangles, |triangle: [u32; 3]| is_edge(triangle, side));
        if edge_uses(triangles, side).len() > 0 {
            let f = edge_uses(triangles, side)[0];
            assert(edge_uses(triangles, side).contains(f));
            assert(is_edge(triangles[f as int], side));
            assert(is_corner(triangles[f as int], vertex));
        }
    }
    assert(boundary_ends(triangles, vertex) =~= Set::<u32>::empty());
}

/// Connectivity of a mesh, and a tree of boxes over its faces.
#[derive(Debug)]
pub struct MeshTopology {
    pub vertex_neighbors: Vec<IndexList>,
    pub vertex_triangles: Vec<IndexList>,
    pub edge_faces: EdgeMap,
    pub boundary_vertices: Vec<bool>,
    pub non_manifold_vertices: Vec<bool>,
    pub bvh: MeshBvh,
}

impl MeshTopology {
    /// Whether every list says of a mesh what it is there to say.
    pub open spec fn describes(self, triangles: Seq<[u32; 3]>, vertex_count: nat) -> bool {
        &&& self.vertex_neighbors@.len() == vertex_count
        &&& self.vertex_triangles@.len() == vertex_count
        &&& self.boundary_vertices@.len() == vertex_count
        &&& self.non_manifold_vertices@.len() == vertex_count
        &&& forall|v: int|
            0 <= v < vertex_count ==> collections::strictly_ascending(
                (#[trigger] self.vertex_neighbors@[v])@,
            )
        &&& forall|v: int, u: u32|
            0 <= v < vertex_count ==> (#[trigger] self.vertex_neighbors@[v]@.contains(u)
                <==> adjacent(triangles, v as u32, u))
        &&& forall|v: int|
            0 <= v < vertex_count ==> (#[trigger] self.vertex_triangles@[v])@ == incident_faces(
                triangles,
                v as u32,
            )
        &&& lists_edges(self.edge_faces@, triangles)
        &&& forall|v: int|
            0 <= v < vertex_count ==> #[trigger] self.boundary_vertices@[v] == on_boundary(
                triangles,
                v as u32,
            )
        &&& forall|v: int|
            0 <= v < vertex_count ==> #[trigger] self.non_manifold_vertices@[v] == non_manifold(
                triangles,
                v as u32,
            )
    }

    /// Works out how the faces of a mesh hang together, and builds the tree over them.
    pub fn build<G: Geometry>(
        positions: &Vec<Point>,
        triangles: &Vec<[u32; 3]>,
        geometry: &G,
    ) -> (result: MeshTopology)
        requires
            geometry.total(),
            positions@.len() <= u32::MAX,
            triangles@.len() <= u32::MAX,
            well_indexed(triangles@, positions@.len()),
        ensures
            result.describes(triangles@, positions@.len()),
            result.bvh.holds(triangles@.len()),
            result.bvh.fits(positions@, triangles@),
            result.bvh.halves(geometry, positions@, triangles@),
    {
        let vertex_count = positions.len();
        let mut neighbors = empty_lists(vertex_count);
        let mut incident = empty_lists(vertex_count);
        let mut edges = EdgeMap::new();
        proof {
            lemma_nothing_entered(neighbors@, incident@, edges@, triangles@.take(0));
        }
        let mut face: usize = 0;
        while face < triangles.len()
            invariant
                face <= triangles@.len() <= u32::MAX,
                vertex_count == positions@.len() <= u32::MAX,
                neighbors@.len() == vertex_count,
                incident@.len() == vertex_count,
                well_indexed(triangles@, vertex_count as nat),
                entered(neighbors@, incident@, edges@, triangles@.take(face as int)),
            decreases triangles@.len() - face,
        {
            enter_triangle(&mut neighbors, &mut incident, &mut edges, triangles, face);
            face += 1;
        }
        assert(triangles@.take(face as int) =~= triangles@);
        let mut v: usize = 0;
        while v < vertex_count
            invariant
                v <= vertex_count,
                neighbors@.len() == vertex_count,
                forall|i: int, u: u32|
                    0 <= i < vertex_count ==> (#[trigger] neighbors@[i]@.contains(u) <==> adjacent(
                        triangles@,
                        i as u32,
                        u,
                    )),
                forall|i: int|
                    0 <= i < v ==> collections::strictly_ascending((#[trigger] neighbors@[i])@),
            decreases vertex_count - v,
        {
            let ghost before = neighbors@;
            neighbors[v].sort_and_dedup();
            proof {
                assert forall|i: int, u: u32| 0 <= i < vertex_count implies (
                #[trigger] neighbors@[i]@.contains(u) <==> adjacent(triangles@, i as u32, u)) by {
                    assert(before[i]@.contains(u) <==> adjacent(triangles@, i as u32, u));
                }
            }
            v += 1;
        }
        let (boundary, crowded) = mark_edge_ends(&edges, vertex_count, Ghost(triangles@));
        let mut non_manifold_vertices = crowded;
        let mut search = FaceSearch::new(triangles.len());
        let mut vertex: usize = 0;
        while vertex < vertex_count
            invariant
                vertex <= vertex_count <= u32::MAX,
                triangles@.len() <= u32::MAX,
                neighbors@.len() == vertex_count,
                incident@.len() == vertex_count,
                non_manifold_vertices@.len() == vertex_count,
                lists_edges(edges@, triangles@),
                search.well_formed(),
                search.face_count() == triangles@.len(),
                forall|i: int, u: u32|
                    0 <= i < vertex_count ==> (#[trigger] neighbors@[i]@.contains(u) <==> adjacent(
                        triangles@,
                        i as u32,
                        u,
                    )),
                forall|i: int|
                    0 <= i < vertex_count ==> collections::strictly_ascending(
                        (#[trigger] neighbors@[i])@,
                    ),
                forall|i: int|
                    0 <= i < vertex_count ==> (#[trigger] incident@[i])@ == incident_faces(
                        triangles@,
                        i as u32,
                    ),
                forall|i: int|
                    0 <= i < vertex ==> #[trigger] non_manifold_vertices@[i] == non_manifold(
                        triangles@,
                        i as u32,
                    ),
                forall|i: int|
                    vertex <= i < vertex_count ==> #[trigger] non_manifold_vertices@[i]
                        == on_crowded_edge(triangles@, i as u32),
            decreases vertex_count - vertex,
        {
            let faces = incident[vertex].as_slice();
            if faces.len() == 0 {
                proof {
                    lemma_no_faces(triangles@, vertex as u32);
                }
            } else {
                assert forall|u: u32| #[trigger] neighbors@[vertex as int]@.contains(u)
                    <==> adjacent(triangles@, vertex as u32, u) by {}
                let degree = boundary_degree(
                    &edges,
                    vertex as u32,
                    &neighbors[vertex],
                    Ghost(triangles@),
                );
                let connected = is_one_fan(triangles, &edges, vertex as u32, faces, &mut search);
                if (degree != 0 && degree != 2) || !connected {
                    non_manifold_vertices.set(vertex, true);
                }
            }
            vertex += 1;
        }
        proof {
            assert(bvh::indexed(triangles@, positions@.len())) by {
                assert forall|i: int| 0 <= i < triangles@.len() implies {
                    let triangle = #[trigger] triangles@[i];
                    &&& triangle@[0] < vertex_count
                    &&& triangle@[1] < vertex_count
                    &&& triangle@[2] < vertex_count
                } by {}
            }
        }
        let tree = MeshBvh::build(positions, triangles, geometry);
        MeshTopology {
            vertex_neighbors: neighbors,
            vertex_triangles: incident,
            edge_faces: edges,
            boundary_vertices: boundary,
            non_manifold_vertices,
            bvh: tree,
        }
    }

    /// The number of edges that exactly one face uses.
    pub fn boundary_edge_count(&self) -> (result: usize)
        ensures
            boundary_edges(self.edge_faces@).finite(),
            result == boundary_edges(self.edge_faces@).len(),
    {
        self.count_edges(true)
    }

    /// The number of edges that more than two faces use.
    pub fn non_manifold_edge_count(&self) -> (result: usize)
        ensures
            crowded_edges(self.edge_faces@).finite(),
            result == crowded_edges(self.edge_faces@).len(),
    {
        self.count_edges(false)
    }

    fn count_edges(&self, boundary: bool) -> (result: usize)
        ensures
            ({
                let found = if boundary {
                    boundary_edges(self.edge_faces@)
                } else {
                    crowded_edges(self.edge_faces@)
                };
                found.finite() && result == found.len()
            }),
    {
        let keys = self.edge_faces.edges();
        let mut count: usize = 0;
        let mut k: usize = 0;
        let ghost all = if boundary {
            boundary_edges(self.edge_faces@)
        } else {
            crowded_edges(self.edge_faces@)
        };
        let ghost mut found: Set<EdgeKey> = Set::empty();
        while k < keys.len()
            invariant
                count <= k <= keys@.len(),
                keys@.no_duplicates(),
                forall|edge: EdgeKey|
                    #![trigger keys@.contains(edge)]
                    #![trigger self.edge_faces@.contains_key(edge)]
                    keys@.contains(edge) <==> self.edge_faces@.contains_key(edge),
                all == if boundary {
                    boundary_edges(self.edge_faces@)
                } else {
                    crowded_edges(self.edge_faces@)
                },
                found.finite(),
                found.len() == count,
                forall|side: EdgeKey| #[trigger]
                    found.contains(side) <==> all.contains(side) && exists|i: int|
                        0 <= i < k && keys@[i] == side,
            decreases keys@.len() - k,
        {
            let side = keys[k];
            assert(keys@.contains(side));
            let uses: usize = match self.edge_faces.faces(side) {
                Some(faces) => faces.len(),
                None => 0,
            };
            let ghost before = found;
            let wanted = if boundary {
                uses == 1
            } else {
                uses > 2
            };
            if wanted {
                count += 1;
                proof {
                    assert(!found.contains(side));
                    found = found.insert(side);
                }
            }
            proof {
                assert forall|other: EdgeKey| #[trigger]
                    found.contains(other) <==> all.contains(other) && exists|i: int|
                        0 <= i < k + 1 && keys@[i] == other by {
                    if all.contains(other) && exists|i: int| 0 <= i < k + 1 && keys@[i] == other {
                        let i = choose|i: int| 0 <= i < k + 1 && keys@[i] == other;
                        if i < k {
                            assert(before.contains(other));
                        }
                    }
                    if found.contains(other) {
                        if before.contains(other) {
                            let i = choose|i: int| 0 <= i < k && keys@[i] == other;
                            assert(keys@[i] == other);
                        } else {
                            assert(keys@[k as int] == other);
                        }
                    }
                }
            }
            k += 1;
        }
        proof {
            assert forall|side: EdgeKey| all.contains(side) implies found.contains(side) by {
                assert(keys@.contains(side));
                let i = choose|i: int| 0 <= i < keys@.len() && keys@[i] == side;
                assert(keys@[i] == side);
            }
            assert(found =~= all);
        }
        count
    }

    pub fn boundary_vertex_count(&self) -> (result: usize)
        ensures
            result == count_set(self.boundary_vertices@),
    {
        count_flags(&self.boundary_vertices)
    }

    pub fn non_manifold_vertex_count(&self) -> (result: usize)
        ensures
            result == count_set(self.non_manifold_vertices@),
    {
        count_flags(&self.non_manifold_vertices)
    }
}

impl Default for MeshTopology {
    fn default() -> (result: MeshTopology)
        ensures
            result.vertex_neighbors@.len() == 0,
            result.vertex_triangles@.len() == 0,
            (result.edge_faces@ == Map::<EdgeKey, Seq<u32>>::empty()),
            result.boundary_vertices@.len() == 0,
            result.non_manifold_vertices@.len() == 0,
            result.bvh.root == bvh::NONE,
            result.bvh.nodes@.len() == 0,
            result.bvh.triangle_leaves@.len() == 0,
    {
        MeshTopology {
            vertex_neighbors: Vec::new(),
            vertex_triangles: Vec::new(),
            edge_faces: EdgeMap::new(),
            boundary_vertices: Vec::new(),
            non_manifold_vertices: Vec::new(),
            bvh: MeshBvh::default(),
        }
    }
}

} // verus!
