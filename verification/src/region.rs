//! The connected part of a surface that a brush reaches.
use crate::arithmetic;
use crate::arithmetic::Arithmetic;
use crate::collections;
use crate::mesh;
use crate::mesh::Mesh;
use crate::scalar;
use crate::scalar::Point;
use crate::topology;
use std::collections::VecDeque;
use vstd::prelude::*;

verus! {

/// Storage for walks over the vertices of a mesh, which one walk leaves to the next.
///
/// Only the marks of the vertices that the last walk came by are taken back, so that a walk costs
/// as much as the region it covers.
#[derive(Debug)]
pub struct VertexTraversalScratch {
    visited: Vec<u8>,
    touched: Vec<u32>,
    queue: VecDeque<u32>,
}

impl VertexTraversalScratch {
    /// Whether exactly the touched vertices are marked.
    pub closed spec fn well_formed(self) -> bool {
        &&& self.touched@.no_duplicates()
        &&& forall|v: u32| #[trigger]
            self.touched@.contains(v) <==> v < self.visited@.len() && self.visited@[v as int] != 0
        &&& self.visited@.len() <= u32::MAX
    }

    pub closed spec fn room(self) -> nat {
        self.visited@.len()
    }

    pub closed spec fn seen(self) -> Seq<u32> {
        self.touched@
    }

    pub closed spec fn waiting(self) -> Seq<u32> {
        self.queue@
    }

    pub fn new() -> (result: VertexTraversalScratch)
        ensures
            result.well_formed(),
            result.room() == 0,
            result.seen().len() == 0,
            result.waiting().len() == 0,
    {
        VertexTraversalScratch { visited: Vec::new(), touched: Vec::new(), queue: VecDeque::new() }
    }

    /// Forgets the last walk and makes room for so many vertices.
    pub fn begin(&mut self, vertex_count: usize)
        requires
            old(self).well_formed(),
            vertex_count <= u32::MAX,
        ensures
            final(self).well_formed(),
            final(self).room() == if old(self).room() >= vertex_count {
                old(self).room()
            } else {
                vertex_count as nat
            },
            final(self).seen().len() == 0,
            final(self).waiting().len() == 0,
    {
        let ghost begun = *self;
        proof {
            assert forall|i: int| 0 <= i < self.touched@.len() implies #[trigger] self.touched@[i]
                < self.visited@.len() by {
                assert(self.touched@.contains(self.touched@[i]));
            }
        }
        let mut k: usize = 0;
        while k < self.touched.len()
            invariant
                k <= self.touched@.len(),
                self.touched@ == begun.touched@,
                self.visited@.len() == begun.visited@.len() <= u32::MAX,
                begun.well_formed(),
                forall|v: u32|
                    v < self.visited@.len() && #[trigger] self.visited@[v as int] != 0
                        ==> self.touched@.contains(v),
                forall|i: int|
                    0 <= i < self.touched@.len() ==> #[trigger] self.touched@[i]
                        < self.visited@.len(),
                forall|i: int|
                    0 <= i < k ==> self.visited@[#[trigger] self.touched@[i] as int] == 0,
            decreases self.touched@.len() - k,
        {
            let vertex = self.touched[k];
            assert(begun.touched@.contains(vertex));
            self.visited.set(vertex as usize, 0);
            k += 1;
        }
        proof {
            assert forall|v: u32| v < self.visited@.len() implies #[trigger] self.visited@[v as int]
                == 0 by {
                if self.visited@[v as int] != 0 {
                    let i = choose|i: int| 0 <= i < self.touched@.len() && self.touched@[i] == v;
                    assert(self.visited@[self.touched@[i] as int] == 0);
                }
            }
        }
        self.touched.clear();
        let ghost cleared = self.visited@;
        if self.visited.len() < vertex_count {
            self.visited.resize(vertex_count, 0);
        }
        self.queue.clear();
        proof {
            assert forall|v: u32| #[trigger] self.touched@.contains(v) <==> v < self.visited@.len()
                && self.visited@[v as int] != 0 by {
                if v < self.visited@.len() {
                    if v < cleared.len() {
                        assert(self.visited@[v as int] == cleared[v as int]);
                    }
                    assert(self.visited@[v as int] == 0);
                }
            }
        }
    }

    /// Comes by a vertex, which waits where there is room for it and it is new.
    pub fn enqueue_once(&mut self, vertex: u32)
        requires
            old(self).well_formed(),
        ensures
            final(self).well_formed(),
            final(self).room() == old(self).room(),
            ({
                let new = vertex < old(self).room() && !old(self).seen().contains(vertex);
                &&& new ==> final(self).seen() == old(self).seen().push(vertex) && final(
                    self).waiting() == old(self).waiting().push(vertex)
                &&& !new ==> final(self).seen() == old(self).seen() && final(self).waiting()
                    == old(self).waiting()
            }),
    {
        let index = vertex as usize;
        if index >= self.visited.len() || self.visited[index] != 0 {
            return;
        }
        let ghost before = *self;
        self.visited.set(index, 1);
        self.touched.push(vertex);
        self.queue.push_back(vertex);
        proof {
            assert(!before.touched@.contains(vertex));
            collections::push_unique(before.touched@, vertex);
            assert forall|v: u32| #[trigger] self.touched@.contains(v) <==> v < self.visited@.len()
                && self.visited@[v as int] != 0 by {
                if before.touched@.contains(v) {
                    let i = choose|i: int| 0 <= i < before.touched@.len() && before.touched@[i] == v;
                    assert(self.touched@[i] == v);
                }
                if v == vertex {
                    assert(self.touched@[before.touched@.len() as int] == v);
                }
                if self.touched@.contains(v) && v != vertex {
                    let i = choose|i: int| 0 <= i < self.touched@.len() && self.touched@[i] == v;
                    assert(before.touched@[i] == v);
                    assert(before.touched@.contains(v));
                }
            }
        }
    }

    fn next(&mut self) -> (result: Option<u32>)
        requires
            old(self).well_formed(),
        ensures
            final(self).well_formed(),
            final(self).room() == old(self).room(),
            final(self).seen() == old(self).seen(),
            old(self).waiting().len() == 0 ==> result is None && final(self).waiting().len() == 0,
            old(self).waiting().len() > 0 ==> result == Some(old(self).waiting()[0]) && final(
                self).waiting() == old(self).waiting().drop_first(),
    {
        let result = self.queue.pop_front();
        assert(old(self).queue@.len() > 0 ==> self.queue@ =~= old(self).queue@.drop_first());
        result
    }
}

/// A brush pressed onto a mesh: where, how wide, seen from where, and whether the surface under it
/// is turned along the view.
#[derive(Clone, Copy, Debug, PartialEq, Eq, Structural)]
pub struct Dab {
    pub center: Point,
    pub radius: u32,
    pub view: Option<Point>,
    pub along: bool,
}

/// The sum of the normals at the corners of a triangle.
pub open spec fn seed_normal<O: Arithmetic>(ops: &O, mesh: Mesh, seed: [u32; 3]) -> Point {
    arithmetic::spec_plus(
        ops,
        arithmetic::spec_plus(
            ops,
            arithmetic::spec_plus(ops, arithmetic::origin(), mesh.normals@[seed@[0] as int]),
            mesh.normals@[seed@[1] as int],
        ),
        mesh.normals@[seed@[2] as int],
    )
}

/// The dab of a brush on a seed triangle.
pub open spec fn dab_at<O: Arithmetic>(
    mesh: Mesh,
    seed: [u32; 3],
    center: Point,
    radius: u32,
    view_direction: Point,
    ops: &O,
) -> Dab {
    let view = arithmetic::spec_direction(ops, view_direction);
    Dab {
        center,
        radius,
        view,
        along: view is Some && scalar::lt(
            scalar::ZERO,
            arithmetic::spec_dot(ops, seed_normal(ops, mesh, seed), view->0),
        ),
    }
}

impl Dab {
    /// Whether a position is no farther away than the radius.
    pub open spec fn within<O: Arithmetic>(self, ops: &O, position: Point) -> bool {
        !scalar::lt(
            ops.spec_product(self.radius, self.radius),
            arithmetic::spec_distance_squared(ops, position, self.center),
        )
    }

    /// Whether a normal is turned as the surface under the brush is. A vertex without a normal
    /// is, and without a view everything is.
    pub open spec fn facing<O: Arithmetic>(self, ops: &O, normal: Point) -> bool {
        match self.view {
            None => true,
            Some(view) => normal.same(arithmetic::origin()) || if self.along {
                scalar::le(scalar::ZERO, arithmetic::spec_dot(ops, normal, view))
            } else {
                scalar::le(arithmetic::spec_dot(ops, normal, view), scalar::ZERO)
            },
        }
    }

    fn at<O: Arithmetic>(
        mesh: &Mesh,
        seed: [u32; 3],
        center: Point,
        radius: u32,
        view_direction: Point,
        ops: &O,
    ) -> (result: Dab)
        requires
            ops.total(),
            mesh::corners_exist(seed, mesh.normals@.len()),
        ensures
            result == dab_at(*mesh, seed, center, radius, view_direction, ops),
    {
        let view = arithmetic::direction(ops, view_direction);
        let along = match view {
            None => false,
            Some(view) => {
                let zero = Point { x: scalar::ZERO, y: scalar::ZERO, z: scalar::ZERO };
                let first = arithmetic::plus(ops, zero, mesh.normals[seed[0] as usize]);
                let second = arithmetic::plus(ops, first, mesh.normals[seed[1] as usize]);
                let third = arithmetic::plus(ops, second, mesh.normals[seed[2] as usize]);
                scalar::is_less(scalar::ZERO, arithmetic::dot(ops, third, view))
            },
        };
        Dab { center, radius, view, along }
    }

    fn is_within<O: Arithmetic>(&self, ops: &O, position: Point) -> (result: bool)
        requires
            ops.total(),
        ensures
            result == self.within(ops, position),
    {
        !scalar::is_less(
            ops.product(self.radius, self.radius),
            arithmetic::distance_squared(ops, position, self.center),
        )
    }

    fn is_facing<O: Arithmetic>(&self, ops: &O, normal: Point) -> (result: bool)
        requires
            ops.total(),
        ensures
            result == self.facing(ops, normal),
    {
        match self.view {
            None => true,
            Some(view) => {
                let zero = Point { x: scalar::ZERO, y: scalar::ZERO, z: scalar::ZERO };
                if normal.is_same(&zero) {
                    return true;
                }
                if self.along {
                    scalar::is_at_most(scalar::ZERO, arithmetic::dot(ops, normal, view))
                } else {
                    scalar::is_at_most(arithmetic::dot(ops, normal, view), scalar::ZERO)
                }
            },
        }
    }
}

/// Whether a brush takes a vertex: it is near enough, and it faces the right way.
pub open spec fn taken<O: Arithmetic>(
    mesh: Mesh,
    ops: &O,
    dab: Dab,
    vertex: u32,
) -> bool {
    &&& vertex < mesh.positions@.len()
    &&& dab.within(ops, mesh.positions@[vertex as int])
    &&& dab.facing(ops, mesh.normals@[vertex as int])
}

/// A path along edges over vertices that a brush takes, from a corner of the seed triangle.
pub open spec fn is_path<O: Arithmetic>(
    mesh: Mesh,
    ops: &O,
    dab: Dab,
    seed: [u32; 3],
    path: Seq<u32>,
) -> bool {
    &&& path.len() > 0
    &&& topology::is_corner(seed, path[0])
    &&& forall|i: int| 0 <= i < path.len() ==> taken(mesh, ops, dab, #[trigger] path[i])
    &&& forall|i: int|
        0 <= i < path.len() - 1 ==> topology::adjacent(
            mesh.triangles@,
            #[trigger] path[i],
            path[i + 1],
        )
}

/// Whether such a path leads to a vertex.
pub open spec fn in_region<O: Arithmetic>(
    mesh: Mesh,
    ops: &O,
    dab: Dab,
    seed: [u32; 3],
    vertex: u32,
) -> bool {
    exists|path: Seq<u32>|
        #[trigger] is_path(mesh, ops, dab, seed, path) && path.last() == vertex
}

proof fn lemma_path_starts<O: Arithmetic>(
    mesh: Mesh,
    ops: &O,
    dab: Dab,
    seed: [u32; 3],
    vertex: u32,
)
    requires
        topology::is_corner(seed, vertex),
        taken(mesh, ops, dab, vertex),
    ensures
        in_region(mesh, ops, dab, seed, vertex),
{
    let path = seq![vertex];
    assert(is_path(mesh, ops, dab, seed, path));
    assert(path.last() == vertex);
}

proof fn lemma_path_goes_on<O: Arithmetic>(
    mesh: Mesh,
    ops: &O,
    dab: Dab,
    seed: [u32; 3],
    from: u32,
    vertex: u32,
)
    requires
        in_region(mesh, ops, dab, seed, from),
        topology::adjacent(mesh.triangles@, from, vertex),
        taken(mesh, ops, dab, vertex),
    ensures
        in_region(mesh, ops, dab, seed, vertex),
{
    let path = choose|path: Seq<u32>|
        #[trigger] is_path(mesh, ops, dab, seed, path) && path.last() == from;
    let longer = path.push(vertex);
    assert forall|i: int| 0 <= i < longer.len() implies taken(
        mesh,
        ops,
        dab,
        #[trigger] longer[i],
    ) by {
        if i < path.len() {
            assert(longer[i] == path[i]);
        }
    }
    assert forall|i: int| 0 <= i < longer.len() - 1 implies topology::adjacent(
        mesh.triangles@,
        #[trigger] longer[i],
        longer[i + 1],
    ) by {
        if i < path.len() - 1 {
            assert(longer[i] == path[i] && longer[i + 1] == path[i + 1]);
        }
    }
    assert(longer[0] == path[0]);
    assert(is_path(mesh, ops, dab, seed, longer));
    assert(longer.last() == vertex);
}

/// A path does not leave a set that has the seed's corners and every neighbor of its taken
/// vertices.
proof fn lemma_path_stays<O: Arithmetic>(
    mesh: Mesh,
    ops: &O,
    dab: Dab,
    seed: [u32; 3],
    path: Seq<u32>,
    seen: Set<u32>,
)
    requires
        is_path(mesh, ops, dab, seed, path),
        forall|v: u32|
            topology::is_corner(seed, v) && v < mesh.positions@.len() ==> seen.contains(v),
        forall|v: u32, u: u32|
            seen.contains(v) && taken(mesh, ops, dab, v) && #[trigger] topology::adjacent(
                mesh.triangles@,
                v,
                u,
            ) ==> seen.contains(u),
    ensures
        seen.contains(path.last()),
    decreases path.len(),
{
    assert(taken(mesh, ops, dab, path[0]));
    if path.len() > 1 {
        let front = path.drop_last();
        assert(is_path(mesh, ops, dab, seed, front)) by {
            assert forall|i: int| 0 <= i < front.len() implies taken(
                mesh,
                ops,
                dab,
                #[trigger] front[i],
            ) by {
                assert(front[i] == path[i]);
            }
            assert forall|i: int| 0 <= i < front.len() - 1 implies topology::adjacent(
                mesh.triangles@,
                #[trigger] front[i],
                front[i + 1],
            ) by {
                assert(front[i] == path[i] && front[i + 1] == path[i + 1]);
            }
        }
        lemma_path_stays(mesh, ops, dab, seed, front, seen);
        let i = path.len() - 2;
        assert(path[i] == front.last());
        assert(taken(mesh, ops, dab, path[i]));
        assert(topology::adjacent(mesh.triangles@, path[i], path[i + 1]));
    }
}

/// The vertices that a walk has come by after it has come by some more, each once.
pub open spec fn come_by(seen: Seq<u32>, more: Seq<u32>) -> Seq<u32>
    decreases more.len(),
{
    if more.len() == 0 {
        seen
    } else {
        let before = come_by(seen, more.drop_last());
        if before.contains(more.last()) {
            before
        } else {
            before.push(more.last())
        }
    }
}

/// The vertices that a brush takes, in the order of a walk that has come by some and left the
/// first of them: from a vertex that it takes the walk comes by the neighbors.
pub open spec fn walk_on<O: Arithmetic>(
    mesh: Mesh,
    ops: &O,
    dab: Dab,
    seen: Seq<u32>,
    left: nat,
    found: Seq<u32>,
) -> Seq<u32>
    decreases mesh.positions@.len() - left,
{
    if left >= seen.len() || left >= mesh.positions@.len() {
        found
    } else {
        let vertex = seen[left as int];
        if taken(mesh, ops, dab, vertex) {
            walk_on(
                mesh,
                ops,
                dab,
                come_by(seen, mesh.topology.vertex_neighbors@[vertex as int]@),
                left + 1,
                found.push(vertex),
            )
        } else {
            walk_on(mesh, ops, dab, seen, left + 1, found)
        }
    }
}

/// The vertices that a brush takes, in the order of a walk from the corners of a triangle.
pub open spec fn walk<O: Arithmetic>(mesh: Mesh, ops: &O, dab: Dab, seed: [u32; 3]) -> Seq<u32> {
    walk_on(mesh, ops, dab, seed@, 0, Seq::empty())
}

/// Whether a brush at a place with a radius reaches anything at all.
pub open spec fn brush_is_real(center: Point, radius: u32) -> bool {
    center.finite() && scalar::finite(radius) && scalar::lt(scalar::ZERO, radius)
}

impl Mesh {
    /// Collects the vertices that a brush takes and that are connected to a triangle by vertices
    /// that it takes.
    ///
    /// A brush takes what is in its radius and faces the viewer as the seed triangle does.
    pub fn connected_front_facing_vertices<O: Arithmetic>(
        &self,
        seed_triangle: u32,
        center: Point,
        radius: u32,
        view_direction: Point,
        ops: &O,
        scratch: &mut VertexTraversalScratch,
        result: &mut Vec<u32>,
    )
        requires
            self.well_formed(),
            ops.total(),
            old(scratch).well_formed(),
        ensures
            final(scratch).well_formed(),
            final(result)@.no_duplicates(),
            !(seed_triangle < self.triangles@.len() && brush_is_real(center, radius)) ==> final(
                result)@.len() == 0,
            seed_triangle < self.triangles@.len() && brush_is_real(center, radius) ==> forall|
                v: u32,
            | #[trigger]
                final(result)@.contains(v) <==> in_region(
                    *self,
                    ops,
                    dab_at(
                        *self,
                        self.triangles@[seed_triangle as int],
                        center,
                        radius,
                        view_direction,
                        ops,
                    ),
                    self.triangles@[seed_triangle as int],
                    v,
                ),
            seed_triangle < self.triangles@.len() && brush_is_real(center, radius) ==> final(
                result)@ == walk(
                *self,
                ops,
                dab_at(
                    *self,
                    self.triangles@[seed_triangle as int],
                    center,
                    radius,
                    view_direction,
                    ops,
                ),
                self.triangles@[seed_triangle as int],
            ),
    {
        result.clear();
        if seed_triangle as usize >= self.triangles.len() {
            return;
        }
        if !center.is_finite() || !scalar::is_finite(radius) || !scalar::is_less(
            scalar::ZERO,
            radius,
        ) {
            return;
        }
        let seed = self.triangles[seed_triangle as usize];
        let dab = Dab::at(self, seed, center, radius, view_direction, ops);
        assert(topology::distinct_corners(self.triangles@[seed_triangle as int]));
        scratch.begin(self.positions.len());
        scratch.enqueue_once(seed[0]);
        scratch.enqueue_once(seed[1]);
        scratch.enqueue_once(seed[2]);
        let ghost count = self.positions@.len();
        proof {
            let a = seed@[0];
            let b = seed@[1];
            let c = seed@[2];
            assert(scratch.seen() =~= seq![a, b, c]);
            assert(scratch.waiting() =~= seq![a, b, c]);
            assert(scratch.seen()[0] == a && scratch.seen()[1] == b && scratch.seen()[2] == c);
            assert forall|v: u32| scratch.seen().contains(v) <==> topology::is_corner(seed, v) by {}
            assert(scratch.seen() =~= seed@);
            assert(result@ =~= Seq::<u32>::empty());
            assert(done(*scratch).len() == 0);
        }
        let ghost whole = walk(*self, ops, dab, seed);
        loop
            invariant
                self.well_formed(),
                count == self.positions@.len(),
                ops.total(),
                whole == walk_on(
                    *self,
                    ops,
                    dab,
                    scratch.seen(),
                    done(*scratch).len(),
                    result@,
                ),
                scratch.well_formed(),
                count <= scratch.room(),
                seed_triangle < self.triangles@.len(),
                seed == self.triangles@[seed_triangle as int],
                forall|v: u32| #[trigger] scratch.seen().contains(v) ==> v < count,
                scratch.seen().no_duplicates(),
                forall|v: u32| topology::is_corner(seed, v) ==> scratch.seen().contains(v),
                // What waits is the end of what was seen.
                scratch.waiting().len() <= scratch.seen().len(),
                scratch.waiting() == scratch.seen().skip(
                    scratch.seen().len() - scratch.waiting().len(),
                ),
                forall|v: u32| #[trigger]
                    result@.contains(v) <==> done(*scratch).contains(v) && taken(
                        *self,
                        ops,
                        dab,
                        v,
                    ),
                result@.no_duplicates(),
                forall|v: u32| #[trigger]
                    result@.contains(v) ==> in_region(*self, ops, dab, seed, v),
                forall|v: u32| #[trigger]
                    scratch.seen().contains(v) ==> topology::is_corner(seed, v) || exists|u: u32|
                        result@.contains(u) && #[trigger] topology::adjacent(
                            self.triangles@,
                            u,
                            v,
                        ),
                forall|v: u32, u: u32|
                    result@.contains(v) && #[trigger] topology::adjacent(self.triangles@, v, u)
                        ==> scratch.seen().contains(u),
            ensures
                scratch.waiting().len() == 0,
                result@ == whole,
            decreases count - done(*scratch).len(),
        {
            let ghost before = *scratch;
            let ghost found = result@;
            proof {
                lemma_few_seen(scratch.seen(), count);
            }
            let vertex = match scratch.next() {
                Some(vertex) => vertex,
                None => {
                    break;
                },
            };
            let ghost passed_by = scratch.seen();
            proof {
                let k = before.seen().len() - before.waiting().len();
                assert(before.waiting()[0] == before.seen()[k]);
                assert(before.seen().contains(vertex));
                assert(done(*scratch) =~= done(before).push(vertex));
                assert(scratch.waiting() =~= scratch.seen().skip(
                    scratch.seen().len() - scratch.waiting().len(),
                ));
                assert(!done(before).contains(vertex)) by {
                    if done(before).contains(vertex) {
                        let j = choose|j: int|
                            0 <= j < done(before).len() && done(before)[j] == vertex;
                        assert(before.seen()[j] == before.seen()[k]);
                    }
                }
            }
            let index = vertex as usize;
            let near = dab.is_within(ops, self.positions[index]);
            let accepted = near && dab.is_facing(ops, self.normals[index]);
            if !accepted {
                assert(!taken(*self, ops, dab, vertex));
                proof {
                    assert forall|v: u32| #[trigger] result@.contains(v) <==> done(
                        *scratch,
                    ).contains(v) && taken(*self, ops, dab, v) by {
                        collections::push_contains(done(before), vertex, v);
                    }
                }
                continue;
            }
            assert(taken(*self, ops, dab, vertex));
            result.push(vertex);
            let ghost gathered = result@;
            proof {
                assert(!found.contains(vertex));
                collections::push_unique(found, vertex);
                assert forall|v: u32| #[trigger] gathered.contains(v) <==> found.contains(v) || v
                    == vertex by {
                    collections::push_contains(found, vertex, v);
                }
                assert forall|v: u32| #[trigger] gathered.contains(v) <==> done(*scratch).contains(
                    v,
                ) && taken(*self, ops, dab, v) by {
                    collections::push_contains(done(before), vertex, v);
                }
                if topology::is_corner(seed, vertex) {
                    lemma_path_starts(*self, ops, dab, seed, vertex);
                } else {
                    let u = choose|u: u32|
                        found.contains(u) && #[trigger] topology::adjacent(
                            self.triangles@,
                            u,
                            vertex,
                        );
                    lemma_path_goes_on(*self, ops, dab, seed, u, vertex);
                }
            }
            let neighbors = self.topology.vertex_neighbors[index].as_slice();
            let ghost left = done(*scratch);
            let mut k: usize = 0;
            assert(neighbors@.take(0) =~= Seq::<u32>::empty());
            while k < neighbors.len()
                invariant
                    k <= neighbors@.len(),
                    self.well_formed(),
                    scratch.seen() == come_by(passed_by, neighbors@.take(k as int)),
                    count == self.positions@.len(),
                    vertex < count,
                    neighbors@ == self.topology.vertex_neighbors@[vertex as int]@,
                    scratch.well_formed(),
                    count <= scratch.room(),
                    forall|v: u32| #[trigger] scratch.seen().contains(v) ==> v < count,
                    scratch.seen().no_duplicates(),
                    forall|v: u32| #[trigger]
                        before.seen().contains(v) ==> scratch.seen().contains(v),
                    scratch.waiting().len() <= scratch.seen().len(),
                    scratch.waiting() == scratch.seen().skip(
                        scratch.seen().len() - scratch.waiting().len(),
                    ),
                    done(*scratch) == left,
                    forall|v: u32| #[trigger]
                        scratch.seen().contains(v) ==> before.seen().contains(v)
                            || topology::adjacent(self.triangles@, vertex, v),
                    forall|j: int|
                        0 <= j < k ==> scratch.seen().contains(#[trigger] neighbors@[j]),
                decreases neighbors@.len() - k,
            {
                let neighbor = neighbors[k];
                let ghost earlier = *scratch;
                proof {
                    assert(neighbors@.contains(neighbor));
                    assert(topology::adjacent(self.triangles@, vertex, neighbor));
                    lemma_adjacent_is_vertex(*self, vertex, neighbor);
                }
                scratch.enqueue_once(neighbor);
                proof {
                    assert(neighbors@.take(k + 1).drop_last() =~= neighbors@.take(k as int));
                    assert forall|v: u32| #[trigger] scratch.seen().contains(v)
                        <==> earlier.seen().contains(v) || v == neighbor by {
                        collections::push_contains(earlier.seen(), neighbor, v);
                    }
                    assert(done(*scratch) =~= left);
                    assert(scratch.waiting() =~= scratch.seen().skip(
                        scratch.seen().len() - scratch.waiting().len(),
                    ));
                    assert forall|j: int| 0 <= j < k + 1 implies scratch.seen().contains(
                        #[trigger] neighbors@[j],
                    ) by {
                        assert(scratch.seen().contains(neighbors@[j]));
                    }
                }
                k += 1;
            }
            proof {
                assert(neighbors@.take(k as int) =~= neighbors@);
                assert forall|v: u32, u: u32|
                    result@.contains(v) && #[trigger] topology::adjacent(
                        self.triangles@,
                        v,
                        u,
                    ) implies scratch.seen().contains(u) by {
                    if v == vertex {
                        assert(self.topology.vertex_neighbors@[vertex as int]@.contains(u));
                        let j = choose|j: int| 0 <= j < neighbors@.len() && neighbors@[j] == u;
                        assert(scratch.seen().contains(neighbors@[j]));
                    } else {
                        assert(found.contains(v));
                        assert(before.seen().contains(u));
                    }
                }
                assert forall|v: u32| #[trigger] scratch.seen().contains(
                    v,
                ) implies topology::is_corner(seed, v) || exists|u: u32|
                    result@.contains(u) && #[trigger] topology::adjacent(
                        self.triangles@,
                        u,
                        v,
                    ) by {
                    if before.seen().contains(v) {
                        if !topology::is_corner(seed, v) {
                            let u = choose|u: u32|
                                found.contains(u) && #[trigger] topology::adjacent(
                                    self.triangles@,
                                    u,
                                    v,
                                );
                            assert(result@.contains(u));
                        }
                    } else {
                        assert(result@.contains(vertex));
                        assert(topology::adjacent(self.triangles@, vertex, v));
                    }
                }
            }
        }
        proof {
            assert(done(*scratch) =~= scratch.seen());
            assert forall|v: u32| #[trigger] result@.contains(v) <==> in_region(
                *self,
                ops,
                dab,
                seed,
                v,
            ) by {
                if in_region(*self, ops, dab, seed, v) {
                    let path = choose|path: Seq<u32>|
                        #[trigger] is_path(*self, ops, dab, seed, path) && path.last() == v;
                    let seen = Set::new(|u: u32| scratch.seen().contains(u));
                    assert forall|v: u32, u: u32|
                        seen.contains(v) && taken(
                            *self,
                            ops,
                            dab,
                            v,
                        ) && #[trigger] topology::adjacent(
                            self.triangles@,
                            v,
                            u,
                        ) implies seen.contains(u) by {
                        assert(done(*scratch).contains(v));
                        assert(result@.contains(v));
                    }
                    lemma_path_stays(*self, ops, dab, seed, path, seen);
                    assert(taken(*self, ops, dab, path[path.len() - 1]));
                    assert(done(*scratch).contains(v));
                }
            }
        }
    }
}

/// The vertices that a walk has come by and left again.
pub open spec fn done(scratch: VertexTraversalScratch) -> Seq<u32> {
    scratch.seen().take(scratch.seen().len() - scratch.waiting().len())
}

/// Distinct vertices are no more than there are vertices.
proof fn lemma_few_seen(seen: Seq<u32>, count: nat)
    requires
        seen.no_duplicates(),
        forall|v: u32| #[trigger] seen.contains(v) ==> v < count,
    ensures
        seen.len() <= count,
{
    let numbers = seen.map_values(|v: u32| v as int);
    let range = vstd::set_lib::set_int_range(0, count as int);
    vstd::set_lib::lemma_int_range(0, count as int);
    assert(numbers.no_duplicates()) by {
        assert forall|i: int, j: int|
            0 <= i < numbers.len() && 0 <= j < numbers.len() && i != j implies numbers[i]
            != numbers[j] by {
            assert(seen[i] != seen[j]);
        }
    }
    numbers.unique_seq_to_set();
    assert(numbers.to_set().subset_of(range)) by {
        assert forall|x: int| numbers.to_set().contains(x) implies range.contains(x) by {
            let i = choose|i: int| 0 <= i < numbers.len() && numbers[i] == x;
            assert(seen.contains(seen[i]));
        }
    }
    vstd::set_lib::lemma_len_subset(numbers.to_set(), range);
}

proof fn lemma_adjacent_is_vertex(mesh: Mesh, a: u32, b: u32)
    requires
        mesh.well_formed(),
        topology::adjacent(mesh.triangles@, a, b),
    ensures
        b < mesh.positions@.len(),
{
    let i = choose|i: int|
        0 <= i < mesh.triangles@.len() && topology::is_corner(#[trigger] mesh.triangles@[i], a)
            && topology::is_corner(mesh.triangles@[i], b);
    assert(topology::distinct_corners(mesh.triangles@[i]));
}

} // verus!
