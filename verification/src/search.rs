//! Searching a tree of boxes for the faces that a ray meets or that lie near a point.
use crate::bvh;
use crate::bvh::{BvhNode, MeshBvh, NONE};
use crate::collections::IndexList;
use crate::geometry::{OfPair, OfTriangle};
use crate::scalar;
use crate::scalar::Point;
use crate::walk;
use vstd::prelude::*;

verus! {

/// A face that a ray meets.
#[derive(Clone, Copy, Debug, PartialEq, Eq, Structural)]
pub struct FaceHit {
    pub triangle: u32,
    pub distance: u32,
    pub barycentric: Point,
}

/// The number of nodes of a subtree.
pub open spec fn size(nodes: Seq<BvhNode>, i: int) -> nat
    decreases nodes.len() - i,
{
    if i < 0 || i >= nodes.len() || nodes[i].spec_is_leaf() {
        1
    } else if i < nodes[i].left < nodes.len() && i < nodes[i].right < nodes.len() {
        1 + size(nodes, nodes[i].left as int) + size(nodes, nodes[i].right as int)
    } else {
        1
    }
}

/// The number of nodes of several subtrees.
pub open spec fn total_size(nodes: Seq<BvhNode>, stack: Seq<u32>) -> nat
    decreases stack.len(),
{
    if stack.len() == 0 {
        0
    } else {
        total_size(nodes, stack.drop_last()) + size(nodes, stack.last() as int)
    }
}

proof fn lemma_push_size(nodes: Seq<BvhNode>, stack: Seq<u32>, node: u32)
    ensures
        total_size(nodes, stack.push(node)) == total_size(nodes, stack) + size(
            nodes,
            node as int,
        ),
{
    assert(stack.push(node).drop_last() =~= stack);
}

proof fn lemma_pop_size(nodes: Seq<BvhNode>, stack: Seq<u32>)
    requires
        stack.len() > 0,
    ensures
        total_size(nodes, stack) == total_size(nodes, stack.drop_last()) + size(
            nodes,
            stack.last() as int,
        ),
{
}

/// Whether a face lies below one of several nodes.
pub open spec fn below(
    nodes: Seq<BvhNode>,
    leaves: Seq<Vec<u32>>,
    stack: Seq<u32>,
    face: u32,
) -> bool {
    exists|k: int|
        0 <= k < stack.len() && #[trigger] bvh::faces_under(
            nodes,
            leaves,
            stack[k] as int,
        ).contains(face)
}

proof fn lemma_below_push(
    nodes: Seq<BvhNode>,
    leaves: Seq<Vec<u32>>,
    stack: Seq<u32>,
    node: u32,
    face: u32,
)
    ensures
        below(nodes, leaves, stack.push(node), face) <==> below(nodes, leaves, stack, face)
            || bvh::faces_under(nodes, leaves, node as int).contains(face),
{
    let longer = stack.push(node);
    if below(nodes, leaves, stack, face) {
        let k = choose|k: int|
            0 <= k < stack.len() && #[trigger] bvh::faces_under(
                nodes,
                leaves,
                stack[k] as int,
            ).contains(face);
        assert(longer[k] == stack[k]);
        assert(bvh::faces_under(nodes, leaves, longer[k] as int).contains(face));
    }
    if bvh::faces_under(nodes, leaves, node as int).contains(face) {
        assert(longer[stack.len() as int] == node);
        assert(bvh::faces_under(nodes, leaves, longer[stack.len() as int] as int).contains(face));
    }
    if below(nodes, leaves, longer, face) {
        let k = choose|k: int|
            0 <= k < longer.len() && #[trigger] bvh::faces_under(
                nodes,
                leaves,
                longer[k] as int,
            ).contains(face);
        if k < stack.len() {
            assert(bvh::faces_under(nodes, leaves, stack[k] as int).contains(face));
        }
    }
}

/// The faces below a node are those of its leaf, or those below its children.
proof fn lemma_under(nodes: Seq<BvhNode>, leaves: Seq<Vec<u32>>, i: int, face: u32)
    requires
        0 <= i < nodes.len(),
        bvh::node_formed(nodes, leaves, i),
    ensures
        nodes[i].spec_is_leaf() ==> bvh::faces_under(nodes, leaves, i)
            == leaves[nodes[i].leaf as int]@,
        !nodes[i].spec_is_leaf() ==> (bvh::faces_under(nodes, leaves, i).contains(face)
            <==> bvh::faces_under(nodes, leaves, nodes[i].left as int).contains(face)
            || bvh::faces_under(nodes, leaves, nodes[i].right as int).contains(face)),
        !nodes[i].spec_is_leaf() ==> size(nodes, i) == 1 + size(nodes, nodes[i].left as int) + size(
            nodes,
            nodes[i].right as int,
        ),
        size(nodes, i) >= 1,
{
    broadcast use vstd::seq_lib::group_seq_properties;

    if !nodes[i].spec_is_leaf() {
        let left = bvh::faces_under(nodes, leaves, nodes[i].left as int);
        let right = bvh::faces_under(nodes, leaves, nodes[i].right as int);
        assert(bvh::faces_under(nodes, leaves, i) == left + right);
    }
}

impl MeshBvh {
    /// What a ray test gives for a face.
    pub open spec fn hit_of<H: OfTriangle<Option<(u32, Point)>>>(
        positions: Seq<Point>,
        triangles: Seq<[u32; 3]>,
        hit: H,
        face: u32,
    ) -> Option<(u32, Point)> {
        hit.spec_of_triangle(
            bvh::corner(positions, triangles, face, 0),
            bvh::corner(positions, triangles, face, 1),
            bvh::corner(positions, triangles, face, 2),
        )
    }

    /// Whether a ray misses the box of a node above a face, or enters it beyond a distance.
    pub open spec fn shielded<B: OfPair<Option<u32>>>(
        self,
        enter: B,
        face: u32,
        limit: u32,
    ) -> bool {
        exists|i: int|
            0 <= i < self.nodes@.len() && #[trigger] bvh::faces_under(
                self.nodes@,
                self.leaf_faces@,
                i,
            ).contains(face) && {
                let entry = enter.spec_of_pair(self.nodes@[i].min, self.nodes@[i].max);
                entry is None || scalar::lt(limit, entry->0)
            }
    }

    /// Whether a face is no nearer along a ray than a distance, so far as the boxes tell.
    pub open spec fn settled<
        B: OfPair<Option<u32>>,
        H: OfTriangle<Option<(u32, Point)>>,
    >(
        self,
        positions: Seq<Point>,
        triangles: Seq<[u32; 3]>,
        enter: B,
        hit: H,
        face: u32,
        limit: u32,
    ) -> bool {
        let own = MeshBvh::hit_of(positions, triangles, hit, face);
        ||| own is None
        ||| scalar::le(limit, (own->0).0)
        ||| self.shielded(enter, face, limit)
    }
}

/// The distance of the best hit so far.
pub open spec fn limit_of(best: Option<FaceHit>) -> u32 {
    match best {
        Some(hit) => hit.distance,
        None => scalar::INFINITY,
    }
}

fn distance_of(best: &Option<FaceHit>) -> (result: u32)
    ensures
        result == limit_of(*best),
{
    match best {
        Some(hit) => hit.distance,
        None => scalar::INFINITY,
    }
}

/// Whether a hit is one that a ray test gives, and at a finite distance.
pub open spec fn genuine<H: OfTriangle<Option<(u32, Point)>>>(
    positions: Seq<Point>,
    triangles: Seq<[u32; 3]>,
    hit: H,
    best: Option<FaceHit>,
) -> bool {
    best is Some ==> {
        &&& best->0.triangle < triangles.len()
        &&& MeshBvh::hit_of(positions, triangles, hit, best->0.triangle) == Some(
            (best->0.distance, best->0.barycentric),
        )
        &&& scalar::finite(best->0.distance)
    }
}

/// Whether a ray test gives finite distances only.
pub open spec fn finite_hits<H: OfTriangle<Option<(u32, Point)>>>(hit: H) -> bool {
    forall|a: Point, b: Point, c: Point| (#[trigger] hit.spec_of_triangle(a, b, c)) is Some
        ==> scalar::finite((hit.spec_of_triangle(a, b, c)->0).0)
}

/// Takes the nearest of a leaf's faces, where one is nearer than the best so far.
fn nearest_in_leaf<H: OfTriangle<Option<(u32, Point)>>>(
    positions: &Vec<Point>,
    triangles: &Vec<[u32; 3]>,
    faces: &Vec<u32>,
    hit: &H,
    best: Option<FaceHit>,
) -> (result: Option<FaceHit>)
    requires
        bvh::indexed(triangles@, positions@.len()),
        hit.total(),
        finite_hits(*hit),
        forall|i: int| 0 <= i < faces@.len() ==> #[trigger] faces@[i] < triangles@.len(),
        genuine(positions@, triangles@, *hit, best),
    ensures
        result == walk::with_hits(positions@, triangles@, *hit, best, faces@),
        genuine(positions@, triangles@, *hit, result),
        scalar::le(limit_of(result), limit_of(best)),
        forall|i: int|
            0 <= i < faces@.len() ==> {
                let own = MeshBvh::hit_of(positions@, triangles@, *hit, #[trigger] faces@[i]);
                own is None || scalar::le(limit_of(result), (own->0).0)
            },
{
    let mut best = best;
    let ghost begun = best;
    let mut k: usize = 0;
    while k < faces.len()
        invariant
            k <= faces@.len(),
            bvh::indexed(triangles@, positions@.len()),
            hit.total(),
            finite_hits(*hit),
            forall|i: int| 0 <= i < faces@.len() ==> #[trigger] faces@[i] < triangles@.len(),
            best == walk::with_hits(positions@, triangles@, *hit, begun, faces@.take(k as int)),
            genuine(positions@, triangles@, *hit, best),
            genuine(positions@, triangles@, *hit, begun),
            scalar::le(limit_of(best), limit_of(begun)),
            forall|i: int|
                0 <= i < k ==> {
                    let own = MeshBvh::hit_of(positions@, triangles@, *hit, #[trigger] faces@[i]);
                    own is None || scalar::le(limit_of(best), (own->0).0)
                },
        decreases faces@.len() - k,
    {
        let face = faces[k];
        let triangle = triangles[face as usize];
        let a = positions[triangle[0] as usize];
        let b = positions[triangle[1] as usize];
        let c = positions[triangle[2] as usize];
        let own = hit.of_triangle(a, b, c);
        assert(own == MeshBvh::hit_of(positions@, triangles@, *hit, face));
        assert(faces@.take(k + 1).drop_last() =~= faces@.take(k as int));
        let ghost before = best;
        if let Some((distance, barycentric)) = own {
            if !scalar::is_at_most(distance_of(&best), distance) {
                best = Some(FaceHit { triangle: face, distance, barycentric });
            }
        }
        proof {
            assert forall|i: int| 0 <= i < k + 1 implies {
                let own = MeshBvh::hit_of(positions@, triangles@, *hit, #[trigger] faces@[i]);
                own is None || scalar::le(limit_of(best), (own->0).0)
            } by {
                if i < k {
                    let earlier = MeshBvh::hit_of(positions@, triangles@, *hit, faces@[i]);
                    assert(earlier is None || scalar::le(limit_of(before), (earlier->0).0));
                }
            }
        }
        k += 1;
    }
    assert(faces@.take(k as int) =~= faces@);
    best
}

impl MeshBvh {
    /// A face settled for one distance is settled for every smaller one.
    proof fn lemma_settled_closer<
        B: OfPair<Option<u32>>,
        H: OfTriangle<Option<(u32, Point)>>,
    >(
        self,
        positions: Seq<Point>,
        triangles: Seq<[u32; 3]>,
        enter: B,
        hit: H,
        face: u32,
        limit: u32,
        closer: u32,
    )
        requires
            self.settled(positions, triangles, enter, hit, face, limit),
            scalar::le(closer, limit),
        ensures
            self.settled(positions, triangles, enter, hit, face, closer),
    {
        if self.shielded(enter, face, limit) {
            let i = choose|i: int|
                0 <= i < self.nodes@.len() && #[trigger] bvh::faces_under(
                    self.nodes@,
                    self.leaf_faces@,
                    i,
                ).contains(face) && {
                    let entry = enter.spec_of_pair(self.nodes@[i].min, self.nodes@[i].max);
                    entry is None || scalar::lt(limit, entry->0)
                };
            assert(bvh::faces_under(self.nodes@, self.leaf_faces@, i).contains(face));
        }
    }

    /// Finds the nearest face that a ray meets.
    ///
    /// `enter` tells where the ray enters a box, `hit` where it meets a triangle. A face is
    /// passed over unmet only below a box that the ray misses or enters too late.
    pub fn raycast<
        B: OfPair<Option<u32>>,
        H: OfTriangle<Option<(u32, Point)>>,
    >(
        &self,
        positions: &Vec<Point>,
        triangles: &Vec<[u32; 3]>,
        enter: &B,
        hit: &H,
    ) -> (result: Option<FaceHit>)
        requires
            self.holds(triangles@.len()),
            bvh::indexed(triangles@, positions@.len()),
            enter.total(),
            hit.total(),
            finite_hits(*hit),
        ensures
            result == walk::first_hit(*self, positions@, triangles@, *enter, *hit),
            genuine(positions@, triangles@, *hit, result),
            forall|f: u32|
                f < triangles@.len() ==> #[trigger] self.settled(
                    positions@,
                    triangles@,
                    *enter,
                    *hit,
                    f,
                    limit_of(result),
                ),
    {
        if self.root == NONE {
            return None;
        }
        let ghost nodes = self.nodes@;
        let ghost leaves = self.leaf_faces@;
        let mut stack = IndexList::new();
        stack.push(self.root);
        let mut best: Option<FaceHit> = None;
        let ghost mut visits = total_size(nodes, stack@);
        let ghost result = walk::first_hit(*self, positions@, triangles@, *enter, *hit);
        assert(stack@ =~= seq![self.root]);
        proof {
            assert forall|f: u32| f < triangles@.len() implies #[trigger] below(
                nodes,
                leaves,
                stack@,
                f,
            ) by {
                assert(stack@[0] == 0);
                assert(bvh::faces_under(nodes, leaves, stack@[0] as int).contains(f));
            }
        }
        loop
            invariant
                nodes == self.nodes@,
                leaves == self.leaf_faces@,
                self.holds(triangles@.len()),
                triangles@.len() > 0,
                bvh::indexed(triangles@, positions@.len()),
                enter.total(),
                hit.total(),
                finite_hits(*hit),
                genuine(positions@, triangles@, *hit, best),
                visits >= total_size(nodes, stack@),
                result == walk::ray_walk(
                    *self,
                    positions@,
                    triangles@,
                    *enter,
                    *hit,
                    stack@,
                    best,
                    visits,
                ),
                forall|k: int| 0 <= k < stack@.len() ==> #[trigger] stack@[k] < nodes.len(),
                forall|f: u32|
                    #![trigger self.settled(
                        positions@,
                        triangles@,
                        *enter,
                        *hit,
                        f,
                        limit_of(best),
                    )]
                    #![trigger below(nodes, leaves, stack@, f)]
                    f < triangles@.len() ==> self.settled(
                        positions@,
                        triangles@,
                        *enter,
                        *hit,
                        f,
                        limit_of(best),
                    ) || below(nodes, leaves, stack@, f),
            ensures
                stack@.len() == 0,
                best == result,
            decreases total_size(nodes, stack@),
        {
            let ghost before = stack@;
            let node_index = match stack.pop() {
                Some(node_index) => node_index,
                None => {
                    break;
                },
            };
            let ghost rest = stack@;
            let ghost i = node_index as int;
            let node = self.nodes[node_index as usize];
            proof {
                assert(before =~= rest.push(node_index));
                lemma_pop_size(nodes, before);
                assert(bvh::node_formed(nodes, leaves, i));
                lemma_under(nodes, leaves, i, 0);
                assert(before.drop_last() =~= rest);
                visits = (visits - 1) as nat;
            }
            let entry = enter.of_pair(node.min, node.max);
            let reached = match entry {
                Some(near) => !scalar::is_less(distance_of(&best), near),
                None => false,
            };
            let ghost earlier = best;
            if reached {
                if node.is_leaf() {
                    proof {
                        let faces = leaves[node.leaf as int]@;
                        assert forall|k: int| 0 <= k < faces.len() implies #[trigger] faces[k]
                            < triangles@.len() by {
                            assert(leaves[nodes[i].leaf as int]@[k] == faces[k]);
                        }
                    }
                    best = nearest_in_leaf(
                        positions,
                        triangles,
                        &self.leaf_faces[node.leaf as usize],
                        hit,
                        best,
                    );
                } else {
                    let left = self.nodes[node.left as usize];
                    let right = self.nodes[node.right as usize];
                    let left_near = enter.of_pair(left.min, left.max);
                    let right_near = enter.of_pair(right.min, right.max);
                    match (left_near, right_near) {
                        (Some(left_distance), Some(right_distance)) => {
                            if scalar::is_less(left_distance, right_distance) {
                                stack.push(node.right);
                                stack.push(node.left);
                                proof {
                                    lemma_push_size(nodes, rest, node.right);
                                    lemma_push_size(nodes, rest.push(node.right), node.left);
                                }
                            } else {
                                stack.push(node.left);
                                stack.push(node.right);
                                proof {
                                    lemma_push_size(nodes, rest, node.left);
                                    lemma_push_size(nodes, rest.push(node.left), node.right);
                                }
                            }
                        },
                        (Some(_), None) => {
                            stack.push(node.left);
                            proof {
                                lemma_push_size(nodes, rest, node.left);
                            }
                        },
                        (None, Some(_)) => {
                            stack.push(node.right);
                            proof {
                                lemma_push_size(nodes, rest, node.right);
                            }
                        },
                        (None, None) => {},
                    }
                }
            }
            proof {
                assert forall|f: u32|
                    #![trigger self.settled(
                        positions@,
                        triangles@,
                        *enter,
                        *hit,
                        f,
                        limit_of(best),
                    )]
                    #![trigger below(nodes, leaves, stack@, f)]
                    f < triangles@.len() implies self.settled(
                    positions@,
                    triangles@,
                    *enter,
                    *hit,
                    f,
                    limit_of(best),
                ) || below(nodes, leaves, stack@, f) by {
                    lemma_below_push(nodes, leaves, rest, node_index, f);
                    lemma_under(nodes, leaves, i, f);
                    lemma_below_push(nodes, leaves, rest, node.left, f);
                    lemma_below_push(nodes, leaves, rest, node.right, f);
                    lemma_below_push(nodes, leaves, rest.push(node.left), node.right, f);
                    lemma_below_push(nodes, leaves, rest.push(node.right), node.left, f);
                    if self.settled(positions@, triangles@, *enter, *hit, f, limit_of(earlier)) {
                        self.lemma_settled_closer(
                            positions@,
                            triangles@,
                            *enter,
                            *hit,
                            f,
                            limit_of(earlier),
                            limit_of(best),
                        );
                    } else if !below(nodes, leaves, rest, f) {
                        assert(bvh::faces_under(nodes, leaves, i).contains(f));
                        if reached && node.spec_is_leaf() {
                            let faces = leaves[node.leaf as int]@;
                            let k = choose|k: int| 0 <= k < faces.len() && faces[k] == f;
                            assert(faces[k] == f);
                        } else if reached {
                            let left = node.left as int;
                            let right = node.right as int;
                            if bvh::faces_under(nodes, leaves, left).contains(f) {
                                assert(enter.spec_of_pair(nodes[left].min, nodes[left].max)
                                    is Some || self.shielded(*enter, f, limit_of(best)));
                            } else {
                                assert(bvh::faces_under(nodes, leaves, right).contains(f));
                                assert(enter.spec_of_pair(nodes[right].min, nodes[right].max)
                                    is Some || self.shielded(*enter, f, limit_of(best)));
                            }
                        } else {
                            assert(self.shielded(*enter, f, limit_of(best)));
                        }
                    }
                }
            }
        }
        best
    }
}

/// A face's point that is nearest to another point.
#[derive(Clone, Copy, Debug, PartialEq, Eq, Structural)]
pub struct NearPoint {
    pub triangle: u32,
    pub point: Point,
    pub barycentric: Point,
    pub distance_squared: u32,
}

/// The distance of the nearest point so far.
pub open spec fn nearness(best: Option<NearPoint>) -> u32 {
    match best {
        Some(near) => near.distance_squared,
        None => scalar::INFINITY,
    }
}

/// What a distance test gives for a face: the squared distance, the point and where it lies.
pub open spec fn near_of<N: OfTriangle<(u32, Point, Point)>>(
    positions: Seq<Point>,
    triangles: Seq<[u32; 3]>,
    nearest: N,
    face: u32,
) -> (u32, Point, Point) {
    nearest.spec_of_triangle(
        bvh::corner(positions, triangles, face, 0),
        bvh::corner(positions, triangles, face, 1),
        bvh::corner(positions, triangles, face, 2),
    )
}

/// Whether a nearest point is one that a distance test gives.
pub open spec fn measured<N: OfTriangle<(u32, Point, Point)>>(
    positions: Seq<Point>,
    triangles: Seq<[u32; 3]>,
    nearest: N,
    best: Option<NearPoint>,
) -> bool {
    best is Some ==> {
        &&& best->0.triangle < triangles.len()
        &&& near_of(positions, triangles, nearest, best->0.triangle) == (
            best->0.distance_squared,
            best->0.point,
            best->0.barycentric,
        )
        &&& !scalar::nan(best->0.distance_squared)
    }
}

/// Whether a face is farther than a nearest point, or as far and of no lower index.
pub open spec fn behind(best: Option<NearPoint>, distance: u32, face: u32) -> bool {
    &&& best is Some
    &&& scalar::lt(best->0.distance_squared, distance) || (scalar::same(
        best->0.distance_squared,
        distance,
    ) && best->0.triangle <= face)
}

/// Whether one nearest point is at least as good as another.
pub open spec fn no_worse(best: Option<NearPoint>, other: Option<NearPoint>) -> bool {
    other is Some ==> behind(best, other->0.distance_squared, other->0.triangle)
}

impl MeshBvh {
    /// Whether the box of a node above a face is farther than a distance.
    pub open spec fn beyond<D: OfPair<u32>>(
        self,
        away: D,
        face: u32,
        limit: u32,
    ) -> bool {
        exists|i: int|
            0 <= i < self.nodes@.len() && #[trigger] bvh::faces_under(
                self.nodes@,
                self.leaf_faces@,
                i,
            ).contains(face) && {
                let distance = away.spec_of_pair(self.nodes@[i].min, self.nodes@[i].max);
                scalar::nan(distance) || scalar::lt(limit, distance)
            }
    }

    /// Whether a face is no nearer than the nearest point, so far as the boxes tell.
    pub open spec fn outdone<
        D: OfPair<u32>,
        N: OfTriangle<(u32, Point, Point)>,
    >(
        self,
        positions: Seq<Point>,
        triangles: Seq<[u32; 3]>,
        away: D,
        nearest: N,
        face: u32,
        best: Option<NearPoint>,
    ) -> bool {
        let own = near_of(positions, triangles, nearest, face).0;
        ||| scalar::nan(own)
        ||| behind(best, own, face)
        ||| self.beyond(away, face, nearness(best))
    }

    proof fn lemma_outdone_better<
        D: OfPair<u32>,
        N: OfTriangle<(u32, Point, Point)>,
    >(
        self,
        positions: Seq<Point>,
        triangles: Seq<[u32; 3]>,
        away: D,
        nearest: N,
        face: u32,
        best: Option<NearPoint>,
        better: Option<NearPoint>,
    )
        requires
            self.outdone(positions, triangles, away, nearest, face, best),
            no_worse(better, best),
            measured(positions, triangles, nearest, best),
            measured(positions, triangles, nearest, better),
        ensures
            self.outdone(positions, triangles, away, nearest, face, better),
    {
        if self.beyond(away, face, nearness(best)) {
            let i = choose|i: int|
                0 <= i < self.nodes@.len() && #[trigger] bvh::faces_under(
                    self.nodes@,
                    self.leaf_faces@,
                    i,
                ).contains(face) && {
                    let distance = away.spec_of_pair(self.nodes@[i].min, self.nodes@[i].max);
                    scalar::nan(distance) || scalar::lt(nearness(best), distance)
                };
            assert(bvh::faces_under(self.nodes@, self.leaf_faces@, i).contains(face));
        }
    }
}

/// Takes the nearest of a leaf's faces, where one is nearer than the best so far, or as near and
/// of lower index.
fn closest_in_leaf<N: OfTriangle<(u32, Point, Point)>>(
    positions: &Vec<Point>,
    triangles: &Vec<[u32; 3]>,
    faces: &Vec<u32>,
    nearest: &N,
    best: Option<NearPoint>,
) -> (result: Option<NearPoint>)
    requires
        bvh::indexed(triangles@, positions@.len()),
        nearest.total(),
        forall|i: int| 0 <= i < faces@.len() ==> #[trigger] faces@[i] < triangles@.len(),
        measured(positions@, triangles@, *nearest, best),
    ensures
        result == walk::with_nears(positions@, triangles@, *nearest, best, faces@),
        measured(positions@, triangles@, *nearest, result),
        no_worse(result, best),
        forall|i: int|
            0 <= i < faces@.len() ==> {
                let own = near_of(positions@, triangles@, *nearest, #[trigger] faces@[i]).0;
                scalar::nan(own) || behind(result, own, faces@[i])
            },
{
    let mut best = best;
    let ghost begun = best;
    let mut k: usize = 0;
    while k < faces.len()
        invariant
            k <= faces@.len(),
            bvh::indexed(triangles@, positions@.len()),
            nearest.total(),
            forall|i: int| 0 <= i < faces@.len() ==> #[trigger] faces@[i] < triangles@.len(),
            best == walk::with_nears(
                positions@,
                triangles@,
                *nearest,
                begun,
                faces@.take(k as int),
            ),
            measured(positions@, triangles@, *nearest, best),
            no_worse(best, begun),
            forall|i: int|
                0 <= i < k ==> {
                    let own = near_of(positions@, triangles@, *nearest, #[trigger] faces@[i]).0;
                    scalar::nan(own) || behind(best, own, faces@[i])
                },
        decreases faces@.len() - k,
    {
        let face = faces[k];
        let triangle = triangles[face as usize];
        let a = positions[triangle[0] as usize];
        let b = positions[triangle[1] as usize];
        let c = positions[triangle[2] as usize];
        let (distance_squared, point, barycentric) = nearest.of_triangle(a, b, c);
        assert((distance_squared, point, barycentric) == near_of(
            positions@,
            triangles@,
            *nearest,
            face,
        ));
        assert(faces@.take(k + 1).drop_last() =~= faces@.take(k as int));
        let ghost before = best;
        let replaces_best = match best {
            Some(closest) => scalar::is_less(distance_squared, closest.distance_squared) || (
            scalar::is_same(distance_squared, closest.distance_squared) && face < closest.triangle),
            None => !scalar::is_nan(distance_squared),
        };
        if replaces_best {
            best = Some(NearPoint { triangle: face, point, barycentric, distance_squared });
        }
        proof {
            assert(behind(best, distance_squared, face) || scalar::nan(distance_squared));
            assert forall|i: int| 0 <= i < k + 1 implies {
                let own = near_of(positions@, triangles@, *nearest, #[trigger] faces@[i]).0;
                scalar::nan(own) || behind(best, own, faces@[i])
            } by {
                if i < k {
                    let earlier = near_of(positions@, triangles@, *nearest, faces@[i]).0;
                    assert(scalar::nan(earlier) || behind(before, earlier, faces@[i]));
                }
            }
        }
        k += 1;
    }
    assert(faces@.take(k as int) =~= faces@);
    best
}

impl MeshBvh {
    /// Finds the nearest face to a point, the one of lowest index where several are as near.
    ///
    /// `away` tells how far a box is, `nearest` how far a triangle is and where its nearest point
    /// lies, both by squared distance. A face is passed over only below a box that is too far.
    pub fn closest_surface_point<
        D: OfPair<u32>,
        N: OfTriangle<(u32, Point, Point)>,
    >(
        &self,
        positions: &Vec<Point>,
        triangles: &Vec<[u32; 3]>,
        away: &D,
        nearest: &N,
    ) -> (result: Option<NearPoint>)
        requires
            self.holds(triangles@.len()),
            bvh::indexed(triangles@, positions@.len()),
            away.total(),
            nearest.total(),
        ensures
            result == walk::nearest_point(*self, positions@, triangles@, *away, *nearest),
            measured(positions@, triangles@, *nearest, result),
            forall|f: u32|
                f < triangles@.len() ==> #[trigger] self.outdone(
                    positions@,
                    triangles@,
                    *away,
                    *nearest,
                    f,
                    result,
                ),
    {
        if self.root == NONE {
            return None;
        }
        let ghost nodes = self.nodes@;
        let ghost leaves = self.leaf_faces@;
        let mut stack = IndexList::new();
        stack.push(self.root);
        let mut best: Option<NearPoint> = None;
        let ghost mut visits = total_size(nodes, stack@);
        let ghost result = walk::nearest_point(*self, positions@, triangles@, *away, *nearest);
        assert(stack@ =~= seq![self.root]);
        proof {
            assert forall|f: u32| f < triangles@.len() implies #[trigger] below(
                nodes,
                leaves,
                stack@,
                f,
            ) by {
                assert(stack@[0] == 0);
                assert(bvh::faces_under(nodes, leaves, stack@[0] as int).contains(f));
            }
        }
        loop
            invariant
                nodes == self.nodes@,
                leaves == self.leaf_faces@,
                self.holds(triangles@.len()),
                triangles@.len() > 0,
                bvh::indexed(triangles@, positions@.len()),
                away.total(),
                nearest.total(),
                measured(positions@, triangles@, *nearest, best),
                visits >= total_size(nodes, stack@),
                result == walk::near_walk(
                    *self,
                    positions@,
                    triangles@,
                    *away,
                    *nearest,
                    stack@,
                    best,
                    visits,
                ),
                forall|k: int| 0 <= k < stack@.len() ==> #[trigger] stack@[k] < nodes.len(),
                forall|f: u32|
                    #![trigger self.outdone(positions@, triangles@, *away, *nearest, f, best)]
                    #![trigger below(nodes, leaves, stack@, f)]
                    f < triangles@.len() ==> self.outdone(
                        positions@,
                        triangles@,
                        *away,
                        *nearest,
                        f,
                        best,
                    ) || below(nodes, leaves, stack@, f),
            ensures
                stack@.len() == 0,
                best == result,
            decreases total_size(nodes, stack@),
        {
            let ghost before = stack@;
            let node_index = match stack.pop() {
                Some(node_index) => node_index,
                None => {
                    break;
                },
            };
            let ghost rest = stack@;
            let ghost i = node_index as int;
            let node = self.nodes[node_index as usize];
            proof {
                assert(before =~= rest.push(node_index));
                lemma_pop_size(nodes, before);
                assert(bvh::node_formed(nodes, leaves, i));
                lemma_under(nodes, leaves, i, 0);
                assert(before.drop_last() =~= rest);
                visits = (visits - 1) as nat;
            }
            let limit = match best {
                Some(closest) => closest.distance_squared,
                None => scalar::INFINITY,
            };
            let reached = !scalar::is_less(limit, away.of_pair(node.min, node.max));
            let ghost earlier = best;
            if reached {
                if node.is_leaf() {
                    proof {
                        let faces = leaves[node.leaf as int]@;
                        assert forall|k: int| 0 <= k < faces.len() implies #[trigger] faces[k]
                            < triangles@.len() by {
                            assert(leaves[nodes[i].leaf as int]@[k] == faces[k]);
                        }
                    }
                    best = closest_in_leaf(
                        positions,
                        triangles,
                        &self.leaf_faces[node.leaf as usize],
                        nearest,
                        best,
                    );
                } else {
                    let left = self.nodes[node.left as usize];
                    let right = self.nodes[node.right as usize];
                    let left_distance = away.of_pair(left.min, left.max);
                    let right_distance = away.of_pair(right.min, right.max);
                    let left_first = scalar::is_less(left_distance, right_distance);
                    let (far, far_distance, near, near_distance) = if left_first {
                        (node.right, right_distance, node.left, left_distance)
                    } else {
                        (node.left, left_distance, node.right, right_distance)
                    };
                    if scalar::is_at_most(far_distance, limit) {
                        stack.push(far);
                        proof {
                            lemma_push_size(nodes, rest, far);
                        }
                    }
                    let ghost middle = stack@;
                    if scalar::is_at_most(near_distance, limit) {
                        stack.push(near);
                        proof {
                            lemma_push_size(nodes, middle, near);
                        }
                    }
                }
            }
            proof {
                assert forall|f: u32|
                    #![trigger self.outdone(positions@, triangles@, *away, *nearest, f, best)]
                    #![trigger below(nodes, leaves, stack@, f)]
                    f < triangles@.len() implies self.outdone(
                    positions@,
                    triangles@,
                    *away,
                    *nearest,
                    f,
                    best,
                ) || below(nodes, leaves, stack@, f) by {
                    lemma_below_push(nodes, leaves, rest, node_index, f);
                    lemma_under(nodes, leaves, i, f);
                    lemma_below_push(nodes, leaves, rest, node.left, f);
                    lemma_below_push(nodes, leaves, rest, node.right, f);
                    lemma_below_push(nodes, leaves, rest.push(node.left), node.right, f);
                    lemma_below_push(nodes, leaves, rest.push(node.right), node.left, f);
                    if self.outdone(positions@, triangles@, *away, *nearest, f, earlier) {
                        self.lemma_outdone_better(
                            positions@,
                            triangles@,
                            *away,
                            *nearest,
                            f,
                            earlier,
                            best,
                        );
                    } else if !below(nodes, leaves, rest, f) {
                        assert(bvh::faces_under(nodes, leaves, i).contains(f));
                        if reached && node.spec_is_leaf() {
                            let faces = leaves[node.leaf as int]@;
                            let k = choose|k: int| 0 <= k < faces.len() && faces[k] == f;
                            assert(faces[k] == f);
                        } else if reached {
                            let left = node.left as int;
                            let right = node.right as int;
                            if bvh::faces_under(nodes, leaves, left).contains(f) {
                                assert(scalar::le(
                                    away.spec_of_pair(nodes[left].min, nodes[left].max),
                                    nearness(best),
                                ) || self.beyond(*away, f, nearness(best)));
                            } else {
                                assert(bvh::faces_under(nodes, leaves, right).contains(f));
                                assert(scalar::le(
                                    away.spec_of_pair(nodes[right].min, nodes[right].max),
                                    nearness(best),
                                ) || self.beyond(*away, f, nearness(best)));
                            }
                        } else {
                            assert(self.beyond(*away, f, nearness(best)));
                        }
                    }
                }
            }
        }
        best
    }
}

/// How close to an edge, by its smallest barycentric weight, a crossing of a triangle counts as
/// ambiguous: the double-precision pattern of `1.0e-10`.
pub const RAY_BARYCENTRIC_AMBIGUITY_EPSILON: u64 = 0x3ddb_7cdf_d9d7_bdbb;

/// What a ray does to one triangle, where it matters how often the ray crosses the surface. The
/// distance and the smallest barycentric weight of a crossing are in double precision.
#[derive(Clone, Copy, Debug, PartialEq, Eq, Structural)]
pub enum ParityRayIntersection {
    Miss,
    Ambiguous,
    Hit { distance: u64, minimum_barycentric: u64 },
}

/// How often a ray crosses a surface.
///
/// A crossing through an edge or a vertex is reported as ambiguous, so that the count can be
/// taken again along another ray.
#[derive(Clone, Copy, Debug, PartialEq, Eq, Structural)]
pub struct RayIntersectionCount {
    pub intersections: usize,
    pub ambiguous: bool,
}

impl Default for RayIntersectionCount {
    fn default() -> (result: RayIntersectionCount)
        ensures
            result == (RayIntersectionCount { intersections: 0, ambiguous: false }),
    {
        RayIntersectionCount { intersections: 0, ambiguous: false }
    }
}

impl ParityRayIntersection {
    pub open spec fn is_crossing(self) -> bool {
        self is Hit
    }

    /// Whether a ray touches a triangle, its plane or an edge of it in a way that leaves open
    /// what it crosses.
    pub open spec fn is_doubtful(self) -> bool {
        match self {
            ParityRayIntersection::Miss => false,
            ParityRayIntersection::Ambiguous => true,
            ParityRayIntersection::Hit { distance, minimum_barycentric } => {
                scalar::wide_rank(distance) == 0 || scalar::wide_le(
                    minimum_barycentric,
                    RAY_BARYCENTRIC_AMBIGUITY_EPSILON,
                )
            },
        }
    }

    fn crosses(&self) -> (result: bool)
        ensures
            result == self.is_crossing(),
    {
        match self {
            ParityRayIntersection::Hit { distance: _, minimum_barycentric: _ } => true,
            _ => false,
        }
    }

    fn leaves_doubt(&self) -> (result: bool)
        ensures
            result == self.is_doubtful(),
    {
        match self {
            ParityRayIntersection::Miss => false,
            ParityRayIntersection::Ambiguous => true,
            ParityRayIntersection::Hit { distance, minimum_barycentric } => {
                *distance == 0 || *distance == 0x8000_0000_0000_0000 || scalar::wide_is_at_most(
                    *minimum_barycentric,
                    RAY_BARYCENTRIC_AMBIGUITY_EPSILON,
                )
            },
        }
    }
}

/// What a parity test gives for a face.
pub open spec fn parity_of<P: OfTriangle<ParityRayIntersection>>(
    positions: Seq<Point>,
    triangles: Seq<[u32; 3]>,
    parity: P,
    face: u32,
) -> ParityRayIntersection {
    parity.spec_of_triangle(
        bvh::corner(positions, triangles, face, 0),
        bvh::corner(positions, triangles, face, 1),
        bvh::corner(positions, triangles, face, 2),
    )
}

/// How many of some faces a ray crosses.
pub open spec fn crossings<P: OfTriangle<ParityRayIntersection>>(
    positions: Seq<Point>,
    triangles: Seq<[u32; 3]>,
    parity: P,
    faces: Seq<u32>,
) -> nat
    decreases faces.len(),
{
    if faces.len() == 0 {
        0
    } else {
        let rest = crossings(positions, triangles, parity, faces.drop_last());
        if parity_of(positions, triangles, parity, faces.last()).is_crossing() {
            rest + 1
        } else {
            rest
        }
    }
}

/// Whether a ray meets one of some faces doubtfully.
pub open spec fn doubts<P: OfTriangle<ParityRayIntersection>>(
    positions: Seq<Point>,
    triangles: Seq<[u32; 3]>,
    parity: P,
    faces: Seq<u32>,
) -> bool {
    exists|k: int|
        0 <= k < faces.len() && parity_of(
            positions,
            triangles,
            parity,
            #[trigger] faces[k],
        ).is_doubtful()
}

/// The faces below a node that no missed box hides.
pub open spec fn faces_entered<B: OfPair<Option<u32>>>(
    nodes: Seq<BvhNode>,
    leaves: Seq<Vec<u32>>,
    enter: B,
    i: int,
) -> Seq<u32>
    decreases nodes.len() - i,
{
    if i < 0 || i >= nodes.len() {
        Seq::empty()
    } else if enter.spec_of_pair(nodes[i].min, nodes[i].max) is None {
        Seq::empty()
    } else if nodes[i].spec_is_leaf() {
        leaves[nodes[i].leaf as int]@
    } else if i < nodes[i].left < nodes.len() && i < nodes[i].right < nodes.len() {
        faces_entered(nodes, leaves, enter, nodes[i].right as int) + faces_entered(
            nodes,
            leaves,
            enter,
            nodes[i].left as int,
        )
    } else {
        Seq::empty()
    }
}

/// The faces below several nodes that no missed box hides, the last node's first.
pub open spec fn stack_entered<B: OfPair<Option<u32>>>(
    nodes: Seq<BvhNode>,
    leaves: Seq<Vec<u32>>,
    enter: B,
    stack: Seq<u32>,
) -> Seq<u32>
    decreases stack.len(),
{
    if stack.len() == 0 {
        Seq::empty()
    } else {
        faces_entered(nodes, leaves, enter, stack.last() as int) + stack_entered(
            nodes,
            leaves,
            enter,
            stack.drop_last(),
        )
    }
}

proof fn lemma_stack_entered_push<B: OfPair<Option<u32>>>(
    nodes: Seq<BvhNode>,
    leaves: Seq<Vec<u32>>,
    enter: B,
    stack: Seq<u32>,
    node: u32,
)
    ensures
        stack_entered(nodes, leaves, enter, stack.push(node)) == faces_entered(
            nodes,
            leaves,
            enter,
            node as int,
        ) + stack_entered(nodes, leaves, enter, stack),
{
    assert(stack.push(node).drop_last() =~= stack);
}

proof fn lemma_crossings_bound<P: OfTriangle<ParityRayIntersection>>(
    positions: Seq<Point>,
    triangles: Seq<[u32; 3]>,
    parity: P,
    faces: Seq<u32>,
)
    ensures
        crossings(positions, triangles, parity, faces) <= faces.len(),
    decreases faces.len(),
{
    if faces.len() > 0 {
        lemma_crossings_bound(positions, triangles, parity, faces.drop_last());
    }
}

proof fn lemma_entered_bound<B: OfPair<Option<u32>>>(
    nodes: Seq<BvhNode>,
    leaves: Seq<Vec<u32>>,
    enter: B,
    i: int,
)
    requires
        bvh::formed(nodes, leaves, 0),
        0 <= i < nodes.len(),
    ensures
        faces_entered(nodes, leaves, enter, i).len() <= bvh::faces_under(nodes, leaves, i).len(),
        forall|f: u32|
            faces_entered(nodes, leaves, enter, i).contains(f) ==> bvh::faces_under(
                nodes,
                leaves,
                i,
            ).contains(f),
    decreases nodes.len() - i,
{
    broadcast use vstd::seq_lib::group_seq_properties;

    assert(bvh::node_formed(nodes, leaves, i));
    if enter.spec_of_pair(nodes[i].min, nodes[i].max) is Some && !nodes[i].spec_is_leaf() {
        lemma_entered_bound(nodes, leaves, enter, nodes[i].left as int);
        lemma_entered_bound(nodes, leaves, enter, nodes[i].right as int);
    }
}

impl MeshBvh {
    /// Counts the faces that a ray crosses, below the boxes that it enters.
    pub fn ray_intersection_count<
        B: OfPair<Option<u32>>,
        P: OfTriangle<ParityRayIntersection>,
    >(
        &self,
        positions: &Vec<Point>,
        triangles: &Vec<[u32; 3]>,
        enter: &B,
        parity: &P,
    ) -> (result: RayIntersectionCount)
        requires
            self.holds(triangles@.len()),
            triangles@.len() <= u32::MAX,
            bvh::indexed(triangles@, positions@.len()),
            enter.total(),
            parity.total(),
        ensures
            ({
                let faces = faces_entered(self.nodes@, self.leaf_faces@, *enter, 0);
                &&& result.intersections == crossings(positions@, triangles@, *parity, faces)
                &&& result.ambiguous == doubts(positions@, triangles@, *parity, faces)
            }),
    {
        let mut result = RayIntersectionCount::default();
        if self.root == NONE {
            return result;
        }
        let ghost nodes = self.nodes@;
        let ghost leaves = self.leaf_faces@;
        let ghost all = faces_entered(nodes, leaves, *enter, 0);
        let ghost mut seen: Seq<u32> = Seq::empty();
        let mut stack = IndexList::new();
        stack.push(self.root);
        proof {
            lemma_stack_entered_push(nodes, leaves, *enter, Seq::empty(), 0);
            assert(stack@ =~= Seq::<u32>::empty().push(0));
            assert(stack_entered(nodes, leaves, *enter, stack@) =~= all);
            lemma_entered_bound(nodes, leaves, *enter, 0);
        }
        loop
            invariant
                nodes == self.nodes@,
                leaves == self.leaf_faces@,
                self.holds(triangles@.len()),
                0 < triangles@.len() <= u32::MAX,
                bvh::indexed(triangles@, positions@.len()),
                enter.total(),
                parity.total(),
                forall|k: int| 0 <= k < stack@.len() ==> #[trigger] stack@[k] < nodes.len(),
                all.len() <= triangles@.len(),
                seen + stack_entered(nodes, leaves, *enter, stack@) == all,
                result.intersections == crossings(positions@, triangles@, *parity, seen),
                result.ambiguous == doubts(positions@, triangles@, *parity, seen),
            ensures
                stack@.len() == 0,
            decreases total_size(nodes, stack@),
        {
            let ghost before = stack@;
            let node_index = match stack.pop() {
                Some(node_index) => node_index,
                None => {
                    break;
                },
            };
            let ghost rest = stack@;
            let ghost i = node_index as int;
            let node = self.nodes[node_index as usize];
            proof {
                assert(before =~= rest.push(node_index));
                lemma_pop_size(nodes, before);
                lemma_stack_entered_push(nodes, leaves, *enter, rest, node_index);
                assert(bvh::node_formed(nodes, leaves, i));
                lemma_under(nodes, leaves, i, 0);
            }
            if enter.of_pair(node.min, node.max).is_none() {
                assert(seen + (Seq::<u32>::empty() + stack_entered(nodes, leaves, *enter, rest))
                    =~= seen + stack_entered(nodes, leaves, *enter, rest));
                continue;
            }
            if node.is_leaf() {
                let faces = &self.leaf_faces[node.leaf as usize];
                proof {
                    assert forall|k: int| 0 <= k < faces@.len() implies #[trigger] faces@[k]
                        < triangles@.len() by {
                        assert(leaves[nodes[i].leaf as int]@[k] == faces@[k]);
                    }
                }
                let ghost tail = stack_entered(nodes, leaves, *enter, rest);
                let ghost start = seen;
                proof {
                    assert(start + faces@.take(0) =~= start);
                }
                let mut k: usize = 0;
                while k < faces.len()
                    invariant
                        k <= faces@.len(),
                        0 < triangles@.len() <= u32::MAX,
                        bvh::indexed(triangles@, positions@.len()),
                        parity.total(),
                        forall|k: int|
                            0 <= k < faces@.len() ==> #[trigger] faces@[k] < triangles@.len(),
                        all.len() <= triangles@.len(),
                        start + (faces@ + tail) == all,
                        seen == start + faces@.take(k as int),
                        result.intersections == crossings(positions@, triangles@, *parity, seen),
                        result.ambiguous == doubts(positions@, triangles@, *parity, seen),
                    decreases faces@.len() - k,
                {
                    let face = faces[k];
                    let triangle = triangles[face as usize];
                    let crossing = parity.of_triangle(
                        positions[triangle[0] as usize],
                        positions[triangle[1] as usize],
                        positions[triangle[2] as usize],
                    );
                    assert(crossing == parity_of(positions@, triangles@, *parity, face));
                    let ghost counted = seen;
                    proof {
                        lemma_crossings_bound(positions@, triangles@, *parity, seen);
                        assert(all.len() == start.len() + faces@.len() + tail.len());
                        seen = seen.push(face);
                        assert(seen =~= start + faces@.take(k + 1));
                        assert(seen.drop_last() =~= counted);
                    }
                    if crossing.crosses() {
                        result.intersections = result.intersections + 1;
                    }
                    let doubtful = crossing.leaves_doubt();
                    proof {
                        if doubts(positions@, triangles@, *parity, counted) {
                            let j = choose|j: int|
                                0 <= j < counted.len() && parity_of(
                                    positions@,
                                    triangles@,
                                    *parity,
                                    #[trigger] counted[j],
                                ).is_doubtful();
                            assert(seen[j] == counted[j]);
                        }
                        if doubtful {
                            assert(seen[counted.len() as int] == face);
                        }
                        if doubts(positions@, triangles@, *parity, seen) {
                            let j = choose|j: int|
                                0 <= j < seen.len() && parity_of(
                                    positions@,
                                    triangles@,
                                    *parity,
                                    #[trigger] seen[j],
                                ).is_doubtful();
                            if j < counted.len() {
                                assert(counted[j] == seen[j]);
                            }
                        }
                    }
                    result.ambiguous = result.ambiguous || doubtful;
                    k += 1;
                }
                proof {
                    assert(faces@.take(k as int) =~= faces@);
                    assert(seen + tail =~= start + (faces@ + tail));
                }
            } else {
                stack.push(node.left);
                stack.push(node.right);
                proof {
                    lemma_push_size(nodes, rest, node.left);
                    lemma_push_size(nodes, rest.push(node.left), node.right);
                    lemma_stack_entered_push(nodes, leaves, *enter, rest, node.left);
                    lemma_stack_entered_push(
                        nodes,
                        leaves,
                        *enter,
                        rest.push(node.left),
                        node.right,
                    );
                    let right = faces_entered(nodes, leaves, *enter, node.right as int);
                    let left = faces_entered(nodes, leaves, *enter, node.left as int);
                    let tail = stack_entered(nodes, leaves, *enter, rest);
                    assert((right + left) + tail =~= right + (left + tail));
                }
            }
        }
        proof {
            assert(seen + Seq::<u32>::empty() =~= seen);
        }
        result
    }
}

} // verus!
