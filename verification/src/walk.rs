//! The order in which a search goes through the tree of a mesh, and what it comes to.
use crate::bvh;
use crate::bvh::{BvhNode, MeshBvh};
use crate::geometry::{OfPair, OfTriangle};
use crate::scalar;
use crate::scalar::Point;
use crate::search;
use crate::search::{FaceHit, NearPoint};
use vstd::prelude::*;

verus! {

/// The better of a hit and what a ray makes of one more face.
pub open spec fn with_hit<H: OfTriangle<Option<(u32, Point)>>>(
    positions: Seq<Point>,
    triangles: Seq<[u32; 3]>,
    hit: H,
    best: Option<FaceHit>,
    face: u32,
) -> Option<FaceHit> {
    match MeshBvh::hit_of(positions, triangles, hit, face) {
        Some((distance, barycentric)) => if scalar::le(search::limit_of(best), distance) {
            best
        } else {
            Some(FaceHit { triangle: face, distance, barycentric })
        },
        None => best,
    }
}

/// The best of a hit and what a ray makes of some faces, taken in order.
pub open spec fn with_hits<H: OfTriangle<Option<(u32, Point)>>>(
    positions: Seq<Point>,
    triangles: Seq<[u32; 3]>,
    hit: H,
    best: Option<FaceHit>,
    faces: Seq<u32>,
) -> Option<FaceHit>
    decreases faces.len(),
{
    if faces.len() == 0 {
        best
    } else {
        with_hit(
            positions,
            triangles,
            hit,
            with_hits(positions, triangles, hit, best, faces.drop_last()),
            faces.last(),
        )
    }
}

/// The nodes that are next, the last first, where a ray goes on below a node: of two that it
/// enters, the one that it enters first.
pub open spec fn entered_next<B: OfPair<Option<u32>>>(
    nodes: Seq<BvhNode>,
    enter: B,
    rest: Seq<u32>,
    node: BvhNode,
) -> Seq<u32> {
    let left = enter.spec_of_pair(nodes[node.left as int].min, nodes[node.left as int].max);
    let right = enter.spec_of_pair(nodes[node.right as int].min, nodes[node.right as int].max);
    match (left, right) {
        (Some(left_near), Some(right_near)) => if scalar::lt(left_near, right_near) {
            rest.push(node.right).push(node.left)
        } else {
            rest.push(node.left).push(node.right)
        },
        (Some(_), None) => rest.push(node.left),
        (None, Some(_)) => rest.push(node.right),
        (None, None) => rest,
    }
}

/// Whether a ray enters a box no later than its best hit so far.
pub open spec fn enters_in_time<B: OfPair<Option<u32>>>(
    enter: B,
    node: BvhNode,
    best: Option<FaceHit>,
) -> bool {
    match enter.spec_of_pair(node.min, node.max) {
        Some(near) => !scalar::lt(search::limit_of(best), near),
        None => false,
    }
}

/// The hit that a ray comes to from the nodes still to visit, the last first, and its best hit so
/// far, in so many visits.
pub open spec fn ray_walk<B: OfPair<Option<u32>>, H: OfTriangle<Option<(u32, Point)>>>(
    tree: MeshBvh,
    positions: Seq<Point>,
    triangles: Seq<[u32; 3]>,
    enter: B,
    hit: H,
    stack: Seq<u32>,
    best: Option<FaceHit>,
    visits: nat,
) -> Option<FaceHit>
    decreases visits,
{
    if visits == 0 || stack.len() == 0 {
        best
    } else {
        let node = tree.nodes@[stack.last() as int];
        let rest = stack.drop_last();
        let left = (visits - 1) as nat;
        if !enters_in_time(enter, node, best) {
            ray_walk(tree, positions, triangles, enter, hit, rest, best, left)
        } else if node.spec_is_leaf() {
            let faces = tree.leaf_faces@[node.leaf as int]@;
            let found = with_hits(positions, triangles, hit, best, faces);
            ray_walk(tree, positions, triangles, enter, hit, rest, found, left)
        } else {
            let next = entered_next(tree.nodes@, enter, rest, node);
            ray_walk(tree, positions, triangles, enter, hit, next, best, left)
        }
    }
}

/// The hit that a ray comes to from the root.
pub open spec fn first_hit<B: OfPair<Option<u32>>, H: OfTriangle<Option<(u32, Point)>>>(
    tree: MeshBvh,
    positions: Seq<Point>,
    triangles: Seq<[u32; 3]>,
    enter: B,
    hit: H,
) -> Option<FaceHit> {
    if tree.root == bvh::NONE {
        None
    } else {
        let stack = seq![tree.root];
        let visits = search::total_size(tree.nodes@, stack);
        ray_walk(tree, positions, triangles, enter, hit, stack, None, visits)
    }
}

/// The nearer of a point and that of one more face; of equally near ones that of the lower index.
pub open spec fn with_near<N: OfTriangle<(u32, Point, Point)>>(
    positions: Seq<Point>,
    triangles: Seq<[u32; 3]>,
    nearest: N,
    best: Option<NearPoint>,
    face: u32,
) -> Option<NearPoint> {
    let (distance_squared, point, barycentric) = search::near_of(
        positions,
        triangles,
        nearest,
        face,
    );
    let nearer = match best {
        Some(closest) => scalar::lt(distance_squared, closest.distance_squared) || (scalar::same(
            distance_squared,
            closest.distance_squared,
        ) && face < closest.triangle),
        None => !scalar::nan(distance_squared),
    };
    if nearer {
        Some(NearPoint { triangle: face, point, barycentric, distance_squared })
    } else {
        best
    }
}

/// The nearest of a point and those of some faces, taken in order.
pub open spec fn with_nears<N: OfTriangle<(u32, Point, Point)>>(
    positions: Seq<Point>,
    triangles: Seq<[u32; 3]>,
    nearest: N,
    best: Option<NearPoint>,
    faces: Seq<u32>,
) -> Option<NearPoint>
    decreases faces.len(),
{
    if faces.len() == 0 {
        best
    } else {
        with_near(
            positions,
            triangles,
            nearest,
            with_nears(positions, triangles, nearest, best, faces.drop_last()),
            faces.last(),
        )
    }
}

/// Nodes to visit, with one more where its box is not too far.
pub open spec fn with_node(stack: Seq<u32>, node: u32, distance: u32, limit: u32) -> Seq<u32> {
    if scalar::le(distance, limit) {
        stack.push(node)
    } else {
        stack
    }
}

/// The nodes that are next, the last first, where a search for the nearest point goes on below a
/// node: of two that are not too far, the nearer one.
pub open spec fn nearer_next<D: OfPair<u32>>(
    nodes: Seq<BvhNode>,
    away: D,
    rest: Seq<u32>,
    node: BvhNode,
    limit: u32,
) -> Seq<u32> {
    let left = away.spec_of_pair(nodes[node.left as int].min, nodes[node.left as int].max);
    let right = away.spec_of_pair(nodes[node.right as int].min, nodes[node.right as int].max);
    if scalar::lt(left, right) {
        with_node(with_node(rest, node.right, right, limit), node.left, left, limit)
    } else {
        with_node(with_node(rest, node.left, left, limit), node.right, right, limit)
    }
}

/// The nearest point that a search comes to from the nodes still to visit, the last first, and the
/// nearest point so far, in so many visits.
pub open spec fn near_walk<D: OfPair<u32>, N: OfTriangle<(u32, Point, Point)>>(
    tree: MeshBvh,
    positions: Seq<Point>,
    triangles: Seq<[u32; 3]>,
    away: D,
    nearest: N,
    stack: Seq<u32>,
    best: Option<NearPoint>,
    visits: nat,
) -> Option<NearPoint>
    decreases visits,
{
    if visits == 0 || stack.len() == 0 {
        best
    } else {
        let node = tree.nodes@[stack.last() as int];
        let rest = stack.drop_last();
        let limit = search::nearness(best);
        let left = (visits - 1) as nat;
        if scalar::lt(limit, away.spec_of_pair(node.min, node.max)) {
            near_walk(tree, positions, triangles, away, nearest, rest, best, left)
        } else if node.spec_is_leaf() {
            let faces = tree.leaf_faces@[node.leaf as int]@;
            let found = with_nears(positions, triangles, nearest, best, faces);
            near_walk(tree, positions, triangles, away, nearest, rest, found, left)
        } else {
            let next = nearer_next(tree.nodes@, away, rest, node, limit);
            near_walk(tree, positions, triangles, away, nearest, next, best, left)
        }
    }
}

/// The nearest point that a search comes to from the root.
pub open spec fn nearest_point<D: OfPair<u32>, N: OfTriangle<(u32, Point, Point)>>(
    tree: MeshBvh,
    positions: Seq<Point>,
    triangles: Seq<[u32; 3]>,
    away: D,
    nearest: N,
) -> Option<NearPoint> {
    if tree.root == bvh::NONE {
        None
    } else {
        let stack = seq![tree.root];
        let visits = search::total_size(tree.nodes@, stack);
        near_walk(tree, positions, triangles, away, nearest, stack, None, visits)
    }
}

} // verus!
