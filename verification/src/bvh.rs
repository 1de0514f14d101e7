//! A tree of boxes over the faces of a mesh.
use crate::geometry::Geometry;
use crate::scalar;
use crate::scalar::Point;
use vstd::prelude::*;

verus! {

/// The most faces that a leaf of the tree holds.
pub const BVH_LEAF_SIZE: usize = 8;

/// Stands for a node or a leaf that is not there.
pub const NONE: u32 = u32::MAX;

/// A tree over the faces of a mesh, in which every node has a box around the faces below it.
#[derive(Debug)]
pub struct MeshBvh {
    pub root: u32,
    pub nodes: Vec<BvhNode>,
    pub leaf_faces: Vec<Vec<u32>>,
    pub triangle_leaves: Vec<u32>,
}

#[derive(Clone, Copy, Debug)]
pub struct BvhNode {
    pub min: Point,
    pub max: Point,
    pub parent: u32,
    pub left: u32,
    pub right: u32,
    pub leaf: u32,
    pub height: i32,
}

impl Default for BvhNode {
    fn default() -> (result: BvhNode)
        ensures
            result.min == (Point { x: 0, y: 0, z: 0 }),
            result.max == (Point { x: 0, y: 0, z: 0 }),
            result.parent == NONE,
            result.left == NONE,
            result.right == NONE,
            result.leaf == NONE,
            result.height == -1,
    {
        BvhNode {
            min: Point { x: 0, y: 0, z: 0 },
            max: Point { x: 0, y: 0, z: 0 },
            parent: NONE,
            left: NONE,
            right: NONE,
            leaf: NONE,
            height: -1,
        }
    }
}

impl BvhNode {
    pub open spec fn spec_is_leaf(self) -> bool {
        self.height == 0 && self.leaf != NONE
    }

    pub fn is_leaf(self) -> (result: bool)
        ensures
            result == self.spec_is_leaf(),
    {
        self.height == 0 && self.leaf != NONE
    }
}

/// The positions of a face's corners.
pub open spec fn corner(
    positions: Seq<Point>,
    triangles: Seq<[u32; 3]>,
    face: u32,
    which: int,
) -> Point {
    positions[triangles[face as int]@[which] as int]
}

/// The smaller corner of the box around faces, joined to a box that starts at `seed`.
pub open spec fn lowest(
    positions: Seq<Point>,
    triangles: Seq<[u32; 3]>,
    faces: Seq<u32>,
    seed: Point,
) -> Point
    decreases faces.len(),
{
    if faces.len() == 0 {
        seed
    } else {
        let face = faces.last();
        lowest(positions, triangles, faces.drop_last(), seed).least(
            corner(positions, triangles, face, 0),
        ).least(corner(positions, triangles, face, 1)).least(corner(positions, triangles, face, 2))
    }
}

/// The larger corner of the box around faces, joined to a box that starts at `seed`.
pub open spec fn highest(
    positions: Seq<Point>,
    triangles: Seq<[u32; 3]>,
    faces: Seq<u32>,
    seed: Point,
) -> Point
    decreases faces.len(),
{
    if faces.len() == 0 {
        seed
    } else {
        let face = faces.last();
        highest(positions, triangles, faces.drop_last(), seed).greatest(
            corner(positions, triangles, face, 0),
        ).greatest(corner(positions, triangles, face, 1)).greatest(
            corner(positions, triangles, face, 2),
        )
    }
}

pub open spec fn nowhere_low() -> Point {
    Point { x: scalar::INFINITY, y: scalar::INFINITY, z: scalar::INFINITY }
}

pub open spec fn nowhere_high() -> Point {
    Point { x: scalar::NEG_INFINITY, y: scalar::NEG_INFINITY, z: scalar::NEG_INFINITY }
}

/// Every face is a triangle whose corners are vertices.
pub open spec fn indexed(triangles: Seq<[u32; 3]>, vertex_count: nat) -> bool {
    forall|i: int|
        0 <= i < triangles.len() ==> {
            let triangle = #[trigger] triangles[i];
            &&& triangle@[0] < vertex_count
            &&& triangle@[1] < vertex_count
            &&& triangle@[2] < vertex_count
        }
}

/// Whether a node is a leaf with its faces or has two children, which come after it.
pub open spec fn node_formed(nodes: Seq<BvhNode>, leaves: Seq<Vec<u32>>, i: int) -> bool {
    let node = nodes[i];
    if node.spec_is_leaf() {
        &&& node.leaf < leaves.len()
        &&& leaves[node.leaf as int]@.len() <= BVH_LEAF_SIZE
    } else {
        &&& i < node.left < nodes.len()
        &&& i < node.right < nodes.len()
        &&& nodes[node.left as int].parent == i
        &&& nodes[node.right as int].parent == i
        &&& node.height >= 1
        &&& node.height == 1 + if nodes[node.left as int].height
            >= nodes[node.right as int].height {
            nodes[node.left as int].height
        } else {
            nodes[node.right as int].height
        }
    }
}

/// Whether every node from `start` on is formed, with a height that is not negative.
pub open spec fn formed(nodes: Seq<BvhNode>, leaves: Seq<Vec<u32>>, start: int) -> bool {
    forall|i: int|
        start <= i < nodes.len() ==> #[trigger] node_formed(nodes, leaves, i) && nodes[i].height
            >= 0
}

/// The faces below a node, from left to right.
pub open spec fn faces_under(nodes: Seq<BvhNode>, leaves: Seq<Vec<u32>>, i: int) -> Seq<u32>
    decreases nodes.len() - i,
{
    if i < 0 || i >= nodes.len() {
        Seq::empty()
    } else if nodes[i].spec_is_leaf() {
        leaves[nodes[i].leaf as int]@
    } else if i < nodes[i].left < nodes.len() && i < nodes[i].right < nodes.len() {
        faces_under(nodes, leaves, nodes[i].left as int) + faces_under(
            nodes,
            leaves,
            nodes[i].right as int,
        )
    } else {
        Seq::empty()
    }
}

/// Whether a node's box is the box around its faces, or around its children's boxes. The two
/// zeros are one number.
pub open spec fn node_tight(
    nodes: Seq<BvhNode>,
    leaves: Seq<Vec<u32>>,
    positions: Seq<Point>,
    triangles: Seq<[u32; 3]>,
    i: int,
) -> bool {
    let node = nodes[i];
    if node.spec_is_leaf() {
        let faces = leaves[node.leaf as int]@;
        &&& node.min.same(lowest(positions, triangles, faces, nowhere_low()))
        &&& node.max.same(highest(positions, triangles, faces, nowhere_high()))
    } else {
        &&& node.min.same(nodes[node.left as int].min.least(nodes[node.right as int].min))
        &&& node.max.same(nodes[node.left as int].max.greatest(nodes[node.right as int].max))
    }
}

pub open spec fn tight(
    nodes: Seq<BvhNode>,
    leaves: Seq<Vec<u32>>,
    positions: Seq<Point>,
    triangles: Seq<[u32; 3]>,
    start: int,
) -> bool {
    forall|i: int|
        start <= i < nodes.len() ==> #[trigger] node_tight(nodes, leaves, positions, triangles, i)
}

/// Whether the corners of every box are numbers.
pub open spec fn numbered(nodes: Seq<BvhNode>) -> bool {
    forall|i: int|
        0 <= i < nodes.len() ==> (#[trigger] nodes[i]).min.number() && nodes[i].max.number()
}

/// Whether two sequences hold the same faces, each as often.
pub open spec fn rearranged(a: Seq<u32>, b: Seq<u32>) -> bool {
    a.to_multiset() == b.to_multiset()
}

/// The corners of the box around faces are numbers, even where corners of the faces are not.
pub proof fn box_corners_are_numbers(
    positions: Seq<Point>,
    triangles: Seq<[u32; 3]>,
    faces: Seq<u32>,
)
    ensures
        lowest(positions, triangles, faces, nowhere_low()).number(),
        highest(positions, triangles, faces, nowhere_high()).number(),
    decreases faces.len(),
{
    if faces.len() > 0 {
        box_corners_are_numbers(positions, triangles, faces.drop_last());
    }
}

/// The box around faces, joined to the empty box.
pub fn triangle_range_bounds(
    positions: &Vec<Point>,
    triangles: &Vec<[u32; 3]>,
    faces: &Vec<u32>,
) -> (result: (Point, Point))
    requires
        indexed(triangles@, positions@.len()),
        forall|i: int| 0 <= i < faces@.len() ==> #[trigger] faces@[i] < triangles@.len(),
    ensures
        result.0 == lowest(positions@, triangles@, faces@, nowhere_low()),
        result.1 == highest(positions@, triangles@, faces@, nowhere_high()),
{
    let mut min = Point::splat(scalar::INFINITY);
    let mut max = Point::splat(scalar::NEG_INFINITY);
    let mut i: usize = 0;
    assert(faces@.take(0) =~= Seq::<u32>::empty());
    while i < faces.len()
        invariant
            i <= faces@.len(),
            indexed(triangles@, positions@.len()),
            forall|i: int| 0 <= i < faces@.len() ==> #[trigger] faces@[i] < triangles@.len(),
            min == lowest(positions@, triangles@, faces@.take(i as int), nowhere_low()),
            max == highest(positions@, triangles@, faces@.take(i as int), nowhere_high()),
        decreases faces@.len() - i,
    {
        let triangle = triangles[faces[i] as usize];
        let a = positions[triangle[0] as usize];
        let b = positions[triangle[1] as usize];
        let c = positions[triangle[2] as usize];
        min = min.min(&a).min(&b).min(&c);
        max = max.max(&a).max(&b).max(&c);
        assert(faces@.take(i + 1).drop_last() =~= faces@.take(i as int));
        i += 1;
    }
    assert(faces@.take(i as int) =~= faces@);
    (min, max)
}

/// The smaller corner of the box around the points that some indices pick out.
pub open spec fn lowest_of(points: Seq<Point>, indices: Seq<u32>) -> Point
    decreases indices.len(),
{
    if indices.len() == 0 {
        nowhere_low()
    } else {
        lowest_of(points, indices.drop_last()).least(points[indices.last() as int])
    }
}

/// The larger corner of the box around the points that some indices pick out.
pub open spec fn highest_of(points: Seq<Point>, indices: Seq<u32>) -> Point
    decreases indices.len(),
{
    if indices.len() == 0 {
        nowhere_high()
    } else {
        highest_of(points, indices.drop_last()).greatest(points[indices.last() as int])
    }
}

pub fn centroid_range_bounds(centroids: &Vec<Point>, faces: &Vec<u32>) -> (result: (Point, Point))
    requires
        forall|i: int| 0 <= i < faces@.len() ==> #[trigger] faces@[i] < centroids@.len(),
    ensures
        result.0 == lowest_of(centroids@, faces@),
        result.1 == highest_of(centroids@, faces@),
{
    let mut min = Point::splat(scalar::INFINITY);
    let mut max = Point::splat(scalar::NEG_INFINITY);
    let mut i: usize = 0;
    assert(faces@.take(0) =~= Seq::<u32>::empty());
    while i < faces.len()
        invariant
            i <= faces@.len(),
            forall|i: int| 0 <= i < faces@.len() ==> #[trigger] faces@[i] < centroids@.len(),
            min == lowest_of(centroids@, faces@.take(i as int)),
            max == highest_of(centroids@, faces@.take(i as int)),
        decreases faces@.len() - i,
    {
        let centroid = centroids[faces[i] as usize];
        min = min.min(&centroid);
        max = max.max(&centroid);
        assert(faces@.take(i + 1).drop_last() =~= faces@.take(i as int));
        i += 1;
    }
    assert(faces@.take(i as int) =~= faces@);
    (min, max)
}

/// The axis along which a box is largest; of equal ones the first.
pub open spec fn widest(extent: Point) -> int {
    if scalar::le(extent.y, extent.x) && scalar::le(extent.z, extent.x) {
        0
    } else if scalar::le(extent.z, extent.y) {
        1
    } else {
        2
    }
}

fn widest_axis(extent: Point) -> (result: usize)
    ensures
        result == widest(extent),
        result < 3,
{
    if scalar::is_at_most(extent.y, extent.x) && scalar::is_at_most(extent.z, extent.x) {
        0
    } else if scalar::is_at_most(extent.z, extent.y) {
        1
    } else {
        2
    }
}

/// A face's place among all faces ordered by their centroids' coordinates along an axis.
pub open spec fn centroid_rank(centroids: Seq<Point>, axis: usize, face: u32) -> int {
    scalar::total_rank(centroids[face as int].coordinate(axis as int))
}

fn centroid_precedes(centroids: &Vec<Point>, axis: usize, a: u32, b: u32) -> (result: bool)
    requires
        axis < 3,
        a < centroids@.len(),
        b < centroids@.len(),
    ensures
        result == (centroid_rank(centroids@, axis, a) < centroid_rank(centroids@, axis, b)),
{
    scalar::precedes(centroids[a as usize].axis(axis), centroids[b as usize].axis(axis))
}

/// How two faces compare by their centroids' coordinates along an axis.
fn centroid_order(centroids: &Vec<Point>, axis: usize, a: u32, b: u32) -> (result:
    std::cmp::Ordering)
    requires
        axis < 3,
        a < centroids@.len(),
        b < centroids@.len(),
    ensures
        result is Less <==> centroid_rank(centroids@, axis, a) < centroid_rank(
            centroids@,
            axis,
            b,
        ),
        result is Greater <==> centroid_rank(centroids@, axis, a) > centroid_rank(
            centroids@,
            axis,
            b,
        ),
{
    if centroid_precedes(centroids, axis, a, b) {
        std::cmp::Ordering::Less
    } else if centroid_precedes(centroids, axis, b, a) {
        std::cmp::Ordering::Greater
    } else {
        std::cmp::Ordering::Equal
    }
}

/// `select_nth_unstable_by` of a slice reorders the faces so that the one at `middle` is where
/// sorting by centroid would put it, with none greater before it and none smaller after it.
#[verifier::external_body]
fn select_middle(faces: &mut Vec<u32>, middle: usize, centroids: &Vec<Point>, axis: usize)
    requires
        middle < old(faces)@.len(),
        axis < 3,
        forall|i: int| 0 <= i < old(faces)@.len() ==> #[trigger] old(faces)@[i] < centroids@.len(),
    ensures
        rearranged(final(faces)@, old(faces)@),
        forall|i: int, j: int|
            0 <= i <= middle <= j < final(faces)@.len() && (i == middle || j == middle)
                ==> centroid_rank(centroids@, axis, #[trigger] final(faces)@[i]) <= centroid_rank(
                centroids@,
                axis,
                #[trigger] final(faces)@[j],
            ),
{
    faces.select_nth_unstable_by(middle, |a, b| centroid_order(centroids, axis, *a, *b));
}

/// What lies below a node does not change when nodes and leaves are added after it.
proof fn lemma_extended(
    nodes: Seq<BvhNode>,
    leaves: Seq<Vec<u32>>,
    more_nodes: Seq<BvhNode>,
    more_leaves: Seq<Vec<u32>>,
    start: int,
    i: int,
)
    requires
        0 <= start <= i < nodes.len() <= more_nodes.len(),
        leaves.len() <= more_leaves.len(),
        formed(nodes, leaves, start),
        forall|j: int| start <= j < nodes.len() ==> more_nodes[j] == #[trigger] nodes[j],
        forall|l: int| 0 <= l < leaves.len() ==> more_leaves[l] == #[trigger] leaves[l],
    ensures
        node_formed(more_nodes, more_leaves, i),
        forall|positions: Seq<Point>, triangles: Seq<[u32; 3]>|
            node_tight(more_nodes, more_leaves, positions, triangles, i) == #[trigger] node_tight(
                nodes,
                leaves,
                positions,
                triangles,
                i,
            ),
        faces_under(more_nodes, more_leaves, i) == faces_under(nodes, leaves, i),
    decreases nodes.len() - i,
{
    assert(node_formed(nodes, leaves, i));
    assert(more_nodes[i] == nodes[i]);
    let node = nodes[i];
    if node.spec_is_leaf() {
        assert(more_leaves[node.leaf as int] == leaves[node.leaf as int]);
    } else {
        assert(more_nodes[node.left as int] == nodes[node.left as int]);
        assert(more_nodes[node.right as int] == nodes[node.right as int]);
        lemma_extended(nodes, leaves, more_nodes, more_leaves, start, node.left as int);
        lemma_extended(nodes, leaves, more_nodes, more_leaves, start, node.right as int);
    }
}

/// Where a face is found from its index.
pub open spec fn found_at(bvh: MeshBvh, face: u32, start: int) -> bool {
    let leaf = bvh.triangle_leaves@[face as int] as int;
    &&& start <= leaf < bvh.nodes@.len()
    &&& bvh.nodes@[leaf].spec_is_leaf()
    &&& bvh.leaf_faces@[bvh.nodes@[leaf].leaf as int]@.contains(face)
}

/// Every leaf from `start` on holds some of the given faces, and is where these are found.
pub open spec fn leaves_own(bvh: MeshBvh, start: int, faces: Seq<u32>) -> bool {
    forall|i: int, k: int|
        start <= i < bvh.nodes@.len() && bvh.nodes@[i].spec_is_leaf() && 0 <= k
            < bvh.leaf_faces@[bvh.nodes@[i].leaf as int]@.len() ==> {
            let face = #[trigger] bvh.leaf_faces@[bvh.nodes@[i].leaf as int]@[k];
            &&& faces.contains(face)
            &&& face < bvh.triangle_leaves@.len()
            &&& bvh.triangle_leaves@[face as int] == i
        }
}

impl MeshBvh {
    fn allocate_node(&mut self) -> (result: u32)
        requires
            old(self).nodes@.len() < u32::MAX,
        ensures
            result == old(self).nodes@.len(),
            final(self).nodes@.len() == old(self).nodes@.len() + 1,
            final(self).nodes@.drop_last() == old(self).nodes@,
            final(self).leaf_faces == old(self).leaf_faces,
            final(self).triangle_leaves == old(self).triangle_leaves,
            final(self).root == old(self).root,
    {
        let node = self.nodes.len() as u32;
        self.nodes.push(BvhNode::default());
        assert(self.nodes@.drop_last() =~= old(self).nodes@);
        node
    }

    fn allocate_leaf(&mut self, faces: Vec<u32>) -> (result: u32)
        requires
            old(self).leaf_faces@.len() < u32::MAX,
        ensures
            result == old(self).leaf_faces@.len(),
            final(self).leaf_faces@ == old(self).leaf_faces@.push(faces),
            final(self).nodes == old(self).nodes,
            final(self).triangle_leaves == old(self).triangle_leaves,
            final(self).root == old(self).root,
    {
        let leaf = self.leaf_faces.len() as u32;
        self.leaf_faces.push(faces);
        leaf
    }

    /// Makes a leaf of a few faces, in the place of a node that has been allocated.
    fn build_leaf(
        &mut self,
        positions: &Vec<Point>,
        triangles: &Vec<[u32; 3]>,
        faces: Vec<u32>,
        parent: u32,
    ) -> (result: u32)
        requires
            indexed(triangles@, positions@.len()),
            triangles@.len() <= u32::MAX,
            0 < faces@.len() <= BVH_LEAF_SIZE,
            faces@.no_duplicates(),
            forall|i: int| 0 <= i < faces@.len() ==> #[trigger] faces@[i] < triangles@.len(),
            old(self).nodes@.len() < u32::MAX,
            old(self).leaf_faces@.len() < u32::MAX,
            old(self).triangle_leaves@.len() == triangles@.len(),
        ensures
            subtree_added(*old(self), *final(self), positions@, triangles@, faces@, parent),
            result == old(self).nodes@.len(),
            final(self).nodes@.len() == old(self).nodes@.len() + 1,
            final(self).leaf_faces@.len() == old(self).leaf_faces@.len() + 1,
    {
        let ghost start = self.nodes@.len() as int;
        let node_index = self.allocate_node();
        let ghost listed = faces@;
        let (min, max) = triangle_range_bounds(positions, triangles, &faces);
        let mut k: usize = 0;
        while k < faces.len()
            invariant
                k <= faces@.len(),
                start == node_index,
                faces@ == listed,
                self.nodes@.len() == start + 1,
                self.nodes@.drop_last() == old(self).nodes@,
                self.leaf_faces == old(self).leaf_faces,
                self.root == old(self).root,
                self.triangle_leaves@.len() == triangles@.len(),
                forall|i: int| 0 <= i < faces@.len() ==> #[trigger] faces@[i] < triangles@.len(),
                forall|i: int|
                    0 <= i < k ==> self.triangle_leaves@[#[trigger] faces@[i] as int] == node_index,
                forall|f: u32|
                    f < triangles@.len() && !faces@.contains(f)
                        ==> #[trigger] self.triangle_leaves@[f as int] == old(
                        self).triangle_leaves@[f as int],
            decreases faces@.len() - k,
        {
            assert(faces@.contains(faces@[k as int]));
            self.triangle_leaves.set(faces[k] as usize, node_index);
            k += 1;
        }
        let leaf = self.allocate_leaf(faces);
        self.nodes.set(
            node_index as usize,
            BvhNode { min, max, parent, left: NONE, right: NONE, leaf, height: 0 },
        );
        proof {
            let node = self.nodes@[start];
            assert(node.spec_is_leaf());
            assert(self.leaf_faces@[leaf as int]@ == listed);
            assert(node_formed(self.nodes@, self.leaf_faces@, start));
            box_corners_are_numbers(positions@, triangles@, listed);
            assert(node_tight(self.nodes@, self.leaf_faces@, positions@, triangles@, start));
            assert forall|f: u32| listed.contains(f) implies #[trigger] found_at(*self, f, start) by {
                let k = choose|k: int| 0 <= k < listed.len() && listed[k] == f;
                assert(self.triangle_leaves@[listed[k] as int] == start);
            }
        }
        node_index
    }

    /// Builds the subtree over some faces, and returns its root: a leaf where the faces are few,
    /// else a node over two halves that are split where their centroids spread the most.
    fn build_node<G: Geometry>(
        &mut self,
        positions: &Vec<Point>,
        triangles: &Vec<[u32; 3]>,
        centroids: &Vec<Point>,
        faces: Vec<u32>,
        parent: u32,
        geometry: &G,
    ) -> (result: u32)
        requires
            geometry.total(),
            indexed(triangles@, positions@.len()),
            centroids@.len() == triangles@.len() <= u32::MAX,
            0 < faces@.len(),
            faces@.no_duplicates(),
            forall|i: int| 0 <= i < faces@.len() ==> #[trigger] faces@[i] < triangles@.len(),
            old(self).nodes@.len() + faces@.len() <= u32::MAX,
            old(self).leaf_faces@.len() + faces@.len() <= u32::MAX,
            old(self).triangle_leaves@.len() == triangles@.len(),
        ensures
            subtree_added(*old(self), *final(self), positions@, triangles@, faces@, parent),
            halved(
                geometry,
                final(self).nodes@,
                final(self).leaf_faces@,
                centroids@,
                old(self).nodes@.len() as int,
            ),
            result == old(self).nodes@.len(),
            faces@.len() <= BVH_LEAF_SIZE ==> final(self).nodes@.len() == old(self).nodes@.len() + 1
                && final(self).leaf_faces@.len() == old(self).leaf_faces@.len() + 1,
            faces@.len() >= 4 ==> final(self).nodes@.len() + 1 <= old(self).nodes@.len()
                + faces@.len() / 2 && final(self).leaf_faces@.len() + 1 <= old(
                self).leaf_faces@.len() + faces@.len() / 2,
        decreases faces@.len(),
    {
        if faces.len() <= BVH_LEAF_SIZE {
            let ghost listed = faces@;
            let leaf = self.build_leaf(positions, triangles, faces, parent);
            proof {
                let start = old(self).nodes@.len() as int;
                crate::collections::same_multiset_same_items(
                    faces_under(self.nodes@, self.leaf_faces@, start),
                    listed,
                );
                assert(node_formed(self.nodes@, self.leaf_faces@, start));
                assert(node_halved(geometry, self.nodes@, self.leaf_faces@, centroids@, start));
            }
            return leaf;
        }
        let ghost start = self.nodes@.len() as int;
        let ghost all = faces@;
        let node_index = self.allocate_node();
        let (centroid_min, centroid_max) = centroid_range_bounds(centroids, &faces);
        let axis = widest_axis(geometry.extent(centroid_min, centroid_max));
        let middle = faces.len() / 2;
        let mut left_faces = faces;
        select_middle(&mut left_faces, middle, centroids, axis);
        let ghost moved = left_faces@;
        proof {
            crate::collections::same_multiset_same_items(moved, all);
        }
        let right_faces = left_faces.split_off(middle);
        proof {
            lemma_split(all, moved, middle as int);
            assert forall|i: int| 0 <= i < left_faces@.len() implies #[trigger] left_faces@[i]
                < triangles@.len() by {
                assert(left_faces@.contains(left_faces@[i]));
                assert(all.contains(left_faces@[i]));
                let j = choose|j: int| 0 <= j < all.len() && all[j] == left_faces@[i];
                assert(all[j] < triangles@.len());
            }
            assert forall|i: int| 0 <= i < right_faces@.len() implies #[trigger] right_faces@[i]
                < triangles@.len() by {
                assert(right_faces@.contains(right_faces@[i]));
                assert(all.contains(right_faces@[i]));
                let j = choose|j: int| 0 <= j < all.len() && all[j] == right_faces@[i];
                assert(all[j] < triangles@.len());
            }
        }
        let ghost low = left_faces@;
        let ghost high = right_faces@;
        proof {
            lemma_parted(geometry, centroids@, all, moved, middle as int);
        }
        let ghost placed = *self;
        let left = self.build_node(positions, triangles, centroids, left_faces, node_index, geometry);
        let ghost half = *self;
        let right = self.build_node(
            positions,
            triangles,
            centroids,
            right_faces,
            node_index,
            geometry,
        );
        let ghost whole = *self;
        let left_node = self.nodes[left as usize];
        let right_node = self.nodes[right as usize];
        let height = if left_node.height >= right_node.height {
            left_node.height
        } else {
            right_node.height
        };
        proof {
            assert(half.nodes@[left as int] == whole.nodes@[left as int]);
            assert(height < low.len() || height <= high.len() / 2);
        }
        self.nodes.set(
            node_index as usize,
            BvhNode {
                min: left_node.min.min(&right_node.min),
                max: left_node.max.max(&right_node.max),
                parent,
                left,
                right,
                leaf: NONE,
                height: 1 + height,
            },
        );
        proof {
            lemma_joined(
                *old(self),
                placed,
                half,
                whole,
                *self,
                positions@,
                triangles@,
                low,
                high,
                all,
                parent,
            );
            lemma_halves_joined(
                geometry,
                placed,
                half,
                whole,
                *self,
                positions@,
                triangles@,
                centroids@,
                low,
                high,
                all,
                start,
            );
        }
        node_index
    }
}

/// The centroids of all faces.
pub open spec fn centroids_of<G: Geometry>(
    geometry: &G,
    positions: Seq<Point>,
    triangles: Seq<[u32; 3]>,
) -> Seq<Point> {
    Seq::new(
        triangles.len(),
        |f: int|
            geometry.spec_centroid(
                corner(positions, triangles, f as u32, 0),
                corner(positions, triangles, f as u32, 1),
                corner(positions, triangles, f as u32, 2),
            ),
    )
}

/// The axis along which the centroids of some faces spread the most.
pub open spec fn spread_axis<G: Geometry>(
    geometry: &G,
    centroids: Seq<Point>,
    faces: Seq<u32>,
) -> usize {
    widest(
        geometry.spec_extent(lowest_of(centroids, faces), highest_of(centroids, faces)),
    ) as usize
}

/// Whether some faces were parted in the middle: half of them, those that come first along the
/// axis on which their centroids spread the most, are in `low`, and the others in `high`.
pub open spec fn parted<G: Geometry>(
    geometry: &G,
    centroids: Seq<Point>,
    faces: Seq<u32>,
    low: Seq<u32>,
    high: Seq<u32>,
) -> bool {
    &&& rearranged(low + high, faces)
    &&& low.len() == faces.len() / 2
    &&& forall|f: u32, g: u32| #[trigger]
        low.contains(f) && #[trigger] high.contains(g) ==> centroid_rank(
            centroids,
            spread_axis(geometry, centroids, faces),
            f,
        ) <= centroid_rank(centroids, spread_axis(geometry, centroids, faces), g)
}

/// Whether a node is a leaf with a few faces, or parts more faces than a leaf holds. The order in
/// which these were listed is not told.
pub open spec fn node_halved<G: Geometry>(
    geometry: &G,
    nodes: Seq<BvhNode>,
    leaves: Seq<Vec<u32>>,
    centroids: Seq<Point>,
    i: int,
) -> bool {
    let node = nodes[i];
    if node.spec_is_leaf() {
        0 < leaves[node.leaf as int]@.len() <= BVH_LEAF_SIZE
    } else {
        exists|listed: Seq<u32>|
            listed.len() > BVH_LEAF_SIZE && #[trigger] parted(
                geometry,
                centroids,
                listed,
                faces_under(nodes, leaves, node.left as int),
                faces_under(nodes, leaves, node.right as int),
            )
    }
}

pub open spec fn halved<G: Geometry>(
    geometry: &G,
    nodes: Seq<BvhNode>,
    leaves: Seq<Vec<u32>>,
    centroids: Seq<Point>,
    start: int,
) -> bool {
    forall|i: int|
        start <= i < nodes.len() ==> #[trigger] node_halved(geometry, nodes, leaves, centroids, i)
}

/// Cutting a list in the middle parts its faces, where none before the middle is greater than the
/// one there, and none after it smaller.
proof fn lemma_parted<G: Geometry>(
    geometry: &G,
    centroids: Seq<Point>,
    faces: Seq<u32>,
    moved: Seq<u32>,
    middle: int,
)
    requires
        rearranged(moved, faces),
        middle == faces.len() / 2 < moved.len(),
        ({
            let axis = spread_axis(geometry, centroids, faces);
            forall|i: int, j: int|
                0 <= i <= middle <= j < moved.len() && (i == middle || j == middle)
                    ==> centroid_rank(centroids, axis, #[trigger] moved[i]) <= centroid_rank(
                    centroids,
                    axis,
                    #[trigger] moved[j],
                )
        }),
    ensures
        parted(
            geometry,
            centroids,
            faces,
            moved.subrange(0, middle),
            moved.subrange(middle, moved.len() as int),
        ),
{
    let axis = spread_axis(geometry, centroids, faces);
    let low = moved.subrange(0, middle);
    let high = moved.subrange(middle, moved.len() as int);
    assert(low + high =~= moved);
    assert forall|f: u32, g: u32| #[trigger]
        low.contains(f) && #[trigger] high.contains(g) implies centroid_rank(centroids, axis, f)
        <= centroid_rank(centroids, axis, g) by {
        let i = choose|i: int| 0 <= i < low.len() && low[i] == f;
        let j = choose|j: int| 0 <= j < high.len() && high[j] == g;
        assert(moved[i] == f && moved[j + middle] == g);
        assert(centroid_rank(centroids, axis, moved[i]) <= centroid_rank(
            centroids,
            axis,
            moved[middle],
        ));
        assert(centroid_rank(centroids, axis, moved[middle]) <= centroid_rank(
            centroids,
            axis,
            moved[j + middle],
        ));
    }
}

/// How a node parts its faces does not change when nodes and leaves are added after it.
proof fn lemma_halved_extended<G: Geometry>(
    geometry: &G,
    nodes: Seq<BvhNode>,
    leaves: Seq<Vec<u32>>,
    more_nodes: Seq<BvhNode>,
    more_leaves: Seq<Vec<u32>>,
    centroids: Seq<Point>,
    start: int,
    i: int,
)
    requires
        0 <= start <= i < nodes.len() <= more_nodes.len(),
        leaves.len() <= more_leaves.len(),
        formed(nodes, leaves, start),
        forall|j: int| start <= j < nodes.len() ==> more_nodes[j] == #[trigger] nodes[j],
        forall|l: int| 0 <= l < leaves.len() ==> more_leaves[l] == #[trigger] leaves[l],
        node_halved(geometry, nodes, leaves, centroids, i),
    ensures
        node_halved(geometry, more_nodes, more_leaves, centroids, i),
{
    assert(node_formed(nodes, leaves, i));
    assert(more_nodes[i] == nodes[i]);
    let node = nodes[i];
    if node.spec_is_leaf() {
        assert(more_leaves[node.leaf as int] == leaves[node.leaf as int]);
    } else {
        lemma_extended(nodes, leaves, more_nodes, more_leaves, start, node.left as int);
        lemma_extended(nodes, leaves, more_nodes, more_leaves, start, node.right as int);
    }
}

/// A node over two subtrees, between which its faces are parted, makes one subtree of them.
#[verifier::spinoff_prover]
proof fn lemma_halves_joined<G: Geometry>(
    geometry: &G,
    placed: MeshBvh,
    half: MeshBvh,
    whole: MeshBvh,
    joined: MeshBvh,
    positions: Seq<Point>,
    triangles: Seq<[u32; 3]>,
    centroids: Seq<Point>,
    low: Seq<u32>,
    high: Seq<u32>,
    all: Seq<u32>,
    start: int,
)
    requires
        placed.nodes@.len() == start + 1,
        0 <= start < u32::MAX,
        subtree_added(placed, half, positions, triangles, low, start as u32),
        subtree_added(half, whole, positions, triangles, high, start as u32),
        halved(geometry, half.nodes@, half.leaf_faces@, centroids, start + 1),
        halved(geometry, whole.nodes@, whole.leaf_faces@, centroids, half.nodes@.len() as int),
        all.len() > BVH_LEAF_SIZE,
        parted(geometry, centroids, all, low, high),
        joined.leaf_faces == whole.leaf_faces,
        joined.nodes@ == whole.nodes@.update(start, joined.nodes@[start]),
        !joined.nodes@[start].spec_is_leaf(),
        joined.nodes@[start].left == start + 1,
        joined.nodes@[start].right == half.nodes@.len(),
    ensures
        halved(geometry, joined.nodes@, joined.leaf_faces@, centroids, start),
{
    let split = half.nodes@.len() as int;
    let nodes = joined.nodes@;
    let leaves = joined.leaf_faces@;
    assert forall|i: int| start + 1 <= i < split implies nodes[i] == #[trigger] half.nodes@[i] by {
        assert(whole.nodes@[i] == half.nodes@[i]);
    }
    assert forall|i: int| start + 1 <= i < nodes.len() implies #[trigger] node_halved(
        geometry,
        nodes,
        leaves,
        centroids,
        i,
    ) by {
        if i < split {
            assert(node_halved(geometry, half.nodes@, half.leaf_faces@, centroids, i));
            lemma_halved_extended(
                geometry,
                half.nodes@,
                half.leaf_faces@,
                nodes,
                leaves,
                centroids,
                start + 1,
                i,
            );
        } else {
            assert(node_halved(geometry, whole.nodes@, whole.leaf_faces@, centroids, i));
            lemma_halved_extended(
                geometry,
                whole.nodes@,
                whole.leaf_faces@,
                nodes,
                leaves,
                centroids,
                split,
                i,
            );
        }
    }
    lemma_extended(half.nodes@, half.leaf_faces@, nodes, leaves, start + 1, start + 1);
    lemma_extended(whole.nodes@, whole.leaf_faces@, nodes, leaves, split, split);
    let left = faces_under(nodes, leaves, start + 1);
    let right = faces_under(nodes, leaves, split);
    assert(rearranged(left, low));
    assert(rearranged(right, high));
    crate::collections::same_multiset_same_items(left, low);
    crate::collections::same_multiset_same_items(right, high);
    vstd::seq_lib::lemma_multiset_commutative(left, right);
    vstd::seq_lib::lemma_multiset_commutative(low, high);
    assert(parted(geometry, centroids, all, left, right));
    assert(node_halved(geometry, nodes, leaves, centroids, start));
}

/// A node over two subtrees that were built one after the other makes one subtree of them.
#[verifier::spinoff_prover]
proof fn lemma_joined(
    before: MeshBvh,
    placed: MeshBvh,
    half: MeshBvh,
    whole: MeshBvh,
    joined: MeshBvh,
    positions: Seq<Point>,
    triangles: Seq<[u32; 3]>,
    low: Seq<u32>,
    high: Seq<u32>,
    all: Seq<u32>,
    parent: u32,
)
    requires
        placed.nodes@.len() == before.nodes@.len() + 1,
        placed.nodes@.drop_last() == before.nodes@,
        placed.leaf_faces == before.leaf_faces,
        placed.triangle_leaves == before.triangle_leaves,
        placed.root == before.root,
        before.nodes@.len() < u32::MAX,
        subtree_added(placed, half, positions, triangles, low, before.nodes@.len() as u32),
        subtree_added(half, whole, positions, triangles, high, before.nodes@.len() as u32),
        forall|f: u32| all.contains(f) <==> low.contains(f) || high.contains(f),
        forall|f: u32| !(low.contains(f) && high.contains(f)),
        forall|f: u32| all.contains(f) ==> f < before.triangle_leaves@.len(),
        forall|l: Seq<u32>, r: Seq<u32>|
            rearranged(l, low) && rearranged(r, high) ==> rearranged(#[trigger] (l + r), all),
        low.len() + high.len() == all.len(),
        low.len() >= 4,
        high.len() >= 4,
        whole.nodes@.len() <= u32::MAX,
        joined.root == whole.root,
        joined.leaf_faces == whole.leaf_faces,
        joined.triangle_leaves == whole.triangle_leaves,
        ({
            let start = before.nodes@.len() as int;
            let left = whole.nodes@[start + 1];
            let right = whole.nodes@[half.nodes@.len() as int];
            let node = joined.nodes@[start];
            &&& joined.nodes@ == whole.nodes@.update(start, node)
            &&& node.parent == parent
            &&& node.left == start + 1
            &&& node.right == half.nodes@.len()
            &&& node.leaf == NONE
            &&& node.height == 1 + if left.height >= right.height {
                left.height
            } else {
                right.height
            }
            &&& node.min == left.min.least(right.min)
            &&& node.max == left.max.greatest(right.max)
        }),
    ensures
        subtree_added(before, joined, positions, triangles, all, parent),
{
    let start = before.nodes@.len() as int;
    let split = half.nodes@.len() as int;
    let nodes = joined.nodes@;
    let leaves = joined.leaf_faces@;
    assert forall|i: int| 0 <= i < start implies #[trigger] nodes[i] == before.nodes@[i] by {
        assert(whole.nodes@[i] == half.nodes@[i]);
        assert(half.nodes@[i] == placed.nodes@[i]);
        assert(placed.nodes@.drop_last()[i] == before.nodes@[i]);
    }
    assert forall|l: int| 0 <= l < before.leaf_faces@.len() implies #[trigger] leaves[l]
        == before.leaf_faces@[l] by {
        assert(half.leaf_faces@[l] == placed.leaf_faces@[l]);
    }
    assert forall|i: int| start + 1 <= i < split implies nodes[i] == #[trigger] half.nodes@[i] by {
        assert(whole.nodes@[i] == half.nodes@[i]);
    }
    assert(whole.nodes@[start + 1] == half.nodes@[start + 1]);
    assert forall|i: int| start + 1 <= i < nodes.len() implies #[trigger] node_formed(
        nodes,
        leaves,
        i,
    ) && node_tight(nodes, leaves, positions, triangles, i) && nodes[i].height >= 0 by {
        if i < split {
            lemma_extended(half.nodes@, half.leaf_faces@, nodes, leaves, start + 1, i);
            assert(node_formed(half.nodes@, half.leaf_faces@, i));
            assert(node_tight(half.nodes@, half.leaf_faces@, positions, triangles, i));
        } else {
            lemma_extended(whole.nodes@, whole.leaf_faces@, nodes, leaves, split, i);
            assert(node_formed(whole.nodes@, whole.leaf_faces@, i));
            assert(node_tight(whole.nodes@, whole.leaf_faces@, positions, triangles, i));
        }
    }
    assert(node_formed(half.nodes@, half.leaf_faces@, start + 1));
    assert(node_formed(whole.nodes@, whole.leaf_faces@, split));
    assert(node_formed(nodes, leaves, start));
    assert(nodes[start + 1].min.number() && nodes[start + 1].max.number()) by {
        assert(node_formed(nodes, leaves, start + 1));
    }
    assert(node_tight(nodes, leaves, positions, triangles, start));
    assert forall|i: int| start <= i < nodes.len() implies #[trigger] node_tight(
        nodes,
        leaves,
        positions,
        triangles,
        i,
    ) by {
        assert(node_formed(nodes, leaves, i));
    }
    lemma_extended(half.nodes@, half.leaf_faces@, nodes, leaves, start + 1, start + 1);
    lemma_extended(whole.nodes@, whole.leaf_faces@, nodes, leaves, split, split);
    assert(faces_under(nodes, leaves, start) == faces_under(nodes, leaves, start + 1)
        + faces_under(nodes, leaves, split));
    assert forall|f: u32| all.contains(f) implies #[trigger] found_at(joined, f, start) by {
        if low.contains(f) {
            assert(found_at(half, f, start + 1));
            let leaf = half.triangle_leaves@[f as int] as int;
            assert(node_formed(half.nodes@, half.leaf_faces@, leaf));
            assert(whole.triangle_leaves@[f as int] == half.triangle_leaves@[f as int]);
        } else {
            assert(found_at(whole, f, split));
        }
    }
    assert forall|f: u32|
        f < before.triangle_leaves@.len() && !all.contains(
            f,
        ) implies #[trigger] joined.triangle_leaves@[f as int]
        == before.triangle_leaves@[f as int] by {
        assert(whole.triangle_leaves@[f as int] == half.triangle_leaves@[f as int]);
        assert(half.triangle_leaves@[f as int] == placed.triangle_leaves@[f as int]);
    }
    assert forall|i: int, k: int|
        start <= i < nodes.len() && nodes[i].spec_is_leaf() && 0 <= k
            < leaves[nodes[i].leaf as int]@.len() implies {
        let face = #[trigger] leaves[nodes[i].leaf as int]@[k];
        &&& all.contains(face)
        &&& face < joined.triangle_leaves@.len()
        &&& joined.triangle_leaves@[face as int] == i
    } by {
        let face = leaves[nodes[i].leaf as int]@[k];
        if i < split {
            assert(nodes[i] == half.nodes@[i]);
            assert(node_formed(half.nodes@, half.leaf_faces@, i));
            assert(half.leaf_faces@[nodes[i].leaf as int]@[k] == face);
            assert(low.contains(face));
            assert(whole.triangle_leaves@[face as int] == half.triangle_leaves@[face as int]);
        } else {
            assert(whole.leaf_faces@[whole.nodes@[i].leaf as int]@[k] == face);
        }
    }
    assert forall|i: int| start < i < nodes.len() implies #[trigger] hangs(nodes, start, i) by {
        if start + 1 < i < split {
            assert(hangs(half.nodes@, start + 1, i));
        } else if split < i {
            assert(hangs(whole.nodes@, split, i));
        }
    }
    let left_faces = faces_under(nodes, leaves, start + 1);
    let right_faces = faces_under(nodes, leaves, split);
    assert(rearranged(left_faces, low));
    assert(rearranged(right_faces, high));
    assert(rearranged(left_faces + right_faces, all));
    assert(formed(nodes, leaves, start)) by {
        assert forall|i: int| start <= i < nodes.len() implies #[trigger] node_formed(
            nodes,
            leaves,
            i,
        ) && nodes[i].height >= 0 by {
            if i == start {
                assert(node_formed(nodes, leaves, start));
                assert(nodes[start].height >= 1);
            } else {
                assert(node_formed(nodes, leaves, i));
            }
        }
    }
    assert(tight(nodes, leaves, positions, triangles, start));
    assert(leaves_own(joined, start, all));
}

/// What building a subtree over some faces adds to a tree, and what it leaves as it was.
pub open spec fn subtree_added(
    before: MeshBvh,
    after: MeshBvh,
    positions: Seq<Point>,
    triangles: Seq<[u32; 3]>,
    faces: Seq<u32>,
    parent: u32,
) -> bool {
    let start = before.nodes@.len() as int;
    &&& after.root == before.root
    &&& after.nodes@.len() > start
    &&& forall|i: int| 0 <= i < start ==> #[trigger] after.nodes@[i] == before.nodes@[i]
    &&& after.leaf_faces@.len() >= before.leaf_faces@.len()
    &&& forall|l: int|
        0 <= l < before.leaf_faces@.len() ==> #[trigger] after.leaf_faces@[l]
            == before.leaf_faces@[l]
    &&& after.triangle_leaves@.len() == before.triangle_leaves@.len()
    &&& formed(after.nodes@, after.leaf_faces@, start)
    &&& tight(after.nodes@, after.leaf_faces@, positions, triangles, start)
    &&& after.nodes@[start].parent == parent
    &&& after.nodes@[start].height <= faces.len() / 2
    &&& rearranged(faces_under(after.nodes@, after.leaf_faces@, start), faces)
    &&& forall|f: u32| faces.contains(f) ==> #[trigger] found_at(after, f, start)
    &&& forall|f: u32|
        f < before.triangle_leaves@.len() && !faces.contains(f)
            ==> #[trigger] after.triangle_leaves@[f as int] == before.triangle_leaves@[f as int]
    &&& leaves_own(after, start, faces)
    &&& forall|i: int|
        start < i < after.nodes@.len() ==> #[trigger] hangs(after.nodes@, start, i)
}

/// Whether a node is a child of its parent, which comes before it.
pub open spec fn hangs(nodes: Seq<BvhNode>, start: int, i: int) -> bool {
    let parent = nodes[i].parent as int;
    &&& start <= parent < i
    &&& !nodes[parent].spec_is_leaf()
    &&& nodes[parent].left == i || nodes[parent].right == i
}

/// Splitting a rearranged list of distinct faces gives two lists of distinct faces that share none.
proof fn lemma_split(faces: Seq<u32>, moved: Seq<u32>, middle: int)
    requires
        rearranged(moved, faces),
        faces.no_duplicates(),
        0 <= middle <= moved.len(),
    ensures
        moved.len() == faces.len(),
        moved.subrange(0, middle).no_duplicates(),
        moved.subrange(middle, moved.len() as int).no_duplicates(),
        forall|f: u32|
            faces.contains(f) <==> moved.subrange(0, middle).contains(f) || moved.subrange(
                middle,
                moved.len() as int,
            ).contains(f),
        forall|f: u32|
            !(moved.subrange(0, middle).contains(f) && moved.subrange(
                middle,
                moved.len() as int,
            ).contains(f)),
        forall|l: Seq<u32>, r: Seq<u32>|
            rearranged(l, moved.subrange(0, middle)) && rearranged(
                r,
                moved.subrange(middle, moved.len() as int),
            ) ==> rearranged(#[trigger] (l + r), faces),
{
    crate::collections::same_multiset_same_items(moved, faces);
    faces.lemma_multiset_has_no_duplicates();
    moved.lemma_multiset_has_no_duplicates_conv();
    let low = moved.subrange(0, middle);
    let high = moved.subrange(middle, moved.len() as int);
    assert(moved =~= low + high);
    vstd::seq_lib::lemma_multiset_commutative(low, high);
    assert forall|f: u32| faces.contains(f) <==> low.contains(f) || high.contains(f) by {
        if moved.contains(f) {
            let i = choose|i: int| 0 <= i < moved.len() && moved[i] == f;
            if i < middle {
                assert(low[i] == f);
            } else {
                assert(high[i - middle] == f);
            }
        }
        if low.contains(f) {
            let i = choose|i: int| 0 <= i < low.len() && low[i] == f;
            assert(moved[i] == f);
        }
        if high.contains(f) {
            let i = choose|i: int| 0 <= i < high.len() && high[i] == f;
            assert(moved[i + middle] == f);
        }
    }
    assert forall|f: u32| !(low.contains(f) && high.contains(f)) by {
        if low.contains(f) && high.contains(f) {
            let i = choose|i: int| 0 <= i < low.len() && low[i] == f;
            let j = choose|j: int| 0 <= j < high.len() && high[j] == f;
            assert(moved[i] == moved[j + middle]);
        }
    }
    assert forall|l: Seq<u32>, r: Seq<u32>|
        rearranged(l, low) && rearranged(r, high) implies rearranged(#[trigger] (l + r), faces) by {
        vstd::seq_lib::lemma_multiset_commutative(l, r);
    }
}

impl MeshBvh {
    /// Whether the tree holds every one of `face_count` faces once, and finds each from its index.
    pub open spec fn holds(self, face_count: nat) -> bool {
        &&& self.triangle_leaves@.len() == face_count
        &&& face_count == 0 ==> self.root == NONE && self.nodes@.len() == 0
        &&& face_count > 0 ==> {
            &&& self.root == 0
            &&& 0 < self.nodes@.len() <= u32::MAX
            &&& self.nodes@[0].parent == NONE
            &&& numbered(self.nodes@)
            &&& formed(self.nodes@, self.leaf_faces@, 0)
            &&& forall|i: int| 0 < i < self.nodes@.len() ==> #[trigger] hangs(self.nodes@, 0, i)
            &&& faces_under(self.nodes@, self.leaf_faces@, 0).no_duplicates()
            &&& faces_under(self.nodes@, self.leaf_faces@, 0).len() == face_count
            &&& forall|f: u32|
                faces_under(self.nodes@, self.leaf_faces@, 0).contains(f) <==> f < face_count
            &&& forall|f: u32| f < face_count ==> #[trigger] found_at(self, f, 0)
            &&& leaves_own(self, 0, faces_under(self.nodes@, self.leaf_faces@, 0))
        }
    }

    /// Whether every box is exactly as large as what it is around.
    pub open spec fn fits(self, positions: Seq<Point>, triangles: Seq<[u32; 3]>) -> bool {
        tight(self.nodes@, self.leaf_faces@, positions, triangles, 0)
    }

    /// Whether every leaf has a few faces, and every other node parts its faces in the middle.
    pub open spec fn halves<G: Geometry>(
        self,
        geometry: &G,
        positions: Seq<Point>,
        triangles: Seq<[u32; 3]>,
    ) -> bool {
        halved(
            geometry,
            self.nodes@,
            self.leaf_faces@,
            centroids_of(geometry, positions, triangles),
            0,
        )
    }

    /// Builds the tree over the faces of a mesh.
    pub fn build<G: Geometry>(
        positions: &Vec<Point>,
        triangles: &Vec<[u32; 3]>,
        geometry: &G,
    ) -> (result: MeshBvh)
        requires
            geometry.total(),
            indexed(triangles@, positions@.len()),
            triangles@.len() <= u32::MAX,
        ensures
            result.holds(triangles@.len()),
            result.fits(positions@, triangles@),
            result.halves(geometry, positions@, triangles@),
    {
        if triangles.len() == 0 {
            return MeshBvh::default();
        }
        let count = triangles.len();
        let mut centroids: Vec<Point> = Vec::with_capacity(count);
        let mut faces: Vec<u32> = Vec::with_capacity(count);
        let mut i: usize = 0;
        while i < count
            invariant
                geometry.total(),
                indexed(triangles@, positions@.len()),
                i <= count == triangles@.len() <= u32::MAX,
                centroids@ == centroids_of(geometry, positions@, triangles@).take(i as int),
                faces@.len() == i,
                forall|k: int| 0 <= k < i ==> #[trigger] faces@[k] == k,
            decreases count - i,
        {
            let triangle = triangles[i];
            centroids.push(
                geometry.centroid(
                    positions[triangle[0] as usize],
                    positions[triangle[1] as usize],
                    positions[triangle[2] as usize],
                ),
            );
            faces.push(i as u32);
            i += 1;
            assert(centroids@ =~= centroids_of(geometry, positions@, triangles@).take(i as int));
        }
        assert(centroids@ =~= centroids_of(geometry, positions@, triangles@));
        let mut bvh = MeshBvh {
            root: NONE,
            nodes: Vec::new(),
            leaf_faces: Vec::new(),
            triangle_leaves: vec![NONE; count],
        };
        let ghost all = faces@;
        let root = bvh.build_node(positions, triangles, &centroids, faces, NONE, geometry);
        let ghost built = bvh;
        bvh.root = root;
        proof {
            let under = faces_under(bvh.nodes@, bvh.leaf_faces@, 0);
            crate::collections::same_multiset_same_items(under, all);
            assert(numbered(bvh.nodes@)) by {
                assert forall|i: int| 0 <= i < bvh.nodes@.len() implies (
                #[trigger] bvh.nodes@[i]).min.number() && bvh.nodes@[i].max.number() by {
                    assert(node_tight(bvh.nodes@, bvh.leaf_faces@, positions@, triangles@, i));
                }
            }
            assert(all.no_duplicates());
            all.lemma_multiset_has_no_duplicates();
            under.lemma_multiset_has_no_duplicates_conv();
            assert forall|f: u32| all.contains(f) <==> f < count by {
                if f < count {
                    assert(all[f as int] == f);
                }
            }
            assert forall|f: u32| f < count implies #[trigger] found_at(bvh, f, 0) by {
                assert(all.contains(f));
                assert(found_at(built, f, 0));
            }
            assert forall|i: int, k: int|
                0 <= i < bvh.nodes@.len() && bvh.nodes@[i].spec_is_leaf() && 0 <= k
                    < bvh.leaf_faces@[bvh.nodes@[i].leaf as int]@.len() implies {
                let face = #[trigger] bvh.leaf_faces@[bvh.nodes@[i].leaf as int]@[k];
                &&& under.contains(face)
                &&& face < bvh.triangle_leaves@.len()
                &&& bvh.triangle_leaves@[face as int] == i
            } by {
                assert(all.contains(bvh.leaf_faces@[bvh.nodes@[i].leaf as int]@[k]));
            }
        }
        bvh
    }
}

impl Default for MeshBvh {
    fn default() -> (result: MeshBvh)
        ensures
            result.root == NONE,
            result.nodes@.len() == 0,
            result.leaf_faces@.len() == 0,
            result.triangle_leaves@.len() == 0,
    {
        MeshBvh {
            root: NONE,
            nodes: Vec::new(),
            leaf_faces: Vec::new(),
            triangle_leaves: Vec::new(),
        }
    }
}

} // verus!
