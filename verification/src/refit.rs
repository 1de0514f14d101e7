//! Keeping the boxes of a tree exact while the faces below them move.
use crate::bvh;
use crate::bvh::{BvhNode, MeshBvh, NONE};
use crate::collections;
use crate::collections::IndexSet;
use crate::geometry::Geometry;
use crate::scalar::Point;
use vstd::prelude::*;

verus! {

/// Whether two lists of nodes differ in nothing but their boxes.
pub open spec fn same_shape(a: Seq<BvhNode>, b: Seq<BvhNode>) -> bool {
    &&& a.len() == b.len()
    &&& forall|i: int|
        0 <= i < a.len() ==> {
            &&& (#[trigger] a[i]).parent == b[i].parent
            &&& a[i].left == b[i].left
            &&& a[i].right == b[i].right
            &&& a[i].leaf == b[i].leaf
            &&& a[i].height == b[i].height
        }
}

/// Whether two trees differ in nothing but their boxes.
pub open spec fn same_tree(a: MeshBvh, b: MeshBvh) -> bool {
    &&& a.root == b.root
    &&& same_shape(a.nodes@, b.nodes@)
    &&& a.leaf_faces == b.leaf_faces
    &&& a.triangle_leaves == b.triangle_leaves
}

proof fn lemma_same_faces(a: Seq<BvhNode>, b: Seq<BvhNode>, leaves: Seq<Vec<u32>>, i: int)
    requires
        same_shape(a, b),
    ensures
        bvh::faces_under(a, leaves, i) == bvh::faces_under(b, leaves, i),
    decreases a.len() - i,
{
    if 0 <= i < a.len() {
        assert(a[i].left == b[i].left);
        if !a[i].spec_is_leaf() && i < a[i].left < a.len() && i < a[i].right < a.len() {
            lemma_same_faces(a, b, leaves, a[i].left as int);
            lemma_same_faces(a, b, leaves, a[i].right as int);
        }
    }
}

/// What a tree holds does not depend on its boxes, so long as they are boxes.
pub proof fn boxes_do_not_matter_to_holding(a: MeshBvh, b: MeshBvh, face_count: nat)
    requires
        same_tree(a, b),
        a.holds(face_count),
        bvh::numbered(b.nodes@),
    ensures
        b.holds(face_count),
{
    if face_count > 0 {
        lemma_same_faces(a.nodes@, b.nodes@, a.leaf_faces@, 0);
        lemma_same_form(a, b);
        assert forall|i: int| 0 < i < b.nodes@.len() implies #[trigger] bvh::hangs(
            b.nodes@,
            0,
            i,
        ) by {
            assert(bvh::hangs(a.nodes@, 0, i));
            assert(a.nodes@[i].parent == b.nodes@[i].parent);
            assert(a.nodes@[a.nodes@[i].parent as int].left
                == b.nodes@[a.nodes@[i].parent as int].left);
        }
        assert forall|f: u32| f < face_count implies #[trigger] bvh::found_at(b, f, 0) by {
            assert(bvh::found_at(a, f, 0));
            let leaf = a.triangle_leaves@[f as int] as int;
            assert(a.nodes@[leaf].leaf == b.nodes@[leaf].leaf);
        }
        let under = bvh::faces_under(b.nodes@, b.leaf_faces@, 0);
        assert forall|i: int, k: int|
            0 <= i < b.nodes@.len() && b.nodes@[i].spec_is_leaf() && 0 <= k
                < b.leaf_faces@[b.nodes@[i].leaf as int]@.len() implies {
            let face = #[trigger] b.leaf_faces@[b.nodes@[i].leaf as int]@[k];
            &&& under.contains(face)
            &&& face < b.triangle_leaves@.len()
            &&& b.triangle_leaves@[face as int] == i
        } by {
            assert(a.nodes@[i].leaf == b.nodes@[i].leaf);
            assert(a.leaf_faces@[a.nodes@[i].leaf as int]@[k]
                == b.leaf_faces@[b.nodes@[i].leaf as int]@[k]);
        }
        assert(a.nodes@[0].parent == b.nodes@[0].parent);
    }
}

/// Whether none of a leaf's faces is among some faces.
pub open spec fn clear_of(bvh: MeshBvh, i: int, faces: Seq<u32>) -> bool {
    forall|f: u32|
        #![trigger faces.contains(f)]
        bvh.leaf_faces@[bvh.nodes@[i].leaf as int]@.contains(f) ==> !faces.contains(f)
}

/// Whether every box fits but those of the leaves that hold one of some faces, and those above.
pub open spec fn fits_but_for(
    bvh: MeshBvh,
    positions: Seq<Point>,
    triangles: Seq<[u32; 3]>,
    faces: Seq<u32>,
) -> bool {
    forall|i: int|
        0 <= i < bvh.nodes@.len() && (bvh.nodes@[i].spec_is_leaf() ==> clear_of(bvh, i, faces))
            ==> #[trigger] bvh::node_tight(bvh.nodes@, bvh.leaf_faces@, positions, triangles, i)
}

impl MeshBvh {
    /// Fits a leaf's box to its faces.
    fn refit_leaf(&mut self, node: u32, positions: &Vec<Point>, triangles: &Vec<[u32; 3]>)
        requires
            old(self).holds(triangles@.len()),
            bvh::indexed(triangles@, positions@.len()),
            triangles@.len() > 0,
            node < old(self).nodes@.len(),
            old(self).nodes@[node as int].spec_is_leaf(),
        ensures
            same_tree(*old(self), *final(self)),
            bvh::numbered(final(self).nodes@),
            bvh::node_tight(
                final(self).nodes@,
                final(self).leaf_faces@,
                positions@,
                triangles@,
                node as int,
            ),
            forall|i: int|
                0 <= i < final(self).nodes@.len() && i != node ==> #[trigger] final(self).nodes@[i]
                    == old(self).nodes@[i],
    {
        let mut current = self.nodes[node as usize];
        assert(bvh::node_formed(self.nodes@, self.leaf_faces@, node as int));
        proof {
            let faces = self.leaf_faces@[current.leaf as int]@;
            assert forall|k: int| 0 <= k < faces.len() implies #[trigger] faces[k]
                < triangles@.len() by {
                assert(self.leaf_faces@[self.nodes@[node as int].leaf as int]@[k] == faces[k]);
            }
        }
        let (min, max) = bvh::triangle_range_bounds(
            positions,
            triangles,
            &self.leaf_faces[current.leaf as usize],
        );
        proof {
            bvh::box_corners_are_numbers(
                positions@,
                triangles@,
                self.leaf_faces@[current.leaf as int]@,
            );
        }
        current.min = min;
        current.max = max;
        self.nodes.set(node as usize, current);
    }

    /// Fits a node's box to its children's boxes.
    fn refit_node_from_children(&mut self, node: u32)
        requires
            node < old(self).nodes@.len(),
            bvh::formed(old(self).nodes@, old(self).leaf_faces@, 0),
            !old(self).nodes@[node as int].spec_is_leaf(),
            bvh::numbered(old(self).nodes@),
        ensures
            same_tree(*old(self), *final(self)),
            bvh::numbered(final(self).nodes@),
            forall|positions: Seq<Point>, triangles: Seq<[u32; 3]>| #[trigger]
                bvh::node_tight(
                    final(self).nodes@,
                    final(self).leaf_faces@,
                    positions,
                    triangles,
                    node as int,
                ),
            forall|i: int|
                0 <= i < final(self).nodes@.len() && i != node ==> #[trigger] final(self).nodes@[i]
                    == old(self).nodes@[i],
    {
        let mut current = self.nodes[node as usize];
        assert(bvh::node_formed(self.nodes@, self.leaf_faces@, node as int));
        let left = self.nodes[current.left as usize];
        let right = self.nodes[current.right as usize];
        assert(self.nodes@[current.left as int].min.number());
        assert(self.nodes@[current.right as int].min.number());
        current.min = left.min.min(&right.min);
        current.max = left.max.max(&right.max);
        self.nodes.set(node as usize, current);
    }
}

fn height_of(nodes: &Vec<BvhNode>, node: u32) -> (result: i32)
    requires
        node < nodes@.len(),
    ensures
        result == nodes@[node as int].height,
{
    nodes[node as usize].height
}

/// `sort_unstable_by_key` of a slice puts the nodes in the order of ascending height.
#[verifier::external_body]
fn sort_by_height(indices: &mut Vec<u32>, nodes: &Vec<BvhNode>)
    requires
        forall|i: int| 0 <= i < old(indices)@.len() ==> #[trigger] old(indices)@[i] < nodes@.len(),
    ensures
        final(indices)@.to_multiset() == old(indices)@.to_multiset(),
        forall|i: int, j: int|
            0 <= i <= j < final(indices)@.len() ==> nodes@[#[trigger] final(
                indices)@[i] as int].height <= nodes@[#[trigger] final(indices)@[j] as int].height,
{
    indices.sort_unstable_by_key(|node| height_of(nodes, *node));
}

/// Whether a set of nodes has the parent of each of its nodes.
pub open spec fn closed_upward(nodes: Seq<BvhNode>, set: Set<u32>) -> bool {
    forall|i: u32|
        #[trigger] set.contains(i) ==> i < nodes.len() && !nodes[i as int].spec_is_leaf() && (
        nodes[i as int].parent != NONE ==> set.contains(nodes[i as int].parent))
}

impl MeshBvh {
    /// The leaves that hold one of some faces.
    fn dirty_leaves(&self, affected_faces: &Vec<u32>) -> (result: Vec<u32>)
        requires
            self.triangle_leaves@.len() > 0,
            self.holds(self.triangle_leaves@.len()),
        ensures
            forall|i: int|
                0 <= i < result@.len() ==> #[trigger] result@[i] < self.nodes@.len()
                    && self.nodes@[result@[i] as int].spec_is_leaf(),
            forall|i: u32|
                i < self.nodes@.len() && self.nodes@[i as int].spec_is_leaf()
                    && !#[trigger] result@.contains(i) ==> clear_of(
                    *self,
                    i as int,
                    affected_faces@,
                ),
    {
        let mut set = IndexSet::new();
        let mut k: usize = 0;
        while k < affected_faces.len()
            invariant
                k <= affected_faces@.len(),
                self.triangle_leaves@.len() > 0,
                self.holds(self.triangle_leaves@.len()),
                forall|i: u32|
                    #[trigger] set@.contains(i) ==> i < self.nodes@.len()
                        && self.nodes@[i as int].spec_is_leaf(),
                forall|j: int|
                    0 <= j < k && #[trigger] affected_faces@[j] < self.triangle_leaves@.len()
                        ==> set@.contains(self.triangle_leaves@[affected_faces@[j] as int]),
            decreases affected_faces@.len() - k,
        {
            let face = affected_faces[k];
            if (face as usize) < self.triangle_leaves.len() {
                let leaf = self.triangle_leaves[face as usize];
                assert(bvh::found_at(*self, face, 0));
                assert(leaf < self.nodes@.len() && self.nodes@[leaf as int].spec_is_leaf());
                if leaf != NONE {
                    let ghost before = set@;
                    let _ = set.insert(leaf);
                    assert forall|i: u32| #[trigger] set@.contains(i) implies i < self.nodes@.len()
                        && self.nodes@[i as int].spec_is_leaf() by {
                        assert(before.contains(i) || i == leaf);
                    }
                }
            }
            k += 1;
        }
        let ghost found = set@;
        let result = set.into_indices();
        proof {
            assert forall|i: int| 0 <= i < result@.len() implies #[trigger] result@[i]
                < self.nodes@.len() && self.nodes@[result@[i] as int].spec_is_leaf() by {
                assert(result@.contains(result@[i]));
            }
            assert forall|i: u32|
                i < self.nodes@.len() && self.nodes@[i as int].spec_is_leaf()
                    && !#[trigger] result@.contains(i) implies clear_of(
                *self,
                i as int,
                affected_faces@,
            ) by {
                let held = self.leaf_faces@[self.nodes@[i as int].leaf as int]@;
                assert forall|f: u32|
                    #![trigger affected_faces@.contains(f)]
                    held.contains(f) implies !affected_faces@.contains(f) by {
                    if affected_faces@.contains(f) {
                        let j = choose|j: int|
                            0 <= j < affected_faces@.len() && affected_faces@[j] == f;
                        let k = choose|k: int| 0 <= k < held.len() && held[k] == f;
                        assert(self.leaf_faces@[self.nodes@[i as int].leaf as int]@[k] == f);
                        assert(self.triangle_leaves@[affected_faces@[j] as int] == i);
                        assert(found.contains(i));
                    }
                }
            }
        }
        result
    }

    /// Adds every node above a leaf to a set that has what is above its own nodes.
    fn add_ancestors(&self, leaf: u32, set: &mut IndexSet)
        requires
            self.triangle_leaves@.len() > 0,
            self.holds(self.triangle_leaves@.len()),
            leaf < self.nodes@.len(),
            closed_upward(self.nodes@, old(set)@),
        ensures
            closed_upward(self.nodes@, final(set)@),
            old(set)@.subset_of(final(set)@),
            self.nodes@[leaf as int].parent != NONE ==> final(set)@.contains(
                self.nodes@[leaf as int].parent,
            ),
    {
        let ghost begun = set@;
        let mut ancestor = self.nodes[leaf as usize].parent;
        let mut below: u32 = leaf;
        loop
            invariant
                self.triangle_leaves@.len() > 0,
                self.holds(self.triangle_leaves@.len()),
                leaf < self.nodes@.len(),
                below < self.nodes@.len(),
                ancestor == self.nodes@[below as int].parent,
                begun.subset_of(set@),
                below != leaf ==> set@.contains(below),
                below != leaf && self.nodes@[leaf as int].parent != NONE ==> set@.contains(
                    self.nodes@[leaf as int].parent,
                ),
                forall|i: u32|
                    #[trigger] set@.contains(i) ==> i < self.nodes@.len()
                        && !self.nodes@[i as int].spec_is_leaf() && (self.nodes@[i as int].parent
                        != NONE ==> set@.contains(self.nodes@[i as int].parent) || (i == below
                        && below != leaf)),
            ensures
                ancestor != NONE ==> set@.contains(ancestor),
            decreases below,
        {
            if ancestor == NONE {
                break;
            }
            proof {
                if below == 0 {
                    assert(self.nodes@[0].parent == NONE);
                }
                assert(bvh::hangs(self.nodes@, 0, below as int));
            }
            if !set.insert(ancestor) {
                break;
            }
            below = ancestor;
            ancestor = self.nodes[below as usize].parent;
        }
        proof {
            assert forall|i: u32| #[trigger] set@.contains(i) implies i < self.nodes@.len()
                && !self.nodes@[i as int].spec_is_leaf() && (self.nodes@[i as int].parent != NONE
                ==> set@.contains(self.nodes@[i as int].parent)) by {}
        }
    }
}

proof fn lemma_same_closure(a: Seq<BvhNode>, b: Seq<BvhNode>, set: Set<u32>)
    requires
        same_shape(a, b),
        closed_upward(a, set),
    ensures
        closed_upward(b, set),
{
    assert forall|i: u32| #[trigger] set.contains(i) implies i < b.len()
        && !b[i as int].spec_is_leaf() && (b[i as int].parent != NONE ==> set.contains(
        b[i as int].parent,
    )) by {
        assert(a[i as int].parent == b[i as int].parent);
    }
}

impl MeshBvh {
    /// Fits the boxes of some leaves, and returns the nodes above them.
    fn refit_leaves(
        &mut self,
        leaves: &Vec<u32>,
        positions: &Vec<Point>,
        triangles: &Vec<[u32; 3]>,
    ) -> (result: IndexSet)
        requires
            triangles@.len() > 0,
            old(self).holds(triangles@.len()),
            bvh::indexed(triangles@, positions@.len()),
            forall|i: int|
                0 <= i < leaves@.len() ==> #[trigger] leaves@[i] < old(self).nodes@.len() && old(
                    self).nodes@[leaves@[i] as int].spec_is_leaf(),
        ensures
            same_tree(*old(self), *final(self)),
            final(self).holds(triangles@.len()),
            closed_upward(final(self).nodes@, result@),
            forall|i: u32|
                i < final(self).nodes@.len() && #[trigger] leaves@.contains(i) ==> {
                    &&& bvh::node_tight(
                        final(self).nodes@,
                        final(self).leaf_faces@,
                        positions@,
                        triangles@,
                        i as int,
                    )
                    &&& final(self).nodes@[i as int].parent != NONE ==> result@.contains(
                        final(self).nodes@[i as int].parent,
                    )
                },
            forall|i: u32|
                i < final(self).nodes@.len() && !#[trigger] leaves@.contains(i) ==> final(
                    self).nodes@[i as int] == old(self).nodes@[i as int],
    {
        let ghost begun = *self;
        let mut ancestors = IndexSet::new();
        let mut k: usize = 0;
        while k < leaves.len()
            invariant
                k <= leaves@.len(),
                begun == *old(self),
                same_tree(begun, *self),
                triangles@.len() > 0,
                self.holds(triangles@.len()),
                bvh::indexed(triangles@, positions@.len()),
                forall|i: int|
                    0 <= i < leaves@.len() ==> #[trigger] leaves@[i] < begun.nodes@.len()
                        && begun.nodes@[leaves@[i] as int].spec_is_leaf(),
                closed_upward(self.nodes@, ancestors@),
                forall|j: int|
                    0 <= j < k ==> {
                        &&& bvh::node_tight(
                            self.nodes@,
                            self.leaf_faces@,
                            positions@,
                            triangles@,
                            #[trigger] leaves@[j] as int,
                        )
                        &&& self.nodes@[leaves@[j] as int].parent != NONE ==> ancestors@.contains(
                            self.nodes@[leaves@[j] as int].parent,
                        )
                    },
                forall|i: u32|
                    i < self.nodes@.len() && !#[trigger] leaves@.contains(i)
                        ==> self.nodes@[i as int] == begun.nodes@[i as int],
            decreases leaves@.len() - k,
        {
            let leaf = leaves[k];
            let ghost before = *self;
            assert(leaves@.contains(leaf));
            assert(begun.nodes@[leaf as int].leaf == self.nodes@[leaf as int].leaf);
            self.refit_leaf(leaf, positions, triangles);
            proof {
                boxes_do_not_matter_to_holding(before, *self, triangles@.len());
                lemma_same_closure(before.nodes@, self.nodes@, ancestors@);
                assert(same_shape(begun.nodes@, self.nodes@)) by {
                    assert forall|i: int| 0 <= i < begun.nodes@.len() implies {
                        &&& (#[trigger] begun.nodes@[i]).parent == self.nodes@[i].parent
                        &&& begun.nodes@[i].left == self.nodes@[i].left
                        &&& begun.nodes@[i].right == self.nodes@[i].right
                        &&& begun.nodes@[i].leaf == self.nodes@[i].leaf
                        &&& begun.nodes@[i].height == self.nodes@[i].height
                    } by {
                        assert(before.nodes@[i].parent == self.nodes@[i].parent);
                    }
                }
            }
            let ghost found = ancestors@;
            self.add_ancestors(leaf, &mut ancestors);
            proof {
                assert forall|j: int| 0 <= j < k + 1 implies {
                    &&& bvh::node_tight(
                        self.nodes@,
                        self.leaf_faces@,
                        positions@,
                        triangles@,
                        #[trigger] leaves@[j] as int,
                    )
                    &&& self.nodes@[leaves@[j] as int].parent != NONE ==> ancestors@.contains(
                        self.nodes@[leaves@[j] as int].parent,
                    )
                } by {
                    if j < k {
                        assert(bvh::node_tight(
                            before.nodes@,
                            before.leaf_faces@,
                            positions@,
                            triangles@,
                            leaves@[j] as int,
                        ));
                        assert(before.nodes@[leaves@[j] as int].parent
                            == self.nodes@[leaves@[j] as int].parent);
                        assert(begun.nodes@[leaves@[j] as int].leaf
                            == self.nodes@[leaves@[j] as int].leaf);
                    }
                }
            }
            k += 1;
        }
        ancestors
    }

    /// Fits the boxes of nodes that are given in the order of their height.
    fn refit_upward(&mut self, order: &Vec<u32>, set: Ghost<Set<u32>>)
        requires
            bvh::formed(old(self).nodes@, old(self).leaf_faces@, 0),
            bvh::numbered(old(self).nodes@),
            old(self).nodes@.len() <= u32::MAX,
            order@.no_duplicates(),
            closed_upward(old(self).nodes@, set@),
            forall|i: u32| order@.contains(i) <==> set@.contains(i),
            forall|i: int, j: int|
                0 <= i <= j < order@.len() ==> old(
                    self).nodes@[#[trigger] order@[i] as int].height <= old(
                    self).nodes@[#[trigger] order@[j] as int].height,
        ensures
            same_tree(*old(self), *final(self)),
            bvh::numbered(final(self).nodes@),
            forall|i: u32, positions: Seq<Point>, triangles: Seq<[u32; 3]>|
                #![trigger set@.contains(i), bvh::node_tight(
                        final(self).nodes@,
                        final(self).leaf_faces@,
                        positions,
                        triangles,
                        i as int,
                    )]
                set@.contains(i) ==> bvh::node_tight(
                    final(self).nodes@,
                    final(self).leaf_faces@,
                    positions,
                    triangles,
                    i as int,
                ),
            forall|i: u32|
                i < final(self).nodes@.len() && !#[trigger] set@.contains(i) ==> final(
                    self).nodes@[i as int] == old(self).nodes@[i as int],
    {
        let ghost begun = *self;
        let mut k: usize = 0;
        while k < order.len()
            invariant
                k <= order@.len(),
                begun == *old(self),
                same_tree(begun, *self),
                bvh::formed(begun.nodes@, begun.leaf_faces@, 0),
                bvh::numbered(self.nodes@),
                begun.nodes@.len() <= u32::MAX,
                order@.no_duplicates(),
                closed_upward(begun.nodes@, set@),
                forall|i: u32| order@.contains(i) <==> set@.contains(i),
                forall|i: int, j: int|
                    0 <= i <= j < order@.len() ==> begun.nodes@[#[trigger] order@[i] as int].height
                        <= begun.nodes@[#[trigger] order@[j] as int].height,
                forall|j: int, positions: Seq<Point>, triangles: Seq<[u32; 3]>|
                    #![trigger order@[j], bvh::node_tight(
                        self.nodes@,
                        self.leaf_faces@,
                        positions,
                        triangles,
                        order@[j] as int,
                    )]
                    0 <= j < k ==> bvh::node_tight(
                        self.nodes@,
                        self.leaf_faces@,
                        positions,
                        triangles,
                        order@[j] as int,
                    ),
                forall|i: u32|
                    i < self.nodes@.len() && !#[trigger] set@.contains(i) ==> self.nodes@[i as int]
                        == begun.nodes@[i as int],
            decreases order@.len() - k,
        {
            let node = order[k];
            let ghost before = *self;
            proof {
                assert(order@.contains(node));
                assert(set@.contains(node));
                assert(begun.nodes@[node as int].leaf == self.nodes@[node as int].leaf);
                lemma_same_form(begun, *self);
            }
            self.refit_node_from_children(node);
            proof {
                assert(same_shape(begun.nodes@, self.nodes@)) by {
                    assert forall|i: int| 0 <= i < begun.nodes@.len() implies {
                        &&& (#[trigger] begun.nodes@[i]).parent == self.nodes@[i].parent
                        &&& begun.nodes@[i].left == self.nodes@[i].left
                        &&& begun.nodes@[i].right == self.nodes@[i].right
                        &&& begun.nodes@[i].leaf == self.nodes@[i].leaf
                        &&& begun.nodes@[i].height == self.nodes@[i].height
                    } by {
                        assert(before.nodes@[i].parent == self.nodes@[i].parent);
                    }
                }
                assert forall|j: int, positions: Seq<Point>, triangles: Seq<[u32; 3]>|
                    #![trigger order@[j], bvh::node_tight(
                        self.nodes@,
                        self.leaf_faces@,
                        positions,
                        triangles,
                        order@[j] as int,
                    )]
                    0 <= j < k + 1 implies bvh::node_tight(
                    self.nodes@,
                    self.leaf_faces@,
                    positions,
                    triangles,
                    order@[j] as int,
                ) by {
                    if j < k {
                        let i = order@[j];
                        assert(order@.contains(i));
                        assert(set@.contains(i));
                        assert(bvh::node_tight(
                            before.nodes@,
                            before.leaf_faces@,
                            positions,
                            triangles,
                            i as int,
                        ));
                        assert(bvh::node_formed(begun.nodes@, begun.leaf_faces@, i as int));
                        assert(begun.nodes@[i as int].left == self.nodes@[i as int].left);
                        assert(begun.nodes@[i as int].height <= begun.nodes@[node as int].height);
                        assert(self.nodes@[i as int] == before.nodes@[i as int]);
                        let left = begun.nodes@[i as int].left;
                        let right = begun.nodes@[i as int].right;
                        assert(left != node && right != node);
                        assert(self.nodes@[left as int] == before.nodes@[left as int]);
                        assert(self.nodes@[right as int] == before.nodes@[right as int]);
                    }
                }
            }
            k += 1;
        }
        proof {
            assert forall|i: u32, positions: Seq<Point>, triangles: Seq<[u32; 3]>|
                #![trigger set@.contains(i), bvh::node_tight(
                        self.nodes@,
                        self.leaf_faces@,
                        positions,
                        triangles,
                        i as int,
                    )]
                set@.contains(i) implies bvh::node_tight(
                self.nodes@,
                self.leaf_faces@,
                positions,
                triangles,
                i as int,
            ) by {
                assert(order@.contains(i));
                let j = choose|j: int| 0 <= j < order@.len() && order@[j] == i;
                assert(bvh::node_tight(
                    self.nodes@,
                    self.leaf_faces@,
                    positions,
                    triangles,
                    order@[j] as int,
                ));
            }
        }
    }
}

proof fn lemma_same_form(a: MeshBvh, b: MeshBvh)
    requires
        same_tree(a, b),
        bvh::formed(a.nodes@, a.leaf_faces@, 0),
    ensures
        bvh::formed(b.nodes@, b.leaf_faces@, 0),
{
    assert forall|i: int| 0 <= i < b.nodes@.len() implies #[trigger] bvh::node_formed(
        b.nodes@,
        b.leaf_faces@,
        i,
    ) && b.nodes@[i].height >= 0 by {
        assert(bvh::node_formed(a.nodes@, a.leaf_faces@, i));
        assert(a.nodes@[i].left == b.nodes@[i].left);
        if !a.nodes@[i].spec_is_leaf() {
            assert(a.nodes@[a.nodes@[i].left as int].height
                == b.nodes@[a.nodes@[i].left as int].height);
            assert(a.nodes@[a.nodes@[i].right as int].height
                == b.nodes@[a.nodes@[i].right as int].height);
        }
    }
}

impl MeshBvh {
    /// Whether the tree can be refitted to a mesh of so many faces.
    pub open spec fn serves(self, face_count: nat) -> bool {
        self.root != NONE && self.triangle_leaves@.len() == face_count
    }

    /// Fits the boxes of the leaves that hold affected faces and of the nodes above them, or
    /// builds the tree anew where it is not one over these faces.
    pub fn refit_triangles<G: Geometry>(
        &mut self,
        positions: &Vec<Point>,
        triangles: &Vec<[u32; 3]>,
        affected_faces: &Vec<u32>,
        geometry: &G,
    )
        requires
            geometry.total(),
            bvh::indexed(triangles@, positions@.len()),
            triangles@.len() <= u32::MAX,
            old(self).serves(triangles@.len()) ==> old(self).holds(triangles@.len()),
        ensures
            affected_faces@.len() == 0 ==> *final(self) == *old(self),
            affected_faces@.len() > 0 ==> final(self).holds(triangles@.len()),
            affected_faces@.len() > 0 && !old(self).serves(triangles@.len()) ==> final(self).fits(
                positions@,
                triangles@,
            ),
            affected_faces@.len() > 0 && !old(self).serves(triangles@.len()) ==> final(self).halves(
                geometry,
                positions@,
                triangles@,
            ),
            affected_faces@.len() > 0 && old(self).serves(triangles@.len()) ==> same_tree(
                *old(self),
                *final(self),
            ),
            affected_faces@.len() > 0 && old(self).serves(triangles@.len()) && fits_but_for(
                *old(self),
                positions@,
                triangles@,
                affected_faces@,
            ) ==> final(self).fits(positions@, triangles@),
    {
        if affected_faces.len() == 0 {
            return;
        }
        if self.root == NONE || self.triangle_leaves.len() != triangles.len() {
            *self = MeshBvh::build(positions, triangles, geometry);
            return;
        }
        let ghost begun = *self;
        let leaves = self.dirty_leaves(affected_faces);
        let ancestors = self.refit_leaves(&leaves, positions, triangles);
        let ghost lower = *self;
        let ghost above = ancestors@;
        let mut order = ancestors.into_indices();
        let ghost unordered = order@;
        proof {
            assert forall|i: int| 0 <= i < order@.len() implies #[trigger] order@[i]
                < self.nodes@.len() by {
                assert(order@.contains(order@[i]));
            }
        }
        sort_by_height(&mut order, &self.nodes);
        proof {
            collections::same_multiset_same_items(order@, unordered);
            unordered.lemma_multiset_has_no_duplicates();
            order@.lemma_multiset_has_no_duplicates_conv();
            assert forall|i: u32| order@.contains(i) <==> above.contains(i) by {
                assert(unordered.contains(i) <==> above.contains(i));
            }
        }
        self.refit_upward(&order, Ghost(above));
        proof {
            lemma_trees_compose(begun, lower, *self);
            boxes_do_not_matter_to_holding(begun, *self, triangles@.len());
            if fits_but_for(begun, positions@, triangles@, affected_faces@) {
                assert forall|i: int| 0 <= i < self.nodes@.len() implies #[trigger] bvh::node_tight(
                    self.nodes@,
                    self.leaf_faces@,
                    positions@,
                    triangles@,
                    i,
                ) by {
                    lemma_all_fit(
                        begun,
                        lower,
                        *self,
                        positions@,
                        triangles@,
                        affected_faces@,
                        leaves@,
                        above,
                        i as u32,
                    );
                }
            }
        }
    }

    /// Fits every box.
    pub fn refit(&mut self, positions: &Vec<Point>, triangles: &Vec<[u32; 3]>)
        requires
            bvh::indexed(triangles@, positions@.len()),
            old(self).serves(triangles@.len()) ==> old(self).holds(triangles@.len()),
        ensures
            !old(self).serves(triangles@.len()) ==> *final(self) == *old(self),
            old(self).serves(triangles@.len()) ==> same_tree(*old(self), *final(self)) && final(
                self).holds(triangles@.len()) && final(self).fits(positions@, triangles@),
    {
        if self.root == NONE || self.triangle_leaves.len() != triangles.len() {
            return;
        }
        let ghost begun = *self;
        let mut i: usize = self.nodes.len();
        while i > 0
            invariant
                i <= self.nodes@.len() <= u32::MAX,
                triangles@.len() > 0,
                bvh::indexed(triangles@, positions@.len()),
                begun.holds(triangles@.len()),
                same_tree(begun, *self),
                bvh::numbered(self.nodes@),
                bvh::tight(self.nodes@, self.leaf_faces@, positions@, triangles@, i as int),
            decreases i,
        {
            i -= 1;
            let ghost before = *self;
            proof {
                boxes_do_not_matter_to_holding(begun, *self, triangles@.len());
            }
            if self.nodes[i].is_leaf() {
                self.refit_leaf(i as u32, positions, triangles);
            } else {
                self.refit_node_from_children(i as u32);
            }
            proof {
                lemma_trees_compose(begun, before, *self);
                assert forall|j: int| i <= j < self.nodes@.len() implies #[trigger] bvh::node_tight(
                    self.nodes@,
                    self.leaf_faces@,
                    positions@,
                    triangles@,
                    j,
                ) by {
                    if j > i {
                        assert(bvh::node_tight(
                            before.nodes@,
                            before.leaf_faces@,
                            positions@,
                            triangles@,
                            j,
                        ));
                        assert(bvh::node_formed(before.nodes@, before.leaf_faces@, j));
                        assert(self.nodes@[j] == before.nodes@[j]);
                        if !self.nodes@[j].spec_is_leaf() {
                            let left = self.nodes@[j].left as int;
                            let right = self.nodes@[j].right as int;
                            assert(self.nodes@[left] == before.nodes@[left]);
                            assert(self.nodes@[right] == before.nodes@[right]);
                        }
                    }
                }
            }
        }
        proof {
            boxes_do_not_matter_to_holding(begun, *self, triangles@.len());
        }
    }
}

proof fn lemma_trees_compose(a: MeshBvh, b: MeshBvh, c: MeshBvh)
    requires
        same_tree(a, b),
        same_tree(b, c),
    ensures
        same_tree(a, c),
{
    assert forall|i: int| 0 <= i < a.nodes@.len() implies {
        &&& (#[trigger] a.nodes@[i]).parent == c.nodes@[i].parent
        &&& a.nodes@[i].left == c.nodes@[i].left
        &&& a.nodes@[i].right == c.nodes@[i].right
        &&& a.nodes@[i].leaf == c.nodes@[i].leaf
        &&& a.nodes@[i].height == c.nodes@[i].height
    } by {
        assert(a.nodes@[i].parent == b.nodes@[i].parent);
        assert(b.nodes@[i].parent == c.nodes@[i].parent);
    }
}

/// Once dirty leaves and the nodes above them fit, every node does.
proof fn lemma_all_fit(
    begun: MeshBvh,
    lower: MeshBvh,
    done: MeshBvh,
    positions: Seq<Point>,
    triangles: Seq<[u32; 3]>,
    affected: Seq<u32>,
    leaves: Seq<u32>,
    above: Set<u32>,
    i: u32,
)
    requires
        i < begun.nodes@.len() <= u32::MAX,
        bvh::formed(begun.nodes@, begun.leaf_faces@, 0),
        same_tree(begun, lower),
        same_tree(lower, done),
        fits_but_for(begun, positions, triangles, affected),
        forall|i: u32|
            i < begun.nodes@.len() && begun.nodes@[i as int].spec_is_leaf()
                && !#[trigger] leaves.contains(i) ==> clear_of(begun, i as int, affected),
        forall|i: int|
            0 <= i < leaves.len() ==> #[trigger] leaves[i] < begun.nodes@.len()
                && begun.nodes@[leaves[i] as int].spec_is_leaf(),
        closed_upward(lower.nodes@, above),
        forall|i: u32|
            i < lower.nodes@.len() && #[trigger] leaves.contains(i) ==> {
                &&& bvh::node_tight(
                    lower.nodes@,
                    lower.leaf_faces@,
                    positions,
                    triangles,
                    i as int,
                )
                &&& lower.nodes@[i as int].parent != NONE ==> above.contains(
                    lower.nodes@[i as int].parent,
                )
            },
        forall|i: u32|
            i < lower.nodes@.len() && !#[trigger] leaves.contains(i) ==> lower.nodes@[i as int]
                == begun.nodes@[i as int],
        forall|i: u32, positions: Seq<Point>, triangles: Seq<[u32; 3]>|
            #![trigger above.contains(i), bvh::node_tight(
                    done.nodes@,
                    done.leaf_faces@,
                    positions,
                    triangles,
                    i as int,
                )]
            above.contains(i) ==> bvh::node_tight(
                done.nodes@,
                done.leaf_faces@,
                positions,
                triangles,
                i as int,
            ),
        forall|i: u32|
            i < done.nodes@.len() && !#[trigger] above.contains(i) ==> done.nodes@[i as int]
                == lower.nodes@[i as int],
    ensures
        bvh::node_tight(done.nodes@, done.leaf_faces@, positions, triangles, i as int),
{
    assert(begun.nodes@[i as int].leaf == lower.nodes@[i as int].leaf);
    assert(lower.nodes@[i as int].leaf == done.nodes@[i as int].leaf);
    if begun.nodes@[i as int].spec_is_leaf() {
        assert(!above.contains(i));
        if leaves.contains(i) {
            assert(bvh::node_tight(
                lower.nodes@,
                lower.leaf_faces@,
                positions,
                triangles,
                i as int,
            ));
        } else {
            assert(clear_of(begun, i as int, affected));
            assert(bvh::node_tight(
                begun.nodes@,
                begun.leaf_faces@,
                positions,
                triangles,
                i as int,
            ));
        }
    } else if !above.contains(i) {
        assert(!leaves.contains(i)) by {
            if leaves.contains(i) {
                let k = choose|k: int| 0 <= k < leaves.len() && leaves[k] == i;
                assert(begun.nodes@[leaves[k] as int].spec_is_leaf());
            }
        }
        assert(bvh::node_tight(begun.nodes@, begun.leaf_faces@, positions, triangles, i as int));
        assert(bvh::node_formed(begun.nodes@, begun.leaf_faces@, i as int));
        let left = begun.nodes@[i as int].left;
        let right = begun.nodes@[i as int].right;
        assert(begun.nodes@[left as int].parent == lower.nodes@[left as int].parent);
        assert(begun.nodes@[right as int].parent == lower.nodes@[right as int].parent);
        assert(!above.contains(left) && !leaves.contains(left));
        assert(!above.contains(right) && !leaves.contains(right));
    }
}

} // verus!
