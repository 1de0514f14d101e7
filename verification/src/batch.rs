//! What of a mesh changed during a frame, collected to be drawn at once.
use crate::arithmetic::Arithmetic;
use crate::collections;
use crate::collections::EdgeKey;
use crate::mesh::Mesh;
use crate::upload;
use crate::upload::MeshChangeSet;
use vstd::prelude::*;

verus! {

/// Whether a list holds, in ascending order and each once, those items of another that are below a
/// count.
pub open spec fn settled(items: Seq<u32>, count: nat, kept: Seq<u32>) -> bool {
    &&& collections::strictly_ascending(kept)
    &&& forall|item: u32| #[trigger] kept.contains(item) <==> items.contains(item) && item < count
}

fn settle(items: &Vec<u32>, count: usize) -> (result: Vec<u32>)
    ensures
        settled(items@, count as nat, result@),
{
    let mut kept: Vec<u32> = Vec::new();
    let mut i: usize = 0;
    while i < items.len()
        invariant
            i <= items@.len(),
            forall|item: u32| #[trigger]
                kept@.contains(item) <==> items@.take(i as int).contains(item) && item < count,
        decreases items@.len() - i,
    {
        let item = items[i];
        let ghost before = kept@;
        proof {
            crate::pass::lemma_take_contains(items@, i as int);
        }
        if (item as usize) < count {
            kept.push(item);
            assert forall|other: u32| #[trigger] kept@.contains(other) <==> before.contains(other)
                || other == item by {
                collections::push_contains(before, item, other);
            }
        }
        i += 1;
    }
    assert(items@.take(i as int) =~= items@);
    collections::sort_and_dedup(&mut kept);
    kept
}

impl MeshChangeSet {
    pub fn new() -> (result: MeshChangeSet)
        ensures
            result.is_blank(),
    {
        MeshChangeSet {
            dirty_vertices: Vec::new(),
            dirty_faces: Vec::new(),
            removed_edges: Vec::new(),
            added_edges: Vec::new(),
            vertex_count: 0,
            face_count: 0,
        }
    }

    /// Whether nothing has changed.
    pub open spec fn is_blank(self) -> bool {
        &&& self.dirty_vertices@.len() == 0
        &&& self.dirty_faces@.len() == 0
        &&& self.removed_edges@.len() == 0
        &&& self.added_edges@.len() == 0
        &&& self.vertex_count == 0
        &&& self.face_count == 0
    }

    pub fn clear(&mut self)
        ensures
            final(self).is_blank(),
    {
        self.dirty_vertices.clear();
        self.dirty_faces.clear();
        self.removed_edges.clear();
        self.added_edges.clear();
        self.vertex_count = 0;
        self.face_count = 0;
    }

    /// Adds vertices that have changed.
    pub fn include_vertices(&mut self, vertices: Vec<u32>)
        ensures
            final(self).dirty_vertices@ == old(self).dirty_vertices@ + vertices@,
            *final(self) == (MeshChangeSet {
                dirty_vertices: final(self).dirty_vertices,
                ..*old(self)
            }),
    {
        let mut vertices = vertices;
        self.dirty_vertices.append(&mut vertices);
    }

    /// Whether changes are those of one set and then of another.
    pub open spec fn follows(self, first: MeshChangeSet, second: MeshChangeSet) -> bool {
        &&& self.dirty_vertices@ == first.dirty_vertices@ + second.dirty_vertices@
        &&& self.dirty_faces@ == first.dirty_faces@ + second.dirty_faces@
        &&& self.removed_edges@ == first.removed_edges@ + second.removed_edges@
        &&& self.added_edges@ == first.added_edges@ + second.added_edges@
        &&& self.vertex_count == second.vertex_count
        &&& self.face_count == second.face_count
    }

    /// Adds changes that were made after these.
    pub fn merge(&mut self, changes: MeshChangeSet)
        ensures
            final(self).follows(*old(self), changes),
    {
        let mut changes = changes;
        self.dirty_vertices.append(&mut changes.dirty_vertices);
        self.dirty_faces.append(&mut changes.dirty_faces);
        self.removed_edges.append(&mut changes.removed_edges);
        self.added_edges.append(&mut changes.added_edges);
        self.vertex_count = changes.vertex_count;
        self.face_count = changes.face_count;
    }

    /// Whether changes are others put in order for a mesh of some size.
    pub open spec fn is_final(
        self,
        before: MeshChangeSet,
        vertex_count: usize,
        face_count: usize,
    ) -> bool {
        &&& settled(before.dirty_vertices@, vertex_count as nat, self.dirty_vertices@)
        &&& settled(before.dirty_faces@, face_count as nat, self.dirty_faces@)
        &&& self.removed_edges == before.removed_edges
        &&& self.added_edges == before.added_edges
        &&& self.vertex_count == vertex_count
        &&& self.face_count == face_count
    }

    /// Puts the changes in order for a mesh of some size: each vertex and face that exists once.
    pub fn finalize(&mut self, vertex_count: usize, face_count: usize)
        ensures
            final(self).is_final(*old(self), vertex_count, face_count),
    {
        self.dirty_vertices = settle(&self.dirty_vertices, vertex_count);
        self.dirty_faces = settle(&self.dirty_faces, face_count);
        self.vertex_count = vertex_count;
        self.face_count = face_count;
    }
}

/// What changed during a frame: vertices, as long as no topology has, and else changes.
#[derive(Debug)]
pub struct FrameRenderBatch {
    pub vertices: Vec<u32>,
    pub changes: MeshChangeSet,
    pub has_topology: bool,
    pub changed: bool,
}

/// What there is to draw anew after a frame.
#[derive(Debug)]
pub enum RenderUpdate {
    Nothing,
    Vertices(Vec<u32>),
    Topology(MeshChangeSet),
    Mesh,
}

impl FrameRenderBatch {
    pub open spec fn is_blank(self) -> bool {
        self.vertices@.len() == 0 && self.changes.is_blank() && !self.has_topology
            && !self.changed
    }

    pub fn new() -> (result: FrameRenderBatch)
        ensures
            result.is_blank(),
    {
        FrameRenderBatch {
            vertices: Vec::new(),
            changes: MeshChangeSet::new(),
            has_topology: false,
            changed: false,
        }
    }

    pub fn clear(&mut self)
        ensures
            final(self).is_blank(),
    {
        self.vertices.clear();
        self.changes.clear();
        self.has_topology = false;
        self.changed = false;
    }

    /// Whether a batch is another with one more step: vertices, or changes that take the vertices
    /// before them along.
    pub open spec fn is_queued(
        self,
        before: FrameRenderBatch,
        updated_vertices: Seq<u32>,
        mesh_changes: Option<MeshChangeSet>,
    ) -> bool {
        &&& self.changed
        &&& self.has_topology == (before.has_topology || mesh_changes is Some)
        &&& match mesh_changes {
            Some(changes) => {
                let moved = if before.has_topology {
                    Seq::<u32>::empty()
                } else {
                    before.vertices@
                };
                &&& self.vertices@ == if before.has_topology {
                    before.vertices@
                } else {
                    Seq::<u32>::empty()
                }
                &&& self.changes.dirty_vertices@ == before.changes.dirty_vertices@ + moved
                    + changes.dirty_vertices@
                &&& self.changes.dirty_faces@ == before.changes.dirty_faces@
                    + changes.dirty_faces@
                &&& self.changes.removed_edges@ == before.changes.removed_edges@
                    + changes.removed_edges@
                &&& self.changes.added_edges@ == before.changes.added_edges@
                    + changes.added_edges@
                &&& self.changes.vertex_count == changes.vertex_count
                &&& self.changes.face_count == changes.face_count
            },
            None => if before.has_topology {
                &&& self.vertices@ == before.vertices@
                &&& self.changes == (MeshChangeSet {
                    dirty_vertices: self.changes.dirty_vertices,
                    ..before.changes
                })
                &&& self.changes.dirty_vertices@ == before.changes.dirty_vertices@
                    + updated_vertices
            } else {
                &&& self.vertices@ == before.vertices@ + updated_vertices
                &&& self.changes == before.changes
            },
        }
    }

    /// Adds what a step changed.
    pub fn queue(&mut self, updated_vertices: Vec<u32>, mesh_changes: Option<MeshChangeSet>)
        ensures
            final(self).is_queued(*old(self), updated_vertices@, mesh_changes),
    {
        self.changed = true;
        match mesh_changes {
            Some(changes) => {
                if !self.has_topology {
                    let mut vertices: Vec<u32> = Vec::new();
                    std::mem::swap(&mut vertices, &mut self.vertices);
                    self.changes.include_vertices(vertices);
                    self.has_topology = true;
                }
                self.changes.merge(changes);
                assert(self.is_queued(*old(self), updated_vertices@, mesh_changes));
            },
            None => {
                if self.has_topology {
                    self.changes.include_vertices(updated_vertices);
                } else {
                    let mut updated_vertices = updated_vertices;
                    self.vertices.append(&mut updated_vertices);
                }
            },
        }
    }

    /// What a batch comes to on a mesh of some size, if there is a mesh.
    pub open spec fn comes_to(self, counts: Option<(usize, usize)>, update: RenderUpdate) -> bool {
        if !self.changed {
            update is Nothing
        } else if self.has_topology {
            match counts {
                Some((vertex_count, face_count)) => update matches RenderUpdate::Topology(changes)
                    && changes.is_final(self.changes, vertex_count, face_count),
                None => update is Nothing,
            }
        } else {
            update matches RenderUpdate::Vertices(vertices) && {
                &&& collections::strictly_ascending(vertices@)
                &&& forall|vertex: u32| #[trigger]
                    vertices@.contains(vertex) <==> self.vertices@.contains(vertex)
            }
        }
    }

    /// Takes what there is to draw anew, and begins a new batch.
    pub fn flush(&mut self, counts: Option<(usize, usize)>) -> (result: RenderUpdate)
        ensures
            old(self).comes_to(counts, result),
            final(self).is_blank(),
    {
        let mut batch = FrameRenderBatch::new();
        std::mem::swap(&mut batch, self);
        if !batch.changed {
            return RenderUpdate::Nothing;
        }
        if batch.has_topology {
            return match counts {
                Some((vertex_count, face_count)) => {
                    let mut changes = batch.changes;
                    changes.finalize(vertex_count, face_count);
                    RenderUpdate::Topology(changes)
                },
                None => RenderUpdate::Nothing,
            };
        }
        let mut vertices = batch.vertices;
        collections::sort_and_dedup(&mut vertices);
        RenderUpdate::Vertices(vertices)
    }
}

/// Changes one after the other, put together and in order, list all in which the first mesh
/// differs from the last.
pub proof fn merged_changes_tell_apart<O: Arithmetic>(
    ops: &O,
    first: Mesh,
    second: Mesh,
    third: Mesh,
    to_second: MeshChangeSet,
    to_third: MeshChangeSet,
    merged: MeshChangeSet,
    settled_changes: MeshChangeSet,
)
    requires
        upload::tells_apart(ops, first, second, to_second),
        upload::tells_apart(ops, second, third, to_third),
        merged.follows(to_second, to_third),
        settled_changes.is_final(
            merged,
            third.positions.len(),
            third.triangles.len(),
        ),
    ensures
        upload::tells_apart(ops, first, third, settled_changes),
{
    assert forall|i: int| 0 <= i < third.positions@.len() implies #[trigger] upload::vertex_told(
        ops,
        first,
        third,
        settled_changes,
        i,
    ) by {
        assert(upload::vertex_told(ops, second, third, to_third, i));
        if i <= u32::MAX {
            lemma_in_either(to_second.dirty_vertices@, to_third.dirty_vertices@, i as u32);
        }
        if i < second.positions@.len() {
            assert(upload::vertex_told(ops, first, second, to_second, i));
        }
    }
    assert forall|f: int| 0 <= f < third.triangles@.len() implies #[trigger] upload::face_told(
        first,
        third,
        settled_changes,
        f,
    ) by {
        assert(upload::face_told(second, third, to_third, f));
        if f <= u32::MAX {
            lemma_in_either(to_second.dirty_faces@, to_third.dirty_faces@, f as u32);
        }
        if f < second.triangles@.len() {
            assert(upload::face_told(first, second, to_second, f));
        }
    }
    assert forall|edge: EdgeKey| #[trigger]
        third.topology.edge_faces@.contains_key(edge) <==> (
    first.topology.edge_faces@.contains_key(edge) && !settled_changes.removed_edges@.contains(edge))
        || (settled_changes.added_edges@.contains(edge)
        && third.topology.edge_faces@.contains_key(edge)) by {
        lemma_in_either(to_second.removed_edges@, to_third.removed_edges@, edge);
        lemma_in_either(to_second.added_edges@, to_third.added_edges@, edge);
        assert(second.topology.edge_faces@.contains_key(edge) <==> (
        first.topology.edge_faces@.contains_key(edge) && !to_second.removed_edges@.contains(edge))
            || (to_second.added_edges@.contains(edge)
            && second.topology.edge_faces@.contains_key(edge)));
    }
}

proof fn lemma_in_either<T>(first: Seq<T>, second: Seq<T>, item: T)
    ensures
        (first + second).contains(item) <==> first.contains(item) || second.contains(item),
{
    let both = first + second;
    if first.contains(item) {
        let i = choose|i: int| 0 <= i < first.len() && first[i] == item;
        assert(both[i] == item);
    }
    if second.contains(item) {
        let i = choose|i: int| 0 <= i < second.len() && second[i] == item;
        assert(both[first.len() + i] == item);
    }
    if both.contains(item) {
        let i = choose|i: int| 0 <= i < both.len() && both[i] == item;
        if i < first.len() {
            assert(first[i] == item);
        } else {
            assert(second[i - first.len()] == item);
        }
    }
}

} // verus!
