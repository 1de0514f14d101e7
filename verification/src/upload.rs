//! A mirror of a mesh in the form that is drawn, and what of it has to be sent to be drawn anew.
use crate::arithmetic;
use crate::arithmetic::Arithmetic;
use crate::camera::CameraFrame;
use crate::collections;
use crate::collections::EdgeKey;
use crate::collections::EdgeSlots;
use crate::mesh;
use crate::mesh::Mesh;
use crate::optics::{Clip, Matrix};
use crate::scalar;
use crate::scalar::Point;
use std::ops::Range;
use vstd::prelude::*;

verus! {

/// The depth that drawing needs.
pub const REQUIRED_DEPTH_BITS: u8 = 32;

/// The bytes of a vertex as it is drawn.
pub const GPU_VERTEX_BYTES: u64 = 32;

/// The bytes of an index.
pub const INDEX_BYTES: u64 = 4;

/// The unchanged vertices that are sent along to save a separate write.
pub const MAX_UNCHANGED_GAP: u32 = 16;

/// The most separate writes.
pub const MAX_WRITES: usize = 2048;

/// Why nothing can be drawn.
#[derive(Clone, Copy, Debug, PartialEq, Eq, Structural)]
pub enum RendererError {
    WgpuUnavailable,
}

/// A vertex as it is drawn.
#[derive(Clone, Copy, Debug, PartialEq, Eq, Structural)]
pub struct GpuVertex {
    pub position: Point,
    pub mask: u32,
    pub normal: Point,
    pub padding: u32,
}

pub open spec fn blank_vertex() -> GpuVertex {
    GpuVertex {
        position: arithmetic::origin(),
        mask: scalar::ZERO,
        normal: arithmetic::origin(),
        padding: scalar::ZERO,
    }
}

/// A vertex as it is drawn: with a unit normal, up where it has none, and a weight from 0 to 1.
pub open spec fn drawn_vertex<O: Arithmetic>(
    ops: &O,
    position: Point,
    normal: Option<Point>,
    mask: Option<u32>,
) -> GpuVertex {
    GpuVertex {
        position,
        mask: if mask is Some && scalar::finite(mask->0) {
            scalar::clamped(mask->0, scalar::ZERO, scalar::ONE)
        } else {
            scalar::ZERO
        },
        normal: arithmetic::spec_unit(
            ops,
            if normal is Some && normal->0.finite() {
                normal->0
            } else {
                Point { x: scalar::ZERO, y: scalar::ONE, z: scalar::ZERO }
            },
        ),
        padding: scalar::ZERO,
    }
}

/// The item at a place of a list, where the list goes that far.
pub open spec fn item_at<T>(items: Seq<T>, i: int) -> Option<T> {
    if 0 <= i < items.len() {
        Some(items[i])
    } else {
        None
    }
}

/// A vertex of a mesh as it is drawn.
pub open spec fn drawn_at<O: Arithmetic>(ops: &O, mesh: Mesh, i: int) -> GpuVertex {
    drawn_vertex(
        ops,
        mesh.positions@[i],
        item_at(mesh.normals@, i),
        item_at(mesh.mask@, i),
    )
}

/// The corners of the triangles whose vertices exist, one after the other.
pub open spec fn drawn_corners(triangles: Seq<[u32; 3]>, vertex_count: nat) -> Seq<u32>
    decreases triangles.len(),
{
    if triangles.len() == 0 {
        Seq::empty()
    } else {
        let front = drawn_corners(triangles.drop_last(), vertex_count);
        if mesh::corners_exist(triangles.last(), vertex_count) {
            front + triangles.last()@
        } else {
            front
        }
    }
}

/// The ends of the edges whose vertices exist, one after the other.
pub open spec fn drawn_ends(edges: Seq<EdgeKey>, vertex_count: nat) -> Seq<u32>
    decreases edges.len(),
{
    if edges.len() == 0 {
        Seq::empty()
    } else {
        let front = drawn_ends(edges.drop_last(), vertex_count);
        let last = edges.last();
        if last.0 < vertex_count && last.1 < vertex_count {
            front.push(last.0).push(last.1)
        } else {
            front
        }
    }
}

/// A mesh in the form that is drawn. Every edge has a slot, so that one can be taken out or put in
/// without touching the others.
pub struct MeshUpload {
    pub vertices: Vec<GpuVertex>,
    pub triangle_indices: Vec<u32>,
    pub edge_indices: Vec<u32>,
    pub edges: Vec<EdgeKey>,
    pub edge_slots: EdgeSlots,
}

/// What of a mirror changed: vertices, faces and slots of edges.
#[derive(Debug)]
pub struct UploadChanges {
    pub vertices: Vec<u32>,
    pub faces: Vec<u32>,
    pub edges: Vec<u32>,
}

/// What of a mesh changed. The vertices and faces are given by their indices, the counts are those
/// after the change.
#[derive(Debug)]
pub struct MeshChangeSet {
    pub dirty_vertices: Vec<u32>,
    pub dirty_faces: Vec<u32>,
    pub removed_edges: Vec<EdgeKey>,
    pub added_edges: Vec<EdgeKey>,
    pub vertex_count: usize,
    pub face_count: usize,
}

/// Whether the ends of edges stand one after the other, and each edge has its slot.
pub open spec fn slotted(edges: Seq<EdgeKey>, ends: Seq<u32>, slots: Map<EdgeKey, u32>) -> bool {
    &&& edges.len() <= u32::MAX
    &&& edges.no_duplicates()
    &&& ends.len() == 2 * edges.len()
    &&& forall|i: int|
        0 <= i < edges.len() ==> {
            let edge = #[trigger] edges[i];
            &&& ends[2 * i] == edge.0
            &&& ends[2 * i + 1] == edge.1
            &&& slots.contains_key(edge)
            &&& slots[edge] == i
        }
    &&& forall|edge: EdgeKey| #[trigger]
        slots.contains_key(edge) ==> slots[edge] < edges.len() && edges[slots[edge] as int] == edge
}

impl MeshUpload {
    pub open spec fn well_formed(self) -> bool {
        slotted(self.edges@, self.edge_indices@, self.edge_slots@)
    }

    pub fn vertex<O: Arithmetic>(
        position: Point,
        normal: Option<Point>,
        mask: Option<u32>,
        ops: &O,
    ) -> (result: GpuVertex)
        requires
            ops.total(),
        ensures
            result == drawn_vertex(ops, position, normal, mask),
    {
        let up = Point { x: scalar::ZERO, y: scalar::ONE, z: scalar::ZERO };
        let normal = match normal {
            Some(normal) => if normal.is_finite() {
                normal
            } else {
                up
            },
            None => up,
        };
        let mask = match mask {
            Some(mask) => if scalar::is_finite(mask) {
                scalar::clamp(mask, scalar::ZERO, scalar::ONE)
            } else {
                scalar::ZERO
            },
            None => scalar::ZERO,
        };
        GpuVertex {
            position,
            mask,
            normal: arithmetic::unit(ops, normal),
            padding: scalar::ZERO,
        }
    }

    pub fn vertices<O: Arithmetic>(
        positions: &Vec<Point>,
        normals: &Vec<Point>,
        masks: &Vec<u32>,
        ops: &O,
    ) -> (result: Vec<GpuVertex>)
        requires
            ops.total(),
        ensures
            result@.len() == positions@.len(),
            forall|i: int|
                0 <= i < positions@.len() ==> #[trigger] result@[i] == drawn_vertex(
                    ops,
                    positions@[i],
                    item_at(normals@, i),
                    item_at(masks@, i),
                ),
    {
        let mut vertices: Vec<GpuVertex> = Vec::with_capacity(positions.len());
        let mut i: usize = 0;
        while i < positions.len()
            invariant
                i <= positions@.len(),
                ops.total(),
                vertices@.len() == i,
                forall|k: int|
                    0 <= k < i ==> #[trigger] vertices@[k] == drawn_vertex(
                        ops,
                        positions@[k],
                        item_at(normals@, k),
                        item_at(masks@, k),
                    ),
            decreases positions@.len() - i,
        {
            let normal = if i < normals.len() {
                Some(normals[i])
            } else {
                None
            };
            let mask = if i < masks.len() {
                Some(masks[i])
            } else {
                None
            };
            vertices.push(MeshUpload::vertex(positions[i], normal, mask, ops));
            i += 1;
        }
        vertices
    }

    /// A mirror of a mesh.
    pub fn from_mesh<O: Arithmetic>(mesh: &Mesh, ops: &O) -> (result: MeshUpload)
        requires
            ops.total(),
        ensures
            mirrors_vertices(ops, *mesh, result.vertices@),
            result.triangle_indices@ == drawn_corners(mesh.triangles@, mesh.positions@.len()),
            collections::edges_ascending(result.edges@),
            result.edges@.no_duplicates(),
            forall|edge: EdgeKey| #[trigger]
                result.edges@.contains(edge) <==> mesh.topology.edge_faces@.contains_key(edge),
            result.edge_indices@ == drawn_ends(result.edges@, mesh.positions@.len()),
            result.edges@.len() <= u32::MAX && all_ends_exist(
                result.edges@,
                mesh.positions@.len(),
            ) ==> result.well_formed(),
    {
        let vertices = MeshUpload::vertices(&mesh.positions, &mesh.normals, &mesh.mask, ops);
        let vertex_count = mesh.positions.len();
        let mut triangle_indices: Vec<u32> = Vec::new();
        let mut f: usize = 0;
        while f < mesh.triangles.len()
            invariant
                f <= mesh.triangles@.len(),
                vertex_count == mesh.positions@.len(),
                triangle_indices@ == drawn_corners(
                    mesh.triangles@.take(f as int),
                    vertex_count as nat,
                ),
            decreases mesh.triangles@.len() - f,
        {
            let triangle = mesh.triangles[f];
            let ghost before = triangle_indices@;
            assert(mesh.triangles@.take(f + 1).drop_last() =~= mesh.triangles@.take(f as int));
            if (triangle[0] as usize) < vertex_count && (triangle[1] as usize) < vertex_count && (
            triangle[2] as usize) < vertex_count {
                triangle_indices.push(triangle[0]);
                triangle_indices.push(triangle[1]);
                triangle_indices.push(triangle[2]);
                assert(triangle_indices@ =~= before + triangle@);
            }
            f += 1;
        }
        assert(mesh.triangles@.take(f as int) =~= mesh.triangles@);
        let mut edges = mesh.topology.edge_faces.edges();
        let ghost unordered = edges@;
        collections::sort_edges(&mut edges);
        proof {
            lemma_sorted_edges(unordered, edges@);
        }
        let mut edge_indices: Vec<u32> = Vec::new();
        let mut edge_slots = EdgeSlots::new();
        let mut e: usize = 0;
        let ghost fine = edges@.len() <= u32::MAX && all_ends_exist(
            edges@,
            mesh.positions@.len(),
        );
        while e < edges.len()
            invariant
                e <= edges@.len(),
                vertex_count == mesh.positions@.len(),
                edges@.no_duplicates(),
                fine == (edges@.len() <= u32::MAX && all_ends_exist(
                    edges@,
                    mesh.positions@.len(),
                )),
                edge_indices@ == drawn_ends(edges@.take(e as int), vertex_count as nat),
                fine ==> slotted(edges@.take(e as int), edge_indices@, edge_slots@),
            decreases edges@.len() - e,
        {
            let edge = edges[e];
            let ghost before = edge_indices@;
            let ghost slots = edge_slots@;
            let ghost front = edges@.take(e as int);
            let ghost more = edges@.take(e + 1);
            assert(more.drop_last() =~= front);
            assert(more =~= front.push(edge));
            if (edge.0 as usize) < vertex_count && (edge.1 as usize) < vertex_count {
                edge_indices.push(edge.0);
                edge_indices.push(edge.1);
                edge_slots.insert(edge, e as u32);
            }
            proof {
                if fine {
                    assert(edges@[e as int].0 < vertex_count);
                    lemma_slot_added(front, before, slots, edge);
                }
            }
            e += 1;
        }
        assert(edges@.take(e as int) =~= edges@);
        MeshUpload { vertices, triangle_indices, edge_indices, edges, edge_slots }
    }

    /// Brings the mirror up to date after part of a mesh changed, without looking at the rest.
    pub fn apply_changes<O: Arithmetic>(
        &mut self,
        mesh: &Mesh,
        changes: &MeshChangeSet,
        ops: &O,
    ) -> (result: UploadChanges)
        requires
            ops.total(),
            old(self).well_formed(),
            changes.well_formed(*mesh),
            changes.face_count <= usize::MAX / 3,
            old(self).edges@.len() + changes.added_edges@.len() <= u32::MAX,
        ensures
            final(self).well_formed(),
            updated_by(ops, *mesh, *changes, *old(self), *final(self), result),
    {
        let vertices = self.apply_vertices(mesh, changes, ops);
        let faces = self.apply_faces(mesh, changes);
        let edges = self.apply_edges(mesh, changes);
        UploadChanges { vertices, faces, edges }
    }

    fn apply_vertices<O: Arithmetic>(
        &mut self,
        mesh: &Mesh,
        changes: &MeshChangeSet,
        ops: &O,
    ) -> (result: Vec<u32>)
        requires
            ops.total(),
            changes.well_formed(*mesh),
        ensures
            final(self).triangle_indices == old(self).triangle_indices,
            final(self).edge_indices == old(self).edge_indices,
            final(self).edges == old(self).edges,
            final(self).edge_slots == old(self).edge_slots,
            final(self).vertices@.len() == changes.vertex_count,
            forall|i: int|
                0 <= i < changes.vertex_count ==> #[trigger] final(self).vertices@[i]
                    == if i <= u32::MAX && changes.dirty_vertices@.contains(i as u32) && i
                    < mesh.positions@.len() {
                    drawn_at(ops, *mesh, i)
                } else if i < old(self).vertices@.len() {
                    old(self).vertices@[i]
                } else {
                    blank_vertex()
                },
            result@ == changes.dirty_vertices@.filter(|v: u32| v < mesh.positions@.len()),
    {
        let blank = GpuVertex {
            position: Point { x: scalar::ZERO, y: scalar::ZERO, z: scalar::ZERO },
            mask: scalar::ZERO,
            normal: Point { x: scalar::ZERO, y: scalar::ZERO, z: scalar::ZERO },
            padding: scalar::ZERO,
        };
        let ghost before = self.vertices@;
        self.vertices.resize(changes.vertex_count, blank);
        let ghost resized = self.vertices@;
        assert forall|i: int| 0 <= i < changes.vertex_count implies #[trigger] resized[i] == if i
            < before.len() {
            before[i]
        } else {
            blank_vertex()
        } by {}
        let ghost exists_there = |v: u32| v < mesh.positions@.len();
        let mut dirty: Vec<u32> = Vec::new();
        let mut k: usize = 0;
        while k < changes.dirty_vertices.len()
            invariant
                k <= changes.dirty_vertices@.len(),
                ops.total(),
                changes.well_formed(*mesh),
                exists_there == (|v: u32| v < mesh.positions@.len()),
                dirty@ == changes.dirty_vertices@.take(k as int).filter(exists_there),
                self.triangle_indices == old(self).triangle_indices,
                self.edge_indices == old(self).edge_indices,
                self.edges == old(self).edges,
                self.edge_slots == old(self).edge_slots,
                self.vertices@.len() == changes.vertex_count,
                resized.len() == changes.vertex_count,
                forall|i: int|
                    0 <= i < changes.vertex_count ==> #[trigger] self.vertices@[i]
                        == if i <= u32::MAX && changes.dirty_vertices@.take(k as int).contains(i as u32) && i
                        < mesh.positions@.len() {
                        drawn_at(ops, *mesh, i)
                    } else {
                        resized[i]
                    },
            decreases changes.dirty_vertices@.len() - k,
        {
            let vertex = changes.dirty_vertices[k];
            let index = vertex as usize;
            proof {
                reveal(Seq::filter);
                assert(changes.dirty_vertices@.take(k + 1).drop_last()
                    =~= changes.dirty_vertices@.take(k as int));
                crate::pass::lemma_take_contains(changes.dirty_vertices@, k as int);
            }
            k += 1;
            if index >= mesh.positions.len() {
                continue;
            }
            assert(changes.dirty_vertices@[k - 1] < changes.vertex_count);
            let normal = if index < mesh.normals.len() {
                Some(mesh.normals[index])
            } else {
                None
            };
            let mask = if index < mesh.mask.len() {
                Some(mesh.mask[index])
            } else {
                None
            };
            self.vertices.set(index, MeshUpload::vertex(mesh.positions[index], normal, mask, ops));
            dirty.push(vertex);
        }
        assert(changes.dirty_vertices@.take(k as int) =~= changes.dirty_vertices@);
        dirty
    }

    fn apply_faces(&mut self, mesh: &Mesh, changes: &MeshChangeSet) -> (result: Vec<u32>)
        requires
            changes.well_formed(*mesh),
            changes.face_count <= usize::MAX / 3,
        ensures
            final(self).vertices == old(self).vertices,
            final(self).edge_indices == old(self).edge_indices,
            final(self).edges == old(self).edges,
            final(self).edge_slots == old(self).edge_slots,
            final(self).triangle_indices@.len() == 3 * changes.face_count,
            forall|f: int, k: int|
                0 <= f < changes.face_count && 0 <= k < 3 ==> #[trigger] corner_at(
                    final(self).triangle_indices@,
                    f,
                    k,
                ) == if f <= u32::MAX && changes.dirty_faces@.contains(f as u32) && f < mesh.triangles@.len() {
                    mesh.triangles@[f]@[k]
                } else if 3 * f + k < old(self).triangle_indices@.len() {
                    corner_at(old(self).triangle_indices@, f, k)
                } else {
                    0
                },
            result@ == changes.dirty_faces@.filter(|f: u32| f < mesh.triangles@.len()),
    {
        let ghost before = self.triangle_indices@;
        let count = changes.face_count;
        self.triangle_indices.resize(3 * count, 0);
        let ghost resized = self.triangle_indices@;
        assert forall|f: int, k: int|
            0 <= f < changes.face_count && 0 <= k < 3 implies #[trigger] corner_at(resized, f, k)
            == if 3 * f + k < before.len() {
            corner_at(before, f, k)
        } else {
            0
        } by {
            assert(resized[3 * f + k] == if 3 * f + k < before.len() {
                before[3 * f + k]
            } else {
                0
            });
        }
        let ghost exists_there = |f: u32| f < mesh.triangles@.len();
        let mut dirty: Vec<u32> = Vec::new();
        let mut n: usize = 0;
        while n < changes.dirty_faces.len()
            invariant
                n <= changes.dirty_faces@.len(),
                changes.well_formed(*mesh),
                count == changes.face_count,
                count <= usize::MAX / 3,
                exists_there == (|f: u32| f < mesh.triangles@.len()),
                dirty@ == changes.dirty_faces@.take(n as int).filter(exists_there),
                self.vertices == old(self).vertices,
                self.edge_indices == old(self).edge_indices,
                self.edges == old(self).edges,
                self.edge_slots == old(self).edge_slots,
                self.triangle_indices@.len() == 3 * count,
                forall|f: int, k: int|
                    0 <= f < count && 0 <= k < 3 ==> #[trigger] corner_at(
                        self.triangle_indices@,
                        f,
                        k,
                    ) == if f <= u32::MAX && changes.dirty_faces@.take(n as int).contains(f as u32) && f
                        < mesh.triangles@.len() {
                        mesh.triangles@[f]@[k]
                    } else {
                        corner_at(resized, f, k)
                    },
            decreases changes.dirty_faces@.len() - n,
        {
            let face = changes.dirty_faces[n];
            let index = face as usize;
            proof {
                reveal(Seq::filter);
                assert(changes.dirty_faces@.take(n + 1).drop_last() =~= changes.dirty_faces@.take(
                    n as int,
                ));
                crate::pass::lemma_take_contains(changes.dirty_faces@, n as int);
            }
            n += 1;
            if index >= mesh.triangles.len() {
                continue;
            }
            assert(changes.dirty_faces@[n - 1] < changes.face_count);
            let triangle = mesh.triangles[index];
            let ghost old_indices = self.triangle_indices@;
            self.triangle_indices.set(3 * index, triangle[0]);
            self.triangle_indices.set(3 * index + 1, triangle[1]);
            self.triangle_indices.set(3 * index + 2, triangle[2]);
            proof {
                let indices = self.triangle_indices@;
                assert forall|f: int, k: int| 0 <= f < count && 0 <= k < 3 implies #[trigger]
                corner_at(indices, f, k) == if f == index {
                    triangle@[k]
                } else {
                    corner_at(old_indices, f, k)
                } by {}
            }
            dirty.push(face);
        }
        assert(changes.dirty_faces@.take(n as int) =~= changes.dirty_faces@);
        dirty
    }

    fn apply_edges(&mut self, mesh: &Mesh, changes: &MeshChangeSet) -> (result: Vec<u32>)
        requires
            old(self).well_formed(),
            old(self).edges@.len() + changes.added_edges@.len() <= u32::MAX,
        ensures
            final(self).well_formed(),
            final(self).vertices == old(self).vertices,
            final(self).triangle_indices == old(self).triangle_indices,
            ({
                let kept = without_edges(old(self).edges@, changes.removed_edges@);
                &&& final(self).edges@ == with_edges(
                    kept,
                    changes.added_edges@,
                    mesh.topology.edge_faces@,
                )
                &&& result@ == emptied_slots(old(self).edges@, changes.removed_edges@)
                    + filled_slots(kept, changes.added_edges@, mesh.topology.edge_faces@)
            }),
    {
        let mut dirty: Vec<u32> = Vec::new();
        let ghost begun = self.edges@;
        let mut r: usize = 0;
        assert(changes.removed_edges@.take(0) =~= Seq::<EdgeKey>::empty());
        while r < changes.removed_edges.len()
            invariant
                r <= changes.removed_edges@.len(),
                self.well_formed(),
                self.vertices == old(self).vertices,
                self.triangle_indices == old(self).triangle_indices,
                begun == old(self).edges@,
                self.edges@ == without_edges(begun, changes.removed_edges@.take(r as int)),
                self.edges@.len() <= begun.len(),
                dirty@ == emptied_slots(begun, changes.removed_edges@.take(r as int)),
            decreases changes.removed_edges@.len() - r,
        {
            let edge = changes.removed_edges[r];
            assert(changes.removed_edges@.take(r + 1).drop_last()
                =~= changes.removed_edges@.take(r as int));
            r += 1;
            let ghost edges = self.edges@;
            let ghost ends = self.edge_indices@;
            let ghost slots = self.edge_slots@;
            let slot = match self.edge_slots.get(edge) {
                Some(slot) => slot,
                None => {
                    assert(!edges.contains(edge)) by {
                        if edges.contains(edge) {
                            let i = choose|i: int| 0 <= i < edges.len() && edges[i] == edge;
                            assert(slots.contains_key(edges[i]));
                        }
                    }
                    continue;
                },
            };
            proof {
                assert(slots.contains_key(edge));
                assert(edges[slot as int] == edge);
                lemma_slot_of(edges, ends, slots, edge);
            }
            self.edge_slots.remove(edge);
            let slot = slot as usize;
            let last = self.edges.len() - 1;
            let end_count = self.edge_indices.len();
            assert(2 * last + 2 == end_count);
            if slot != last {
                let moved = self.edges[last];
                self.edges.set(slot, moved);
                self.edge_indices.set(2 * slot, moved.0);
                self.edge_indices.set(2 * slot + 1, moved.1);
                self.edge_slots.insert(moved, slot as u32);
                dirty.push(slot as u32);
            }
            self.edges.pop();
            self.edge_indices.truncate(2 * last);
            proof {
                let moved = edges[last as int];
                assert(self.edges@ =~= edges.update(slot as int, moved).drop_last());
                assert(self.edge_indices@ =~= ends.update(2 * slot as int, moved.0).update(
                    2 * slot + 1,
                    moved.1,
                ).take(2 * last as int));
                lemma_slot_removed(
                    edges,
                    ends,
                    slots,
                    edge,
                    self.edges@,
                    self.edge_indices@,
                    self.edge_slots@,
                );
            }
        }
        assert(changes.removed_edges@.take(r as int) =~= changes.removed_edges@);
        let ghost kept = self.edges@;
        let ghost emptied = dirty@;
        let mut a: usize = 0;
        assert(changes.added_edges@.take(0) =~= Seq::<EdgeKey>::empty());
        assert(dirty@ =~= emptied + filled_slots(
            kept,
            changes.added_edges@.take(0),
            mesh.topology.edge_faces@,
        ));
        while a < changes.added_edges.len()
            invariant
                a <= changes.added_edges@.len(),
                self.well_formed(),
                self.vertices == old(self).vertices,
                self.triangle_indices == old(self).triangle_indices,
                kept.len() + changes.added_edges@.len() <= u32::MAX,
                self.edges@ == with_edges(
                    kept,
                    changes.added_edges@.take(a as int),
                    mesh.topology.edge_faces@,
                ),
                self.edges@.len() <= kept.len() + a,
                dirty@ == emptied + filled_slots(
                    kept,
                    changes.added_edges@.take(a as int),
                    mesh.topology.edge_faces@,
                ),
            decreases changes.added_edges@.len() - a,
        {
            let edge = changes.added_edges[a];
            assert(changes.added_edges@.take(a + 1).drop_last() =~= changes.added_edges@.take(
                a as int,
            ));
            a += 1;
            let ghost edges = self.edges@;
            let ghost ends = self.edge_indices@;
            let ghost slots = self.edge_slots@;
            let ghost listed = dirty@;
            proof {
                lemma_slots_name_edges(edges, ends, slots, edge);
            }
            if self.edge_slots.get(edge).is_some() || mesh.topology.edge_faces.faces(
                edge,
            ).is_none() {
                continue;
            }
            let slot = self.edges.len() as u32;
            self.edges.push(edge);
            self.edge_indices.push(edge.0);
            self.edge_indices.push(edge.1);
            self.edge_slots.insert(edge, slot);
            dirty.push(slot);
            proof {
                lemma_slot_added(edges, ends, slots, edge);
                assert(dirty@ =~= emptied + filled_slots(
                    kept,
                    changes.added_edges@.take(a as int),
                    mesh.topology.edge_faces@,
                ));
            }
        }
        assert(changes.added_edges@.take(a as int) =~= changes.added_edges@);
        dirty
    }
}

pub open spec fn corner_at(indices: Seq<u32>, face: int, corner: int) -> u32 {
    indices[3 * face + corner]
}

pub open spec fn mirrors_vertices<O: Arithmetic>(
    ops: &O,
    mesh: Mesh,
    vertices: Seq<GpuVertex>,
) -> bool {
    &&& vertices.len() == mesh.positions@.len()
    &&& forall|i: int|
        0 <= i < vertices.len() ==> #[trigger] vertices[i] == drawn_at(ops, mesh, i)
}

/// Whether a mirror was brought up to date by changes: what is listed and exists is as it is in
/// the mesh, what is new and not listed is blank, and the rest is as it was.
pub open spec fn updated_by<O: Arithmetic>(
    ops: &O,
    mesh: Mesh,
    changes: MeshChangeSet,
    before: MeshUpload,
    after: MeshUpload,
    dirty: UploadChanges,
) -> bool {
    let kept = without_edges(before.edges@, changes.removed_edges@);
    &&& after.vertices@.len() == changes.vertex_count
    &&& forall|i: int|
        0 <= i < changes.vertex_count ==> #[trigger] after.vertices@[i] == if i <= u32::MAX
            && changes.dirty_vertices@.contains(i as u32) && i < mesh.positions@.len() {
            drawn_at(ops, mesh, i)
        } else if i < before.vertices@.len() {
            before.vertices@[i]
        } else {
            blank_vertex()
        }
    &&& dirty.vertices@ == changes.dirty_vertices@.filter(|v: u32| v < mesh.positions@.len())
    &&& after.triangle_indices@.len() == 3 * changes.face_count
    &&& forall|f: int, k: int|
        0 <= f < changes.face_count && 0 <= k < 3 ==> #[trigger] corner_at(
            after.triangle_indices@,
            f,
            k,
        ) == if f <= u32::MAX && changes.dirty_faces@.contains(f as u32) && f
            < mesh.triangles@.len() {
            mesh.triangles@[f]@[k]
        } else if 3 * f + k < before.triangle_indices@.len() {
            corner_at(before.triangle_indices@, f, k)
        } else {
            0
        }
    &&& dirty.faces@ == changes.dirty_faces@.filter(|f: u32| f < mesh.triangles@.len())
    &&& after.edges@ == with_edges(kept, changes.added_edges@, mesh.topology.edge_faces@)
    &&& dirty.edges@ == emptied_slots(before.edges@, changes.removed_edges@) + filled_slots(
        kept,
        changes.added_edges@,
        mesh.topology.edge_faces@,
    )
}

/// Whether a mirror shows a mesh: its vertices, its faces and its edges.
pub open spec fn mirrors<O: Arithmetic>(ops: &O, mesh: Mesh, upload: MeshUpload) -> bool {
    &&& mirrors_vertices(ops, mesh, upload.vertices@)
    &&& upload.triangle_indices@.len() == 3 * mesh.triangles@.len()
    &&& forall|f: int, k: int|
        0 <= f < mesh.triangles@.len() && 0 <= k < 3 ==> #[trigger] corner_at(
            upload.triangle_indices@,
            f,
            k,
        ) == mesh.triangles@[f]@[k]
    &&& upload.edges@.no_duplicates()
    &&& forall|edge: EdgeKey| #[trigger]
        upload.edges@.contains(edge) <==> mesh.topology.edge_faces@.contains_key(edge)
}

/// Whether changes list a vertex, or it is drawn as it was.
pub open spec fn vertex_told<O: Arithmetic>(
    ops: &O,
    before: Mesh,
    after: Mesh,
    changes: MeshChangeSet,
    i: int,
) -> bool {
    ||| i <= u32::MAX && changes.dirty_vertices@.contains(i as u32)
    ||| i < before.positions@.len() && drawn_at(ops, after, i) == drawn_at(ops, before, i)
}

/// Whether changes list a face, or it is as it was.
pub open spec fn face_told(before: Mesh, after: Mesh, changes: MeshChangeSet, f: int) -> bool {
    ||| f <= u32::MAX && changes.dirty_faces@.contains(f as u32)
    ||| f < before.triangles@.len() && after.triangles@[f] == before.triangles@[f]
}

/// Whether changes list all in which two meshes differ.
pub open spec fn tells_apart<O: Arithmetic>(
    ops: &O,
    before: Mesh,
    after: Mesh,
    changes: MeshChangeSet,
) -> bool {
    &&& changes.vertex_count == after.positions@.len()
    &&& changes.face_count == after.triangles@.len()
    &&& forall|i: int|
        0 <= i < after.positions@.len() ==> #[trigger] vertex_told(ops, before, after, changes, i)
    &&& forall|f: int|
        0 <= f < after.triangles@.len() ==> #[trigger] face_told(before, after, changes, f)
    &&& forall|edge: EdgeKey| #[trigger]
        after.topology.edge_faces@.contains_key(edge) <==> (
        before.topology.edge_faces@.contains_key(edge) && !changes.removed_edges@.contains(edge))
            || (changes.added_edges@.contains(edge) && after.topology.edge_faces@.contains_key(
            edge,
        ))
}

proof fn lemma_without_edge(edges: Seq<EdgeKey>, edge: EdgeKey)
    requires
        edges.no_duplicates(),
    ensures
        without_edge(edges, edge).no_duplicates(),
        forall|e: EdgeKey| #[trigger]
            without_edge(edges, edge).contains(e) <==> edges.contains(e) && e != edge,
{
    let fewer = without_edge(edges, edge);
    if edges.contains(edge) {
        let slot = edges.index_of(edge);
        let last = edges.len() - 1;
        assert(edges[slot] == edge);
        assert forall|e: EdgeKey| #[trigger] fewer.contains(e) <==> edges.contains(e) && e
            != edge by {
            if fewer.contains(e) {
                let i = choose|i: int| 0 <= i < fewer.len() && fewer[i] == e;
                if i == slot {
                    assert(edges[last] == e);
                } else {
                    assert(edges[i] == e);
                }
            }
            if edges.contains(e) && e != edge {
                let i = choose|i: int| 0 <= i < edges.len() && edges[i] == e;
                if i == last {
                    assert(fewer[slot] == e);
                } else {
                    assert(fewer[i] == e);
                }
            }
        }
    }
}

proof fn lemma_without_edges(edges: Seq<EdgeKey>, removed: Seq<EdgeKey>)
    requires
        edges.no_duplicates(),
    ensures
        without_edges(edges, removed).no_duplicates(),
        forall|e: EdgeKey| #[trigger]
            without_edges(edges, removed).contains(e) <==> edges.contains(e) && !removed.contains(
                e,
            ),
    decreases removed.len(),
{
    if removed.len() > 0 {
        let front = removed.drop_last();
        lemma_without_edges(edges, front);
        lemma_without_edge(without_edges(edges, front), removed.last());
        assert forall|e: EdgeKey| #[trigger]
            without_edges(edges, removed).contains(e) <==> edges.contains(e) && !removed.contains(
            e,
        ) by {
            lemma_last_or_front(removed, e);
            assert(without_edges(edges, front).contains(e) <==> edges.contains(e)
                && !front.contains(e));
        }
    }
}

proof fn lemma_last_or_front(edges: Seq<EdgeKey>, edge: EdgeKey)
    requires
        edges.len() > 0,
    ensures
        edges.contains(edge) <==> edges.drop_last().contains(edge) || edge == edges.last(),
{
    let front = edges.drop_last();
    if front.contains(edge) {
        let i = choose|i: int| 0 <= i < front.len() && front[i] == edge;
        assert(edges[i] == edge);
    }
    assert(edges[edges.len() - 1] == edges.last());
    if edges.contains(edge) && edge != edges.last() {
        let i = choose|i: int| 0 <= i < edges.len() && edges[i] == edge;
        assert(front[i] == edge);
    }
}

proof fn lemma_with_edges(
    edges: Seq<EdgeKey>,
    added: Seq<EdgeKey>,
    faces: Map<EdgeKey, Seq<u32>>,
)
    requires
        edges.no_duplicates(),
    ensures
        with_edges(edges, added, faces).no_duplicates(),
        forall|e: EdgeKey| #[trigger]
            with_edges(edges, added, faces).contains(e) <==> edges.contains(e) || (added.contains(e)
                && faces.contains_key(e)),
    decreases added.len(),
{
    if added.len() > 0 {
        let front = added.drop_last();
        lemma_with_edges(edges, front, faces);
        let before = with_edges(edges, front, faces);
        let after = with_edges(edges, added, faces);
        let edge = added.last();
        assert forall|e: EdgeKey| #[trigger] after.contains(e) <==> edges.contains(e) || (
        added.contains(e) && faces.contains_key(e)) by {
            lemma_last_or_front(added, e);
            assert(before.contains(e) <==> edges.contains(e) || (front.contains(e)
                && faces.contains_key(e)));
            if after.len() > before.len() {
                lemma_last_or_front(after, e);
                assert(after.drop_last() =~= before);
            }
        }
    }
}

/// A mirror of a mesh that is brought up to date by changes that list all in which the mesh has
/// become different mirrors the mesh again.
pub proof fn a_partial_update_mirrors_the_mesh<O: Arithmetic>(
    ops: &O,
    old_mesh: Mesh,
    mesh: Mesh,
    changes: MeshChangeSet,
    before: MeshUpload,
    after: MeshUpload,
    dirty: UploadChanges,
)
    requires
        mirrors(ops, old_mesh, before),
        tells_apart(ops, old_mesh, mesh, changes),
        updated_by(ops, mesh, changes, before, after, dirty),
    ensures
        mirrors(ops, mesh, after),
{
    assert forall|i: int| 0 <= i < after.vertices@.len() implies #[trigger] after.vertices@[i]
        == drawn_at(ops, mesh, i) by {
        let listed = i <= u32::MAX && changes.dirty_vertices@.contains(i as u32);
        if !listed {
            assert(vertex_told(ops, old_mesh, mesh, changes, i));
            assert(before.vertices@[i] == drawn_at(ops, old_mesh, i));
        }
    }
    assert forall|f: int, k: int|
        0 <= f < mesh.triangles@.len() && 0 <= k < 3 implies #[trigger] corner_at(
        after.triangle_indices@,
        f,
        k,
    ) == mesh.triangles@[f]@[k] by {
        let listed = f <= u32::MAX && changes.dirty_faces@.contains(f as u32);
        if !listed {
            assert(face_told(old_mesh, mesh, changes, f));
            assert(corner_at(before.triangle_indices@, f, k) == old_mesh.triangles@[f]@[k]);
        }
    }
    let kept = without_edges(before.edges@, changes.removed_edges@);
    lemma_without_edges(before.edges@, changes.removed_edges@);
    lemma_with_edges(kept, changes.added_edges@, mesh.topology.edge_faces@);
    assert forall|edge: EdgeKey| #[trigger]
        after.edges@.contains(edge) <==> mesh.topology.edge_faces@.contains_key(edge) by {
        assert(kept.contains(edge) <==> before.edges@.contains(edge)
            && !changes.removed_edges@.contains(edge));
    }
}

/// A mirror made from a mesh mirrors it.
pub proof fn a_new_mirror_mirrors_the_mesh<O: Arithmetic>(ops: &O, mesh: Mesh, upload: MeshUpload)
    requires
        mesh.well_formed(),
        mirrors_vertices(ops, mesh, upload.vertices@),
        upload.triangle_indices@ == drawn_corners(mesh.triangles@, mesh.positions@.len()),
        upload.edges@.no_duplicates(),
        forall|edge: EdgeKey| #[trigger]
            upload.edges@.contains(edge) <==> mesh.topology.edge_faces@.contains_key(edge),
    ensures
        mirrors(ops, mesh, upload),
{
    lemma_all_drawn(mesh.triangles@, mesh.positions@.len());
}

proof fn lemma_all_drawn(triangles: Seq<[u32; 3]>, vertex_count: nat)
    requires
        crate::topology::well_indexed(triangles, vertex_count),
    ensures
        drawn_corners(triangles, vertex_count).len() == 3 * triangles.len(),
        forall|f: int, k: int|
            0 <= f < triangles.len() && 0 <= k < 3 ==> #[trigger] corner_at(
                drawn_corners(triangles, vertex_count),
                f,
                k,
            ) == triangles[f]@[k],
    decreases triangles.len(),
{
    if triangles.len() > 0 {
        let front = triangles.drop_last();
        assert forall|i: int| 0 <= i < front.len() implies {
            let triangle = #[trigger] front[i];
            &&& triangle@[0] < vertex_count
            &&& triangle@[1] < vertex_count
            &&& triangle@[2] < vertex_count
            &&& crate::topology::distinct_corners(triangle)
        } by {
            assert(front[i] == triangles[i]);
        }
        lemma_all_drawn(front, vertex_count);
        let last = triangles[triangles.len() - 1];
        assert(crate::topology::distinct_corners(last));
        let before = drawn_corners(front, vertex_count);
        let all = drawn_corners(triangles, vertex_count);
        assert(all == before + last@);
        assert forall|f: int, k: int| 0 <= f < triangles.len() && 0 <= k < 3 implies #[trigger]
        corner_at(all, f, k) == triangles[f]@[k] by {
            if f < front.len() {
                assert(corner_at(before, f, k) == front[f]@[k]);
            }
        }
    }
}

/// Whether both ends of each edge exist.
pub open spec fn all_ends_exist(edges: Seq<EdgeKey>, vertex_count: nat) -> bool {
    forall|i: int|
        0 <= i < edges.len() ==> (#[trigger] edges[i]).0 < vertex_count && edges[i].1
            < vertex_count
}

impl MeshChangeSet {
    /// Whether the counts cover what is listed and exists in a mesh.
    pub open spec fn well_formed(self, mesh: Mesh) -> bool {
        &&& forall|i: int|
            0 <= i < self.dirty_vertices@.len() && (#[trigger] self.dirty_vertices@[i])
                < mesh.positions@.len() ==> self.dirty_vertices@[i] < self.vertex_count
        &&& forall|i: int|
            0 <= i < self.dirty_faces@.len() && (#[trigger] self.dirty_faces@[i])
                < mesh.triangles@.len() ==> self.dirty_faces@[i] < self.face_count
    }
}

/// Edges without one of them, whose slot the last edge takes.
pub open spec fn without_edge(edges: Seq<EdgeKey>, edge: EdgeKey) -> Seq<EdgeKey> {
    if edges.contains(edge) {
        edges.update(edges.index_of(edge), edges.last()).drop_last()
    } else {
        edges
    }
}

pub open spec fn without_edges(edges: Seq<EdgeKey>, removed: Seq<EdgeKey>) -> Seq<EdgeKey>
    decreases removed.len(),
{
    if removed.len() == 0 {
        edges
    } else {
        without_edge(without_edges(edges, removed.drop_last()), removed.last())
    }
}

/// The slots that another edge has taken.
pub open spec fn emptied_slots(edges: Seq<EdgeKey>, removed: Seq<EdgeKey>) -> Seq<u32>
    decreases removed.len(),
{
    if removed.len() == 0 {
        Seq::empty()
    } else {
        let front = emptied_slots(edges, removed.drop_last());
        let before = without_edges(edges, removed.drop_last());
        let edge = removed.last();
        if before.contains(edge) && before.index_of(edge) != before.len() - 1 {
            front.push(before.index_of(edge) as u32)
        } else {
            front
        }
    }
}

/// Edges with those that are new and belong to a mesh.
pub open spec fn with_edges(
    edges: Seq<EdgeKey>,
    added: Seq<EdgeKey>,
    faces: Map<EdgeKey, Seq<u32>>,
) -> Seq<EdgeKey>
    decreases added.len(),
{
    if added.len() == 0 {
        edges
    } else {
        let before = with_edges(edges, added.drop_last(), faces);
        let edge = added.last();
        if before.contains(edge) || !faces.contains_key(edge) {
            before
        } else {
            before.push(edge)
        }
    }
}

/// The slots that those edges get.
pub open spec fn filled_slots(
    edges: Seq<EdgeKey>,
    added: Seq<EdgeKey>,
    faces: Map<EdgeKey, Seq<u32>>,
) -> Seq<u32>
    decreases added.len(),
{
    if added.len() == 0 {
        Seq::empty()
    } else {
        let front = filled_slots(edges, added.drop_last(), faces);
        let before = with_edges(edges, added.drop_last(), faces);
        let edge = added.last();
        if before.contains(edge) || !faces.contains_key(edge) {
            front
        } else {
            front.push(before.len() as u32)
        }
    }
}

proof fn lemma_sorted_edges(before: Seq<EdgeKey>, after: Seq<EdgeKey>)
    requires
        before.no_duplicates(),
        before.to_multiset() == after.to_multiset(),
    ensures
        after.no_duplicates(),
        forall|edge: EdgeKey| #[trigger] after.contains(edge) <==> before.contains(edge),
{
    before.to_multiset_ensures();
    after.to_multiset_ensures();
    before.lemma_multiset_has_no_duplicates();
    after.lemma_multiset_has_no_duplicates_conv();
    assert forall|edge: EdgeKey| #[trigger] after.contains(edge) <==> before.contains(edge) by {
        assert(after.contains(edge) <==> after.to_multiset().count(edge) > 0);
        assert(before.contains(edge) <==> before.to_multiset().count(edge) > 0);
    }
}

proof fn lemma_slots_name_edges(
    edges: Seq<EdgeKey>,
    ends: Seq<u32>,
    slots: Map<EdgeKey, u32>,
    edge: EdgeKey,
)
    requires
        slotted(edges, ends, slots),
    ensures
        slots.contains_key(edge) <==> edges.contains(edge),
{
    if edges.contains(edge) {
        let i = choose|i: int| 0 <= i < edges.len() && edges[i] == edge;
        assert(slots.contains_key(edges[i]));
    }
    if slots.contains_key(edge) {
        assert(edges[slots[edge] as int] == edge);
    }
}

proof fn lemma_slot_of(
    edges: Seq<EdgeKey>,
    ends: Seq<u32>,
    slots: Map<EdgeKey, u32>,
    edge: EdgeKey,
)
    requires
        slotted(edges, ends, slots),
        slots.contains_key(edge),
    ensures
        edges.contains(edge),
        edges.index_of(edge) == slots[edge],
        slots[edge] < edges.len(),
{
    assert(edges[slots[edge] as int] == edge);
    let i = edges.index_of(edge);
    assert(0 <= i < edges.len() && edges[i] == edge);
    assert(slots[edges[i]] == i);
}

proof fn lemma_slot_added(
    edges: Seq<EdgeKey>,
    ends: Seq<u32>,
    slots: Map<EdgeKey, u32>,
    edge: EdgeKey,
)
    requires
        slotted(edges, ends, slots),
        !edges.contains(edge),
        edges.len() < u32::MAX,
    ensures
        slotted(
            edges.push(edge),
            ends.push(edge.0).push(edge.1),
            slots.insert(edge, edges.len() as u32),
        ),
{
    let more = edges.push(edge);
    let more_ends = ends.push(edge.0).push(edge.1);
    let more_slots = slots.insert(edge, edges.len() as u32);
    assert forall|i: int| 0 <= i < more.len() implies {
        let e = #[trigger] more[i];
        &&& more_ends[2 * i] == e.0
        &&& more_ends[2 * i + 1] == e.1
        &&& more_slots.contains_key(e)
        &&& more_slots[e] == i
    } by {
        if i < edges.len() {
            assert(more[i] == edges[i]);
            assert(edges.contains(edges[i]));
        }
    }
    assert forall|e: EdgeKey| #[trigger] more_slots.contains_key(e) implies more_slots[e]
        < more.len() && more[more_slots[e] as int] == e by {
        if e != edge {
            assert(slots.contains_key(e));
        }
    }
    assert(more.no_duplicates()) by {
        assert forall|i: int, j: int|
            0 <= i < more.len() && 0 <= j < more.len() && i != j implies more[i] != more[j] by {
            if i < edges.len() {
                assert(edges.contains(edges[i]));
            }
            if j < edges.len() {
                assert(edges.contains(edges[j]));
            }
        }
    }
}

proof fn lemma_slot_removed(
    edges: Seq<EdgeKey>,
    ends: Seq<u32>,
    slots: Map<EdgeKey, u32>,
    edge: EdgeKey,
    fewer: Seq<EdgeKey>,
    fewer_ends: Seq<u32>,
    fewer_slots: Map<EdgeKey, u32>,
)
    requires
        slotted(edges, ends, slots),
        slots.contains_key(edge),
        ({
            let slot = slots[edge] as int;
            let last = edges.len() - 1;
            let moved = edges[last];
            &&& fewer == edges.update(slot, moved).drop_last()
            &&& fewer_ends == ends.update(2 * slot, moved.0).update(2 * slot + 1, moved.1).take(
                2 * last,
            )
            &&& fewer_slots == if slot == last {
                slots.remove(edge)
            } else {
                slots.remove(edge).insert(moved, slot as u32)
            }
        }),
    ensures
        slotted(fewer, fewer_ends, fewer_slots),
{
    let slot = slots[edge] as int;
    let last = edges.len() - 1;
    let moved = edges[last];
    assert(edges[slot] == edge);
    assert(slots[edges[last]] == last);
    assert forall|i: int| 0 <= i < fewer.len() implies {
        let e = #[trigger] fewer[i];
        &&& fewer_ends[2 * i] == e.0
        &&& fewer_ends[2 * i + 1] == e.1
        &&& fewer_slots.contains_key(e)
        &&& fewer_slots[e] == i
    } by {
        if i == slot {
            assert(fewer[i] == moved);
        } else {
            assert(fewer[i] == edges[i]);
            assert(edges[i] != edge);
            assert(edges[i] != moved);
        }
    }
    assert forall|e: EdgeKey| #[trigger] fewer_slots.contains_key(e) implies fewer_slots[e]
        < fewer.len() && fewer[fewer_slots[e] as int] == e by {
        if e != moved || slot == last {
            assert(slots.contains_key(e));
            assert(edges[slots[e] as int] == e);
            assert(slots[e] != slot);
            assert(slots[e] != last);
        }
    }
    assert(fewer.no_duplicates()) by {
        assert forall|i: int, j: int|
            0 <= i < fewer.len() && 0 <= j < fewer.len() && i != j implies fewer[i] != fewer[j] by {
            assert(fewer_slots[fewer[i]] == i);
            assert(fewer_slots[fewer[j]] == j);
        }
    }
}

/// The number of indices, as far as it can be drawn.
pub open spec fn spec_index_count(count: nat) -> u32 {
    if count > u32::MAX {
        u32::MAX
    } else {
        count as u32
    }
}

pub fn index_count(indices: &Vec<u32>) -> (result: u32)
    ensures
        result == spec_index_count(indices@.len()),
{
    if indices.len() > u32::MAX as usize {
        u32::MAX
    } else {
        indices.len() as u32
    }
}

/// Ranges of indices by their first and the one after their last.
pub open spec fn merged(dirty: Seq<u32>) -> Seq<(int, int)>
    decreases dirty.len(),
{
    if dirty.len() == 0 {
        Seq::empty()
    } else {
        let front = merged(dirty.drop_last());
        let index = dirty.last() as int;
        if front.len() > 0 && index <= front.last().1 + MAX_UNCHANGED_GAP {
            front.drop_last().push((front.last().0, index + 1))
        } else {
            front.push((index, index + 1))
        }
    }
}

/// Whether ranges have given firsts and ends.
pub open spec fn ranges_are(ranges: Seq<Range<usize>>, wanted: Seq<(int, int)>) -> bool {
    &&& ranges.len() == wanted.len()
    &&& forall|i: int|
        0 <= i < ranges.len() ==> (#[trigger] ranges[i]).start == wanted[i].0 && ranges[i].end
            == wanted[i].1
}

/// Leaves out of changed indices those that do not exist and those that come twice, puts them in
/// order, and joins them to ranges over gaps that are not worth a write of their own.
pub fn coalesced_vertex_ranges(dirty_vertices: &mut Vec<u32>, vertex_count: usize) -> (result: Vec<
    Range<usize>,
>)
    ensures
        collections::strictly_ascending(final(dirty_vertices)@),
        forall|v: u32| #[trigger]
            final(dirty_vertices)@.contains(v) <==> old(dirty_vertices)@.contains(v) && v
                < vertex_count,
        ranges_are(result@, merged(final(dirty_vertices)@)),
{
    let mut kept: Vec<u32> = Vec::new();
    let mut i: usize = 0;
    while i < dirty_vertices.len()
        invariant
            i <= dirty_vertices@.len(),
            forall|v: u32| #[trigger]
                kept@.contains(v) <==> dirty_vertices@.take(i as int).contains(v) && v
                    < vertex_count,
        decreases dirty_vertices@.len() - i,
    {
        let vertex = dirty_vertices[i];
        let ghost before = kept@;
        proof {
            crate::pass::lemma_take_contains(dirty_vertices@, i as int);
        }
        if (vertex as usize) < vertex_count {
            kept.push(vertex);
            assert forall|v: u32| #[trigger] kept@.contains(v) <==> before.contains(v) || v
                == vertex by {
                collections::push_contains(before, vertex, v);
            }
        }
        i += 1;
    }
    assert(dirty_vertices@.take(i as int) =~= dirty_vertices@);
    collections::sort_and_dedup(&mut kept);
    let mut ranges: Vec<Range<usize>> = Vec::new();
    let mut k: usize = 0;
    assert(kept@.take(0) =~= Seq::<u32>::empty());
    while k < kept.len()
        invariant
            k <= kept@.len(),
            collections::strictly_ascending(kept@),
            forall|v: u32| #[trigger] kept@.contains(v) ==> v < vertex_count,
            ranges_are(ranges@, merged(kept@.take(k as int))),
            k > 0 ==> ranges@.len() > 0 && ranges@.last().end == kept@[k - 1] + 1,
        decreases kept@.len() - k,
    {
        let vertex = kept[k];
        let index = vertex as usize;
        assert(kept@.contains(kept@[k as int]));
        assert(kept@.take(k + 1).drop_last() =~= kept@.take(k as int));
        let count = ranges.len();
        let ghost before = ranges@;
        if count > 0 && vertex <= kept[k - 1].saturating_add(1).saturating_add(MAX_UNCHANGED_GAP) {
            let start = ranges[count - 1].start;
            ranges.set(count - 1, Range { start, end: index + 1 });
        } else {
            ranges.push(Range { start: index, end: index + 1 });
        }
        k += 1;
    }
    assert(kept@.take(k as int) =~= kept@);
    *dirty_vertices = kept;
    ranges
}

/// Whether one of some ranges holds an index.
pub open spec fn held(ranges: Seq<(int, int)>, index: int) -> bool {
    exists|r: int| 0 <= r < ranges.len() && (#[trigger] ranges[r]).0 <= index < ranges[r].1
}

/// Whether a range begins and ends with changed indices.
pub open spec fn trimmed(range: (int, int), dirty: Seq<u32>) -> bool {
    &&& range.0 < range.1
    &&& exists|i: int| 0 <= i < dirty.len() && #[trigger] dirty[i] == range.0
    &&& exists|i: int| 0 <= i < dirty.len() && #[trigger] dirty[i] == range.1 - 1
}

proof fn lemma_last_range(dirty: Seq<u32>)
    requires
        collections::strictly_ascending(dirty),
        dirty.len() > 0,
    ensures
        merged(dirty).len() > 0,
        merged(dirty).last().1 == dirty.last() + 1,
        merged(dirty).last().0 <= dirty.last(),
        0 <= merged(dirty).last().0,
    decreases dirty.len(),
{
    let shorter = dirty.drop_last();
    if shorter.len() > 0 {
        lemma_shorter(dirty);
        lemma_last_range(shorter);
        assert(dirty[shorter.len() - 1] < dirty[dirty.len() - 1]);
    } else {
        assert(merged(shorter) == Seq::<(int, int)>::empty());
    }
}

proof fn lemma_shorter(dirty: Seq<u32>)
    requires
        collections::strictly_ascending(dirty),
        dirty.len() > 0,
    ensures
        collections::strictly_ascending(dirty.drop_last()),
{
    let shorter = dirty.drop_last();
    assert forall|i: int, j: int| 0 <= i < j < shorter.len() implies shorter[i] < shorter[j] by {
        assert(dirty[i] < dirty[j]);
    }
}

/// Every changed index lies in a range.
pub proof fn ranges_hold_what_changed(dirty: Seq<u32>, i: int)
    requires
        collections::strictly_ascending(dirty),
        0 <= i < dirty.len(),
    ensures
        held(merged(dirty), dirty[i] as int),
    decreases dirty.len(),
{
    let shorter = dirty.drop_last();
    let front = merged(shorter);
    let all = merged(dirty);
    lemma_last_range(dirty);
    if i < shorter.len() {
        lemma_shorter(dirty);
        ranges_hold_what_changed(shorter, i);
        lemma_last_range(shorter);
        let r = choose|r: int|
            0 <= r < front.len() && (#[trigger] front[r]).0 <= shorter[i] < front[r].1;
        assert(dirty[i] < dirty[dirty.len() - 1]);
        assert(all[r].0 <= dirty[i] < all[r].1);
    } else {
        let r = all.len() - 1;
        assert(all[r].0 <= dirty[i] < all[r].1);
    }
}

/// Ranges begin and end with changed indices.
pub proof fn ranges_are_trimmed(dirty: Seq<u32>, r: int)
    requires
        collections::strictly_ascending(dirty),
        0 <= r < merged(dirty).len(),
    ensures
        trimmed(merged(dirty)[r], dirty),
    decreases dirty.len(),
{
    if dirty.len() > 0 {
        let shorter = dirty.drop_last();
        let front = merged(shorter);
        let all = merged(dirty);
        let index = dirty[dirty.len() - 1] as int;
        lemma_last_range(dirty);
        lemma_shorter(dirty);
        if r < front.len() {
            ranges_are_trimmed(shorter, r);
            let range = front[r];
            let a = choose|a: int| 0 <= a < shorter.len() && #[trigger] shorter[a] == range.0;
            let b = choose|b: int| 0 <= b < shorter.len() && #[trigger] shorter[b] == range.1 - 1;
            assert(dirty[a] == range.0);
            assert(dirty[b] == range.1 - 1);
            assert(dirty[a] < dirty[dirty.len() - 1]);
        }
    }
}

/// Ranges lie farther apart than the gap that is not worth a write of its own.
pub proof fn ranges_lie_apart(dirty: Seq<u32>, r: int, s: int)
    requires
        collections::strictly_ascending(dirty),
        0 <= r < s < merged(dirty).len(),
    ensures
        merged(dirty)[r].1 + MAX_UNCHANGED_GAP < merged(dirty)[s].0,
    decreases dirty.len(),
{
    if dirty.len() > 0 {
        let shorter = dirty.drop_last();
        let front = merged(shorter);
        lemma_shorter(dirty);
        if s < front.len() {
            ranges_lie_apart(shorter, r, s);
        } else if r < front.len() - 1 {
            ranges_lie_apart(shorter, r, front.len() - 1);
            ranges_are_trimmed(shorter, front.len() - 1);
        }
    }
}

/// Whether so many elements fit into a buffer.
pub fn buffer_capacity_fits(element_count: usize, element_bytes: u64, capacity: u64) -> (result:
    bool)
    ensures
        result == (element_count * element_bytes <= capacity),
{
    let count = element_count as u64;
    match count.checked_mul(element_bytes) {
        Some(required) => required <= capacity,
        None => false,
    }
}

/// Whether a capacity is the smallest power of two, of at least four, for some bytes; where there
/// is none it is the bytes themselves.
pub open spec fn roomy(required: u64, capacity: u64) -> bool {
    if required > 0x8000_0000_0000_0000 {
        capacity == required
    } else {
        &&& capacity >= required
        &&& capacity >= 4
        &&& is_power_of_two(capacity as nat)
        &&& capacity == 4 || capacity / 2 < required
    }
}

pub open spec fn is_power_of_two(value: nat) -> bool
    decreases value,
{
    value == 1 || (value > 1 && value % 2 == 0 && is_power_of_two(value / 2))
}

/// The capacity for a buffer that must be made anew.
pub fn roomy_capacity(required: u64) -> (result: u64)
    ensures
        roomy(required, result),
        result >= required,
{
    if required > 0x8000_0000_0000_0000 {
        return required;
    }
    let mut capacity: u64 = 4;
    assert(is_power_of_two(4)) by {
        reveal_with_fuel(is_power_of_two, 3);
    }
    while capacity < required
        invariant
            required <= 0x8000_0000_0000_0000,
            4 <= capacity <= 0x8000_0000_0000_0000,
            is_power_of_two(capacity as nat),
            capacity == 4 || capacity / 2 < required,
        decreases 0x8000_0000_0000_0000 - capacity,
    {
        proof {
            lemma_doubled(capacity as nat);
            lemma_below_the_largest(capacity as nat);
        }
        capacity = 2 * capacity;
        assert(capacity / 2 < required);
    }
    capacity
}

proof fn lemma_doubled(value: nat)
    requires
        is_power_of_two(value),
    ensures
        is_power_of_two(2 * value),
{
    assert(2 * value / 2 == value);
}

/// A power of two below the largest of a word is at most half of it.
proof fn lemma_below_the_largest(value: nat)
    requires
        is_power_of_two(value),
        value < 0x8000_0000_0000_0000,
    ensures
        value <= 0x4000_0000_0000_0000,
{
    vstd::arithmetic::power2::lemma2_to64_rest();
    lemma_powers(value, 63);
}

proof fn lemma_powers(value: nat, exponent: nat)
    requires
        is_power_of_two(value),
        value < vstd::arithmetic::power2::pow2(exponent),
        exponent > 0,
    ensures
        2 * value <= vstd::arithmetic::power2::pow2(exponent),
    decreases exponent,
{
    vstd::arithmetic::power2::lemma_pow2_unfold(exponent);
    if value > 1 {
        if exponent == 1 {
            vstd::arithmetic::power2::lemma2_to64();
        } else {
            lemma_powers(value / 2, (exponent - 1) as nat);
        }
    } else {
        vstd::arithmetic::power2::lemma_pow2_pos((exponent - 1) as nat);
    }
}

/// What is to be drawn, and what of it has changed since it was last sent.
pub struct RenderInput {
    pub vertex_revision: u64,
    pub topology_revision: u64,
    pub camera_revision: u64,
    pub mesh: MeshUpload,
    pub prepared: bool,
    pub full_vertex_upload: bool,
    pub full_topology_upload: bool,
    pub dirty_vertices: Vec<u32>,
    pub dirty_faces: Vec<u32>,
    pub dirty_edges: Vec<u32>,
}

pub open spec fn next_revision(revision: u64) -> u64 {
    if revision == u64::MAX {
        0
    } else {
        (revision + 1) as u64
    }
}

fn following(revision: u64) -> (result: u64)
    ensures
        result == next_revision(revision),
{
    if revision == u64::MAX {
        0
    } else {
        revision + 1
    }
}

impl RenderInput {
    pub open spec fn nothing_dirty(self) -> bool {
        &&& self.dirty_vertices@.len() == 0
        &&& self.dirty_faces@.len() == 0
        &&& self.dirty_edges@.len() == 0
    }

    pub fn new() -> (result: RenderInput)
        ensures
            result.vertex_revision == 0 && result.topology_revision == 0 && result.camera_revision
                == 0,
            result.mesh.vertices@.len() == 0 && result.mesh.triangle_indices@.len() == 0,
            result.mesh.edges@.len() == 0 && result.mesh.well_formed(),
            !result.prepared && !result.full_vertex_upload && !result.full_topology_upload,
            result.nothing_dirty(),
    {
        RenderInput {
            vertex_revision: 0,
            topology_revision: 0,
            camera_revision: 0,
            mesh: MeshUpload {
                vertices: Vec::new(),
                triangle_indices: Vec::new(),
                edge_indices: Vec::new(),
                edges: Vec::new(),
                edge_slots: EdgeSlots::new(),
            },
            prepared: false,
            full_vertex_upload: false,
            full_topology_upload: false,
            dirty_vertices: Vec::new(),
            dirty_faces: Vec::new(),
            dirty_edges: Vec::new(),
        }
    }

    /// Takes a whole new mesh, of which everything has to be sent.
    pub fn update_mesh(&mut self, upload: MeshUpload)
        ensures
            final(self).mesh == upload,
            !final(self).prepared,
            final(self).full_vertex_upload && final(self).full_topology_upload,
            final(self).nothing_dirty(),
            final(self).vertex_revision == next_revision(old(self).vertex_revision),
            final(self).topology_revision == next_revision(old(self).topology_revision),
            final(self).camera_revision == old(self).camera_revision,
    {
        self.mesh = upload;
        self.prepared = false;
        self.full_vertex_upload = true;
        self.full_topology_upload = true;
        self.dirty_vertices.clear();
        self.dirty_faces.clear();
        self.dirty_edges.clear();
        self.vertex_revision = following(self.vertex_revision);
        self.topology_revision = following(self.topology_revision);
    }

    /// Takes a whole new mesh whose buffers are already filled, so that nothing has to be sent.
    pub fn install_prepared_mesh(&mut self, upload: MeshUpload)
        ensures
            final(self).mesh == upload,
            final(self).prepared,
            !final(self).full_vertex_upload && !final(self).full_topology_upload,
            final(self).nothing_dirty(),
            final(self).vertex_revision == next_revision(old(self).vertex_revision),
            final(self).topology_revision == next_revision(old(self).topology_revision),
            final(self).camera_revision == old(self).camera_revision,
    {
        self.mesh = upload;
        self.prepared = true;
        self.full_vertex_upload = false;
        self.full_topology_upload = false;
        self.dirty_vertices.clear();
        self.dirty_faces.clear();
        self.dirty_edges.clear();
        self.vertex_revision = following(self.vertex_revision);
        self.topology_revision = following(self.topology_revision);
    }

    /// Mirrors the vertices of a mesh that changed. Where the number of vertices is another one,
    /// all of them are.
    pub fn update_vertices_partial<O: Arithmetic>(
        &mut self,
        mesh: &Mesh,
        changed_vertices: &Vec<u32>,
        ops: &O,
    )
        requires
            ops.total(),
            mesh.positions@.len() <= u32::MAX,
        ensures
            final(self).mesh.triangle_indices == old(self).mesh.triangle_indices,
            final(self).mesh.edge_indices == old(self).mesh.edge_indices,
            final(self).mesh.edges == old(self).mesh.edges,
            final(self).mesh.edge_slots == old(self).mesh.edge_slots,
            final(self).topology_revision == old(self).topology_revision,
            final(self).camera_revision == old(self).camera_revision,
            final(self).prepared == old(self).prepared,
            final(self).full_topology_upload == old(self).full_topology_upload,
            final(self).dirty_faces == old(self).dirty_faces,
            final(self).dirty_edges == old(self).dirty_edges,
            if changed_vertices@.len() == 0 {
                *final(self) == *old(self)
            } else if old(self).mesh.vertices@.len() != mesh.positions@.len() {
                &&& mirrors_vertices(ops, *mesh, final(self).mesh.vertices@)
                &&& final(self).full_vertex_upload
                &&& final(self).dirty_vertices@.len() == 0
                &&& final(self).vertex_revision == next_revision(old(self).vertex_revision)
            } else {
                let present = changed_vertices@.filter(|v: u32| v < mesh.positions@.len());
                &&& final(self).mesh.vertices@.len() == mesh.positions@.len()
                &&& forall|i: int|
                    0 <= i < mesh.positions@.len() ==> #[trigger] final(self).mesh.vertices@[i]
                        == if changed_vertices@.contains(i as u32) {
                        drawn_at(ops, *mesh, i)
                    } else {
                        old(self).mesh.vertices@[i]
                    }
                &&& final(self).full_vertex_upload == old(self).full_vertex_upload
                &&& final(self).dirty_vertices@ == old(self).dirty_vertices@ + present
                &&& final(self).vertex_revision == if present.len() > 0 {
                    next_revision(old(self).vertex_revision)
                } else {
                    old(self).vertex_revision
                }
            },
    {
        if changed_vertices.len() == 0 {
            return;
        }
        if self.mesh.vertices.len() != mesh.positions.len() {
            self.mesh.vertices = MeshUpload::vertices(
                &mesh.positions,
                &mesh.normals,
                &mesh.mask,
                ops,
            );
            self.full_vertex_upload = true;
            self.dirty_vertices.clear();
            self.vertex_revision = following(self.vertex_revision);
            return;
        }
        let ghost begun = *self;
        let ghost exists_there = |v: u32| v < mesh.positions@.len();
        let mut k: usize = 0;
        let mut changed = false;
        assert(self.dirty_vertices@ =~= begun.dirty_vertices@ + changed_vertices@.take(0).filter(
            exists_there,
        )) by {
            reveal(Seq::filter);
        }
        while k < changed_vertices.len()
            invariant
                k <= changed_vertices@.len(),
                ops.total(),
                mesh.positions@.len() <= u32::MAX,
                exists_there == (|v: u32| v < mesh.positions@.len()),
                begun.mesh.vertices@.len() == mesh.positions@.len(),
                self.mesh.vertices@.len() == mesh.positions@.len(),
                forall|i: int|
                    0 <= i < mesh.positions@.len() ==> #[trigger] self.mesh.vertices@[i]
                        == if changed_vertices@.take(k as int).contains(i as u32) {
                        drawn_at(ops, *mesh, i)
                    } else {
                        begun.mesh.vertices@[i]
                    },
                self.dirty_vertices@ == begun.dirty_vertices@ + changed_vertices@.take(
                    k as int,
                ).filter(exists_there),
                changed == (changed_vertices@.take(k as int).filter(exists_there).len() > 0),
                self.mesh.triangle_indices == begun.mesh.triangle_indices,
                self.mesh.edge_indices == begun.mesh.edge_indices,
                self.mesh.edges == begun.mesh.edges,
                self.mesh.edge_slots == begun.mesh.edge_slots,
                self.vertex_revision == begun.vertex_revision,
                self.topology_revision == begun.topology_revision,
                self.camera_revision == begun.camera_revision,
                self.prepared == begun.prepared,
                self.full_vertex_upload == begun.full_vertex_upload,
                self.full_topology_upload == begun.full_topology_upload,
                self.dirty_faces == begun.dirty_faces,
                self.dirty_edges == begun.dirty_edges,
            decreases changed_vertices@.len() - k,
        {
            let vertex = changed_vertices[k];
            let index = vertex as usize;
            let ghost listed = self.dirty_vertices@;
            proof {
                reveal(Seq::filter);
                assert(changed_vertices@.take(k + 1).drop_last() =~= changed_vertices@.take(
                    k as int,
                ));
                crate::pass::lemma_take_contains(changed_vertices@, k as int);
            }
            k += 1;
            if index >= mesh.positions.len() {
                continue;
            }
            let normal = if index < mesh.normals.len() {
                Some(mesh.normals[index])
            } else {
                None
            };
            let mask = if index < mesh.mask.len() {
                Some(mesh.mask[index])
            } else {
                None
            };
            let drawn = MeshUpload::vertex(mesh.positions[index], normal, mask, ops);
            self.mesh.vertices.set(index, drawn);
            self.dirty_vertices.push(vertex);
            changed = true;
            assert(self.dirty_vertices@ =~= begun.dirty_vertices@ + changed_vertices@.take(
                k as int,
            ).filter(exists_there));
        }
        assert(changed_vertices@.take(k as int) =~= changed_vertices@);
        if changed {
            self.vertex_revision = following(self.vertex_revision);
        }
    }

    /// Mirrors changes of a mesh. Where its buffers are prepared and not yet in use, they are given
    /// up, and all of it is mirrored.
    pub fn update_mesh_partial<O: Arithmetic>(
        &mut self,
        mesh: &Mesh,
        changes: &MeshChangeSet,
        ops: &O,
    )
        requires
            ops.total(),
            old(self).mesh.well_formed(),
            changes.well_formed(*mesh),
            changes.face_count <= usize::MAX / 3,
            old(self).mesh.edges@.len() + changes.added_edges@.len() <= u32::MAX,
        ensures
            final(self).vertex_revision == next_revision(old(self).vertex_revision),
            final(self).topology_revision == next_revision(old(self).topology_revision),
            final(self).camera_revision == old(self).camera_revision,
            !final(self).prepared,
            if old(self).prepared {
                &&& mirrors_vertices(ops, *mesh, final(self).mesh.vertices@)
                &&& final(self).mesh.triangle_indices@ == drawn_corners(
                    mesh.triangles@,
                    mesh.positions@.len(),
                )
                &&& final(self).mesh.edges@.no_duplicates()
                &&& forall|edge: EdgeKey| #[trigger]
                    final(self).mesh.edges@.contains(edge)
                        <==> mesh.topology.edge_faces@.contains_key(edge)
                &&& final(self).full_vertex_upload && final(self).full_topology_upload
                &&& final(self).dirty_vertices == old(self).dirty_vertices
                &&& final(self).dirty_faces == old(self).dirty_faces
                &&& final(self).dirty_edges == old(self).dirty_edges
            } else {
                &&& final(self).mesh.well_formed()
                &&& final(self).full_vertex_upload == old(self).full_vertex_upload
                &&& final(self).full_topology_upload == old(self).full_topology_upload
                &&& exists|dirty: UploadChanges| #[trigger]
                    updated_by(ops, *mesh, *changes, old(self).mesh, final(self).mesh, dirty)
                        && final(self).dirty_vertices@ == old(self).dirty_vertices@
                        + dirty.vertices@ && final(self).dirty_faces@ == old(self).dirty_faces@
                        + dirty.faces@ && final(self).dirty_edges@ == old(self).dirty_edges@
                        + dirty.edges@
            },
    {
        if self.prepared {
            self.mesh = MeshUpload::from_mesh(mesh, ops);
            self.prepared = false;
            self.full_vertex_upload = true;
            self.full_topology_upload = true;
            self.vertex_revision = following(self.vertex_revision);
            self.topology_revision = following(self.topology_revision);
            return;
        }
        let mut dirty = self.mesh.apply_changes(mesh, changes, ops);
        let ghost listed = dirty;
        self.dirty_vertices.append(&mut dirty.vertices);
        self.dirty_faces.append(&mut dirty.faces);
        self.dirty_edges.append(&mut dirty.edges);
        self.vertex_revision = following(self.vertex_revision);
        self.topology_revision = following(self.topology_revision);
        assert(updated_by(ops, *mesh, *changes, old(self).mesh, self.mesh, listed));
    }

    /// Notes that the camera has changed.
    pub fn update_camera(&mut self)
        ensures
            *final(self) == (RenderInput {
                camera_revision: next_revision(old(self).camera_revision),
                ..*old(self)
            }),
    {
        self.camera_revision = following(self.camera_revision);
    }
}

/// What was sent last. Nothing has been where a revision is the largest number.
#[derive(Clone, Copy, Debug, PartialEq, Eq, Structural)]
pub struct SentRevisions {
    pub vertices: u64,
    pub topology: u64,
    pub camera: u64,
}

/// What to send: nothing, all, or what is listed as changed.
#[derive(Debug)]
pub enum SendVertices {
    Nothing,
    All,
    Changed(Vec<u32>),
}

/// What to send: nothing, all, or the faces and the slots of edges that are listed as changed.
#[derive(Debug)]
pub enum SendTopology {
    Nothing,
    All,
    Changed { faces: Vec<u32>, edges: Vec<u32> },
}

/// What to do before the next picture is drawn.
#[derive(Debug)]
pub struct SendPlan {
    pub install_prepared: bool,
    pub vertices: SendVertices,
    pub topology: SendTopology,
    pub camera: bool,
}

/// Whether a plan sends what changed since something was last sent, and no more.
pub open spec fn plans(input: RenderInput, sent: SentRevisions, plan: SendPlan) -> bool {
    let stale_vertices = !input.prepared && input.vertex_revision != sent.vertices;
    let stale_topology = !input.prepared && input.topology_revision != sent.topology;
    &&& plan.install_prepared == input.prepared
    &&& match plan.vertices {
        SendVertices::Nothing => !stale_vertices,
        SendVertices::All => stale_vertices && (input.full_vertex_upload || sent.vertices
            == u64::MAX),
        SendVertices::Changed(vertices) => {
            &&& stale_vertices && !input.full_vertex_upload && sent.vertices != u64::MAX
            &&& vertices == input.dirty_vertices
        },
    }
    &&& match plan.topology {
        SendTopology::Nothing => !stale_topology,
        SendTopology::All => stale_topology && (input.full_topology_upload || sent.topology
            == u64::MAX),
        SendTopology::Changed { faces, edges } => {
            &&& stale_topology && !input.full_topology_upload && sent.topology != u64::MAX
            &&& faces == input.dirty_faces
            &&& edges == input.dirty_edges
        },
    }
    &&& plan.camera == (input.camera_revision != sent.camera)
}

impl RenderInput {
    /// Plans what to send. What is planned counts as sent.
    pub fn plan(&mut self, sent: &mut SentRevisions) -> (result: SendPlan)
        ensures
            plans(*old(self), *old(sent), result),
            *final(sent) == (SentRevisions {
                vertices: old(self).vertex_revision,
                topology: old(self).topology_revision,
                camera: old(self).camera_revision,
            }),
            final(self).mesh == old(self).mesh,
            final(self).vertex_revision == old(self).vertex_revision,
            final(self).topology_revision == old(self).topology_revision,
            final(self).camera_revision == old(self).camera_revision,
            !final(self).prepared,
            old(self).prepared ==> final(self).nothing_dirty() && !final(self).full_vertex_upload
                && !final(self).full_topology_upload,
            !(result.vertices is Nothing) ==> final(self).dirty_vertices@.len() == 0
                && !final(self).full_vertex_upload,
            !(result.topology is Nothing) ==> final(self).dirty_faces@.len() == 0 && final(
                self).dirty_edges@.len() == 0 && !final(self).full_topology_upload,
    {
        let install_prepared = self.prepared;
        if install_prepared {
            self.prepared = false;
            self.full_vertex_upload = false;
            self.full_topology_upload = false;
            self.dirty_vertices.clear();
            self.dirty_faces.clear();
            self.dirty_edges.clear();
            sent.vertices = self.vertex_revision;
            sent.topology = self.topology_revision;
        }
        let vertices = if self.vertex_revision != sent.vertices {
            let full = self.full_vertex_upload || sent.vertices == u64::MAX;
            let mut dirty: Vec<u32> = Vec::new();
            std::mem::swap(&mut dirty, &mut self.dirty_vertices);
            self.full_vertex_upload = false;
            sent.vertices = self.vertex_revision;
            if full {
                SendVertices::All
            } else {
                SendVertices::Changed(dirty)
            }
        } else {
            SendVertices::Nothing
        };
        let topology = if self.topology_revision != sent.topology {
            let full = self.full_topology_upload || sent.topology == u64::MAX;
            let mut faces: Vec<u32> = Vec::new();
            std::mem::swap(&mut faces, &mut self.dirty_faces);
            let mut edges: Vec<u32> = Vec::new();
            std::mem::swap(&mut edges, &mut self.dirty_edges);
            self.full_topology_upload = false;
            sent.topology = self.topology_revision;
            if full {
                SendTopology::All
            } else {
                SendTopology::Changed { faces, edges }
            }
        } else {
            SendTopology::Nothing
        };
        let camera = self.camera_revision != sent.camera;
        if camera {
            sent.camera = self.camera_revision;
        }
        SendPlan { install_prepared, vertices, topology, camera }
    }
}

/// After a plan nothing is left to send until something changes.
pub proof fn a_plan_leaves_nothing_to_send(input: RenderInput, sent: SentRevisions, plan: SendPlan)
    requires
        plans(input, sent, plan),
        sent.vertices == input.vertex_revision,
        sent.topology == input.topology_revision,
        sent.camera == input.camera_revision,
    ensures
        plan.vertices is Nothing,
        plan.topology is Nothing,
        !plan.camera,
{
}

/// The ranges to write into a buffer, or all of it.
#[derive(Debug)]
pub enum BufferWrites {
    All,
    Ranges(Vec<Range<usize>>),
}

/// The elements in ranges.
pub open spec fn covered_by(ranges: Seq<(int, int)>) -> int
    decreases ranges.len(),
{
    if ranges.len() == 0 {
        0
    } else {
        covered_by(ranges.drop_last()) + (ranges.last().1 - ranges.last().0)
    }
}

proof fn lemma_covered(dirty: Seq<u32>, count: nat, r: int)
    requires
        collections::strictly_ascending(dirty),
        forall|v: u32| #[trigger] dirty.contains(v) ==> v < count,
        0 <= r <= merged(dirty).len(),
    ensures
        0 <= covered_by(merged(dirty).take(r)) <= count,
        r > 0 ==> covered_by(merged(dirty).take(r)) <= merged(dirty)[r - 1].1,
        r > 0 ==> merged(dirty)[r - 1].1 <= count,
    decreases r,
{
    let ranges = merged(dirty);
    if r > 0 {
        lemma_covered(dirty, count, r - 1);
        assert(ranges.take(r).drop_last() =~= ranges.take(r - 1));
        ranges_are_trimmed(dirty, r - 1);
        let i = choose|i: int|
            0 <= i < dirty.len() && #[trigger] dirty[i] == ranges[r - 1].1 - 1;
        assert(dirty.contains(dirty[i]));
        let j = choose|j: int| 0 <= j < dirty.len() && #[trigger] dirty[j] == ranges[r - 1].0;
        if r > 1 {
            ranges_lie_apart(dirty, r - 2, r - 1);
        }
    } else {
        assert(ranges.take(0) =~= Seq::<(int, int)>::empty());
    }
}

/// The elements that writing changed elements would send.
pub open spec fn ordered(dirty: Seq<u32>, count: nat, kept: Seq<u32>) -> bool {
    &&& collections::strictly_ascending(kept)
    &&& forall|v: u32| #[trigger] kept.contains(v) <==> dirty.contains(v) && v < count
}

/// Decides how to write changed vertices into a buffer: all of them where there is no buffer or it
/// is too small, or where a quarter or too many pieces would be written anyway.
pub fn vertex_writes(
    vertex_count: usize,
    capacity: Option<u64>,
    dirty_vertices: Vec<u32>,
) -> (result: BufferWrites)
    ensures
        exists|kept: Seq<u32>| #[trigger]
            ordered(dirty_vertices@, vertex_count as nat, kept) && match result {
                BufferWrites::All => {
                    ||| capacity is None
                    ||| vertex_count * GPU_VERTEX_BYTES > capacity->0
                    ||| covered_by(merged(kept)) > vertex_count / 4
                    ||| merged(kept).len() > MAX_WRITES
                },
                BufferWrites::Ranges(ranges) => {
                    &&& capacity is Some && vertex_count * GPU_VERTEX_BYTES <= capacity->0
                    &&& covered_by(merged(kept)) <= vertex_count / 4
                    &&& merged(kept).len() <= MAX_WRITES
                    &&& ranges_are(ranges@, merged(kept))
                },
            },
{
    let mut dirty = dirty_vertices;
    let ghost given = dirty@;
    let ranges = coalesced_vertex_ranges(&mut dirty, vertex_count);
    let ghost kept = dirty@;
    assert(ordered(given, vertex_count as nat, kept));
    let fits = match capacity {
        Some(capacity) => buffer_capacity_fits(vertex_count, GPU_VERTEX_BYTES, capacity),
        None => false,
    };
    if !fits {
        return BufferWrites::All;
    }
    let mut sent: usize = 0;
    let mut r: usize = 0;
    assert(merged(kept).take(0) =~= Seq::<(int, int)>::empty());
    while r < ranges.len()
        invariant
            r <= ranges@.len(),
            ranges_are(ranges@, merged(kept)),
            collections::strictly_ascending(kept),
            forall|v: u32| #[trigger] kept.contains(v) ==> v < vertex_count,
            sent == covered_by(merged(kept).take(r as int)),
        decreases ranges@.len() - r,
    {
        proof {
            lemma_covered(kept, vertex_count as nat, r + 1);
            lemma_covered(kept, vertex_count as nat, r as int);
            ranges_are_trimmed(kept, r as int);
            assert(merged(kept).take(r + 1).drop_last() =~= merged(kept).take(r as int));
        }
        sent = sent + (ranges[r].end - ranges[r].start);
        r += 1;
    }
    assert(merged(kept).take(r as int) =~= merged(kept));
    if sent > vertex_count / 4 || ranges.len() > MAX_WRITES {
        return BufferWrites::All;
    }
    BufferWrites::Ranges(ranges)
}

/// Decides how to write changed faces and edges: all of them where a buffer is missing or too
/// small, else the ranges that they make.
pub fn topology_writes(
    triangle_index_count: usize,
    edge_index_count: usize,
    triangle_capacity: Option<u64>,
    edge_capacity: Option<u64>,
    dirty_faces: Vec<u32>,
    dirty_edges: Vec<u32>,
) -> (result: Option<(Vec<Range<usize>>, Vec<Range<usize>>)>)
    ensures
        match result {
            None => {
                ||| triangle_capacity is None || edge_capacity is None
                ||| triangle_index_count * INDEX_BYTES > triangle_capacity->0
                ||| edge_index_count * INDEX_BYTES > edge_capacity->0
            },
            Some((faces, edges)) => {
                &&& triangle_capacity is Some && edge_capacity is Some
                &&& triangle_index_count * INDEX_BYTES <= triangle_capacity->0
                &&& edge_index_count * INDEX_BYTES <= edge_capacity->0
                &&& exists|kept: Seq<u32>| #[trigger]
                    ordered(dirty_faces@, triangle_index_count as nat / 3, kept) && ranges_are(
                        faces@,
                        merged(kept),
                    )
                &&& exists|kept: Seq<u32>| #[trigger]
                    ordered(dirty_edges@, edge_index_count as nat / 2, kept) && ranges_are(
                        edges@,
                        merged(kept),
                    )
            },
        },
{
    let triangles_fit = match triangle_capacity {
        Some(capacity) => buffer_capacity_fits(triangle_index_count, INDEX_BYTES, capacity),
        None => false,
    };
    let edges_fit = match edge_capacity {
        Some(capacity) => buffer_capacity_fits(edge_index_count, INDEX_BYTES, capacity),
        None => false,
    };
    if !triangles_fit || !edges_fit {
        return None;
    }
    let mut faces = dirty_faces;
    let ghost given_faces = faces@;
    let face_ranges = coalesced_vertex_ranges(&mut faces, triangle_index_count / 3);
    assert(ordered(given_faces, triangle_index_count as nat / 3, faces@));
    let mut edges = dirty_edges;
    let ghost given_edges = edges@;
    let edge_ranges = coalesced_vertex_ranges(&mut edges, edge_index_count / 2);
    assert(ordered(given_edges, edge_index_count as nat / 2, edges@));
    Some((face_ranges, edge_ranges))
}

/// Decides whether a buffer has to be made anew for some bytes, and how large.
pub fn buffer_to_make(required: u64, capacity: Option<u64>) -> (result: Option<u64>)
    ensures
        match result {
            None => required == 0 || (capacity is Some && required <= capacity->0),
            Some(made) => {
                &&& required > 0
                &&& capacity is None || required > capacity->0
                &&& roomy(required, made)
            },
        },
{
    if required == 0 {
        return None;
    }
    match capacity {
        Some(capacity) => if required > capacity {
            Some(roomy_capacity(required))
        } else {
            None
        },
        None => Some(roomy_capacity(required)),
    }
}

/// What drawing knows of the camera and of the material.
#[derive(Clone, Copy, Debug, PartialEq, Eq, Structural)]
pub struct CameraUniform {
    pub view_projection: Matrix,
    pub eye: Clip,
    pub camera_right: Clip,
    pub camera_up: Clip,
    pub material: Clip,
}

/// The bit pattern of `0.1`, how strongly curvature is shown.
pub const CURVATURE_CONTRAST: u32 = 0x3dcc_cccd;

/// The bit pattern of `0.055`, how strongly highlights are.
pub const SPECULAR_STRENGTH: u32 = 0x3d61_47ae;

/// The bit pattern of `0.025`, how strongly the rim is.
pub const RIM_STRENGTH: u32 = 0x3ccc_cccd;

/// A direction, or an axis where it has none.
pub open spec fn direction_or<O: Arithmetic>(ops: &O, direction: Point, axis: Point) -> Clip {
    let unit = match arithmetic::spec_direction(ops, direction) {
        Some(unit) => unit,
        None => axis,
    };
    Clip { x: unit.x, y: unit.y, z: unit.z, w: scalar::ZERO }
}

fn unit_or<O: Arithmetic>(ops: &O, direction: Point, axis: Point) -> (result: Clip)
    requires
        ops.total(),
    ensures
        result == direction_or(ops, direction, axis),
{
    let unit = match arithmetic::direction(ops, direction) {
        Some(unit) => unit,
        None => axis,
    };
    Clip { x: unit.x, y: unit.y, z: unit.z, w: scalar::ZERO }
}

impl CameraUniform {
    /// What drawing knows of what a camera shows.
    pub fn from_frame<O: Arithmetic>(frame: &CameraFrame, ops: &O) -> (result: CameraUniform)
        requires
            ops.total(),
        ensures
            result == (CameraUniform {
                view_projection: frame.view_projection,
                eye: Clip { x: frame.eye.x, y: frame.eye.y, z: frame.eye.z, w: scalar::ONE },
                camera_right: direction_or(
                    ops,
                    frame.right,
                    Point { x: scalar::ONE, y: scalar::ZERO, z: scalar::ZERO },
                ),
                camera_up: direction_or(
                    ops,
                    frame.up,
                    Point { x: scalar::ZERO, y: scalar::ONE, z: scalar::ZERO },
                ),
                material: Clip {
                    x: CURVATURE_CONTRAST,
                    y: SPECULAR_STRENGTH,
                    z: RIM_STRENGTH,
                    w: scalar::ZERO,
                },
            }),
    {
        let x = Point { x: scalar::ONE, y: scalar::ZERO, z: scalar::ZERO };
        let y = Point { x: scalar::ZERO, y: scalar::ONE, z: scalar::ZERO };
        CameraUniform {
            view_projection: frame.view_projection,
            eye: Clip { x: frame.eye.x, y: frame.eye.y, z: frame.eye.z, w: scalar::ONE },
            camera_right: unit_or(ops, frame.right, x),
            camera_up: unit_or(ops, frame.up, y),
            material: Clip {
                x: CURVATURE_CONTRAST,
                y: SPECULAR_STRENGTH,
                z: RIM_STRENGTH,
                w: scalar::ZERO,
            },
        }
    }
}

} // verus!
