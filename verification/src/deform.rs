//! Moving vertices of a mesh whose faces stay as they are.
use crate::bvh;
use crate::collections;
use crate::geometry::Geometry;
use crate::mesh;
use crate::mesh::Mesh;
use crate::refit;
use crate::scalar::Point;
use crate::topology;
use vstd::prelude::*;

verus! {

/// Whether a face has one of some vertices as a corner.
pub open spec fn touched(triangles: Seq<[u32; 3]>, face: u32, vertices: Seq<u32>) -> bool {
    face < triangles.len() && exists|v: u32|
        #[trigger] vertices.contains(v) && topology::is_corner(triangles[face as int], v)
}

/// Whether a vertex is a corner of one of some faces.
pub open spec fn at_faces(triangles: Seq<[u32; 3]>, vertex: u32, faces: Seq<u32>) -> bool {
    exists|f: u32|
        #[trigger] faces.contains(f) && f < triangles.len() && topology::is_corner(
            triangles[f as int],
            vertex,
        )
}

/// Whether two meshes agree in everything but normals and boxes.
pub open spec fn same_but_normals_and_boxes(a: Mesh, b: Mesh) -> bool {
    &&& a.positions == b.positions
    &&& a.triangles == b.triangles
    &&& a.mask == b.mask
    &&& a.topology.vertex_neighbors == b.topology.vertex_neighbors
    &&& a.topology.vertex_triangles == b.topology.vertex_triangles
    &&& a.topology.edge_faces == b.topology.edge_faces
    &&& a.topology.boundary_vertices == b.topology.boundary_vertices
    &&& a.topology.non_manifold_vertices == b.topology.non_manifold_vertices
}

impl Mesh {
    /// The faces around some vertices, in ascending order; what is no vertex has none.
    pub(crate) fn faces_around(&self, vertices: &Vec<u32>) -> (result: Vec<u32>)
        requires
            self.well_formed(),
        ensures
            collections::strictly_ascending(result@),
            forall|f: u32| #[trigger]
                result@.contains(f) <==> touched(self.triangles@, f, vertices@),
    {
        let mut faces: Vec<u32> = Vec::new();
        let mut k: usize = 0;
        while k < vertices.len()
            invariant
                k <= vertices@.len(),
                self.well_formed(),
                forall|f: u32| #[trigger]
                    faces@.contains(f) <==> touched(
                        self.triangles@,
                        f,
                        vertices@.take(k as int),
                    ),
            decreases vertices@.len() - k,
        {
            let vertex = vertices[k];
            let ghost before = faces@;
            let ghost seen = vertices@.take(k as int);
            let ghost more = vertices@.take(k + 1);
            if (vertex as usize) < self.topology.vertex_triangles.len() {
                let own = self.topology.vertex_triangles[vertex as usize].as_slice();
                let mut j: usize = 0;
                while j < own.len()
                    invariant
                        j <= own@.len(),
                        faces@ == before + own@.take(j as int),
                    decreases own@.len() - j,
                {
                    faces.push(own[j]);
                    assert(own@.take(j + 1) =~= own@.take(j as int).push(own@[j as int]));
                    assert(faces@ =~= before + own@.take(j + 1));
                    j += 1;
                }
                assert(own@.take(j as int) =~= own@);
                assert(own@ == topology::incident_faces(self.triangles@, vertex));
            }
            proof {
                lemma_touched_next(self.triangles@, seen, vertex, more);
                topology::lemma_faces_with(
                    self.triangles@,
                    |triangle: [u32; 3]| topology::is_corner(triangle, vertex),
                );
                let own = topology::incident_faces(self.triangles@, vertex);
                assert forall|f: u32| #[trigger] faces@.contains(f) <==> touched(
                    self.triangles@,
                    f,
                    more,
                ) by {
                    assert(before.contains(f) <==> touched(self.triangles@, f, seen));
                    assert(own.contains(f) <==> f < self.triangles@.len() && topology::is_corner(
                        self.triangles@[f as int],
                        vertex,
                    ));
                    if vertex < self.positions@.len() {
                        assert(faces@ == before + own);
                        collections::concat_contains(before, own, f);
                    } else {
                        assert(faces@ == before);
                        if own.contains(f) {
                            assert(topology::is_corner(self.triangles@[f as int], vertex));
                        }
                    }
                }
            }
            k += 1;
        }
        assert(vertices@.take(k as int) =~= vertices@);
        collections::sort_and_dedup(&mut faces);
        faces
    }

    /// The corners of some faces, in ascending order; what is no face has none.
    pub(crate) fn corners_of_faces(&self, faces: &Vec<u32>) -> (result: Vec<u32>)
        ensures
            collections::strictly_ascending(result@),
            forall|v: u32| #[trigger]
                result@.contains(v) <==> at_faces(self.triangles@, v, faces@),
    {
        let mut vertices: Vec<u32> = Vec::new();
        let mut k: usize = 0;
        while k < faces.len()
            invariant
                k <= faces@.len(),
                forall|v: u32| #[trigger]
                    vertices@.contains(v) <==> at_faces(self.triangles@, v, faces@.take(k as int)),
            decreases faces@.len() - k,
        {
            let face = faces[k];
            let ghost before = vertices@;
            let ghost seen = faces@.take(k as int);
            let ghost more = faces@.take(k + 1);
            if (face as usize) < self.triangles.len() {
                let triangle = self.triangles[face as usize];
                vertices.push(triangle[0]);
                vertices.push(triangle[1]);
                vertices.push(triangle[2]);
            }
            proof {
                assert(more =~= seen.push(face));
                assert forall|v: u32| #[trigger] vertices@.contains(v) <==> at_faces(
                    self.triangles@,
                    v,
                    more,
                ) by {
                    assert(before.contains(v) <==> at_faces(self.triangles@, v, seen));
                    lemma_at_faces_next(self.triangles@, v, seen, face, more);
                    if face < self.triangles@.len() {
                        let triangle = self.triangles@[face as int];
                        collections::push_contains(before, triangle@[0], v);
                        collections::push_contains(before.push(triangle@[0]), triangle@[1], v);
                        collections::push_contains(
                            before.push(triangle@[0]).push(triangle@[1]),
                            triangle@[2],
                            v,
                        );
                    }
                }
            }
            k += 1;
        }
        assert(faces@.take(k as int) =~= faces@);
        collections::sort_and_dedup(&mut vertices);
        vertices
    }

    /// Brings normals and boxes up to date around faces whose corners have moved, and returns the
    /// vertices of these faces, whose normals may have changed.
    pub fn update_deformed_faces<G: Geometry>(
        &mut self,
        affected_faces: &Vec<u32>,
        geometry: &G,
    ) -> (result: Vec<u32>)
        requires
            geometry.total(),
            old(self).well_formed(),
        ensures
            final(self).well_formed(),
            same_but_normals_and_boxes(*old(self), *final(self)),
            collections::strictly_ascending(result@),
            forall|v: u32| #[trigger]
                result@.contains(v) <==> at_faces(
                    old(self).triangles@,
                    v,
                    affected_faces@,
                ),
            forall|v: int|
                0 <= v < final(self).normals@.len() ==> #[trigger] final(self).normals@[v]
                    == if result@.contains(v as u32) {
                    mesh::vertex_normal(
                        geometry,
                        old(self).positions@,
                        old(self).triangles@,
                        v as u32,
                        false,
                    )
                } else {
                    old(self).normals@[v]
                },
            old(self).triangles@.len() > 0 ==> refit::same_tree(
                old(self).topology.bvh,
                final(self).topology.bvh,
            ),
            refit::fits_but_for(
                old(self).topology.bvh,
                old(self).positions@,
                old(self).triangles@,
                affected_faces@,
            ) ==> final(self).topology.bvh.fits(final(self).positions@, final(self).triangles@),
    {
        if affected_faces.len() == 0 {
            let none: Vec<u32> = Vec::new();
            proof {
                assert forall|i: int|
                    0 <= i < self.topology.bvh.nodes@.len() && refit::fits_but_for(
                        self.topology.bvh,
                        self.positions@,
                        self.triangles@,
                        affected_faces@,
                    ) implies #[trigger] bvh::node_tight(
                    self.topology.bvh.nodes@,
                    self.topology.bvh.leaf_faces@,
                    self.positions@,
                    self.triangles@,
                    i,
                ) by {
                    assert(refit::clear_of(self.topology.bvh, i, affected_faces@));
                }
            }
            return none;
        }
        let ghost begun = *self;
        let normal_vertices = self.corners_of_faces(affected_faces);
        proof {
            mesh::lemma_indexed(self.triangles@, self.positions@.len());
        }
        let mut k: usize = 0;
        while k < normal_vertices.len()
            invariant
                k <= normal_vertices@.len(),
                begun == *old(self),
                begun.well_formed(),
                geometry.total(),
                bvh::indexed(begun.triangles@, begun.positions@.len()),
                collections::strictly_ascending(normal_vertices@),
                forall|v: u32| #[trigger]
                    normal_vertices@.contains(v) <==> at_faces(
                        begun.triangles@,
                        v,
                        affected_faces@,
                    ),
                self.positions == begun.positions,
                self.triangles == begun.triangles,
                self.mask == begun.mask,
                self.topology == begun.topology,
                self.normals@.len() == begun.normals@.len(),
                forall|v: int|
                    0 <= v < self.normals@.len() ==> #[trigger] self.normals@[v]
                        == if normal_vertices@.take(k as int).contains(v as u32) {
                        mesh::vertex_normal(
                            geometry,
                            begun.positions@,
                            begun.triangles@,
                            v as u32,
                            false,
                        )
                    } else {
                        begun.normals@[v]
                    },
            decreases normal_vertices@.len() - k,
        {
            let vertex = normal_vertices[k];
            let ghost before = self.normals@;
            let ghost seen = normal_vertices@.take(k as int);
            let ghost more = normal_vertices@.take(k + 1);
            proof {
                assert(normal_vertices@.contains(vertex));
                lemma_at_faces_is_vertex(begun, vertex, affected_faces@);
                topology::lemma_faces_with(
                    self.triangles@,
                    |triangle: [u32; 3]| topology::is_corner(triangle, vertex),
                );
            }
            let faces = self.topology.vertex_triangles[vertex as usize].as_slice();
            assert(faces@ == topology::incident_faces(self.triangles@, vertex));
            let normal = mesh::normal_from_faces(
                &self.positions,
                &self.triangles,
                faces,
                false,
                geometry,
            );
            self.normals.set(vertex as usize, normal);
            proof {
                assert(more =~= seen.push(vertex));
                assert forall|v: int| 0 <= v < self.normals@.len() implies #[trigger] self.normals@[v]
                    == if more.contains(v as u32) {
                    mesh::vertex_normal(
                        geometry,
                        begun.positions@,
                        begun.triangles@,
                        v as u32,
                        false,
                    )
                } else {
                    begun.normals@[v]
                } by {
                    collections::push_contains(seen, vertex, v as u32);
                    if v != vertex {
                        assert(self.normals@[v] == before[v]);
                    }
                }
            }
            k += 1;
        }
        assert(normal_vertices@.take(k as int) =~= normal_vertices@);
        self.topology.bvh.refit_triangles(
            &self.positions,
            &self.triangles,
            affected_faces,
            geometry,
        );
        normal_vertices
    }

    /// Brings normals and boxes up to date after some vertices have moved, and returns the
    /// vertices whose normals may have changed.
    pub fn update_deformed_vertices<G: Geometry>(
        &mut self,
        moved_vertices: &Vec<u32>,
        geometry: &G,
    ) -> (result: Vec<u32>)
        requires
            geometry.total(),
            old(self).well_formed(),
        ensures
            updated(geometry, *old(self), *final(self), moved_vertices@, result@),
    {
        let affected_faces = self.faces_around(moved_vertices);
        let ghost begun = *self;
        let result = self.update_deformed_faces(&affected_faces, geometry);
        proof {
            lemma_update(geometry, begun, *self, moved_vertices@, affected_faces@, result@);
        }
        result
    }

    /// Checks that moved vertices are vertices, finite, and leave every face around them with an
    /// area. Returns these faces, which then have to be brought up to date.
    pub fn validated_deformation_faces<G: Geometry>(
        &self,
        moved_vertices: &Vec<u32>,
        geometry: &G,
    ) -> (result: Option<Vec<u32>>)
        requires
            geometry.total(),
            self.well_formed(),
        ensures
            result is Some <==> safe_move(geometry, *self, moved_vertices@),
            result is Some ==> {
                &&& collections::strictly_ascending(result->0@)
                &&& forall|f: u32| #[trigger]
                    result->0@.contains(f) <==> touched(self.triangles@, f, moved_vertices@)
            },
    {
        let mut k: usize = 0;
        while k < moved_vertices.len()
            invariant
                k <= moved_vertices@.len(),
                forall|i: int|
                    0 <= i < k ==> #[trigger] moved_vertices@[i] < self.positions@.len()
                        && self.positions@[moved_vertices@[i] as int].finite(),
            decreases moved_vertices@.len() - k,
        {
            let vertex = moved_vertices[k];
            if vertex as usize >= self.positions.len() || !self.positions[vertex as usize].is_finite() {
                return None;
            }
            k += 1;
        }
        let affected_faces = self.faces_around(moved_vertices);
        let mut j: usize = 0;
        while j < affected_faces.len()
            invariant
                j <= affected_faces@.len(),
                geometry.total(),
                self.well_formed(),
                forall|f: u32| #[trigger]
                    affected_faces@.contains(f) <==> touched(
                        self.triangles@,
                        f,
                        moved_vertices@,
                    ),
                forall|i: int|
                    0 <= i < j ==> mesh::usable(
                        geometry,
                        self.positions@,
                        self.triangles@[#[trigger] affected_faces@[i] as int],
                    ),
            decreases affected_faces@.len() - j,
        {
            let face = affected_faces[j];
            assert(affected_faces@.contains(face));
            let triangle = self.triangles[face as usize];
            assert(self.triangles@[face as int] == triangle);
            if !mesh::triangle_is_valid(&self.positions, triangle, geometry) {
                return None;
            }
            j += 1;
        }
        proof {
            assert forall|f: u32| #[trigger] touched(
                self.triangles@,
                f,
                moved_vertices@,
            ) implies mesh::usable(
                geometry,
                self.positions@,
                self.triangles@[f as int],
            ) by {
                assert(affected_faces@.contains(f));
                let i = choose|i: int| 0 <= i < affected_faces@.len() && affected_faces@[i] == f;
                assert(affected_faces@[i] == f);
            }
        }
        Some(affected_faces)
    }

    /// Works out every normal and fits every box.
    pub fn recompute_normals<G: Geometry>(&mut self, geometry: &G)
        requires
            geometry.total(),
            old(self).well_formed(),
        ensures
            final(self).well_formed(),
            final(self).smooth(geometry),
            same_but_normals_and_boxes(*old(self), *final(self)),
            final(self).topology.bvh.fits(final(self).positions@, final(self).triangles@),
    {
        self.recompute_normals_without_bvh_refit(geometry);
        proof {
            mesh::lemma_indexed(self.triangles@, self.positions@.len());
        }
        self.topology.bvh.refit(&self.positions, &self.triangles);
    }
}

/// Whether some vertices can be where they are: they are vertices, finite, and every face around
/// them is usable.
pub open spec fn safe_move<G: Geometry>(geometry: &G, mesh: Mesh, moved: Seq<u32>) -> bool {
    &&& forall|i: int|
        0 <= i < moved.len() ==> #[trigger] moved[i] < mesh.positions@.len()
            && mesh.positions@[moved[i] as int].finite()
    &&& forall|f: u32| #[trigger]
        touched(mesh.triangles@, f, moved) ==> mesh::usable(
            geometry,
            mesh.positions@,
            mesh.triangles@[f as int],
        )
}

/// Whether a mesh has been brought up to date after some vertices moved.
pub open spec fn updated<G: Geometry>(
    geometry: &G,
    before: Mesh,
    after: Mesh,
    moved: Seq<u32>,
    result: Seq<u32>,
) -> bool {
    &&& after.well_formed()
    &&& same_but_normals_and_boxes(before, after)
    &&& collections::strictly_ascending(result)
    &&& forall|v: u32| #[trigger]
        result.contains(v) <==> shares_face(before.triangles@, v, moved)
    &&& forall|v: int|
        0 <= v < after.normals@.len() ==> #[trigger] after.normals@[v] == if shares_face(
            before.triangles@,
            v as u32,
            moved,
        ) {
            mesh::vertex_normal(
                geometry,
                before.positions@,
                before.triangles@,
                v as u32,
                false,
            )
        } else {
            before.normals@[v]
        }
    &&& before.triangles@.len() > 0 ==> refit::same_tree(
        before.topology.bvh,
        after.topology.bvh,
    )
    &&& fits_off(before, moved) ==> after.topology.bvh.fits(after.positions@, after.triangles@)
}

/// Whether a vertex is a corner of a face around one of some vertices.
pub open spec fn shares_face(triangles: Seq<[u32; 3]>, vertex: u32, moved: Seq<u32>) -> bool {
    exists|f: u32| #[trigger]
        touched(triangles, f, moved) && topology::is_corner(triangles[f as int], vertex)
}

/// Whether every box fits that is not above a face around one of some vertices.
pub open spec fn fits_off(mesh: Mesh, moved: Seq<u32>) -> bool {
    forall|faces: Seq<u32>|
        (forall|f: u32| #[trigger]
            faces.contains(f) <==> touched(mesh.triangles@, f, moved)) ==> #[trigger]
        refit::fits_but_for(mesh.topology.bvh, mesh.positions@, mesh.triangles@, faces)
}

proof fn lemma_update<G: Geometry>(
    geometry: &G,
    before: Mesh,
    after: Mesh,
    moved: Seq<u32>,
    faces: Seq<u32>,
    result: Seq<u32>,
)
    requires
        forall|f: u32| #[trigger]
            faces.contains(f) <==> touched(before.triangles@, f, moved),
        forall|v: u32| #[trigger] result.contains(v) <==> at_faces(before.triangles@, v, faces),
        after.well_formed(),
        same_but_normals_and_boxes(before, after),
        collections::strictly_ascending(result),
        forall|v: int|
            0 <= v < after.normals@.len() ==> #[trigger] after.normals@[v] == if result.contains(
                v as u32,
            ) {
                mesh::vertex_normal(
                    geometry,
                    before.positions@,
                    before.triangles@,
                    v as u32,
                    false,
                )
            } else {
                before.normals@[v]
            },
        before.triangles@.len() > 0 ==> refit::same_tree(
            before.topology.bvh,
            after.topology.bvh,
        ),
        refit::fits_but_for(before.topology.bvh, before.positions@, before.triangles@, faces)
            ==> after.topology.bvh.fits(after.positions@, after.triangles@),
    ensures
        updated(geometry, before, after, moved, result),
{
    assert forall|v: u32| #[trigger] result.contains(v) <==> shares_face(
        before.triangles@,
        v,
        moved,
    ) by {
        if result.contains(v) {
            let f = choose|f: u32|
                #[trigger] faces.contains(f) && f < before.triangles@.len() && topology::is_corner(
                    before.triangles@[f as int],
                    v,
                );
            assert(touched(before.triangles@, f, moved));
        }
        if shares_face(before.triangles@, v, moved) {
            let f = choose|f: u32| #[trigger]
                touched(before.triangles@, f, moved) && topology::is_corner(
                    before.triangles@[f as int],
                    v,
                );
            assert(faces.contains(f));
        }
    }
    assert forall|v: int| 0 <= v < after.normals@.len() implies #[trigger] after.normals@[v]
        == if shares_face(before.triangles@, v as u32, moved) {
        mesh::vertex_normal(geometry, before.positions@, before.triangles@, v as u32, false)
    } else {
        before.normals@[v]
    } by {
        assert(result.contains(v as u32) <==> shares_face(before.triangles@, v as u32, moved));
    }
}

proof fn lemma_box_of_unmoved(
    before: Seq<Point>,
    after: Seq<Point>,
    triangles: Seq<[u32; 3]>,
    faces: Seq<u32>,
    moved: Seq<u32>,
    low: Point,
    high: Point,
)
    requires
        before.len() == after.len(),
        bvh::indexed(triangles, before.len()),
        forall|v: int|
            0 <= v < before.len() && !moved.contains(v as u32) ==> #[trigger] after[v] == before[v],
        before.len() <= u32::MAX,
        forall|k: int|
            0 <= k < faces.len() ==> (#[trigger] faces[k]) < triangles.len() && !touched(
                triangles,
                faces[k],
                moved,
            ),
    ensures
        bvh::lowest(after, triangles, faces, low) == bvh::lowest(before, triangles, faces, low),
        bvh::highest(after, triangles, faces, high) == bvh::highest(
            before,
            triangles,
            faces,
            high,
        ),
    decreases faces.len(),
{
    if faces.len() > 0 {
        let front = faces.drop_last();
        assert forall|k: int| 0 <= k < front.len() implies (#[trigger] front[k]) < triangles.len()
            && !touched(triangles, front[k], moved) by {
            assert(front[k] == faces[k]);
        }
        lemma_box_of_unmoved(before, after, triangles, front, moved, low, high);
        let face = faces[faces.len() - 1];
        assert(!touched(triangles, face, moved));
        let triangle = triangles[face as int];
        assert(topology::is_corner(triangle, triangle@[0]));
        assert(topology::is_corner(triangle, triangle@[1]));
        assert(topology::is_corner(triangle, triangle@[2]));
        assert(after[triangle@[0] as int] == before[triangle@[0] as int]);
        assert(after[triangle@[1] as int] == before[triangle@[1] as int]);
        assert(after[triangle@[2] as int] == before[triangle@[2] as int]);
    }
}

/// Where every box fitted before some vertices moved, every box still fits that is not above a
/// face around one of them; so bringing the mesh up to date makes every box fit again.
pub proof fn moving_vertices_unsettles_only_the_faces_around_them(
    before: Mesh,
    after: Mesh,
    moved: Seq<u32>,
)
    requires
        before.well_formed(),
        before.topology.bvh.fits(before.positions@, before.triangles@),
        after.topology.bvh == before.topology.bvh,
        after.triangles@ == before.triangles@,
        after.positions@.len() == before.positions@.len(),
        forall|v: int|
            0 <= v < before.positions@.len() && !moved.contains(v as u32)
                ==> #[trigger] after.positions@[v] == before.positions@[v],
    ensures
        fits_off(after, moved),
{
    let tree = before.topology.bvh;
    mesh::lemma_indexed(before.triangles@, before.positions@.len());
    assert forall|faces: Seq<u32>|
        (forall|f: u32| #[trigger]
            faces.contains(f) <==> touched(after.triangles@, f, moved)) implies #[trigger]
    refit::fits_but_for(tree, after.positions@, after.triangles@, faces) by {
        assert forall|i: int|
            0 <= i < tree.nodes@.len() && (tree.nodes@[i].spec_is_leaf() ==> refit::clear_of(
                tree,
                i,
                faces,
            )) implies #[trigger] bvh::node_tight(
            tree.nodes@,
            tree.leaf_faces@,
            after.positions@,
            after.triangles@,
            i,
        ) by {
            assert(bvh::node_tight(
                tree.nodes@,
                tree.leaf_faces@,
                before.positions@,
                before.triangles@,
                i,
            ));
            if tree.nodes@[i].spec_is_leaf() {
                let held = tree.leaf_faces@[tree.nodes@[i].leaf as int]@;
                assert forall|k: int| 0 <= k < held.len() implies (#[trigger] held[k])
                    < before.triangles@.len() && !touched(
                    before.triangles@,
                    held[k],
                    moved,
                ) by {
                    assert(tree.leaf_faces@[tree.nodes@[i].leaf as int]@[k] == held[k]);
                    assert(held.contains(held[k]));
                    assert(!faces.contains(held[k]));
                }
                lemma_box_of_unmoved(
                    before.positions@,
                    after.positions@,
                    before.triangles@,
                    held,
                    moved,
                    bvh::nowhere_low(),
                    bvh::nowhere_high(),
                );
            }
        }
    }
}

proof fn lemma_touched_next(
    triangles: Seq<[u32; 3]>,
    seen: Seq<u32>,
    vertex: u32,
    more: Seq<u32>,
)
    requires
        more =~= seen.push(vertex),
    ensures
        forall|f: u32| #[trigger]
            touched(triangles, f, more) <==> touched(triangles, f, seen) || (f < triangles.len()
                && topology::is_corner(triangles[f as int], vertex)),
{
    assert forall|f: u32| #[trigger] touched(triangles, f, more) <==> touched(triangles, f, seen)
        || (f < triangles.len() && topology::is_corner(triangles[f as int], vertex)) by {
        if touched(triangles, f, seen) {
            let v = choose|v: u32|
                #[trigger] seen.contains(v) && topology::is_corner(triangles[f as int], v);
            collections::push_contains(seen, vertex, v);
            assert(more.contains(v));
        }
        if f < triangles.len() && topology::is_corner(triangles[f as int], vertex) {
            collections::push_contains(seen, vertex, vertex);
            assert(more.contains(vertex));
        }
        if touched(triangles, f, more) {
            let v = choose|v: u32|
                #[trigger] more.contains(v) && topology::is_corner(triangles[f as int], v);
            collections::push_contains(seen, vertex, v);
        }
    }
}

proof fn lemma_at_faces_next(
    triangles: Seq<[u32; 3]>,
    v: u32,
    seen: Seq<u32>,
    face: u32,
    more: Seq<u32>,
)
    requires
        more =~= seen.push(face),
    ensures
        at_faces(triangles, v, more) <==> at_faces(triangles, v, seen) || (face < triangles.len()
            && topology::is_corner(triangles[face as int], v)),
{
    if at_faces(triangles, v, seen) {
        let f = choose|f: u32|
            #[trigger] seen.contains(f) && f < triangles.len() && topology::is_corner(
                triangles[f as int],
                v,
            );
        collections::push_contains(seen, face, f);
        assert(more.contains(f));
    }
    collections::push_contains(seen, face, face);
    assert(more.contains(face));
    if at_faces(triangles, v, more) {
        let f = choose|f: u32|
            #[trigger] more.contains(f) && f < triangles.len() && topology::is_corner(
                triangles[f as int],
                v,
            );
        collections::push_contains(seen, face, f);
    }
}

proof fn lemma_at_faces_is_vertex(mesh: Mesh, vertex: u32, faces: Seq<u32>)
    requires
        mesh.well_formed(),
        at_faces(mesh.triangles@, vertex, faces),
    ensures
        vertex < mesh.positions@.len(),
{
    let f = choose|f: u32|
        #[trigger] faces.contains(f) && f < mesh.triangles@.len() && topology::is_corner(
            mesh.triangles@[f as int],
            vertex,
        );
    assert(topology::distinct_corners(mesh.triangles@[f as int]));
}

/// The normal of a face, as long as twice its area.
pub open spec fn face_cross<G: Geometry>(geometry: &G, mesh: Mesh, face: u32) -> Point {
    geometry.spec_cross(
        bvh::corner(mesh.positions@, mesh.triangles@, face, 0),
        bvh::corner(mesh.positions@, mesh.triangles@, face, 1),
        bvh::corner(mesh.positions@, mesh.triangles@, face, 2),
    )
}

/// Whether the normals of all faces are finite that the vertices next to moved ones have.
pub open spec fn finite_around<G: Geometry>(geometry: &G, mesh: Mesh, moved: Seq<u32>) -> bool {
    forall|v: u32, f: u32|
        shares_face(mesh.triangles@, v, moved) && f < mesh.triangles@.len()
            && #[trigger] topology::is_corner(mesh.triangles@[f as int], v) ==> face_cross(
            geometry,
            mesh,
            f,
        ).finite()
}

proof fn lemma_all_finite<G: Geometry>(geometry: &G, mesh: Mesh, faces: Seq<u32>)
    requires
        forall|k: int|
            0 <= k < faces.len() ==> face_cross(geometry, mesh, #[trigger] faces[k]).finite(),
    ensures
        mesh::crosses_of(geometry, mesh.positions@, mesh.triangles@, faces, true)
            == mesh::crosses_of(geometry, mesh.positions@, mesh.triangles@, faces, false),
    decreases faces.len(),
{
    if faces.len() > 0 {
        let front = faces.drop_last();
        assert forall|k: int| 0 <= k < front.len() implies face_cross(
            geometry,
            mesh,
            #[trigger] front[k],
        ).finite() by {
            assert(front[k] == faces[k]);
        }
        lemma_all_finite(geometry, mesh, front);
        assert(face_cross(geometry, mesh, faces[faces.len() - 1]).finite());
    }
}

proof fn lemma_unmoved_crosses<G: Geometry>(
    geometry: &G,
    before: Mesh,
    after: Mesh,
    faces: Seq<u32>,
    moved: Seq<u32>,
)
    requires
        before.well_formed(),
        after.triangles@ == before.triangles@,
        forall|v: int|
            0 <= v < before.positions@.len() && !moved.contains(v as u32)
                ==> #[trigger] after.positions@[v] == before.positions@[v],
        forall|k: int|
            0 <= k < faces.len() ==> (#[trigger] faces[k]) < before.triangles@.len() && !touched(
                before.triangles@,
                faces[k],
                moved,
            ),
    ensures
        mesh::crosses_of(geometry, after.positions@, after.triangles@, faces, true)
            == mesh::crosses_of(geometry, before.positions@, before.triangles@, faces, true),
    decreases faces.len(),
{
    if faces.len() > 0 {
        let front = faces.drop_last();
        assert forall|k: int| 0 <= k < front.len() implies (#[trigger] front[k])
            < before.triangles@.len() && !touched(before.triangles@, front[k], moved) by {
            assert(front[k] == faces[k]);
        }
        lemma_unmoved_crosses(geometry, before, after, front, moved);
        let face = faces[faces.len() - 1];
        assert(!touched(before.triangles@, face, moved));
        let triangle = before.triangles@[face as int];
        mesh::lemma_indexed(before.triangles@, before.positions@.len());
        assert(topology::is_corner(triangle, triangle@[0]));
        assert(topology::is_corner(triangle, triangle@[1]));
        assert(topology::is_corner(triangle, triangle@[2]));
        assert(after.positions@[triangle@[0] as int] == before.positions@[triangle@[0] as int]);
        assert(after.positions@[triangle@[1] as int] == before.positions@[triangle@[1] as int]);
        assert(after.positions@[triangle@[2] as int] == before.positions@[triangle@[2] as int]);
    }
}

/// Where normals and boxes were up to date before some vertices moved, bringing the mesh up to
/// date around these makes every normal what working out all normals gives, and makes every box
/// fit, as long as the normals of the faces around are finite.
pub proof fn a_local_update_does_for_the_whole_mesh<G: Geometry>(
    geometry: &G,
    start: Mesh,
    before: Mesh,
    after: Mesh,
    full: Mesh,
    moved: Seq<u32>,
    result: Seq<u32>,
)
    requires
        start.well_formed(),
        start.smooth(geometry),
        start.topology.bvh.fits(start.positions@, start.triangles@),
        before == (Mesh { positions: before.positions, ..start }),
        before.positions@.len() == start.positions@.len(),
        forall|v: int|
            0 <= v < start.positions@.len() && !moved.contains(v as u32)
                ==> #[trigger] before.positions@[v] == start.positions@[v],
        finite_around(geometry, before, moved),
        updated(geometry, before, after, moved, result),
        // What working out all normals ensures.
        full.smooth(geometry),
        same_but_normals_and_boxes(before, full),
    ensures
        after.smooth(geometry),
        after.normals@ == full.normals@,
        after.topology.bvh.fits(after.positions@, after.triangles@),
{
    moving_vertices_unsettles_only_the_faces_around_them(start, before, moved);
    assert forall|v: int| 0 <= v < after.positions@.len() implies #[trigger] after.normals@[v]
        == mesh::vertex_normal(
        geometry,
        after.positions@,
        after.triangles@,
        v as u32,
        true,
    ) by {
        let vertex = v as u32;
        let faces = topology::incident_faces(before.triangles@, vertex);
        let property = |triangle: [u32; 3]| topology::is_corner(triangle, vertex);
        topology::lemma_faces_with(before.triangles@, property);
        assert forall|k: int| 0 <= k < faces.len() implies (#[trigger] faces[k])
            < before.triangles@.len() && topology::is_corner(
            before.triangles@[faces[k] as int],
            vertex,
        ) by {
            assert(faces.contains(faces[k]));
        }
        if shares_face(before.triangles@, vertex, moved) {
            lemma_all_finite(geometry, before, faces);
        } else {
            assert forall|k: int| 0 <= k < faces.len() implies (#[trigger] faces[k])
                < start.triangles@.len() && !touched(start.triangles@, faces[k], moved) by {
                assert(topology::is_corner(before.triangles@[faces[k] as int], vertex));
            }
            lemma_unmoved_crosses(geometry, start, before, faces, moved);
            assert(start.normals@[v] == mesh::vertex_normal(
                geometry,
                start.positions@,
                start.triangles@,
                vertex,
                true,
            ));
        }
    }
    assert(after.normals@ =~= full.normals@);
}

} // verus!
