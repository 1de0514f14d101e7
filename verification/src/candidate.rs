//! New places for vertices, tried before anything is moved.
use crate::collections;
use crate::deform;
use crate::geometry::Geometry;
use crate::mesh;
use crate::mesh::Mesh;
use crate::pass;
use crate::proposal;
use crate::scalar::Point;
use crate::table::Table;
use crate::topology;
use vstd::prelude::*;

verus! {

/// The values of vertices, some of them replaced.
pub open spec fn replaced<T>(values: Seq<T>, new: Map<u32, T>) -> Seq<T> {
    Seq::new(
        values.len(),
        |i: int|
            if new.contains_key(i as u32) {
                new[i as u32]
            } else {
                values[i]
            },
    )
}

/// Replaces values of vertices.
pub(crate) fn replace<T: Copy>(values: &mut Vec<T>, new: &Table<T>)
    requires
        new.well_formed(),
        proposal::names_vertices(new@, old(values)@.len()),
        old(values)@.len() <= u32::MAX,
    ensures
        final(values)@ == replaced(old(values)@, new@),
{
    proof {
        new.order_names_the_indices();
    }
    let ghost before = values@;
    let mut k: usize = 0;
    while k < new.len()
        invariant
            k <= new.order().len(),
            new.well_formed(),
            new.order().no_duplicates(),
            proposal::names_vertices(new@, before.len()),
            before.len() <= u32::MAX,
            values@.len() == before.len(),
            forall|i: int|
                0 <= i < before.len() ==> #[trigger] values@[i] == if new.order().take(
                    k as int,
                ).contains(i as u32) {
                    new@[i as u32]
                } else {
                    before[i]
                },
        decreases new.order().len() - k,
    {
        let vertex = new.key(k);
        let value = new.value(k);
        assert(new@.contains_key(vertex));
        proof {
            pass::lemma_take_contains(new.order(), k as int);
        }
        values.set(vertex as usize, value);
        k += 1;
    }
    proof {
        new.order_names_the_indices();
        assert(new.order().take(k as int) =~= new.order());
        assert(values@ =~= replaced(before, new@)) by {
            assert forall|i: int| 0 <= i < before.len() implies values@[i] == #[trigger] replaced(
                before,
                new@,
            )[i] by {
                assert(new.order().contains(i as u32) <==> new@.contains_key(i as u32));
            }
        }
    }
}

/// Whether a face has a corner among the vertices of a table.
pub open spec fn face_moves(triangles: Seq<[u32; 3]>, face: u32, places: Map<u32, Point>) -> bool {
    face < triangles.len() && exists|v: u32| #[trigger]
        places.contains_key(v) && topology::is_corner(triangles[face as int], v)
}

/// Whether a face would be turned over: its normal would point against the one that it has.
pub open spec fn turned<G: Geometry>(
    geometry: &G,
    before: Seq<Point>,
    after: Seq<Point>,
    triangle: [u32; 3],
) -> bool {
    geometry.spec_opposed(
        geometry.spec_cross(
            before[triangle@[0] as int],
            before[triangle@[1] as int],
            before[triangle@[2] as int],
        ),
        geometry.spec_cross(
            after[triangle@[0] as int],
            after[triangle@[1] as int],
            after[triangle@[2] as int],
        ),
    )
}

/// Whether a face neither collapses nor turns over.
pub open spec fn keeps_its_side<G: Geometry>(
    geometry: &G,
    before: Seq<Point>,
    after: Seq<Point>,
    triangle: [u32; 3],
) -> bool {
    mesh::usable(geometry, after, triangle) && !turned(geometry, before, after, triangle)
}

/// Whether a face is where it was, or neither collapsed nor turned over.
pub open spec fn spared<G: Geometry>(
    geometry: &G,
    before: Seq<Point>,
    after: Seq<Point>,
    triangle: [u32; 3],
) -> bool {
    ||| forall|k: int|
        0 <= k < 3 ==> after[#[trigger] triangle@[k] as int] == before[triangle@[k] as int]
    ||| keeps_its_side(geometry, before, after, triangle)
}

/// Whether vertices can take new places: the places are finite, and no face around the vertices
/// collapses or turns over.
pub open spec fn safe<G: Geometry>(geometry: &G, mesh: Mesh, places: Map<u32, Point>) -> bool {
    &&& forall|v: u32| #[trigger]
        places.contains_key(v) ==> v < mesh.positions@.len() && places[v].finite()
    &&& forall|f: u32| #[trigger]
        face_moves(mesh.triangles@, f, places) ==> keeps_its_side(
            geometry,
            mesh.positions@,
            replaced(mesh.positions@, places),
            mesh.triangles@[f as int],
        )
}

/// Safe places spare every face.
pub proof fn safe_places_spare_every_face<G: Geometry>(
    geometry: &G,
    mesh: Mesh,
    places: Map<u32, Point>,
    face: u32,
)
    requires
        mesh.well_formed(),
        safe(geometry, mesh, places),
        face < mesh.triangles@.len(),
    ensures
        spared(
            geometry,
            mesh.positions@,
            replaced(mesh.positions@, places),
            mesh.triangles@[face as int],
        ),
{
    let triangle = mesh.triangles@[face as int];
    if !face_moves(mesh.triangles@, face, places) {
        assert forall|k: int| 0 <= k < 3 implies replaced(
            mesh.positions@,
            places,
        )[#[trigger] triangle@[k] as int] == mesh.positions@[triangle@[k] as int] by {
            assert(topology::is_corner(triangle, triangle@[k]));
            assert(!places.contains_key(triangle@[k]));
            mesh::lemma_indexed(mesh.triangles@, mesh.positions@.len());
        }
    }
}

/// Where a vertex would be.
fn place_of(mesh: &Mesh, places: &Table<Point>, vertex: u32) -> (result: Point)
    requires
        places.well_formed(),
        vertex < mesh.positions@.len(),
    ensures
        result == replaced(mesh.positions@, places@)[vertex as int],
{
    match places.get(vertex) {
        Some(place) => place,
        None => mesh.positions[vertex as usize],
    }
}

impl Mesh {
    /// Tries new places for vertices, and lists the faces around them if they can take them.
    pub fn validated_deformation_candidates<G: Geometry>(
        &self,
        places: &Table<Point>,
        geometry: &G,
    ) -> (result: Option<Vec<u32>>)
        requires
            geometry.total(),
            self.well_formed(),
            places.well_formed(),
        ensures
            result is Some <==> safe(geometry, *self, places@),
            result matches Some(faces) ==> {
                &&& collections::strictly_ascending(faces@)
                &&& forall|f: u32| #[trigger]
                    faces@.contains(f) <==> face_moves(self.triangles@, f, places@)
            },
    {
        proof {
            places.order_names_the_indices();
        }
        let vertices = places.keys();
        let mut k: usize = 0;
        while k < vertices.len()
            invariant
                k <= vertices@.len(),
                places.well_formed(),
                vertices@ == places.order(),
                forall|i: int|
                    0 <= i < vertices@.len() ==> places@.contains_key(#[trigger] vertices@[i]),
                forall|i: int|
                    0 <= i < k ==> (#[trigger] vertices@[i]) < self.positions@.len()
                        && places@[vertices@[i]].finite(),
            decreases vertices@.len() - k,
        {
            let vertex = vertices[k];
            assert(places@.contains_key(vertices@[k as int]));
            if vertex as usize >= self.positions.len() || !places.value(k).is_finite() {
                return None;
            }
            k += 1;
        }
        assert forall|v: u32| #[trigger] places@.contains_key(v) implies v < self.positions@.len()
            && places@[v].finite() by {
            assert(places.order().contains(v));
            let i = choose|i: int| 0 <= i < vertices@.len() && vertices@[i] == v;
            assert(vertices@[i] < self.positions@.len());
        }
        let faces = self.faces_around(&vertices);
        assert forall|f: u32| #[trigger] faces@.contains(f) <==> face_moves(
            self.triangles@,
            f,
            places@,
        ) by {
            assert(faces@.contains(f) <==> deform::touched(self.triangles@, f, vertices@));
            if deform::touched(self.triangles@, f, vertices@) {
                let v = choose|v: u32| #[trigger]
                    vertices@.contains(v) && topology::is_corner(self.triangles@[f as int], v);
                assert(places@.contains_key(v));
            }
            if face_moves(self.triangles@, f, places@) {
                let v = choose|v: u32| #[trigger]
                    places@.contains_key(v) && topology::is_corner(self.triangles@[f as int], v);
                assert(vertices@.contains(v));
            }
        }
        let mut i: usize = 0;
        while i < faces.len()
            invariant
                i <= faces@.len(),
                geometry.total(),
                self.well_formed(),
                places.well_formed(),
                forall|f: u32| #[trigger]
                    faces@.contains(f) <==> face_moves(self.triangles@, f, places@),
                forall|j: int|
                    0 <= j < i ==> keeps_its_side(
                        geometry,
                        self.positions@,
                        replaced(self.positions@, places@),
                        self.triangles@[(#[trigger] faces@[j]) as int],
                    ),
            decreases faces@.len() - i,
        {
            let face = faces[i];
            assert(faces@.contains(faces@[i as int]));
            assert(face_moves(self.triangles@, face, places@));
            let triangle = self.triangles[face as usize];
            assert(topology::distinct_corners(self.triangles@[face as int]));
            let a = place_of(self, places, triangle[0]);
            let b = place_of(self, places, triangle[1]);
            let c = place_of(self, places, triangle[2]);
            let now = geometry.cross(
                self.positions[triangle[0] as usize],
                self.positions[triangle[1] as usize],
                self.positions[triangle[2] as usize],
            );
            if !geometry.well_shaped(a, b, c) || geometry.opposed(now, geometry.cross(a, b, c)) {
                assert(!keeps_its_side(
                    geometry,
                    self.positions@,
                    replaced(self.positions@, places@),
                    self.triangles@[face as int],
                ));
                return None;
            }
            i += 1;
        }
        assert forall|f: u32| #[trigger] face_moves(
            self.triangles@,
            f,
            places@,
        ) implies keeps_its_side(
            geometry,
            self.positions@,
            replaced(self.positions@, places@),
            self.triangles@[f as int],
        ) by {
            assert(faces@.contains(f));
            let j = choose|j: int| 0 <= j < faces@.len() && faces@[j] == f;
            assert(keeps_its_side(
                geometry,
                self.positions@,
                replaced(self.positions@, places@),
                self.triangles@[faces@[j] as int],
            ));
        }
        Some(faces)
    }
}

} // verus!
