//! What the boxes of a tree promise, and what follows for the searches that go by them.
use crate::arithmetic::Arithmetic;
use crate::bvh;
use crate::bvh::MeshBvh;
use crate::geometry::{OfPair, OfTriangle};
use crate::mesh::Mesh;
use crate::query;
use crate::query::{ClosestSurfacePoint, PointBoxes, PointFaces, RayBoxes, RayFaces, RayHit};
use crate::scalar;
use crate::scalar::Point;
use crate::search;
use crate::search::{FaceHit, NearPoint, ParityRayIntersection};
use vstd::prelude::*;

verus! {

/// Whether a point lies in a box, its faces counted in.
pub open spec fn in_box(point: Point, min: Point, max: Point) -> bool {
    &&& scalar::le(min.x, point.x) && scalar::le(point.x, max.x)
    &&& scalar::le(min.y, point.y) && scalar::le(point.y, max.y)
    &&& scalar::le(min.z, point.z) && scalar::le(point.z, max.z)
}

/// Whether the corners of a face lie in a box.
pub open spec fn face_in_box(
    positions: Seq<Point>,
    triangles: Seq<[u32; 3]>,
    face: u32,
    min: Point,
    max: Point,
) -> bool {
    &&& in_box(bvh::corner(positions, triangles, face, 0), min, max)
    &&& in_box(bvh::corner(positions, triangles, face, 1), min, max)
    &&& in_box(bvh::corner(positions, triangles, face, 2), min, max)
}

pub open spec fn finite_corners(
    positions: Seq<Point>,
    triangles: Seq<[u32; 3]>,
    face: u32,
) -> bool {
    &&& bvh::corner(positions, triangles, face, 0).finite()
    &&& bvh::corner(positions, triangles, face, 1).finite()
    &&& bvh::corner(positions, triangles, face, 2).finite()
}

proof fn lemma_leaf_box(
    positions: Seq<Point>,
    triangles: Seq<[u32; 3]>,
    faces: Seq<u32>,
    low: Point,
    high: Point,
)
    requires
        forall|k: int|
            0 <= k < faces.len() ==> #[trigger] finite_corners(positions, triangles, faces[k]),
        low.number(),
        high.number(),
    ensures
        bvh::lowest(positions, triangles, faces, low).number(),
        bvh::highest(positions, triangles, faces, high).number(),
        forall|k: int|
            0 <= k < faces.len() ==> #[trigger] face_in_box(
                positions,
                triangles,
                faces[k],
                bvh::lowest(positions, triangles, faces, low),
                bvh::highest(positions, triangles, faces, high),
            ),
    decreases faces.len(),
{
    if faces.len() > 0 {
        let front = faces.drop_last();
        let face = faces.last();
        assert forall|k: int| 0 <= k < front.len() implies #[trigger] finite_corners(
            positions,
            triangles,
            front[k],
        ) by {
            assert(finite_corners(positions, triangles, faces[k]));
        }
        lemma_leaf_box(positions, triangles, front, low, high);
        assert(finite_corners(positions, triangles, faces[faces.len() - 1]));
        let min = bvh::lowest(positions, triangles, faces, low);
        let max = bvh::highest(positions, triangles, faces, high);
        assert forall|k: int| 0 <= k < faces.len() implies #[trigger] face_in_box(
            positions,
            triangles,
            faces[k],
            min,
            max,
        ) by {
            if k < front.len() {
                assert(face_in_box(
                    positions,
                    triangles,
                    front[k],
                    bvh::lowest(positions, triangles, front, low),
                    bvh::highest(positions, triangles, front, high),
                ));
            }
        }
    }
}

/// In a tree whose boxes fit, every face below a node has its corners in the node's box.
pub proof fn boxes_enclose_the_faces_below(
    bvh: MeshBvh,
    positions: Seq<Point>,
    triangles: Seq<[u32; 3]>,
    i: int,
    face: u32,
)
    requires
        bvh.holds(triangles.len()),
        bvh.fits(positions, triangles),
        forall|f: u32| f < triangles.len() ==> #[trigger] finite_corners(positions, triangles, f),
        0 <= i < bvh.nodes@.len(),
        bvh::faces_under(bvh.nodes@, bvh.leaf_faces@, i).contains(face),
    ensures
        face_in_box(positions, triangles, face, bvh.nodes@[i].min, bvh.nodes@[i].max),
{
    lemma_node_box(bvh, positions, triangles, i);
}

proof fn lemma_node_box(
    bvh: MeshBvh,
    positions: Seq<Point>,
    triangles: Seq<[u32; 3]>,
    i: int,
)
    requires
        bvh.holds(triangles.len()),
        bvh.fits(positions, triangles),
        forall|f: u32| f < triangles.len() ==> #[trigger] finite_corners(positions, triangles, f),
        0 <= i < bvh.nodes@.len(),
    ensures
        bvh.nodes@[i].min.number(),
        bvh.nodes@[i].max.number(),
        forall|face: u32|
            #![trigger bvh::faces_under(bvh.nodes@, bvh.leaf_faces@, i).contains(face)]
            bvh::faces_under(bvh.nodes@, bvh.leaf_faces@, i).contains(face) ==> face_in_box(
                positions,
                triangles,
                face,
                bvh.nodes@[i].min,
                bvh.nodes@[i].max,
            ),
    decreases bvh.nodes@.len() - i,
{
    broadcast use vstd::seq_lib::group_seq_properties;

    let nodes = bvh.nodes@;
    let leaves = bvh.leaf_faces@;
    assert(bvh::node_formed(nodes, leaves, i));
    assert(bvh::node_tight(nodes, leaves, positions, triangles, i));
    if nodes[i].spec_is_leaf() {
        let faces = leaves[nodes[i].leaf as int]@;
        assert forall|k: int| 0 <= k < faces.len() implies #[trigger] finite_corners(
            positions,
            triangles,
            faces[k],
        ) by {
            assert(leaves[nodes[i].leaf as int]@[k] == faces[k]);
            assert(faces[k] < triangles.len());
        }
        lemma_leaf_box(positions, triangles, faces, bvh::nowhere_low(), bvh::nowhere_high());
        assert forall|face: u32|
            #![trigger bvh::faces_under(nodes, leaves, i).contains(face)]
            bvh::faces_under(nodes, leaves, i).contains(face) implies face_in_box(
            positions,
            triangles,
            face,
            nodes[i].min,
            nodes[i].max,
        ) by {
            let k = choose|k: int| 0 <= k < faces.len() && faces[k] == face;
            assert(face_in_box(
                positions,
                triangles,
                faces[k],
                bvh::lowest(positions, triangles, faces, bvh::nowhere_low()),
                bvh::highest(positions, triangles, faces, bvh::nowhere_high()),
            ));
        }
    } else {
        let left = nodes[i].left as int;
        let right = nodes[i].right as int;
        lemma_node_box(bvh, positions, triangles, left);
        lemma_node_box(bvh, positions, triangles, right);
        let a = bvh::faces_under(nodes, leaves, left);
        let b = bvh::faces_under(nodes, leaves, right);
        assert(bvh::faces_under(nodes, leaves, i) == a + b);
        assert forall|face: u32|
            #![trigger bvh::faces_under(nodes, leaves, i).contains(face)]
            bvh::faces_under(nodes, leaves, i).contains(face) implies face_in_box(
            positions,
            triangles,
            face,
            nodes[i].min,
            nodes[i].max,
        ) by {
            assert(a.contains(face) || b.contains(face));
        }
    }
}

/// Whether a ray enters every box no later than it meets a face below it.
pub open spec fn enters_first<
    B: OfPair<Option<u32>>,
    H: OfTriangle<Option<(u32, Point)>>,
>(
    bvh: MeshBvh,
    positions: Seq<Point>,
    triangles: Seq<[u32; 3]>,
    enter: B,
    hit: H,
) -> bool {
    forall|i: int, face: u32|
        0 <= i < bvh.nodes@.len() && #[trigger] bvh::faces_under(
            bvh.nodes@,
            bvh.leaf_faces@,
            i,
        ).contains(face) ==> {
            let own = MeshBvh::hit_of(positions, triangles, hit, face);
            let entry = enter.spec_of_pair(bvh.nodes@[i].min, bvh.nodes@[i].max);
            own is Some ==> entry is Some && scalar::le(entry->0, (own->0).0)
        }
}

/// Where a ray enters every box no later than it meets a face below it, no face is met nearer
/// than the one that a search settles on, and none is met where it settles on none.
pub proof fn the_hit_found_is_the_nearest<
    B: OfPair<Option<u32>>,
    H: OfTriangle<Option<(u32, Point)>>,
>(
    bvh: MeshBvh,
    positions: Seq<Point>,
    triangles: Seq<[u32; 3]>,
    enter: B,
    hit: H,
    found: Option<FaceHit>,
    face: u32,
)
    requires
        enters_first(bvh, positions, triangles, enter, hit),
        search::genuine(positions, triangles, hit, found),
        face < triangles.len(),
        bvh.settled(positions, triangles, enter, hit, face, search::limit_of(found)),
        MeshBvh::hit_of(positions, triangles, hit, face) is Some,
        scalar::finite((MeshBvh::hit_of(positions, triangles, hit, face)->0).0),
    ensures
        found is Some,
        scalar::le(
            found->0.distance,
            (MeshBvh::hit_of(positions, triangles, hit, face)->0).0,
        ),
{
    let limit = search::limit_of(found);
    if bvh.shielded(enter, face, limit) {
        let i = choose|i: int|
            0 <= i < bvh.nodes@.len() && #[trigger] bvh::faces_under(
                bvh.nodes@,
                bvh.leaf_faces@,
                i,
            ).contains(face) && {
                let entry = enter.spec_of_pair(bvh.nodes@[i].min, bvh.nodes@[i].max);
                entry is None || scalar::lt(limit, entry->0)
            };
        assert(bvh::faces_under(bvh.nodes@, bvh.leaf_faces@, i).contains(face));
    }
}

/// Whether every box is no farther from a point than the faces below it.
pub open spec fn no_farther<
    D: OfPair<u32>,
    N: OfTriangle<(u32, Point, Point)>,
>(
    bvh: MeshBvh,
    positions: Seq<Point>,
    triangles: Seq<[u32; 3]>,
    away: D,
    nearest: N,
) -> bool {
    forall|i: int, face: u32|
        0 <= i < bvh.nodes@.len() && #[trigger] bvh::faces_under(
            bvh.nodes@,
            bvh.leaf_faces@,
            i,
        ).contains(face) ==> scalar::le(
            away.spec_of_pair(bvh.nodes@[i].min, bvh.nodes@[i].max),
            search::near_of(positions, triangles, nearest, face).0,
        )
}

/// Where every box is no farther than the faces below it, a search finds the nearest face, and of
/// equally near ones that of lowest index.
pub proof fn the_point_found_is_the_nearest<
    D: OfPair<u32>,
    N: OfTriangle<(u32, Point, Point)>,
>(
    bvh: MeshBvh,
    positions: Seq<Point>,
    triangles: Seq<[u32; 3]>,
    away: D,
    nearest: N,
    found: Option<NearPoint>,
    face: u32,
)
    requires
        no_farther(bvh, positions, triangles, away, nearest),
        search::measured(positions, triangles, nearest, found),
        face < triangles.len(),
        bvh.outdone(positions, triangles, away, nearest, face, found),
        bvh.holds(triangles.len()),
    ensures
        search::behind(found, search::near_of(positions, triangles, nearest, face).0, face),
{
    let own = search::near_of(positions, triangles, nearest, face).0;
    assert(bvh::faces_under(bvh.nodes@, bvh.leaf_faces@, 0).contains(face));
    if bvh.beyond(away, face, search::nearness(found)) {
        let i = choose|i: int|
            0 <= i < bvh.nodes@.len() && #[trigger] bvh::faces_under(
                bvh.nodes@,
                bvh.leaf_faces@,
                i,
            ).contains(face) && {
                let distance = away.spec_of_pair(bvh.nodes@[i].min, bvh.nodes@[i].max);
                scalar::nan(distance) || scalar::lt(search::nearness(found), distance)
            };
        assert(bvh::faces_under(bvh.nodes@, bvh.leaf_faces@, i).contains(face));
    }
}

/// Whether a ray that misses a box neither crosses nor touches a face below it.
pub open spec fn misses_all<
    B: OfPair<Option<u32>>,
    P: OfTriangle<ParityRayIntersection>,
>(
    bvh: MeshBvh,
    positions: Seq<Point>,
    triangles: Seq<[u32; 3]>,
    enter: B,
    parity: P,
) -> bool {
    forall|i: int, face: u32|
        0 <= i < bvh.nodes@.len() && #[trigger] bvh::faces_under(
            bvh.nodes@,
            bvh.leaf_faces@,
            i,
        ).contains(face) && enter.spec_of_pair(bvh.nodes@[i].min, bvh.nodes@[i].max) is None
            ==> search::parity_of(positions, triangles, parity, face) is Miss
}

proof fn lemma_counts_concat<P: OfTriangle<ParityRayIntersection>>(
    positions: Seq<Point>,
    triangles: Seq<[u32; 3]>,
    parity: P,
    a: Seq<u32>,
    b: Seq<u32>,
)
    ensures
        search::crossings(positions, triangles, parity, a + b) == search::crossings(
            positions,
            triangles,
            parity,
            a,
        ) + search::crossings(positions, triangles, parity, b),
        search::doubts(positions, triangles, parity, a + b) == (search::doubts(
            positions,
            triangles,
            parity,
            a,
        ) || search::doubts(positions, triangles, parity, b)),
    decreases b.len(),
{
    let all = a + b;
    if b.len() == 0 {
        assert(all =~= a);
    } else {
        lemma_counts_concat(positions, triangles, parity, a, b.drop_last());
        assert(all.drop_last() =~= a + b.drop_last());
        assert(all.last() == b.last());
    }
    if search::doubts(positions, triangles, parity, a) {
        let k = choose|k: int|
            0 <= k < a.len() && search::parity_of(
                positions,
                triangles,
                parity,
                #[trigger] a[k],
            ).is_doubtful();
        assert(all[k] == a[k]);
    }
    if search::doubts(positions, triangles, parity, b) {
        let k = choose|k: int|
            0 <= k < b.len() && search::parity_of(
                positions,
                triangles,
                parity,
                #[trigger] b[k],
            ).is_doubtful();
        assert(all[a.len() + k] == b[k]);
    }
    if search::doubts(positions, triangles, parity, all) {
        let k = choose|k: int|
            0 <= k < all.len() && search::parity_of(
                positions,
                triangles,
                parity,
                #[trigger] all[k],
            ).is_doubtful();
        if k < a.len() {
            assert(a[k] == all[k]);
        } else {
            assert(b[k - a.len()] == all[k]);
        }
    }
}

proof fn lemma_all_missed<P: OfTriangle<ParityRayIntersection>>(
    positions: Seq<Point>,
    triangles: Seq<[u32; 3]>,
    parity: P,
    faces: Seq<u32>,
)
    requires
        forall|k: int|
            0 <= k < faces.len() ==> search::parity_of(
                positions,
                triangles,
                parity,
                #[trigger] faces[k],
            ) is Miss,
    ensures
        search::crossings(positions, triangles, parity, faces) == 0,
        !search::doubts(positions, triangles, parity, faces),
    decreases faces.len(),
{
    if faces.len() > 0 {
        assert forall|k: int| 0 <= k < faces.drop_last().len() implies search::parity_of(
            positions,
            triangles,
            parity,
            #[trigger] faces.drop_last()[k],
        ) is Miss by {
            assert(faces[k] == faces.drop_last()[k]);
        }
        lemma_all_missed(positions, triangles, parity, faces.drop_last());
        assert(search::parity_of(positions, triangles, parity, faces[faces.len() - 1]) is Miss);
    }
}

/// Where a missed box has no crossed or touched face below it, the count that passes over such
/// boxes is the count over every face of the mesh.
pub proof fn missed_boxes_do_not_change_the_count<
    B: OfPair<Option<u32>>,
    P: OfTriangle<ParityRayIntersection>,
>(
    bvh: MeshBvh,
    positions: Seq<Point>,
    triangles: Seq<[u32; 3]>,
    enter: B,
    parity: P,
    i: int,
)
    requires
        misses_all(bvh, positions, triangles, enter, parity),
        bvh.holds(triangles.len()),
        0 <= i < bvh.nodes@.len(),
    ensures
        ({
            let entered = search::faces_entered(bvh.nodes@, bvh.leaf_faces@, enter, i);
            let under = bvh::faces_under(bvh.nodes@, bvh.leaf_faces@, i);
            &&& search::crossings(positions, triangles, parity, entered) == search::crossings(
                positions,
                triangles,
                parity,
                under,
            )
            &&& search::doubts(positions, triangles, parity, entered) == search::doubts(
                positions,
                triangles,
                parity,
                under,
            )
        }),
    decreases bvh.nodes@.len() - i,
{
    let nodes = bvh.nodes@;
    let leaves = bvh.leaf_faces@;
    let under = bvh::faces_under(nodes, leaves, i);
    assert(bvh::node_formed(nodes, leaves, i));
    if enter.spec_of_pair(nodes[i].min, nodes[i].max) is None {
        assert forall|k: int| 0 <= k < under.len() implies search::parity_of(
            positions,
            triangles,
            parity,
            #[trigger] under[k],
        ) is Miss by {
            assert(under.contains(under[k]));
        }
        lemma_all_missed(positions, triangles, parity, under);
        lemma_all_missed(positions, triangles, parity, Seq::empty());
    } else if !nodes[i].spec_is_leaf() {
        let left = nodes[i].left as int;
        let right = nodes[i].right as int;
        missed_boxes_do_not_change_the_count(bvh, positions, triangles, enter, parity, left);
        missed_boxes_do_not_change_the_count(bvh, positions, triangles, enter, parity, right);
        lemma_counts_concat(
            positions,
            triangles,
            parity,
            search::faces_entered(nodes, leaves, enter, right),
            search::faces_entered(nodes, leaves, enter, left),
        );
        lemma_counts_concat(
            positions,
            triangles,
            parity,
            bvh::faces_under(nodes, leaves, left),
            bvh::faces_under(nodes, leaves, right),
        );
    }
}

/// A ray meets the surface at one distance, whichever tree it is searched by, where it enters every
/// box no later than it meets a face below it.
pub proof fn every_tree_finds_a_hit_as_near<O: Arithmetic>(
    one: Mesh,
    other: Mesh,
    ops: &O,
    origin: Point,
    direction: Point,
    first: Option<RayHit>,
    second: Option<RayHit>,
)
    requires
        one.positions@ == other.positions@,
        one.triangles@ == other.triangles@,
        query::ray_answered(one, ops, origin, direction, first),
        query::ray_answered(other, ops, origin, direction, second),
        enters_first(
            one.topology.bvh,
            one.positions@,
            one.triangles@,
            (RayBoxes { ops, origin, direction }),
            (RayFaces { ops, origin, direction }),
        ),
        enters_first(
            other.topology.bvh,
            other.positions@,
            other.triangles@,
            (RayBoxes { ops, origin, direction }),
            (RayFaces { ops, origin, direction }),
        ),
    ensures
        first is Some <==> second is Some,
        first is Some ==> scalar::same(first->0.distance, second->0.distance),
{
    let enter = RayBoxes { ops, origin, direction };
    let hit = RayFaces { ops, origin, direction };
    if let Some(found) = first {
        the_hit_found_is_the_nearest(
            other.topology.bvh,
            other.positions@,
            other.triangles@,
            enter,
            hit,
            query::face_hit(second),
            found.triangle,
        );
    }
    if let Some(found) = second {
        the_hit_found_is_the_nearest(
            one.topology.bvh,
            one.positions@,
            one.triangles@,
            enter,
            hit,
            query::face_hit(first),
            found.triangle,
        );
    }
}

/// The point of the surface that is nearest to a point is one and the same, whichever tree it is
/// searched by, where every box is no farther than the faces below it.
pub proof fn every_tree_finds_the_same_point<O: Arithmetic>(
    one: Mesh,
    other: Mesh,
    ops: &O,
    point: Point,
    first: Option<ClosestSurfacePoint>,
    second: Option<ClosestSurfacePoint>,
)
    requires
        one.well_formed(),
        other.well_formed(),
        one.positions@ == other.positions@,
        one.triangles@ == other.triangles@,
        query::nearest_answered(one, ops, point, first),
        query::nearest_answered(other, ops, point, second),
        no_farther(
            one.topology.bvh,
            one.positions@,
            one.triangles@,
            (PointBoxes { ops, point }),
            (PointFaces { ops, point }),
        ),
        no_farther(
            other.topology.bvh,
            other.positions@,
            other.triangles@,
            (PointBoxes { ops, point }),
            (PointFaces { ops, point }),
        ),
    ensures
        first == second,
{
    if point.finite() {
        let away = PointBoxes { ops, point };
        let nearest = PointFaces { ops, point };
        let a = choose|near: Option<NearPoint>| #[trigger]
            query::closest_is(one, ops, point, first, near);
        let b = choose|near: Option<NearPoint>| #[trigger]
            query::closest_is(other, ops, point, second, near);
        if let Some(near) = a {
            the_point_found_is_the_nearest(
                other.topology.bvh,
                other.positions@,
                other.triangles@,
                away,
                nearest,
                b,
                near.triangle,
            );
        }
        if let Some(near) = b {
            the_point_found_is_the_nearest(
                one.topology.bvh,
                one.positions@,
                one.triangles@,
                away,
                nearest,
                a,
                near.triangle,
            );
        }
    }
}

} // verus!
