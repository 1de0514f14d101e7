//! What stays as it is when faces are reversed.
use crate::bvh;
use crate::collections::EdgeKey;
use crate::orientation;
use crate::scalar::Point;
use crate::topology;
use crate::topology::MeshTopology;
use vstd::prelude::*;

verus! {

/// Whether two lists of triangles have the same corners in each place, however wound.
pub open spec fn same_corners(a: Seq<[u32; 3]>, b: Seq<[u32; 3]>) -> bool {
    &&& a.len() == b.len()
    &&& forall|i: int|
        0 <= i < a.len() ==> ((#[trigger] b[i])@ == a[i]@ || b[i]@ == orientation::reversed(a[i]))
}

pub proof fn flipping_keeps_corners(a: Seq<[u32; 3]>, flips: Seq<bool>, b: Seq<[u32; 3]>)
    requires
        orientation::flipped(a, flips, b),
    ensures
        same_corners(a, b),
{
    assert forall|i: int| 0 <= i < a.len() implies ((#[trigger] b[i])@ == a[i]@ || b[i]@
        == orientation::reversed(a[i])) by {}
}

proof fn lemma_same_faces_with(
    a: Seq<[u32; 3]>,
    b: Seq<[u32; 3]>,
    property: spec_fn([u32; 3]) -> bool,
)
    requires
        a.len() == b.len(),
        forall|i: int| 0 <= i < a.len() ==> property(#[trigger] a[i]) == property(b[i]),
    ensures
        topology::faces_with(a, property) == topology::faces_with(b, property),
    decreases a.len(),
{
    if a.len() > 0 {
        let c = a.drop_last();
        let d = b.drop_last();
        assert forall|i: int| 0 <= i < c.len() implies property(#[trigger] c[i]) == property(
            d[i],
        ) by {
            assert(property(a[i]) == property(b[i]));
        }
        lemma_same_faces_with(c, d, property);
        assert(property(a[a.len() - 1]) == property(b[a.len() - 1]));
    }
}

proof fn lemma_same_uses(a: Seq<[u32; 3]>, b: Seq<[u32; 3]>)
    requires
        same_corners(a, b),
    ensures
        forall|side: EdgeKey|
            #![trigger topology::edge_uses(a, side)]
            #![trigger topology::edge_uses(b, side)]
            topology::edge_uses(a, side) == topology::edge_uses(b, side),
        forall|v: u32|
            #![trigger topology::incident_faces(a, v)]
            #![trigger topology::incident_faces(b, v)]
            topology::incident_faces(a, v) == topology::incident_faces(b, v),
        forall|v: u32, u: u32|
            #![trigger topology::adjacent(a, v, u)]
            #![trigger topology::adjacent(b, v, u)]
            topology::adjacent(a, v, u) == topology::adjacent(b, v, u),
{
    assert forall|side: EdgeKey|
        #![trigger topology::edge_uses(a, side)]
        #![trigger topology::edge_uses(b, side)]
        topology::edge_uses(a, side) == topology::edge_uses(b, side) by {
        let property = |triangle: [u32; 3]| topology::is_edge(triangle, side);
        assert forall|i: int| 0 <= i < a.len() implies property(#[trigger] a[i]) == property(
            b[i],
        ) by {
            assert(b[i]@ == a[i]@ || b[i]@ == orientation::reversed(a[i]));
        }
        lemma_same_faces_with(a, b, property);
    }
    assert forall|v: u32|
        #![trigger topology::incident_faces(a, v)]
        #![trigger topology::incident_faces(b, v)]
        topology::incident_faces(a, v) == topology::incident_faces(b, v) by {
        let property = |triangle: [u32; 3]| topology::is_corner(triangle, v);
        assert forall|i: int| 0 <= i < a.len() implies property(#[trigger] a[i]) == property(
            b[i],
        ) by {
            assert(b[i]@ == a[i]@ || b[i]@ == orientation::reversed(a[i]));
        }
        lemma_same_faces_with(a, b, property);
    }
    assert forall|v: u32, u: u32|
        #![trigger topology::adjacent(a, v, u)]
        #![trigger topology::adjacent(b, v, u)]
        topology::adjacent(a, v, u) == topology::adjacent(b, v, u) by {
        if topology::adjacent(a, v, u) {
            let i = choose|i: int|
                0 <= i < a.len() && topology::is_corner(#[trigger] a[i], v) && topology::is_corner(
                    a[i],
                    u,
                );
            assert(b[i]@ == a[i]@ || b[i]@ == orientation::reversed(a[i]));
            assert(topology::is_corner(b[i], v));
        }
        if topology::adjacent(b, v, u) {
            let i = choose|i: int|
                0 <= i < b.len() && topology::is_corner(#[trigger] b[i], v) && topology::is_corner(
                    b[i],
                    u,
                );
            assert(b[i]@ == a[i]@ || b[i]@ == orientation::reversed(a[i]));
            assert(topology::is_corner(a[i], v));
        }
    }
}

proof fn lemma_same_fan(a: Seq<[u32; 3]>, b: Seq<[u32; 3]>, vertex: u32)
    requires
        same_corners(a, b),
        topology::one_fan(a, vertex),
    ensures
        topology::one_fan(b, vertex),
{
    lemma_same_uses(a, b);
    let faces = topology::incident_faces(b, vertex);
    assert forall|f: u32, g: u32| #[trigger] topology::linked(a, vertex, f, g) implies topology::linked(
        b,
        vertex,
        f,
        g,
    ) by {
        let side = choose|side: EdgeKey|
            topology::at_edge(side, vertex) && #[trigger] topology::edge_uses(a, side).len() == 2
                && topology::edge_uses(a, side).contains(f) && topology::edge_uses(
                a,
                side,
            ).contains(g);
        assert(topology::edge_uses(b, side).len() == 2);
    }
    assert forall|i: int| 0 <= i < faces.len() implies topology::reaches(
        b,
        vertex,
        faces[0],
        #[trigger] faces[i],
    ) by {
        assert(topology::incident_faces(a, vertex) == faces);
        assert(topology::reaches(a, vertex, faces[0], topology::incident_faces(a, vertex)[i]));
        let walk = choose|walk: Seq<u32>|
            #[trigger] topology::is_walk(a, vertex, walk) && walk.len() > 0 && walk[0] == faces[0]
                && walk.last() == faces[i];
        assert forall|k: int| 0 <= k < walk.len() - 1 implies topology::linked(
            b,
            vertex,
            #[trigger] walk[k],
            walk[k + 1],
        ) by {
            assert(topology::linked(a, vertex, walk[k], walk[k + 1]));
        }
        assert(topology::is_walk(b, vertex, walk));
    }
}

proof fn lemma_same_corners_back(a: Seq<[u32; 3]>, b: Seq<[u32; 3]>)
    requires
        same_corners(a, b),
    ensures
        same_corners(b, a),
{
    assert forall|i: int| 0 <= i < b.len() implies ((#[trigger] a[i])@ == b[i]@ || a[i]@
        == orientation::reversed(b[i])) by {
        assert(b[i]@ == a[i]@ || b[i]@ == orientation::reversed(a[i]));
        if b[i]@ == orientation::reversed(a[i]) {
            assert(a[i]@ =~= orientation::reversed(b[i]));
        }
    }
}

/// Reversing faces changes nothing of how they hang together.
pub proof fn reversing_keeps_the_topology(
    topology: MeshTopology,
    a: Seq<[u32; 3]>,
    b: Seq<[u32; 3]>,
    vertex_count: nat,
)
    requires
        same_corners(a, b),
        topology.describes(a, vertex_count),
        topology::well_indexed(a, vertex_count),
    ensures
        topology.describes(b, vertex_count),
        topology::well_indexed(b, vertex_count),
{
    lemma_same_uses(a, b);
    lemma_same_corners_back(a, b);
    assert forall|i: int| 0 <= i < b.len() implies {
        let triangle = #[trigger] b[i];
        &&& triangle@[0] < vertex_count
        &&& triangle@[1] < vertex_count
        &&& triangle@[2] < vertex_count
        &&& topology::distinct_corners(triangle)
    } by {
        assert(b[i]@ == a[i]@ || b[i]@ == orientation::reversed(a[i]));
        assert(topology::distinct_corners(a[i]));
    }
    assert forall|v: u32| #[trigger] topology::on_boundary(a, v) == topology::on_boundary(
        b,
        v,
    ) by {
        if topology::on_boundary(a, v) {
            let side = choose|side: EdgeKey|
                topology::at_edge(side, v) && #[trigger] topology::edge_uses(a, side).len() == 1;
            assert(topology::edge_uses(b, side).len() == 1);
        }
        if topology::on_boundary(b, v) {
            let side = choose|side: EdgeKey|
                topology::at_edge(side, v) && #[trigger] topology::edge_uses(b, side).len() == 1;
            assert(topology::edge_uses(a, side).len() == 1);
        }
    }
    assert forall|v: u32| #[trigger] topology::non_manifold(a, v) == topology::non_manifold(
        b,
        v,
    ) by {
        if topology::on_crowded_edge(a, v) {
            let side = choose|side: EdgeKey|
                topology::at_edge(side, v) && #[trigger] topology::edge_uses(a, side).len() > 2;
            assert(topology::edge_uses(b, side).len() > 2);
        }
        if topology::on_crowded_edge(b, v) {
            let side = choose|side: EdgeKey|
                topology::at_edge(side, v) && #[trigger] topology::edge_uses(b, side).len() > 2;
            assert(topology::edge_uses(a, side).len() > 2);
        }
        assert(topology::boundary_ends(a, v) =~= topology::boundary_ends(b, v));
        if topology::one_fan(a, v) {
            lemma_same_fan(a, b, v);
        }
        if topology::one_fan(b, v) {
            lemma_same_fan(b, a, v);
        }
    }
    assert forall|v: int, u: u32| 0 <= v < vertex_count implies (
    #[trigger] topology.vertex_neighbors@[v]@.contains(u) <==> topology::adjacent(
        b,
        v as u32,
        u,
    )) by {
        assert(topology::adjacent(a, v as u32, u) == topology::adjacent(b, v as u32, u));
    }
    assert forall|v: int| 0 <= v < vertex_count implies (#[trigger] topology.vertex_triangles@[v])@
        == topology::incident_faces(b, v as u32) by {
        assert(topology::incident_faces(a, v as u32) == topology::incident_faces(b, v as u32));
    }
    assert forall|v: int| 0 <= v < vertex_count implies #[trigger] topology.boundary_vertices@[v]
        == topology::on_boundary(b, v as u32) by {
        assert(topology::on_boundary(a, v as u32) == topology::on_boundary(b, v as u32));
    }
    assert forall|v: int|
        0 <= v < vertex_count implies #[trigger] topology.non_manifold_vertices@[v]
        == topology::non_manifold(b, v as u32) by {
        assert(topology::non_manifold(a, v as u32) == topology::non_manifold(b, v as u32));
    }
}

proof fn lemma_same_box(
    positions: Seq<Point>,
    a: Seq<[u32; 3]>,
    b: Seq<[u32; 3]>,
    faces: Seq<u32>,
)
    requires
        same_corners(a, b),
        forall|k: int| 0 <= k < faces.len() ==> #[trigger] faces[k] < a.len(),
    ensures
        bvh::lowest(positions, a, faces, bvh::nowhere_low()).same(
            bvh::lowest(positions, b, faces, bvh::nowhere_low()),
        ),
        bvh::highest(positions, a, faces, bvh::nowhere_high()).same(
            bvh::highest(positions, b, faces, bvh::nowhere_high()),
        ),
    decreases faces.len(),
{
    if faces.len() > 0 {
        let front = faces.drop_last();
        let face = faces.last();
        assert(faces[faces.len() - 1] == face);
        assert forall|k: int| 0 <= k < front.len() implies #[trigger] front[k] < a.len() by {
            assert(front[k] == faces[k]);
        }
        lemma_same_box(positions, a, b, front);
        assert(b[face as int]@ == a[face as int]@ || b[face as int]@ == orientation::reversed(
            a[face as int],
        ));
    }
}

/// Reversing faces changes no box.
pub proof fn reversing_keeps_the_boxes(
    tree: bvh::MeshBvh,
    positions: Seq<Point>,
    a: Seq<[u32; 3]>,
    b: Seq<[u32; 3]>,
)
    requires
        same_corners(a, b),
        tree.holds(a.len()),
        tree.fits(positions, a),
    ensures
        tree.holds(b.len()),
        tree.fits(positions, b),
{
    assert forall|i: int| 0 <= i < tree.nodes@.len() implies #[trigger] bvh::node_tight(
        tree.nodes@,
        tree.leaf_faces@,
        positions,
        b,
        i,
    ) by {
        assert(bvh::node_tight(tree.nodes@, tree.leaf_faces@, positions, a, i));
        if tree.nodes@[i].spec_is_leaf() {
            let faces = tree.leaf_faces@[tree.nodes@[i].leaf as int]@;
            assert forall|k: int| 0 <= k < faces.len() implies #[trigger] faces[k] < a.len() by {
                assert(tree.leaf_faces@[tree.nodes@[i].leaf as int]@[k] == faces[k]);
            }
            lemma_same_box(positions, a, b, faces);
        }
    }
}

} // verus!
