//! Giving the faces of a surface one winding.
use crate::collections;
use crate::collections::{EdgeKey, EdgeMap};
use crate::topology;
use std::collections::VecDeque;
use vstd::prelude::*;

verus! {

/// Whether a triangle goes from one vertex straight to another.
pub open spec fn goes(triangle: [u32; 3], a: u32, b: u32) -> bool {
    ||| triangle@[0] == a && triangle@[1] == b
    ||| triangle@[1] == a && triangle@[2] == b
    ||| triangle@[2] == a && triangle@[0] == b
}

/// The triangle with its winding reversed.
pub open spec fn reversed(triangle: [u32; 3]) -> Seq<u32> {
    seq![triangle@[0], triangle@[2], triangle@[1]]
}

/// Whether two triangles are the two at an edge; `clash` tells whether they go along it the same
/// way, so that one would have to be reversed.
pub open spec fn meets(triangles: Seq<[u32; 3]>, side: EdgeKey, f: u32, g: u32, clash: bool) -> bool {
    let uses = topology::edge_uses(triangles, side);
    &&& uses.len() == 2
    &&& uses.contains(f)
    &&& uses.contains(g)
    &&& f != g
    &&& clash == (goes(triangles[f as int], side.0, side.1) == goes(
        triangles[g as int],
        side.0,
        side.1,
    ))
}

pub open spec fn neighbors(triangles: Seq<[u32; 3]>, f: u32, g: u32, clash: bool) -> bool {
    exists|side: EdgeKey| #[trigger] meets(triangles, side, f, g, clash)
}

/// A route from face to neighboring face, with the choice for each face whether to reverse it that
/// settles every clash on the way.
pub open spec fn is_route(triangles: Seq<[u32; 3]>, route: Seq<(u32, bool)>) -> bool {
    forall|i: int|
        0 <= i < route.len() - 1 ==> neighbors(
            triangles,
            (#[trigger] route[i]).0,
            route[i + 1].0,
            route[i].1 != route[i + 1].1,
        )
}

/// Whether some route from one face, kept as it is, reaches another and settles on `flip` for it.
pub open spec fn leads(triangles: Seq<[u32; 3]>, from: u32, to: u32, flip: bool) -> bool {
    exists|route: Seq<(u32, bool)>|
        #[trigger] is_route(triangles, route) && route.len() > 0 && route[0] == (from, false)
            && route.last() == (to, flip)
}

/// Whether no face that a route reaches has a lower index.
pub open spec fn is_lowest(triangles: Seq<[u32; 3]>, seed: u32) -> bool {
    forall|g: u32, flip: bool| #[trigger] leads(triangles, seed, g, flip) ==> seed <= g
}

/// Whether the choice for a face follows from a route that starts at the lowest face of its
/// component.
pub open spec fn routed(triangles: Seq<[u32; 3]>, face: u32, flip: bool) -> bool {
    exists|seed: u32| is_lowest(triangles, seed) && #[trigger] leads(triangles, seed, face, flip)
}

/// Whether every choice follows from such a route, and the lowest face of every component is kept
/// as it is.
pub open spec fn follows_routes(triangles: Seq<[u32; 3]>, flips: Seq<bool>) -> bool {
    &&& flips.len() == triangles.len()
    &&& forall|f: int| 0 <= f < triangles.len() ==> routed(triangles, f as u32, #[trigger] flips[f])
    &&& forall|f: u32|
        f < triangles.len() && #[trigger] is_lowest(triangles, f) ==> !flips[f as int]
}

/// The triangles with the chosen ones reversed.
pub open spec fn flipped(triangles: Seq<[u32; 3]>, flips: Seq<bool>, after: Seq<[u32; 3]>) -> bool {
    &&& after.len() == triangles.len()
    &&& forall|i: int|
        0 <= i < triangles.len() ==> (#[trigger] after[i])@ == if flips[i] {
            reversed(triangles[i])
        } else {
            triangles[i]@
        }
}

/// Whether two faces are in one component.
pub open spec fn connected(triangles: Seq<[u32; 3]>, f: u32, g: u32) -> bool {
    exists|flip: bool| #[trigger] leads(triangles, f, g, flip)
}

/// Whether choices settle every clash of neighboring faces in the component of a face.
pub open spec fn consistent(triangles: Seq<[u32; 3]>, flips: Seq<bool>, part: u32) -> bool {
    forall|f: u32, g: u32, clash: bool|
        connected(triangles, part, f) && #[trigger] neighbors(triangles, f, g, clash) ==> (clash
            <==> flips[f as int] != flips[g as int])
}

pub fn triangle_edge_direction(triangle: [u32; 3], a: u32, b: u32) -> (result: bool)
    ensures
        result == goes(triangle, a, b),
{
    (triangle[0] == a && triangle[1] == b) || (triangle[1] == a && triangle[2] == b) || (triangle[2]
        == a && triangle[0] == b)
}

proof fn lemma_leads_itself(triangles: Seq<[u32; 3]>, face: u32)
    ensures
        leads(triangles, face, face, false),
{
    assert(is_route(triangles, seq![(face, false)]));
}

proof fn lemma_leads_next(
    triangles: Seq<[u32; 3]>,
    from: u32,
    f: u32,
    flip: bool,
    g: u32,
    clash: bool,
)
    requires
        leads(triangles, from, f, flip),
        neighbors(triangles, f, g, clash),
    ensures
        leads(triangles, from, g, flip != clash),
{
    let route = choose|route: Seq<(u32, bool)>|
        #[trigger] is_route(triangles, route) && route.len() > 0 && route[0] == (from, false)
            && route.last() == (f, flip);
    let longer = route.push((g, flip != clash));
    assert forall|i: int| 0 <= i < longer.len() - 1 implies neighbors(
        triangles,
        (#[trigger] longer[i]).0,
        longer[i + 1].0,
        longer[i].1 != longer[i + 1].1,
    ) by {
        if i < route.len() - 1 {
            assert(longer[i] == route[i] && longer[i + 1] == route[i + 1]);
            assert(neighbors(
                triangles,
                route[i].0,
                route[i + 1].0,
                route[i].1 != route[i + 1].1,
            ));
        } else {
            assert(longer[i] == (f, flip));
        }
    }
    assert(is_route(triangles, longer));
}

proof fn lemma_neighbors_symmetric(triangles: Seq<[u32; 3]>, f: u32, g: u32, clash: bool)
    requires
        neighbors(triangles, f, g, clash),
    ensures
        neighbors(triangles, g, f, clash),
{
    let side = choose|side: EdgeKey| #[trigger] meets(triangles, side, f, g, clash);
    assert(meets(triangles, side, g, f, clash));
}

/// A route does not leave a set of faces that has every neighbor of its own.
proof fn lemma_route_stays(triangles: Seq<[u32; 3]>, faces: Set<u32>, route: Seq<(u32, bool)>)
    requires
        is_route(triangles, route),
        route.len() > 0,
        faces.contains(route[0].0),
        forall|f: u32, g: u32, clash: bool|
            faces.contains(f) && #[trigger] neighbors(triangles, f, g, clash) ==> faces.contains(g),
    ensures
        faces.contains(route.last().0),
    decreases route.len(),
{
    if route.len() > 1 {
        let front = route.drop_last();
        assert forall|i: int| 0 <= i < front.len() - 1 implies neighbors(
            triangles,
            (#[trigger] front[i]).0,
            front[i + 1].0,
            front[i].1 != front[i + 1].1,
        ) by {
            assert(front[i] == route[i] && front[i + 1] == route[i + 1]);
        }
        lemma_route_stays(triangles, faces, front);
        let i = route.len() - 2;
        assert(route[i] == front.last());
        assert(neighbors(triangles, route[i].0, route[i + 1].0, route[i].1 != route[i + 1].1));
    }
}

/// Along a route, the choices differ from consistent ones by one and the same flip.
proof fn lemma_route_parity(
    triangles: Seq<[u32; 3]>,
    choices: Seq<bool>,
    route: Seq<(u32, bool)>,
)
    requires
        is_route(triangles, route),
        route.len() > 0,
        !route[0].1,
        consistent(triangles, choices, route[0].0),
    ensures
        (route[0].1 == route.last().1) == (choices[route[0].0 as int]
            == choices[route.last().0 as int]),
    decreases route.len(),
{
    if route.len() > 1 {
        let front = route.drop_last();
        assert forall|i: int| 0 <= i < front.len() - 1 implies neighbors(
            triangles,
            (#[trigger] front[i]).0,
            front[i + 1].0,
            front[i].1 != front[i + 1].1,
        ) by {
            assert(front[i] == route[i] && front[i + 1] == route[i + 1]);
        }
        lemma_route_parity(triangles, choices, front);
        let i = route.len() - 2;
        assert(route[i] == front.last());
        assert(route[0] == front[0]);
        assert(is_route(triangles, front));
        assert(leads(triangles, route[0].0, route[i].0, route[i].1));
        assert(neighbors(triangles, route[i].0, route[i + 1].0, route[i].1 != route[i + 1].1));
    }
}

/// In a component in which some choices settle every clash, so do those that follow routes from
/// its lowest face.
pub proof fn an_orientable_component_is_oriented(
    triangles: Seq<[u32; 3]>,
    flips: Seq<bool>,
    choices: Seq<bool>,
    part: u32,
)
    requires
        triangles.len() <= u32::MAX,
        follows_routes(triangles, flips),
        consistent(triangles, choices, part),
    ensures
        consistent(triangles, flips, part),
{
    assert forall|f: u32, g: u32, clash: bool|
        connected(triangles, part, f) && #[trigger] neighbors(triangles, f, g, clash) implies (clash
        <==> flips[f as int] != flips[g as int]) by {
        lemma_neighbors_in_range(triangles, f, g, clash);
        assert(routed(triangles, f, flips[f as int]));
        assert(routed(triangles, g, flips[g as int]));
        let s = choose|seed: u32|
            is_lowest(triangles, seed) && #[trigger] leads(triangles, seed, f, flips[f as int]);
        let t = choose|seed: u32|
            is_lowest(triangles, seed) && #[trigger] leads(triangles, seed, g, flips[g as int]);
        lemma_leads_next(triangles, s, f, flips[f as int], g, clash);
        lemma_neighbors_symmetric(triangles, f, g, clash);
        lemma_leads_next(triangles, t, g, flips[g as int], f, clash);
        // Both components are the same, so their lowest faces are.
        lemma_same_component(triangles, s, t, f, flips[f as int], flips[g as int] != clash);
        lemma_leads_back(triangles, s, f, flips[f as int]);
        assert(connected(triangles, f, s));
        lemma_connected_on(triangles, part, f, s);
        assert(consistent(triangles, choices, s)) by {
            assert forall|h: u32, k: u32, other: bool|
                connected(triangles, s, h) && #[trigger] neighbors(
                    triangles,
                    h,
                    k,
                    other,
                ) implies (other <==> choices[h as int] != choices[k as int]) by {
                lemma_connected_on(triangles, part, s, h);
            }
        }
        let first = choose|route: Seq<(u32, bool)>|
            #[trigger] is_route(triangles, route) && route.len() > 0 && route[0] == (s, false)
                && route.last() == (f, flips[f as int]);
        let second = choose|route: Seq<(u32, bool)>|
            #[trigger] is_route(triangles, route) && route.len() > 0 && route[0] == (t, false)
                && route.last() == (g, flips[g as int]);
        lemma_route_parity(triangles, choices, first);
        lemma_route_parity(triangles, choices, second);
    }
}

proof fn lemma_connected_on(triangles: Seq<[u32; 3]>, from: u32, through: u32, to: u32)
    requires
        connected(triangles, from, through),
        connected(triangles, through, to),
    ensures
        connected(triangles, from, to),
{
    let flip = choose|flip: bool| #[trigger] leads(triangles, from, through, flip);
    let more = choose|more: bool| #[trigger] leads(triangles, through, to, more);
    lemma_leads_on(triangles, from, through, flip, to, more);
}

proof fn lemma_neighbors_in_range(triangles: Seq<[u32; 3]>, f: u32, g: u32, clash: bool)
    requires
        triangles.len() <= u32::MAX,
        neighbors(triangles, f, g, clash),
    ensures
        f < triangles.len(),
        g < triangles.len(),
{
    let side = choose|side: EdgeKey| #[trigger] meets(triangles, side, f, g, clash);
    topology::lemma_faces_with(
        triangles,
        |triangle: [u32; 3]| topology::is_edge(triangle, side),
    );
}

/// Two lowest faces that lead to one face are the same.
proof fn lemma_same_component(
    triangles: Seq<[u32; 3]>,
    s: u32,
    t: u32,
    face: u32,
    flip: bool,
    other: bool,
)
    requires
        is_lowest(triangles, s),
        is_lowest(triangles, t),
        leads(triangles, s, face, flip),
        leads(triangles, t, face, other),
    ensures
        s == t,
{
    lemma_leads_back(triangles, t, face, other);
    lemma_leads_back(triangles, s, face, flip);
    lemma_leads_on(triangles, s, face, flip, t, other);
    lemma_leads_on(triangles, t, face, other, s, flip);
}

proof fn lemma_leads_back(triangles: Seq<[u32; 3]>, from: u32, to: u32, flip: bool)
    requires
        leads(triangles, from, to, flip),
    ensures
        leads(triangles, to, from, flip),
{
    let route = choose|route: Seq<(u32, bool)>|
        #[trigger] is_route(triangles, route) && route.len() > 0 && route[0] == (from, false)
            && route.last() == (to, flip);
    let n = route.len() as int;
    let back = Seq::new(
        route.len(),
        |i: int| (route[n - 1 - i].0, route[n - 1 - i].1 != flip),
    );
    assert forall|i: int| 0 <= i < back.len() - 1 implies neighbors(
        triangles,
        (#[trigger] back[i]).0,
        back[i + 1].0,
        back[i].1 != back[i + 1].1,
    ) by {
        let j = n - 2 - i;
        assert(neighbors(triangles, route[j].0, route[j + 1].0, route[j].1 != route[j + 1].1));
        lemma_neighbors_symmetric(
            triangles,
            route[j].0,
            route[j + 1].0,
            route[j].1 != route[j + 1].1,
        );
    }
    assert(is_route(triangles, back));
    assert(back[0] == (to, false));
    assert(back.last() == (from, flip));
}

proof fn lemma_leads_on(
    triangles: Seq<[u32; 3]>,
    from: u32,
    through: u32,
    flip: bool,
    to: u32,
    more: bool,
)
    requires
        leads(triangles, from, through, flip),
        leads(triangles, through, to, more),
    ensures
        leads(triangles, from, to, flip != more),
{
    let first = choose|route: Seq<(u32, bool)>|
        #[trigger] is_route(triangles, route) && route.len() > 0 && route[0] == (from, false)
            && route.last() == (through, flip);
    let second = choose|route: Seq<(u32, bool)>|
        #[trigger] is_route(triangles, route) && route.len() > 0 && route[0] == (through, false)
            && route.last() == (to, more);
    let turned = Seq::new(second.len(), |i: int| (second[i].0, second[i].1 != flip));
    let whole = first.drop_last() + turned;
    assert forall|i: int| 0 <= i < whole.len() - 1 implies neighbors(
        triangles,
        (#[trigger] whole[i]).0,
        whole[i + 1].0,
        whole[i].1 != whole[i + 1].1,
    ) by {
        let k = first.len() - 1;
        if i < k {
            assert(neighbors(
                triangles,
                first[i].0,
                first[i + 1].0,
                first[i].1 != first[i + 1].1,
            ));
            assert(whole[i] == first[i]);
            assert(whole[i + 1] == first[i + 1]) by {
                if i + 1 == k {
                    assert(whole[i + 1] == turned[0]);
                    assert(first[k] == first.last());
                }
            }
        } else {
            let j = i - k;
            assert(neighbors(
                triangles,
                second[j].0,
                second[j + 1].0,
                second[j].1 != second[j + 1].1,
            ));
            assert(whole[i] == turned[j]);
            assert(whole[i + 1] == turned[j + 1]);
        }
    }
    assert(is_route(triangles, whole));
    assert(whole[0] == (from, false)) by {
        if first.len() == 1 {
            assert(whole[0] == turned[0]);
            assert(first[0] == first.last());
        }
    }
    assert(whole.last() == turned.last());
}

pub open spec fn settled(flips: Seq<Option<bool>>, face: u32) -> bool {
    face < flips.len() && flips[face as int] is Some
}

/// The number of faces without a choice.
pub open spec fn count_open(flips: Seq<Option<bool>>) -> nat
    decreases flips.len(),
{
    if flips.len() == 0 {
        0
    } else {
        count_open(flips.drop_last()) + if flips.last() is None {
            1nat
        } else {
            0
        }
    }
}

proof fn lemma_settling_counts(flips: Seq<Option<bool>>, face: int, flip: bool)
    requires
        0 <= face < flips.len(),
        flips[face] is None,
    ensures
        count_open(flips.update(face, Some(flip))) + 1 == count_open(flips),
    decreases flips.len(),
{
    let after = flips.update(face, Some(flip));
    if face == flips.len() - 1 {
        assert(after.drop_last() =~= flips.drop_last());
    } else {
        assert(after.drop_last() =~= flips.drop_last().update(face, Some(flip)));
        lemma_settling_counts(flips.drop_last(), face, flip);
    }
}

/// The other face at an edge that exactly two faces use.
proof fn lemma_other_face(triangles: Seq<[u32; 3]>, side: EdgeKey, face: u32)
    requires
        triangles.len() <= u32::MAX,
        topology::edge_uses(triangles, side).len() == 2,
        topology::edge_uses(triangles, side).contains(face),
    ensures
        ({
            let uses = topology::edge_uses(triangles, side);
            let other = if uses[0] == face {
                uses[1]
            } else {
                uses[0]
            };
            &&& other != face
            &&& other < triangles.len()
            &&& uses.contains(other)
            &&& forall|g: u32, clash: bool| #[trigger]
                meets(triangles, side, face, g, clash) ==> g == other
        }),
{
    topology::lemma_faces_with(
        triangles,
        |triangle: [u32; 3]| topology::is_edge(triangle, side),
    );
    let uses = topology::edge_uses(triangles, side);
    assert(uses.contains(uses[0]) && uses.contains(uses[1]));
}

/// Settles the face across an edge, if exactly two faces use the edge and it has no choice yet.
fn cross(
    triangles: &Vec<[u32; 3]>,
    edges: &EdgeMap,
    face: u32,
    a: u32,
    b: u32,
    flips: &mut Vec<Option<bool>>,
    queue: &mut VecDeque<u32>,
)
    requires
        triangles@.len() <= u32::MAX,
        topology::lists_edges(edges@, triangles@),
        old(flips)@.len() == triangles@.len(),
        settled(old(flips)@, face),
        topology::is_edge(triangles@[face as int], topology::edge(a, b)),
    ensures
        final(flips)@.len() == old(flips)@.len(),
        forall|g: u32| settled(old(flips)@, g) ==> #[trigger] settled(final(flips)@, g) && final(
            flips)@[g as int] == old(flips)@[g as int],
        forall|g: u32, clash: bool| #[trigger]
            meets(triangles@, topology::edge(a, b), face, g, clash) ==> settled(final(flips)@, g),
        forall|g: u32|
            #![trigger settled(final(flips)@, g)]
            settled(final(flips)@, g) && !settled(old(flips)@, g) ==> {
                &&& final(queue)@.contains(g)
                &&& exists|clash: bool|
                    neighbors(triangles@, face, g, clash) && final(flips)@[g as int]
                        == Some(old(flips)@[face as int]->0 != clash)
            },
        forall|g: u32| old(queue)@.contains(g) ==> final(queue)@.contains(g),
        forall|g: u32| #[trigger] final(queue)@.contains(g) ==> old(queue)@.contains(g) || (settled(
            final(flips)@,
            g,
        ) && !settled(old(flips)@, g)),
        count_open(final(flips)@) + final(queue)@.len() == count_open(old(flips)@) + old(
            queue)@.len(),
{
    broadcast use vstd::seq_lib::group_seq_properties;

    let side = topology::edge_key(a, b);
    let ghost before = flips@;
    assert(collections::listed(edges@, side) == topology::edge_uses(triangles@, side));
    let found = edges.faces(side);
    proof {
        topology::lemma_faces_with(
            triangles@,
            |triangle: [u32; 3]| topology::is_edge(triangle, side),
        );
    }
    if let Some(faces) = found {
        if faces.len() == 2 {
            let other = if faces[0] == face {
                faces[1]
            } else {
                faces[0]
            };
            proof {
                assert(topology::edge_uses(triangles@, side).contains(face));
                lemma_other_face(triangles@, side, face);
            }
            let clash = triangle_edge_direction(triangles[face as usize], side.0, side.1)
                == triangle_edge_direction(triangles[other as usize], side.0, side.1);
            assert(meets(triangles@, side, face, other, clash));
            if flips[other as usize].is_none() {
                let own = match flips[face as usize] {
                    Some(flip) => flip,
                    None => false,
                };
                let choice = own != clash;
                proof {
                    lemma_settling_counts(flips@, other as int, choice);
                }
                flips.set(other as usize, Some(choice));
                queue.push_back(other);
                proof {
                    assert(queue@.contains(other)) by {
                        assert(queue@[queue@.len() - 1] == other);
                    }
                    assert(neighbors(triangles@, face, other, clash));
                    assert forall|g: u32| settled(before, g) implies #[trigger] settled(flips@, g)
                        && flips@[g as int] == before[g as int] by {}
                    assert forall|g: u32| old(queue)@.contains(g) implies queue@.contains(g) by {
                        let k = choose|k: int| 0 <= k < old(queue)@.len() && old(queue)@[k] == g;
                        assert(queue@[k] == g);
                    }
                }
            }
        }
    }
}

/// Whether every neighbor of a face with a choice has one.
pub open spec fn complete(triangles: Seq<[u32; 3]>, flips: Seq<Option<bool>>) -> bool {
    forall|f: u32, g: u32, clash: bool|
        settled(flips, f) && #[trigger] neighbors(triangles, f, g, clash) ==> settled(flips, g)
}

/// Keeps a face as it is and settles every face of its component by a route from it.
fn spread(
    triangles: &Vec<[u32; 3]>,
    edges: &EdgeMap,
    seed: u32,
    flips: &mut Vec<Option<bool>>,
)
    requires
        triangles@.len() <= u32::MAX,
        topology::lists_edges(edges@, triangles@),
        old(flips)@.len() == triangles@.len(),
        seed < triangles@.len(),
        !settled(old(flips)@, seed),
        complete(triangles@, old(flips)@),
    ensures
        final(flips)@.len() == old(flips)@.len(),
        forall|g: u32| settled(old(flips)@, g) ==> #[trigger] settled(final(flips)@, g) && final(
            flips)@[g as int] == old(flips)@[g as int],
        settled(final(flips)@, seed),
        final(flips)@[seed as int] == Some(false),
        complete(triangles@, final(flips)@),
        forall|g: u32| #[trigger]
            settled(final(flips)@, g) && !settled(old(flips)@, g) ==> leads(
                triangles@,
                seed,
                g,
                final(flips)@[g as int]->0,
            ),
{
    let ghost begun = flips@;
    let mut queue: VecDeque<u32> = VecDeque::new();
    flips.set(seed as usize, Some(false));
    queue.push_back(seed);
    proof {
        lemma_leads_itself(triangles@, seed);
        assert(queue@[0] == seed);
        assert forall|f: u32, g: u32, clash: bool|
            settled(flips@, f) && !queue@.contains(f) && #[trigger] neighbors(
                triangles@,
                f,
                g,
                clash,
            ) implies settled(flips@, g) by {
            assert(settled(begun, f));
            assert(settled(begun, g));
        }
    }
    loop
        invariant
            triangles@.len() <= u32::MAX,
            topology::lists_edges(edges@, triangles@),
            begun == old(flips)@,
            flips@.len() == triangles@.len() == begun.len(),
            settled(flips@, seed),
            flips@[seed as int] == Some(false),
            forall|g: u32| settled(begun, g) ==> #[trigger] settled(flips@, g) && flips@[g as int]
                == begun[g as int],
            forall|g: u32| #[trigger] queue@.contains(g) ==> settled(flips@, g),
            forall|g: u32| #[trigger]
                settled(flips@, g) && !settled(begun, g) ==> leads(
                    triangles@,
                    seed,
                    g,
                    flips@[g as int]->0,
                ),
            forall|g: u32| #[trigger] queue@.contains(g) ==> !settled(begun, g),
            forall|f: u32, g: u32, clash: bool|
                settled(flips@, f) && !queue@.contains(f) && #[trigger] neighbors(
                    triangles@,
                    f,
                    g,
                    clash,
                ) ==> settled(flips@, g),
        ensures
            queue@.len() == 0,
        decreases count_open(flips@) + queue@.len(),
    {
        let ghost waiting = queue@;
        let ghost before = flips@;
        let face = match queue.pop_front() {
            Some(face) => face,
            None => {
                break;
            },
        };
        proof {
            assert(waiting[0] == face);
            assert(waiting.contains(face));
            assert forall|g: u32| waiting.contains(g) implies g == face || queue@.contains(g) by {
                let k = choose|k: int| 0 <= k < waiting.len() && waiting[k] == g;
                if k > 0 {
                    assert(queue@[k - 1] == g);
                }
            }
            assert forall|g: u32| queue@.contains(g) implies waiting.contains(g) by {
                let k = choose|k: int| 0 <= k < queue@.len() && queue@[k] == g;
                assert(waiting[k + 1] == g);
            }
        }
        let ghost rest = queue@;
        let triangle = triangles[face as usize];
        cross(triangles, edges, face, triangle[0], triangle[1], flips, &mut queue);
        let ghost one = flips@;
        let ghost queue_one = queue@;
        cross(triangles, edges, face, triangle[1], triangle[2], flips, &mut queue);
        let ghost two = flips@;
        let ghost queue_two = queue@;
        cross(triangles, edges, face, triangle[2], triangle[0], flips, &mut queue);
        proof {
            assert forall|g: u32| settled(before, g) implies #[trigger] settled(flips@, g)
                && flips@[g as int] == before[g as int] by {
                assert(settled(one, g));
                assert(settled(two, g));
            }
            assert(settled(before, seed));
            assert(settled(one, seed));
            assert(one[seed as int] == before[seed as int]);
            assert(settled(two, seed));
            assert(two[seed as int] == one[seed as int]);
            assert(settled(flips@, seed));
            assert(flips@[seed as int] == two[seed as int]);
            assert forall|g: u32|
                #![trigger settled(flips@, g)]
                settled(flips@, g) && !settled(before, g) implies queue@.contains(g) && leads(
                triangles@,
                seed,
                g,
                flips@[g as int]->0,
            ) by {
                assert(settled(before, face));
                assert(leads(triangles@, seed, face, before[face as int]->0));
                if settled(one, g) {
                    assert(settled(two, g) && two[g as int] == one[g as int]);
                    assert(queue_one.contains(g));
                    assert(queue_two.contains(g));
                } else if settled(two, g) {
                    assert(queue_two.contains(g));
                }
                assert(settled(one, face));
                assert(one[face as int] == before[face as int]);
                assert(settled(two, face));
                assert(two[face as int] == before[face as int]);
                let clash = choose|clash: bool|
                    neighbors(triangles@, face, g, clash) && flips@[g as int]
                        == Some(before[face as int]->0 != clash);
                lemma_leads_next(triangles@, seed, face, before[face as int]->0, g, clash);
            }
            assert forall|f: u32, g: u32, clash: bool|
                settled(flips@, f) && !queue@.contains(f) && #[trigger] neighbors(
                    triangles@,
                    f,
                    g,
                    clash,
                ) implies settled(flips@, g) by {
                if f == face {
                    let side = choose|side: EdgeKey| #[trigger] meets(triangles@, side, f, g, clash);
                    topology::lemma_faces_with(
                        triangles@,
                        |triangle: [u32; 3]| topology::is_edge(triangle, side),
                    );
                    assert(topology::is_edge(triangle, side));
                    if side == topology::edge(triangle@[0], triangle@[1]) {
                        assert(settled(one, g));
                        assert(settled(two, g));
                    } else if side == topology::edge(triangle@[1], triangle@[2]) {
                        assert(settled(two, g));
                    }
                } else {
                    assert(settled(before, f));
                    assert(!waiting.contains(f)) by {
                        if waiting.contains(f) {
                            assert(rest.contains(f));
                            assert(queue_one.contains(f));
                            assert(queue_two.contains(f));
                        }
                    }
                    assert(settled(before, g));
                }
            }
            assert forall|g: u32| #[trigger] queue@.contains(g) implies settled(flips@, g)
                && !settled(begun, g) by {
                if queue_two.contains(g) {
                    if queue_one.contains(g) {
                        if rest.contains(g) {
                            assert(waiting.contains(g));
                        } else {
                            assert(settled(one, g) && !settled(before, g));
                            assert(settled(two, g));
                        }
                    } else {
                        assert(settled(two, g) && !settled(one, g));
                        assert(settled(before, g) ==> settled(one, g));
                    }
                } else {
                    assert(settled(before, g) ==> settled(one, g));
                    assert(settled(one, g) ==> settled(two, g));
                }
                assert(settled(begun, g) ==> settled(before, g));
            }
        }
    }
}

/// How often a face is reversed.
pub open spec fn count_flips(flips: Seq<bool>) -> nat {
    topology::count_set(flips)
}

/// Reverses faces so that neighbors go opposite ways along the edge between them, where that can
/// be had: in each component of the surface the face of lowest index is kept, and every other
/// face follows from a route to it. Returns how many faces were reversed.
pub fn orient_manifold_faces(triangles: &mut Vec<[u32; 3]>, edges: &EdgeMap) -> (result: usize)
    requires
        old(triangles)@.len() <= u32::MAX,
        topology::lists_edges(edges@, old(triangles)@),
    ensures
        exists|flips: Seq<bool>| #[trigger]
            follows_routes(old(triangles)@, flips) && flipped(
                old(triangles)@,
                flips,
                final(triangles)@,
            ) && result == count_flips(flips),
{
    let ghost given = triangles@;
    let count = triangles.len();
    let mut flips: Vec<Option<bool>> = vec![None; count];
    let mut seed: usize = 0;
    while seed < count
        invariant
            seed <= count == given.len() <= u32::MAX,
            triangles@ == given,
            topology::lists_edges(edges@, given),
            flips@.len() == count,
            complete(given, flips@),
            forall|f: u32| f < seed ==> #[trigger] settled(flips@, f),
            forall|f: u32| #[trigger]
                settled(flips@, f) ==> routed(given, f, flips@[f as int]->0),
            forall|f: u32|
                settled(flips@, f) && #[trigger] is_lowest(given, f) ==> flips@[f as int] == Some(
                    false,
                ),
        decreases count - seed,
    {
        if flips[seed].is_none() {
            let ghost before = flips@;
            spread(triangles, edges, seed as u32, &mut flips);
            proof {
                lemma_seed_is_lowest(given, before, seed as u32);
                assert forall|f: u32| #[trigger] settled(flips@, f) implies routed(
                    given,
                    f,
                    flips@[f as int]->0,
                ) by {
                    if settled(before, f) {
                        assert(routed(given, f, before[f as int]->0));
                    } else {
                        assert(leads(given, seed as u32, f, flips@[f as int]->0));
                    }
                }
                assert forall|f: u32|
                    settled(flips@, f) && #[trigger] is_lowest(
                        given,
                        f,
                    ) implies flips@[f as int] == Some(false) by {
                    if settled(before, f) {
                        assert(before[f as int] == Some(false));
                    } else {
                        let flip = flips@[f as int]->0;
                        assert(leads(given, seed as u32, f, flip));
                        lemma_leads_back(given, seed as u32, f, flip);
                        assert(f == seed);
                    }
                }
                assert forall|f: u32| f < seed + 1 implies #[trigger] settled(flips@, f) by {
                    if f < seed {
                        assert(settled(before, f));
                    }
                }
            }
        }
        seed += 1;
    }
    let ghost choices = Seq::new(count as nat, |i: int| flips@[i]->0);
    let mut reversed_count: usize = 0;
    let mut i: usize = 0;
    proof {
        assert(choices.take(0) =~= Seq::<bool>::empty());
    }
    while i < count
        invariant
            i <= count == given.len() <= u32::MAX,
            flips@.len() == count,
            choices.len() == count,
            forall|f: u32| f < count ==> #[trigger] settled(flips@, f),
            forall|f: u32|
                settled(flips@, f) && #[trigger] is_lowest(given, f) ==> flips@[f as int] == Some(
                    false,
                ),
            forall|k: int| 0 <= k < count ==> #[trigger] choices[k] == flips@[k]->0,
            triangles@.len() == count,
            reversed_count <= i,
            reversed_count == count_flips(choices.take(i as int)),
            forall|k: int|
                0 <= k < i ==> (#[trigger] triangles@[k])@ == if choices[k] {
                    reversed(given[k])
                } else {
                    given[k]@
                },
            forall|k: int| i <= k < count ==> #[trigger] triangles@[k] == given[k],
        decreases count - i,
    {
        assert(settled(flips@, i as u32));
        let flip = match flips[i] {
            Some(flip) => flip,
            None => false,
        };
        assert(choices.take(i + 1).drop_last() =~= choices.take(i as int));
        if flip {
            let triangle = triangles[i];
            triangles.set(i, [triangle[0], triangle[2], triangle[1]]);
            assert(triangles@[i as int]@ =~= reversed(given[i as int]));
            reversed_count += 1;
        }
        i += 1;
    }
    proof {
        assert(choices.take(count as int) =~= choices);
        assert(follows_routes(given, choices)) by {
            assert forall|f: int| 0 <= f < given.len() implies routed(
                given,
                f as u32,
                #[trigger] choices[f],
            ) by {
                assert(settled(flips@, f as u32));
            }
            assert forall|f: u32|
                f < given.len() && #[trigger] is_lowest(given, f) implies !choices[f as int] by {
                assert(settled(flips@, f));
            }
        }
    }
    reversed_count
}

/// The first face without a choice is the lowest of its component, where the settled faces below
/// it have settled neighbors only.
proof fn lemma_seed_is_lowest(triangles: Seq<[u32; 3]>, flips: Seq<Option<bool>>, seed: u32)
    requires
        triangles.len() <= u32::MAX,
        flips.len() == triangles.len(),
        seed < triangles.len(),
        !settled(flips, seed),
        complete(triangles, flips),
        forall|f: u32| f < seed ==> #[trigger] settled(flips, f),
    ensures
        is_lowest(triangles, seed),
{
    assert forall|g: u32, flip: bool| #[trigger] leads(triangles, seed, g, flip) implies seed
        <= g by {
        if g < seed {
            assert(settled(flips, g));
            lemma_leads_back(triangles, seed, g, flip);
            let route = choose|route: Seq<(u32, bool)>|
                #[trigger] is_route(triangles, route) && route.len() > 0 && route[0] == (g, false)
                    && route.last() == (seed, flip);
            let faces = Set::new(|f: u32| settled(flips, f));
            assert forall|f: u32, h: u32, clash: bool|
                faces.contains(f) && #[trigger] neighbors(
                    triangles,
                    f,
                    h,
                    clash,
                ) implies faces.contains(h) by {
                assert(settled(flips, f));
            }
            lemma_route_stays(triangles, faces, route);
        }
    }
}

/// Whether the two faces at every edge of two faces in the component of a face go opposite ways
/// along it.
pub open spec fn oriented(triangles: Seq<[u32; 3]>, part: u32) -> bool {
    forall|side: EdgeKey, f: u32, g: u32, clash: bool|
        connected(triangles, part, f) && #[trigger] meets(triangles, side, f, g, clash) ==> !clash
}

proof fn lemma_reversing(before: [u32; 3], after: [u32; 3])
    requires
        topology::distinct_corners(before),
        after@ == reversed(before),
    ensures
        forall|side: EdgeKey| topology::is_edge(before, side) == topology::is_edge(after, side),
        forall|side: EdgeKey| #[trigger]
            topology::is_edge(before, side) ==> goes(before, side.0, side.1) != goes(
                after,
                side.0,
                side.1,
            ),
{
}

/// Reversing faces keeps every edge where it is.
proof fn lemma_same_uses(
    before: Seq<[u32; 3]>,
    after: Seq<[u32; 3]>,
    flips: Seq<bool>,
    side: EdgeKey,
)
    requires
        flipped(before, flips, after),
        forall|i: int|
            0 <= i < before.len() ==> topology::distinct_corners(#[trigger] before[i]),
    ensures
        topology::edge_uses(after, side) == topology::edge_uses(before, side),
    decreases before.len(),
{
    if before.len() > 0 {
        let front = before.drop_last();
        let changed = after.drop_last();
        assert(flipped(front, flips, changed)) by {
            assert forall|i: int| 0 <= i < front.len() implies (#[trigger] changed[i])@
                == if flips[i] {
                reversed(front[i])
            } else {
                front[i]@
            } by {
                assert(after[i] == changed[i]);
            }
        }
        assert forall|i: int| 0 <= i < front.len() implies topology::distinct_corners(
            #[trigger] front[i],
        ) by {
            assert(before[i] == front[i]);
        }
        lemma_same_uses(front, changed, flips, side);
        let last = before.len() - 1;
        assert(topology::distinct_corners(before[last]));
        assert(after[last]@ == if flips[last] {
            reversed(before[last])
        } else {
            before[last]@
        });
        if flips[last] {
            lemma_reversing(before[last], after[last]);
        } else {
            assert(after[last] == before[last]);
        }
        assert(topology::is_edge(after[last], side) == topology::is_edge(before[last], side));
    }
}

/// Faces that are neighbors after some were reversed were neighbors before.
proof fn lemma_neighbors_before(
    before: Seq<[u32; 3]>,
    after: Seq<[u32; 3]>,
    flips: Seq<bool>,
    side: EdgeKey,
    f: u32,
    g: u32,
    clash: bool,
) -> (given: bool)
    requires
        flipped(before, flips, after),
        forall|i: int|
            0 <= i < before.len() ==> topology::distinct_corners(#[trigger] before[i]),
        meets(after, side, f, g, clash),
    ensures
        meets(before, side, f, g, given),
        neighbors(before, f, g, given),
        given == (goes(before[f as int], side.0, side.1) == goes(
            before[g as int],
            side.0,
            side.1,
        )),
{
    lemma_same_uses(before, after, flips, side);
    let given = goes(before[f as int], side.0, side.1) == goes(before[g as int], side.0, side.1);
    assert(meets(before, side, f, g, given));
    given
}

/// Faces that a route joins after some were reversed were in one component before.
proof fn lemma_connected_before(
    before: Seq<[u32; 3]>,
    after: Seq<[u32; 3]>,
    flips: Seq<bool>,
    route: Seq<(u32, bool)>,
)
    requires
        flipped(before, flips, after),
        forall|i: int|
            0 <= i < before.len() ==> topology::distinct_corners(#[trigger] before[i]),
        is_route(after, route),
        route.len() > 0,
    ensures
        connected(before, route[0].0, route.last().0),
    decreases route.len(),
{
    if route.len() == 1 {
        lemma_leads_itself(before, route[0].0);
    } else {
        let front = route.drop_last();
        assert forall|i: int| 0 <= i < front.len() - 1 implies neighbors(
            after,
            (#[trigger] front[i]).0,
            front[i + 1].0,
            front[i].1 != front[i + 1].1,
        ) by {
            assert(front[i] == route[i] && front[i + 1] == route[i + 1]);
        }
        lemma_connected_before(before, after, flips, front);
        let i = route.len() - 2;
        let clash = route[i].1 != route[i + 1].1;
        assert(neighbors(after, route[i].0, route[i + 1].0, clash));
        let side = choose|side: EdgeKey| #[trigger]
            meets(after, side, route[i].0, route[i + 1].0, clash);
        let given = lemma_neighbors_before(
            before,
            after,
            flips,
            side,
            route[i].0,
            route[i + 1].0,
            clash,
        );
        assert(route[i] == front.last());
        let flip = choose|flip: bool| #[trigger] leads(before, route[0].0, route[i].0, flip);
        lemma_leads_next(before, route[0].0, route[i].0, flip, route[i + 1].0, given);
    }
}

/// Reversing faces by choices that settle every clash in a component leaves no clash there.
pub proof fn settling_every_clash_orients(
    before: Seq<[u32; 3]>,
    after: Seq<[u32; 3]>,
    flips: Seq<bool>,
    part: u32,
)
    requires
        before.len() <= u32::MAX,
        flipped(before, flips, after),
        consistent(before, flips, part),
        forall|i: int|
            0 <= i < before.len() ==> topology::distinct_corners(#[trigger] before[i]),
    ensures
        oriented(after, part),
{
    assert forall|side: EdgeKey, f: u32, g: u32, clash: bool|
        connected(after, part, f) && #[trigger] meets(after, side, f, g, clash) implies !clash by {
        let flip = choose|flip: bool| #[trigger] leads(after, part, f, flip);
        let route = choose|route: Seq<(u32, bool)>|
            #[trigger] is_route(after, route) && route.len() > 0 && route[0] == (part, false)
                && route.last() == (f, flip);
        lemma_connected_before(before, after, flips, route);
        let given = lemma_neighbors_before(before, after, flips, side, f, g, clash);
        topology::lemma_faces_with(
            before,
            |triangle: [u32; 3]| topology::is_edge(triangle, side),
        );
        assert(topology::is_edge(before[f as int], side));
        assert(topology::is_edge(before[g as int], side));
        assert(after[f as int]@ == if flips[f as int] {
            reversed(before[f as int])
        } else {
            before[f as int]@
        });
        assert(after[g as int]@ == if flips[g as int] {
            reversed(before[g as int])
        } else {
            before[g as int]@
        });
        if flips[f as int] {
            lemma_reversing(before[f as int], after[f as int]);
        }
        if flips[g as int] {
            lemma_reversing(before[g as int], after[g as int]);
        }
    }
}

} // verus!
