//! The box round a mesh, kept up to date as vertices move.
use crate::mesh::Mesh;
use crate::scalar;
use crate::scalar::Point;
use vstd::prelude::*;

verus! {

/// The box round a mesh, and for each axis a vertex on either side of it.
///
/// It is not exact where a vertex on a side has moved inward or is gone: what is then the
/// outermost is not known without looking at all vertices.
#[derive(Clone, Copy, Debug)]
pub struct MeshBounds {
    pub minimum: Point,
    pub maximum: Point,
    pub minimum_vertices: [u32; 3],
    pub maximum_vertices: [u32; 3],
    pub exact: bool,
}

/// The smaller of two values, each with the vertex that has it. The first stays where they are
/// equal.
pub open spec fn lower(held: (u32, u32), value: u32, vertex: u32) -> (u32, u32) {
    if scalar::lt(value, held.0) {
        (value, vertex)
    } else {
        held
    }
}

/// The larger of two values, each with the vertex that has it. The first stays where they are
/// equal.
pub open spec fn higher(held: (u32, u32), value: u32, vertex: u32) -> (u32, u32) {
    if scalar::lt(held.0, value) {
        (value, vertex)
    } else {
        held
    }
}

impl MeshBounds {
    /// The low side along an axis, and the vertex on it.
    pub open spec fn low(self, axis: int) -> (u32, u32) {
        (self.minimum.coordinate(axis), self.minimum_vertices@[axis])
    }

    /// The high side along an axis, and the vertex on it.
    pub open spec fn high(self, axis: int) -> (u32, u32) {
        (self.maximum.coordinate(axis), self.maximum_vertices@[axis])
    }
}

/// Whether a box is the one before with a vertex taken in.
pub open spec fn taken_in(before: MeshBounds, after: MeshBounds, vertex: u32, position: Point) -> bool {
    &&& after.exact == before.exact
    &&& forall|axis: int|
        0 <= axis < 3 ==> (#[trigger] after.low(axis)) == lower(
            before.low(axis),
            position.coordinate(axis),
            vertex,
        )
    &&& forall|axis: int|
        0 <= axis < 3 ==> (#[trigger] after.high(axis)) == higher(
            before.high(axis),
            position.coordinate(axis),
            vertex,
        )
}

/// Whether a box is the smallest round the finite positions, with vertices on its sides.
pub open spec fn tight(bounds: MeshBounds, positions: Seq<Point>) -> bool {
    &&& forall|axis: int| 0 <= axis < 3 ==> low_is_tight(#[trigger] bounds.low(axis), positions, axis)
    &&& forall|axis: int|
        0 <= axis < 3 ==> high_is_tight(#[trigger] bounds.high(axis), positions, axis)
}

pub open spec fn low_is_tight(low: (u32, u32), positions: Seq<Point>, axis: int) -> bool {
    &&& low.1 < positions.len()
    &&& positions[low.1 as int].finite()
    &&& scalar::same(low.0, positions[low.1 as int].coordinate(axis))
    &&& forall|v: int|
        0 <= v < positions.len() && (#[trigger] positions[v]).finite() ==> scalar::le(
            low.0,
            positions[v].coordinate(axis),
        )
}

pub open spec fn high_is_tight(high: (u32, u32), positions: Seq<Point>, axis: int) -> bool {
    &&& high.1 < positions.len()
    &&& positions[high.1 as int].finite()
    &&& scalar::same(high.0, positions[high.1 as int].coordinate(axis))
    &&& forall|v: int|
        0 <= v < positions.len() && (#[trigger] positions[v]).finite() ==> scalar::le(
            positions[v].coordinate(axis),
            high.0,
        )
}

/// Whether the vertices on the sides are the first ones there, and the sides have their very
/// values.
pub open spec fn first_on_sides(bounds: MeshBounds, positions: Seq<Point>) -> bool {
    &&& forall|axis: int|
        0 <= axis < 3 ==> {
            let low = #[trigger] bounds.low(axis);
            &&& low.0 == positions[low.1 as int].coordinate(axis)
            &&& forall|v: int|
                0 <= v < low.1 && (#[trigger] positions[v]).finite() ==> scalar::lt(
                    low.0,
                    positions[v].coordinate(axis),
                )
        }
    &&& forall|axis: int|
        0 <= axis < 3 ==> {
            let high = #[trigger] bounds.high(axis);
            &&& high.0 == positions[high.1 as int].coordinate(axis)
            &&& forall|v: int|
                0 <= v < high.1 && (#[trigger] positions[v]).finite() ==> scalar::lt(
                    positions[v].coordinate(axis),
                    high.0,
                )
        }
}

/// Whether a vertex on a side has moved inward.
pub open spec fn moved_inward(bounds: MeshBounds, vertex: u32, position: Point) -> bool {
    exists|axis: int|
        0 <= axis < 3 && (((#[trigger] bounds.low(axis)).1 == vertex && scalar::lt(
            bounds.low(axis).0,
            position.coordinate(axis),
        )) || (bounds.high(axis).1 == vertex && scalar::lt(
            position.coordinate(axis),
            bounds.high(axis).0,
        )))
}

/// Whether a vertex lies on a side.
pub open spec fn on_side(bounds: MeshBounds, vertex: u32) -> bool {
    exists|axis: int|
        0 <= axis < 3 && ((#[trigger] bounds.low(axis)).1 == vertex || bounds.high(axis).1
            == vertex)
}

/// Whether the change of a vertex makes it unknown what is outermost.
pub open spec fn invalidates(bounds: MeshBounds, positions: Seq<Point>, vertex: u32) -> bool {
    if vertex >= positions.len() {
        on_side(bounds, vertex)
    } else {
        !positions[vertex as int].finite() || moved_inward(
            bounds,
            vertex,
            positions[vertex as int],
        )
    }
}

/// Whether every vertex on a side exists.
pub open spec fn sides_exist(bounds: MeshBounds, vertex_count: nat) -> bool {
    forall|axis: int|
        0 <= axis < 3 ==> (#[trigger] bounds.low(axis)).1 < vertex_count && bounds.high(axis).1
            < vertex_count
}

/// The low side of a box with changed vertices taken in, one after the other.
pub open spec fn lowest(
    held: (u32, u32),
    positions: Seq<Point>,
    changed: Seq<u32>,
    axis: int,
) -> (u32, u32)
    decreases changed.len(),
{
    if changed.len() == 0 {
        held
    } else {
        let before = lowest(held, positions, changed.drop_last(), axis);
        let vertex = changed.last();
        if vertex < positions.len() && positions[vertex as int].finite() {
            lower(before, positions[vertex as int].coordinate(axis), vertex)
        } else {
            before
        }
    }
}

/// The high side of a box with changed vertices taken in, one after the other.
pub open spec fn highest(
    held: (u32, u32),
    positions: Seq<Point>,
    changed: Seq<u32>,
    axis: int,
) -> (u32, u32)
    decreases changed.len(),
{
    if changed.len() == 0 {
        held
    } else {
        let before = highest(held, positions, changed.drop_last(), axis);
        let vertex = changed.last();
        if vertex < positions.len() && positions[vertex as int].finite() {
            higher(before, positions[vertex as int].coordinate(axis), vertex)
        } else {
            before
        }
    }
}

/// Whether a box was brought up to date with changed vertices.
pub open spec fn updated(
    before: MeshBounds,
    after: MeshBounds,
    positions: Seq<Point>,
    changed: Seq<u32>,
) -> bool {
    &&& after.exact == (before.exact && sides_exist(before, positions.len()) && !exists|i: int|
        0 <= i < changed.len() && invalidates(before, positions, #[trigger] changed[i]))
    &&& forall|axis: int|
        0 <= axis < 3 ==> (#[trigger] after.low(axis)) == lowest(
            before.low(axis),
            positions,
            changed,
            axis,
        )
    &&& forall|axis: int|
        0 <= axis < 3 ==> (#[trigger] after.high(axis)) == highest(
            before.high(axis),
            positions,
            changed,
            axis,
        )
}

impl MeshBounds {
    /// The smallest box round the finite vertices of a mesh. There is none where there is no
    /// vertex or the first one is not finite.
    pub fn from_mesh(mesh: &Mesh) -> (result: Option<MeshBounds>)
        requires
            mesh.positions@.len() <= u32::MAX,
        ensures
            result is Some <==> mesh.positions@.len() > 0 && mesh.positions@[0].finite(),
            result matches Some(bounds) ==> {
                &&& bounds.exact
                &&& tight(bounds, mesh.positions@)
                &&& first_on_sides(bounds, mesh.positions@)
            },
    {
        let positions = &mesh.positions;
        if positions.len() == 0 || !positions[0].is_finite() {
            return None;
        }
        let first = positions[0];
        let mut bounds = MeshBounds {
            minimum: first,
            maximum: first,
            minimum_vertices: [0; 3],
            maximum_vertices: [0; 3],
            exact: true,
        };
        let mut v: usize = 1;
        while v < positions.len()
            invariant
                1 <= v <= positions@.len() <= u32::MAX,
                positions@ == mesh.positions@,
                bounds.exact,
                tight(bounds, positions@.take(v as int)),
                first_on_sides(bounds, positions@.take(v as int)),
            decreases positions@.len() - v,
        {
            let position = positions[v];
            let ghost before = bounds;
            if position.is_finite() {
                bounds.take_in(v as u32, position);
            }
            proof {
                lemma_one_more(before, bounds, positions@, v as int);
            }
            v += 1;
        }
        assert(positions@.take(v as int) =~= mesh.positions@);
        Some(bounds)
    }

    /// Takes a vertex in.
    pub fn take_in(&mut self, vertex: u32, position: Point)
        ensures
            taken_in(*old(self), *final(self), vertex, position),
    {
        if scalar::is_less(position.x, self.minimum.x) {
            self.minimum.x = position.x;
            self.minimum_vertices[0] = vertex;
        }
        if scalar::is_less(self.maximum.x, position.x) {
            self.maximum.x = position.x;
            self.maximum_vertices[0] = vertex;
        }
        if scalar::is_less(position.y, self.minimum.y) {
            self.minimum.y = position.y;
            self.minimum_vertices[1] = vertex;
        }
        if scalar::is_less(self.maximum.y, position.y) {
            self.maximum.y = position.y;
            self.maximum_vertices[1] = vertex;
        }
        if scalar::is_less(position.z, self.minimum.z) {
            self.minimum.z = position.z;
            self.minimum_vertices[2] = vertex;
        }
        if scalar::is_less(self.maximum.z, position.z) {
            self.maximum.z = position.z;
            self.maximum_vertices[2] = vertex;
        }
    }

    fn is_on_side(&self, vertex: u32) -> (result: bool)
        ensures
            result == on_side(*self, vertex),
    {
        let mut axis: usize = 0;
        while axis < 3
            invariant
                axis <= 3,
                forall|a: int|
                    0 <= a < axis ==> (#[trigger] self.low(a)).1 != vertex && self.high(a).1
                        != vertex,
            decreases 3 - axis,
        {
            assert(self.low(axis as int).1 == self.minimum_vertices@[axis as int]);
            if self.minimum_vertices[axis] == vertex || self.maximum_vertices[axis] == vertex {
                return true;
            }
            axis += 1;
        }
        false
    }

    fn has_moved_inward(&self, vertex: u32, position: Point) -> (result: bool)
        ensures
            result == moved_inward(*self, vertex, position),
    {
        let mut axis: usize = 0;
        while axis < 3
            invariant
                axis <= 3,
                forall|a: int|
                    0 <= a < axis ==> !((#[trigger] self.low(a)).1 == vertex && scalar::lt(
                        self.low(a).0,
                        position.coordinate(a),
                    )) && !(self.high(a).1 == vertex && scalar::lt(
                        position.coordinate(a),
                        self.high(a).0,
                    )),
            decreases 3 - axis,
        {
            assert(self.low(axis as int).1 == self.minimum_vertices@[axis as int]);
            let value = position.axis(axis);
            if (self.minimum_vertices[axis] == vertex && scalar::is_less(
                self.minimum.axis(axis),
                value,
            )) || (self.maximum_vertices[axis] == vertex && scalar::is_less(
                value,
                self.maximum.axis(axis),
            )) {
                return true;
            }
            axis += 1;
        }
        false
    }

    /// Brings the box up to date with vertices that have changed.
    pub fn update(&mut self, mesh: &Mesh, changed_vertices: &Vec<u32>)
        ensures
            updated(*old(self), *final(self), mesh.positions@, changed_vertices@),
    {
        let ghost begun = *self;
        let positions = &mesh.positions;
        let exact = self.exact;
        let mut axis: usize = 0;
        let mut all_exist = true;
        while axis < 3
            invariant
                axis <= 3,
                *self == begun,
                positions@ == mesh.positions@,
                all_exist == forall|a: int|
                    0 <= a < axis ==> (#[trigger] begun.low(a)).1 < positions@.len()
                        && begun.high(a).1 < positions@.len(),
            decreases 3 - axis,
        {
            assert(begun.low(axis as int).1 == self.minimum_vertices@[axis as int]);
            if self.minimum_vertices[axis] as usize >= positions.len()
                || self.maximum_vertices[axis] as usize >= positions.len() {
                all_exist = false;
            }
            axis += 1;
        }
        let mut invalidated = false;
        let mut i: usize = 0;
        while i < changed_vertices.len()
            invariant
                i <= changed_vertices@.len(),
                *self == begun,
                positions@ == mesh.positions@,
                invalidated == exists|k: int|
                    0 <= k < i && invalidates(begun, positions@, #[trigger] changed_vertices@[k]),
            decreases changed_vertices@.len() - i,
        {
            let vertex = changed_vertices[i];
            let lost = if vertex as usize >= positions.len() {
                self.is_on_side(vertex)
            } else {
                let position = positions[vertex as usize];
                !position.is_finite() || self.has_moved_inward(vertex, position)
            };
            assert(lost == invalidates(begun, positions@, changed_vertices@[i as int]));
            if lost {
                invalidated = true;
            }
            i += 1;
        }
        self.exact = exact && all_exist && !invalidated;
        let ghost judged = *self;
        let mut k: usize = 0;
        while k < changed_vertices.len()
            invariant
                k <= changed_vertices@.len(),
                positions@ == mesh.positions@,
                self.exact == judged.exact,
                forall|a: int|
                    0 <= a < 3 ==> (#[trigger] self.low(a)) == lowest(
                        begun.low(a),
                        positions@,
                        changed_vertices@.take(k as int),
                        a,
                    ),
                forall|a: int|
                    0 <= a < 3 ==> (#[trigger] self.high(a)) == highest(
                        begun.high(a),
                        positions@,
                        changed_vertices@.take(k as int),
                        a,
                    ),
            decreases changed_vertices@.len() - k,
        {
            let vertex = changed_vertices[k];
            let ghost before = *self;
            assert(changed_vertices@.take(k + 1).drop_last() =~= changed_vertices@.take(k as int));
            if (vertex as usize) < positions.len() && positions[vertex as usize].is_finite() {
                self.take_in(vertex, positions[vertex as usize]);
            }
            proof {
                assert forall|a: int| 0 <= a < 3 implies (#[trigger] self.low(a)) == lowest(
                    begun.low(a),
                    positions@,
                    changed_vertices@.take(k + 1),
                    a,
                ) by {
                    assert(before.low(a) == lowest(
                        begun.low(a),
                        positions@,
                        changed_vertices@.take(k as int),
                        a,
                    ));
                }
                assert forall|a: int| 0 <= a < 3 implies (#[trigger] self.high(a)) == highest(
                    begun.high(a),
                    positions@,
                    changed_vertices@.take(k + 1),
                    a,
                ) by {
                    assert(before.high(a) == highest(
                        begun.high(a),
                        positions@,
                        changed_vertices@.take(k as int),
                        a,
                    ));
                }
            }
            k += 1;
        }
        assert(changed_vertices@.take(k as int) =~= changed_vertices@);
    }

    pub fn min_max(self) -> (result: (Point, Point))
        ensures
            result == (self.minimum, self.maximum),
    {
        (self.minimum, self.maximum)
    }
}

proof fn lemma_one_more(before: MeshBounds, after: MeshBounds, positions: Seq<Point>, v: int)
    requires
        1 <= v < positions.len() <= u32::MAX,
        tight(before, positions.take(v)),
        first_on_sides(before, positions.take(v)),
        positions[v].finite() ==> taken_in(before, after, v as u32, positions[v]),
        !positions[v].finite() ==> after == before,
    ensures
        tight(after, positions.take(v + 1)),
        first_on_sides(after, positions.take(v + 1)),
{
    let fewer = positions.take(v);
    let more = positions.take(v + 1);
    assert forall|u: int| 0 <= u < v implies #[trigger] more[u] == fewer[u] by {}
    assert(more[v] == positions[v]);
    assert forall|axis: int| 0 <= axis < 3 implies {
        &&& low_is_tight(#[trigger] after.low(axis), more, axis)
        &&& after.low(axis).0 == more[after.low(axis).1 as int].coordinate(axis)
        &&& forall|u: int|
            0 <= u < after.low(axis).1 && (#[trigger] more[u]).finite() ==> scalar::lt(
                after.low(axis).0,
                more[u].coordinate(axis),
            )
    } by {
        let low = before.low(axis);
        assert(low_is_tight(low, fewer, axis));
        assert(fewer[low.1 as int] == more[low.1 as int]);
        assert forall|u: int| 0 <= u < v && (#[trigger] more[u]).finite() implies scalar::le(
            low.0,
            more[u].coordinate(axis),
        ) by {
            assert(fewer[u].finite());
        }
        assert forall|u: int| 0 <= u < low.1 && (#[trigger] more[u]).finite() implies scalar::lt(
            low.0,
            more[u].coordinate(axis),
        ) by {
            assert(fewer[u].finite());
        }
    }
    assert forall|axis: int| 0 <= axis < 3 implies {
        &&& high_is_tight(#[trigger] after.high(axis), more, axis)
        &&& after.high(axis).0 == more[after.high(axis).1 as int].coordinate(axis)
        &&& forall|u: int|
            0 <= u < after.high(axis).1 && (#[trigger] more[u]).finite() ==> scalar::lt(
                more[u].coordinate(axis),
                after.high(axis).0,
            )
    } by {
        let high = before.high(axis);
        assert(high_is_tight(high, fewer, axis));
        assert(fewer[high.1 as int] == more[high.1 as int]);
        assert forall|u: int| 0 <= u < v && (#[trigger] more[u]).finite() implies scalar::le(
            more[u].coordinate(axis),
            high.0,
        ) by {
            assert(fewer[u].finite());
        }
        assert forall|u: int| 0 <= u < high.1 && (#[trigger] more[u]).finite() implies scalar::lt(
            more[u].coordinate(axis),
            high.0,
        ) by {
            assert(fewer[u].finite());
        }
    }
}

/// A box that is still exact after vertices have changed is the smallest round the mesh, if it was
/// before and no other vertex has changed.
pub proof fn an_exact_box_stays_tight(
    before: MeshBounds,
    after: MeshBounds,
    old_positions: Seq<Point>,
    positions: Seq<Point>,
    changed: Seq<u32>,
)
    requires
        tight(before, old_positions),
        updated(before, after, positions, changed),
        after.exact,
        forall|v: int|
            0 <= v < positions.len() ==> (v <= u32::MAX && changed.contains(v as u32)) || (v
                < old_positions.len() && #[trigger] positions[v] == old_positions[v]),
    ensures
        tight(after, positions),
{
    assert forall|axis: int| 0 <= axis < 3 implies low_is_tight(
        #[trigger] after.low(axis),
        positions,
        axis,
    ) by {
        let held = before.low(axis);
        let low = after.low(axis);
        assert(low_is_tight(held, old_positions, axis));
        lemma_lowest(held, positions, changed, axis);
        assert forall|v: int|
            0 <= v < positions.len() && (#[trigger] positions[v]).finite() implies scalar::le(
            low.0,
            positions[v].coordinate(axis),
        ) by {
            if v <= u32::MAX && changed.contains(v as u32) {
                let i = choose|i: int| 0 <= i < changed.len() && changed[i] == v as u32;
                assert(changed[i] == v);
            } else {
                assert(old_positions[v].finite());
            }
        }
        if low == held {
            let holder = held.1;
            if changed.contains(holder) {
                let i = choose|i: int| 0 <= i < changed.len() && changed[i] == holder;
                assert(!invalidates(before, positions, changed[i]));
                assert(before.low(axis).1 == holder);
                assert(!scalar::lt(held.0, positions[holder as int].coordinate(axis)));
            } else {
                assert(positions[holder as int] == old_positions[holder as int]);
            }
        }
    }
    assert forall|axis: int| 0 <= axis < 3 implies high_is_tight(
        #[trigger] after.high(axis),
        positions,
        axis,
    ) by {
        let held = before.high(axis);
        let high = after.high(axis);
        assert(high_is_tight(held, old_positions, axis));
        lemma_highest(held, positions, changed, axis);
        assert forall|v: int|
            0 <= v < positions.len() && (#[trigger] positions[v]).finite() implies scalar::le(
            positions[v].coordinate(axis),
            high.0,
        ) by {
            if v <= u32::MAX && changed.contains(v as u32) {
                let i = choose|i: int| 0 <= i < changed.len() && changed[i] == v as u32;
                assert(changed[i] == v);
            } else {
                assert(old_positions[v].finite());
            }
        }
        if high == held {
            let holder = held.1;
            assert(before.low(axis).1 < positions.len());
            if changed.contains(holder) {
                let i = choose|i: int| 0 <= i < changed.len() && changed[i] == holder;
                assert(!invalidates(before, positions, changed[i]));
                assert(before.low(axis).0 == before.low(axis).0);
                assert(!scalar::lt(positions[holder as int].coordinate(axis), held.0));
            } else {
                assert(positions[holder as int] == old_positions[holder as int]);
            }
        }
    }
}

proof fn lemma_lowest(held: (u32, u32), positions: Seq<Point>, changed: Seq<u32>, axis: int)
    requires
        0 <= axis < 3,
        !scalar::nan(held.0),
    ensures
        ({
            let low = lowest(held, positions, changed, axis);
            &&& scalar::le(low.0, held.0)
            &&& low == held || (low.1 < positions.len() && positions[low.1 as int].finite() && low.0
                == positions[low.1 as int].coordinate(axis))
            &&& forall|i: int|
                0 <= i < changed.len() && (#[trigger] changed[i]) < positions.len()
                    && positions[changed[i] as int].finite() ==> scalar::le(
                    low.0,
                    positions[changed[i] as int].coordinate(axis),
                )
        }),
    decreases changed.len(),
{
    if changed.len() > 0 {
        let front = changed.drop_last();
        lemma_lowest(held, positions, front, axis);
        let before = lowest(held, positions, front, axis);
        let low = lowest(held, positions, changed, axis);
        assert forall|i: int|
            0 <= i < changed.len() && (#[trigger] changed[i]) < positions.len()
                && positions[changed[i] as int].finite() implies scalar::le(
            low.0,
            positions[changed[i] as int].coordinate(axis),
        ) by {
            if i < front.len() {
                assert(front[i] == changed[i]);
            }
        }
    }
}

proof fn lemma_highest(held: (u32, u32), positions: Seq<Point>, changed: Seq<u32>, axis: int)
    requires
        0 <= axis < 3,
        !scalar::nan(held.0),
    ensures
        ({
            let high = highest(held, positions, changed, axis);
            &&& scalar::le(held.0, high.0)
            &&& high == held || (high.1 < positions.len() && positions[high.1 as int].finite()
                && high.0 == positions[high.1 as int].coordinate(axis))
            &&& forall|i: int|
                0 <= i < changed.len() && (#[trigger] changed[i]) < positions.len()
                    && positions[changed[i] as int].finite() ==> scalar::le(
                    positions[changed[i] as int].coordinate(axis),
                    high.0,
                )
        }),
    decreases changed.len(),
{
    if changed.len() > 0 {
        let front = changed.drop_last();
        lemma_highest(held, positions, front, axis);
        let before = highest(held, positions, front, axis);
        let high = highest(held, positions, changed, axis);
        assert forall|i: int|
            0 <= i < changed.len() && (#[trigger] changed[i]) < positions.len()
                && positions[changed[i] as int].finite() implies scalar::le(
            positions[changed[i] as int].coordinate(axis),
            high.0,
        ) by {
            if i < front.len() {
                assert(front[i] == changed[i]);
            }
        }
    }
}

} // verus!
