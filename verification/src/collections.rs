//! The hash tables and short lists that meshes are indexed with, and what is relied on of them.
use vstd::prelude::*;

verus! {

/// An undirected edge, its smaller vertex first.
pub type EdgeKey = (u32, u32);

/// A sequence without the items that equal the item before them.
pub open spec fn without_repeats(items: Seq<u32>) -> Seq<u32>
    decreases items.len(),
{
    if items.len() <= 1 {
        items
    } else if items.last() == items[items.len() - 2] {
        without_repeats(items.drop_last())
    } else {
        without_repeats(items.drop_last()).push(items.last())
    }
}

pub open spec fn ascending(items: Seq<u32>) -> bool {
    forall|i: int, j: int| 0 <= i <= j < items.len() ==> items[i] <= items[j]
}

pub open spec fn strictly_ascending(items: Seq<u32>) -> bool {
    forall|i: int, j: int| 0 <= i < j < items.len() ==> items[i] < items[j]
}

/// A list of vertex or face indices that is mostly short.
#[verifier::external_body]
#[derive(Debug)]
pub struct IndexList {
    items: smallvec::SmallVec<[u32; 8]>,
}

/// The indices that a list holds, in order.
pub uninterp spec fn index_list_items(list: IndexList) -> Seq<u32>;

impl View for IndexList {
    type V = Seq<u32>;

    open spec fn view(&self) -> Seq<u32> {
        index_list_items(*self)
    }
}

impl IndexList {
    /// `smallvec::SmallVec::new` makes a list without items.
    #[verifier::external_body]
    pub(crate) fn new() -> (result: IndexList)
        ensures
            index_list_items(result) == Seq::<u32>::empty(),
    {
        IndexList { items: smallvec::SmallVec::new() }
    }

    /// `smallvec::SmallVec::push` appends one item.
    #[verifier::external_body]
    pub(crate) fn push(&mut self, item: u32)
        ensures
            index_list_items(*final(self)) == index_list_items(*old(self)).push(item),
    {
        self.items.push(item);
    }

    /// `smallvec::SmallVec::pop` takes the last item off, if there is one.
    #[verifier::external_body]
    pub(crate) fn pop(&mut self) -> (result: Option<u32>)
        ensures
            index_list_items(*old(self)).len() == 0 ==> result is None && index_list_items(
                *final(self),
            ) == index_list_items(*old(self)),
            index_list_items(*old(self)).len() > 0 ==> result == Some(
                index_list_items(*old(self)).last(),
            ) && index_list_items(*final(self)) == index_list_items(*old(self)).drop_last(),
    {
        self.items.pop()
    }

    /// `smallvec::SmallVec::as_slice` shows the items in order.
    #[verifier::external_body]
    pub fn as_slice(&self) -> (result: &[u32])
        ensures
            result@ == index_list_items(*self),
    {
        self.items.as_slice()
    }

    /// `sort_unstable`, which the list has as a slice, puts the items in ascending order.
    #[verifier::external_body]
    pub(crate) fn sort(&mut self)
        ensures
            ascending(index_list_items(*final(self))),
            index_list_items(*final(self)).to_multiset() == index_list_items(
                *old(self),
            ).to_multiset(),
    {
        self.items.sort_unstable();
    }

    /// `smallvec::SmallVec::dedup` drops each item that equals the one before it.
    #[verifier::external_body]
    pub(crate) fn dedup(&mut self)
        ensures
            index_list_items(*final(self)) == without_repeats(index_list_items(*old(self))),
    {
        self.items.dedup();
    }
}

/// `sort_unstable` of a slice puts the items in ascending order.
#[verifier::external_body]
pub(crate) fn sort_indices(items: &mut Vec<u32>)
    ensures
        ascending(final(items)@),
        final(items)@.to_multiset() == old(items)@.to_multiset(),
{
    items.sort_unstable();
}

/// `Vec::dedup` drops each item that equals the one before it.
#[verifier::external_body]
pub(crate) fn dedup_indices(items: &mut Vec<u32>)
    ensures
        final(items)@ == without_repeats(old(items)@),
{
    items.dedup();
}

/// Dropping the repeats of an ascending sequence leaves every item once.
pub proof fn repeats_are_the_duplicates(items: Seq<u32>)
    requires
        ascending(items),
    ensures
        strictly_ascending(without_repeats(items)),
        forall|x: u32| without_repeats(items).contains(x) <==> items.contains(x),
        items.len() > 0 ==> without_repeats(items).len() > 0 && without_repeats(items).last()
            == items.last(),
    decreases items.len(),
{
    if items.len() <= 1 {
    } else {
        let front = items.drop_last();
        assert(ascending(front));
        repeats_are_the_duplicates(front);
        let kept = without_repeats(front);
        assert(front.last() == items[items.len() - 2]);
        assert(items =~= front.push(items.last()));
        assert forall|x: u32| without_repeats(items).contains(x) <==> items.contains(x) by {
            if items.contains(x) {
                let i = choose|i: int| 0 <= i < items.len() && items[i] == x;
                if i < front.len() {
                    assert(front[i] == x);
                    assert(front.contains(x));
                } else if items.last() == items[items.len() - 2] {
                    assert(front[items.len() - 2] == x);
                    assert(front.contains(x));
                }
                if items.last() != items[items.len() - 2] {
                    let all = kept.push(items.last());
                    if i == front.len() {
                        assert(all[kept.len() as int] == x);
                    } else {
                        let k = choose|k: int| 0 <= k < kept.len() && kept[k] == x;
                        assert(all[k] == x);
                    }
                }
            }
            if without_repeats(items).contains(x) {
                if items.last() == items[items.len() - 2] {
                    assert(front.contains(x));
                    let i = choose|i: int| 0 <= i < front.len() && front[i] == x;
                    assert(items[i] == x);
                } else {
                    let all = kept.push(items.last());
                    let k = choose|k: int| 0 <= k < all.len() && all[k] == x;
                    if k < kept.len() {
                        assert(kept[k] == x);
                        assert(kept.contains(x));
                        assert(front.contains(x));
                        let i = choose|i: int| 0 <= i < front.len() && front[i] == x;
                        assert(items[i] == x);
                    } else {
                        assert(items[items.len() - 1] == x);
                    }
                }
            }
        }
        if items.last() != items[items.len() - 2] {
            let all = kept.push(items.last());
            assert forall|i: int, j: int| 0 <= i < j < all.len() implies all[i] < all[j] by {
                if j == kept.len() {
                    assert(kept[i] <= kept.last());
                }
            }
        }
    }
}

/// Two sequences with the same items, each as often, contain the same.
pub proof fn same_multiset_same_items(a: Seq<u32>, b: Seq<u32>)
    requires
        a.to_multiset() == b.to_multiset(),
    ensures
        forall|x: u32| a.contains(x) <==> b.contains(x),
        a.len() == b.len(),
{
    broadcast use vstd::seq_lib::group_to_multiset_ensures;

    assert forall|x: u32| a.contains(x) <==> b.contains(x) by {
        assert(a.contains(x) <==> a.to_multiset().count(x) > 0);
        assert(b.contains(x) <==> b.to_multiset().count(x) > 0);
    }
    assert(a.len() == a.to_multiset().len());
    assert(b.len() == b.to_multiset().len());
}

/// What an appended item adds to a sequence.
pub proof fn push_contains(items: Seq<u32>, item: u32, x: u32)
    ensures
        items.push(item).contains(x) <==> items.contains(x) || x == item,
{
    let more = items.push(item);
    if items.contains(x) {
        let i = choose|i: int| 0 <= i < items.len() && items[i] == x;
        assert(more[i] == x);
    }
    if x == item {
        assert(more[items.len() as int] == x);
    }
    if more.contains(x) && x != item {
        let i = choose|i: int| 0 <= i < more.len() && more[i] == x;
        assert(items[i] == x);
    }
}

/// What two sequences have between them.
pub proof fn concat_contains(a: Seq<u32>, b: Seq<u32>, x: u32)
    ensures
        (a + b).contains(x) <==> a.contains(x) || b.contains(x),
{
    broadcast use vstd::seq_lib::group_seq_properties;

}

/// Appending a new item makes no duplicate.
pub proof fn push_unique(items: Seq<u32>, item: u32)
    requires
        items.no_duplicates(),
        !items.contains(item),
    ensures
        items.push(item).no_duplicates(),
{
    let more = items.push(item);
    assert forall|i: int, j: int|
        0 <= i < more.len() && 0 <= j < more.len() && i != j implies more[i] != more[j] by {
        if i == items.len() {
            assert(items.contains(more[j]));
        } else if j == items.len() {
            assert(items.contains(more[i]));
        }
    }
}

impl IndexList {
    /// Puts the items in ascending order and keeps each once.
    pub(crate) fn sort_and_dedup(&mut self)
        ensures
            strictly_ascending(final(self)@),
            forall|x: u32| final(self)@.contains(x) <==> old(self)@.contains(x),
    {
        self.sort();
        proof {
            same_multiset_same_items(self@, old(self)@);
            repeats_are_the_duplicates(self@);
        }
        self.dedup();
    }
}

/// Puts the items in ascending order and keeps each once.
pub(crate) fn sort_and_dedup(items: &mut Vec<u32>)
    ensures
        strictly_ascending(final(items)@),
        forall|x: u32| final(items)@.contains(x) <==> old(items)@.contains(x),
{
    sort_indices(items);
    proof {
        same_multiset_same_items(items@, old(items)@);
        repeats_are_the_duplicates(items@);
    }
    dedup_indices(items);
}

/// The faces at each edge.
#[verifier::external_body]
#[derive(Debug)]
pub struct EdgeMap {
    faces: hashbrown::HashMap<EdgeKey, smallvec::SmallVec<[u32; 2]>>,
}

/// The faces that a map lists for each of its edges, in the order in which they were added.
pub uninterp spec fn edge_map_contents(map: EdgeMap) -> Map<EdgeKey, Seq<u32>>;

impl View for EdgeMap {
    type V = Map<EdgeKey, Seq<u32>>;

    open spec fn view(&self) -> Map<EdgeKey, Seq<u32>> {
        edge_map_contents(*self)
    }
}

/// The faces listed for an edge, none where the map lacks it.
pub open spec fn listed(map: Map<EdgeKey, Seq<u32>>, edge: EdgeKey) -> Seq<u32> {
    if map.contains_key(edge) {
        map[edge]
    } else {
        Seq::empty()
    }
}

impl EdgeMap {
    /// `hashbrown::HashMap::new` makes a map without entries.
    #[verifier::external_body]
    pub(crate) fn new() -> (result: EdgeMap)
        ensures
            (edge_map_contents(result) == Map::<EdgeKey, Seq<u32>>::empty()),
    {
        EdgeMap { faces: hashbrown::HashMap::new() }
    }

    /// `hashbrown::HashMap::entry` with `or_default` finds the edge's list, or puts an empty one
    /// in, and `smallvec::SmallVec::push` appends the face to it. No other entry changes.
    #[verifier::external_body]
    pub(crate) fn add_face(&mut self, edge: EdgeKey, face: u32)
        ensures
            edge_map_contents(*final(self)) == edge_map_contents(*old(self)).insert(
                edge,
                listed(edge_map_contents(*old(self)), edge).push(face),
            ),
    {
        self.faces.entry(edge).or_default().push(face);
    }

    /// `hashbrown::HashMap::get` finds the list stored for an edge.
    #[verifier::external_body]
    pub fn faces(&self, edge: EdgeKey) -> (result: Option<&[u32]>)
        ensures
            result is Some <==> edge_map_contents(*self).contains_key(edge),
            result is Some ==> result->0@ == edge_map_contents(*self)[edge],
    {
        self.faces.get(&edge).map(|faces| faces.as_slice())
    }

    /// `hashbrown::HashMap::keys` visits every edge once, in an order that is left open.
    #[verifier::external_body]
    pub fn edges(&self) -> (result: Vec<EdgeKey>)
        ensures
            result@.no_duplicates(),
            forall|edge: EdgeKey|
                #![trigger result@.contains(edge)]
                #![trigger edge_map_contents(*self).contains_key(edge)]
                result@.contains(edge) <==> edge_map_contents(*self).contains_key(edge),
    {
        self.faces.keys().copied().collect()
    }
}

/// A set of triples of indices.
#[verifier::external_body]
pub struct TripleSet {
    triples: hashbrown::HashSet<[u32; 3]>,
}

/// The triples that a set holds.
pub uninterp spec fn triple_set_contents(set: TripleSet) -> Set<[u32; 3]>;

impl View for TripleSet {
    type V = Set<[u32; 3]>;

    open spec fn view(&self) -> Set<[u32; 3]> {
        triple_set_contents(*self)
    }
}

impl TripleSet {
    /// `hashbrown::HashSet::new` makes an empty set.
    #[verifier::external_body]
    pub(crate) fn new() -> (result: TripleSet)
        ensures
            triple_set_contents(result) == Set::<[u32; 3]>::empty(),
    {
        TripleSet { triples: hashbrown::HashSet::new() }
    }

    /// `hashbrown::HashSet::insert` puts a triple in, and tells whether it was new.
    #[verifier::external_body]
    pub(crate) fn insert(&mut self, triple: [u32; 3]) -> (result: bool)
        ensures
            result == !triple_set_contents(*old(self)).contains(triple),
            triple_set_contents(*final(self)) == triple_set_contents(*old(self)).insert(triple),
    {
        self.triples.insert(triple)
    }
}

/// A table from triples to indices.
#[verifier::external_body]
pub struct TripleMap {
    indices: hashbrown::HashMap<[u32; 3], u32>,
}

/// The index that a table has for each of its triples.
pub uninterp spec fn triple_map_contents(map: TripleMap) -> Map<[u32; 3], u32>;

impl View for TripleMap {
    type V = Map<[u32; 3], u32>;

    open spec fn view(&self) -> Map<[u32; 3], u32> {
        triple_map_contents(*self)
    }
}

impl TripleMap {
    /// `hashbrown::HashMap::new` makes a table without entries.
    #[verifier::external_body]
    pub(crate) fn new() -> (result: TripleMap)
        ensures
            (triple_map_contents(result) == Map::<[u32; 3], u32>::empty()),
    {
        TripleMap { indices: hashbrown::HashMap::new() }
    }

    /// `hashbrown::HashMap::get` finds the index stored for a triple.
    #[verifier::external_body]
    pub(crate) fn get(&self, triple: [u32; 3]) -> (result: Option<u32>)
        ensures
            result is Some <==> triple_map_contents(*self).contains_key(triple),
            result is Some ==> result->0 == triple_map_contents(*self)[triple],
    {
        self.indices.get(&triple).copied()
    }

    /// `hashbrown::HashMap::insert` stores an index for a triple.
    #[verifier::external_body]
    pub(crate) fn insert(&mut self, triple: [u32; 3], index: u32)
        ensures
            triple_map_contents(*final(self)) == triple_map_contents(*old(self)).insert(
                triple,
                index,
            ),
    {
        self.indices.insert(triple, index);
    }
}

/// A set of indices.
#[verifier::external_body]
pub struct IndexSet {
    indices: hashbrown::HashSet<u32>,
}

/// The indices that a set holds.
pub uninterp spec fn index_set_contents(set: IndexSet) -> Set<u32>;

impl View for IndexSet {
    type V = Set<u32>;

    open spec fn view(&self) -> Set<u32> {
        index_set_contents(*self)
    }
}

impl IndexSet {
    /// `hashbrown::HashSet::new` makes an empty set.
    #[verifier::external_body]
    pub(crate) fn new() -> (result: IndexSet)
        ensures
            index_set_contents(result) == Set::<u32>::empty(),
    {
        IndexSet { indices: hashbrown::HashSet::new() }
    }

    /// `hashbrown::HashSet::insert` puts an index in, and tells whether it was new.
    #[verifier::external_body]
    pub(crate) fn insert(&mut self, index: u32) -> (result: bool)
        ensures
            result == !index_set_contents(*old(self)).contains(index),
            index_set_contents(*final(self)) == index_set_contents(*old(self)).insert(index),
    {
        self.indices.insert(index)
    }

    /// `hashbrown::HashSet::into_iter` hands out every index once, in an order that is left open.
    #[verifier::external_body]
    pub(crate) fn into_indices(self) -> (result: Vec<u32>)
        ensures
            result@.no_duplicates(),
            forall|index: u32|
                #![trigger result@.contains(index)]
                #![trigger index_set_contents(self).contains(index)]
                result@.contains(index) <==> index_set_contents(self).contains(index),
    {
        self.indices.into_iter().collect()
    }
}

/// A set of edges.
#[verifier::external_body]
pub struct EdgeSet {
    edges: hashbrown::HashSet<EdgeKey>,
}

/// The edges that a set holds.
pub uninterp spec fn edge_set_contents(set: EdgeSet) -> Set<EdgeKey>;

impl View for EdgeSet {
    type V = Set<EdgeKey>;

    open spec fn view(&self) -> Set<EdgeKey> {
        edge_set_contents(*self)
    }
}

impl EdgeSet {
    /// `hashbrown::HashSet::new` makes an empty set.
    #[verifier::external_body]
    pub(crate) fn new() -> (result: EdgeSet)
        ensures
            edge_set_contents(result) == Set::<EdgeKey>::empty(),
    {
        EdgeSet { edges: hashbrown::HashSet::new() }
    }

    /// `hashbrown::HashSet::insert` puts an edge in, and tells whether it was new.
    #[verifier::external_body]
    pub(crate) fn insert(&mut self, edge: EdgeKey) -> (result: bool)
        ensures
            result == !edge_set_contents(*old(self)).contains(edge),
            edge_set_contents(*final(self)) == edge_set_contents(*old(self)).insert(edge),
    {
        self.edges.insert(edge)
    }
}

/// A table from indices to places in a list.
#[verifier::external_body]
pub struct PlaceMap {
    places: hashbrown::HashMap<u32, usize>,
}

/// The place that a table has for each of its indices.
pub uninterp spec fn place_map_contents(map: PlaceMap) -> Map<u32, usize>;

impl View for PlaceMap {
    type V = Map<u32, usize>;

    open spec fn view(&self) -> Map<u32, usize> {
        place_map_contents(*self)
    }
}

impl PlaceMap {
    /// `hashbrown::HashMap::new` makes a table without entries.
    #[verifier::external_body]
    pub(crate) fn new() -> (result: PlaceMap)
        ensures
            (place_map_contents(result) == Map::<u32, usize>::empty()),
    {
        PlaceMap { places: hashbrown::HashMap::new() }
    }

    /// `hashbrown::HashMap::get` finds the place stored for an index.
    #[verifier::external_body]
    pub(crate) fn get(&self, index: u32) -> (result: Option<usize>)
        ensures
            result is Some <==> place_map_contents(*self).contains_key(index),
            result is Some ==> result->0 == place_map_contents(*self)[index],
    {
        self.places.get(&index).copied()
    }

    /// `hashbrown::HashMap::insert` stores a place for an index.
    #[verifier::external_body]
    pub(crate) fn insert(&mut self, index: u32, place: usize)
        ensures
            place_map_contents(*final(self)) == place_map_contents(*old(self)).insert(
                index,
                place,
            ),
    {
        self.places.insert(index, place);
    }
}

/// A table from edges to places in a list.
#[verifier::external_body]
pub struct EdgeSlots {
    slots: hashbrown::HashMap<EdgeKey, u32>,
}

/// The place that a table has for each of its edges.
pub uninterp spec fn edge_slots_contents(map: EdgeSlots) -> Map<EdgeKey, u32>;

impl View for EdgeSlots {
    type V = Map<EdgeKey, u32>;

    open spec fn view(&self) -> Map<EdgeKey, u32> {
        edge_slots_contents(*self)
    }
}

impl EdgeSlots {
    /// `hashbrown::HashMap::new` makes a table without entries.
    #[verifier::external_body]
    pub(crate) fn new() -> (result: EdgeSlots)
        ensures
            (edge_slots_contents(result) == Map::<EdgeKey, u32>::empty()),
    {
        EdgeSlots { slots: hashbrown::HashMap::new() }
    }

    /// `hashbrown::HashMap::get` finds the place stored for an edge.
    #[verifier::external_body]
    pub(crate) fn get(&self, edge: EdgeKey) -> (result: Option<u32>)
        ensures
            result is Some <==> edge_slots_contents(*self).contains_key(edge),
            result is Some ==> result->0 == edge_slots_contents(*self)[edge],
    {
        self.slots.get(&edge).copied()
    }

    /// `hashbrown::HashMap::insert` stores a place for an edge.
    #[verifier::external_body]
    pub(crate) fn insert(&mut self, edge: EdgeKey, slot: u32)
        ensures
            edge_slots_contents(*final(self)) == edge_slots_contents(*old(self)).insert(edge, slot),
    {
        self.slots.insert(edge, slot);
    }

    /// `hashbrown::HashMap::remove` takes an edge out.
    #[verifier::external_body]
    pub(crate) fn remove(&mut self, edge: EdgeKey)
        ensures
            edge_slots_contents(*final(self)) == edge_slots_contents(*old(self)).remove(edge),
    {
        self.slots.remove(&edge);
    }
}

/// Whether an edge comes before another by its first vertex, and by its second where the first is
/// the same, or is the same edge.
pub open spec fn edge_at_most(a: EdgeKey, b: EdgeKey) -> bool {
    a.0 < b.0 || (a.0 == b.0 && a.1 <= b.1)
}

pub open spec fn edges_ascending(edges: Seq<EdgeKey>) -> bool {
    forall|i: int, j: int| 0 <= i < j < edges.len() ==> edge_at_most(edges[i], edges[j])
}

/// `sort_unstable` puts edges in ascending order.
#[verifier::external_body]
pub(crate) fn sort_edges(edges: &mut Vec<EdgeKey>)
    ensures
        edges_ascending(final(edges)@),
        final(edges)@.to_multiset() == old(edges)@.to_multiset(),
{
    edges.sort_unstable();
}

} // verus!
