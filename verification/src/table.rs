//! Tables of values by index, which keep the order in which the indices came.
use crate::collections::PlaceMap;
use vstd::prelude::*;

verus! {

/// Values stored by index.
pub struct Table<T> {
    places: PlaceMap,
    keys: Vec<u32>,
    values: Vec<T>,
}

impl<T> View for Table<T> {
    type V = Map<u32, T>;

    closed spec fn view(&self) -> Map<u32, T> {
        Map::new(
            |key: u32| self.places@.contains_key(key),
            |key: u32| self.values@[self.places@[key] as int],
        )
    }
}

impl<T: Copy> Table<T> {
    /// The indices, in the order in which they came.
    pub closed spec fn order(self) -> Seq<u32> {
        self.keys@
    }

    pub closed spec fn well_formed(self) -> bool {
        &&& self.keys@.len() == self.values@.len()
        &&& forall|i: int|
            0 <= i < self.keys@.len() ==> self.places@.contains_key(#[trigger] self.keys@[i])
                && self.places@[self.keys@[i]] == i
        &&& forall|key: u32| #[trigger]
            self.places@.contains_key(key) ==> self.places@[key] < self.keys@.len()
                && self.keys@[self.places@[key] as int] == key
    }

    /// The order names each index once.
    pub proof fn order_names_the_indices(self)
        requires
            self.well_formed(),
        ensures
            self.order().no_duplicates(),
            forall|key: u32| #[trigger] self@.contains_key(key) <==> self.order().contains(key),
            forall|i: int|
                0 <= i < self.order().len() ==> self@.contains_key(#[trigger] self.order()[i]),
    {
        assert forall|key: u32| #[trigger] self@.contains_key(key) <==> self.order().contains(
            key,
        ) by {
            if self@.contains_key(key) {
                assert(self.places@.contains_key(key));
                assert(self.keys@[self.places@[key] as int] == key);
            }
            if self.order().contains(key) {
                let i = choose|i: int| 0 <= i < self.keys@.len() && self.keys@[i] == key;
                assert(self.places@.contains_key(self.keys@[i]));
            }
        }
    }

    pub fn new() -> (result: Table<T>)
        ensures
            result.well_formed(),
            result@ == Map::<u32, T>::empty(),
            result.order() == Seq::<u32>::empty(),
    {
        let result = Table { places: PlaceMap::new(), keys: Vec::new(), values: Vec::new() };
        assert(result@ =~= Map::<u32, T>::empty());
        result
    }

    pub fn len(&self) -> (result: usize)
        ensures
            result == self.order().len(),
    {
        self.keys.len()
    }

    pub fn get(&self, key: u32) -> (result: Option<T>)
        requires
            self.well_formed(),
        ensures
            result == if self@.contains_key(key) {
                Some(self@[key])
            } else {
                None::<T>
            },
    {
        match self.places.get(key) {
            Some(place) => {
                assert(self.places@.contains_key(key));
                Some(self.values[place])
            },
            None => None,
        }
    }

    /// The index that came at a place in the order.
    pub fn key(&self, place: usize) -> (result: u32)
        requires
            place < self.order().len(),
        ensures
            result == self.order()[place as int],
    {
        self.keys[place]
    }

    /// The value of the index that came at a place in the order.
    pub fn value(&self, place: usize) -> (result: T)
        requires
            self.well_formed(),
            place < self.order().len(),
        ensures
            self@.contains_key(self.order()[place as int]),
            result == self@[self.order()[place as int]],
    {
        assert(self.places@.contains_key(self.keys@[place as int]));
        self.values[place]
    }

    /// The indices, in the order in which they came.
    pub fn keys(&self) -> (result: Vec<u32>)
        ensures
            result@ == self.order(),
    {
        let mut result: Vec<u32> = Vec::with_capacity(self.keys.len());
        let mut k: usize = 0;
        while k < self.keys.len()
            invariant
                k <= self.keys@.len(),
                result@ == self.keys@.take(k as int),
            decreases self.keys@.len() - k,
        {
            result.push(self.keys[k]);
            assert(self.keys@.take(k + 1) =~= self.keys@.take(k as int).push(self.keys@[k as int]));
            k += 1;
        }
        assert(self.keys@.take(k as int) =~= self.keys@);
        result
    }

    pub fn insert(&mut self, key: u32, value: T)
        requires
            old(self).well_formed(),
        ensures
            final(self).well_formed(),
            final(self)@ == old(self)@.insert(key, value),
            final(self).order() == if old(self)@.contains_key(key) {
                old(self).order()
            } else {
                old(self).order().push(key)
            },
    {
        match self.places.get(key) {
            Some(place) => {
                assert(self.places@.contains_key(key));
                self.values.set(place, value);
                assert forall|other: u32| #[trigger]
                    self.places@.contains_key(other) && other != key implies self.places@[other]
                    != place by {
                    assert(self.keys@[self.places@[other] as int] == other);
                }
            },
            None => {
                let place = self.keys.len();
                self.places.insert(key, place);
                self.keys.push(key);
                self.values.push(value);
                assert forall|i: int|
                    0 <= i < self.keys@.len() implies self.places@.contains_key(
                    #[trigger] self.keys@[i],
                ) && self.places@[self.keys@[i]] == i by {
                    if i < place {
                        assert(old(self).places@.contains_key(old(self).keys@[i]));
                        assert(self.keys@[i] == old(self).keys@[i]);
                    }
                }
                assert forall|other: u32| #[trigger]
                    self.places@.contains_key(other) implies self.places@[other] < self.keys@.len()
                    && self.keys@[self.places@[other] as int] == other by {
                    if other != key {
                        assert(old(self).places@.contains_key(other));
                    }
                }
            },
        }
        assert(self@ =~= old(self)@.insert(key, value));
    }
}

} // verus!
