//! Maps and tables keyed by 64-bit identifiers.
//!
//! An [`IdMap`] is a hash map of the `hashbrown` crate from identifiers to identifiers. A
//! [`Table`] holds values of any type: its keys are kept in an [`IdMap`], each with the place of
//! its value in a vector. The places that hold no value are remembered and used again.

use vstd::prelude::*;

verus! {

/// A map from 64-bit keys to 64-bit values. Holds a `hashbrown::HashMap` hashed by `fnv`.
#[verifier::external_body]
pub struct IdMap {
    inner: hashbrown::HashMap<u64, u64, fnv::FnvBuildHasher>,
}

/// The entries of an [`IdMap`].
pub uninterp spec fn id_map_entries(map: IdMap) -> Map<u64, u64>;

/// `hashbrown::HashMap::with_capacity_and_hasher`: a map without entries.
#[verifier::external_body]
pub(crate) fn id_map_with_capacity(capacity: usize) -> (map: IdMap)
    ensures
        forall|key: u64| !id_map_entries(map).contains_key(key),
{
    IdMap { inner: hashbrown::HashMap::with_capacity_and_hasher(capacity, Default::default()) }
}

/// `hashbrown::HashMap::insert`: the key maps to the value afterwards, and what it mapped to
/// before is returned.
#[verifier::external_body]
pub(crate) fn id_map_insert(map: &mut IdMap, key: u64, value: u64) -> (previous: Option<u64>)
    ensures
        id_map_entries(*final(map)) == id_map_entries(*old(map)).insert(key, value),
        previous == (if id_map_entries(*old(map)).contains_key(key) {
            Some(id_map_entries(*old(map))[key])
        } else {
            None
        }),
{
    map.inner.insert(key, value)
}

/// `hashbrown::HashMap::remove`: the key maps to nothing afterwards, and what it mapped to
/// before is returned.
#[verifier::external_body]
pub(crate) fn id_map_remove(map: &mut IdMap, key: u64) -> (previous: Option<u64>)
    ensures
        id_map_entries(*final(map)) == id_map_entries(*old(map)).remove(key),
        previous == (if id_map_entries(*old(map)).contains_key(key) {
            Some(id_map_entries(*old(map))[key])
        } else {
            None
        }),
{
    map.inner.remove(&key)
}

/// `hashbrown::HashMap::get`: what the key maps to.
#[verifier::external_body]
pub(crate) fn id_map_get(map: &IdMap, key: u64) -> (value: Option<u64>)
    ensures
        value == (if id_map_entries(*map).contains_key(key) {
            Some(id_map_entries(*map)[key])
        } else {
            None
        }),
{
    map.inner.get(&key).copied()
}

/// A table of values of type `V`, each found by its key.
pub struct Table<V> {
    /// For each key, the place of its value in `values`.
    places: IdMap,
    /// The values, and `None` at each place that is free.
    values: Vec<Option<V>>,
    /// The places that are free.
    free: Vec<usize>,
}

impl<V> View for Table<V> {
    type V = Map<u64, V>;

    /// For each key, its value.
    closed spec fn view(&self) -> Map<u64, V> {
        Map::new(
            |key: u64| id_map_entries(self.places).contains_key(key),
            |key: u64| self.values@[id_map_entries(self.places)[key] as int].unwrap(),
        )
    }
}

impl<V> Table<V> {
    /// Every key has a place of its own that holds a value, and the places remembered as free
    /// hold none.
    pub closed spec fn wf(&self) -> bool {
        let places = id_map_entries(self.places);
        &&& places.dom().finite()
        &&& forall|key: u64| #[trigger]
            places.contains_key(key) ==> places[key] < self.values@.len()
                && self.values@[places[key] as int] is Some
        &&& forall|a: u64, b: u64|
            #![trigger places.contains_key(a), places.contains_key(b)]
            places.contains_key(a) && places.contains_key(b) && places[a] == places[b] ==> a == b
        &&& forall|i: int|
            0 <= i < self.free@.len() ==> (#[trigger] self.free@[i]) < self.values@.len()
                && self.values@[self.free@[i] as int] is None
        &&& forall|i: int, j: int|
            0 <= i < j < self.free@.len() ==> #[trigger] self.free@[i] != #[trigger] self.free@[j]
    }

    /// A table has finitely many keys.
    pub proof fn lemma_finite(&self)
        requires
            self.wf(),
        ensures
            self@.dom().finite(),
    {
        assert(self@.dom() =~= id_map_entries(self.places).dom());
    }

    /// Creates an empty table with room for `capacity` keys.
    pub fn with_capacity(capacity: usize) -> (table: Self)
        ensures
            table.wf(),
            table@ == Map::<u64, V>::empty(),
    {
        let table = Table {
            places: id_map_with_capacity(capacity),
            values: Vec::new(),
            free: Vec::new(),
        };
        proof {
            assert(id_map_entries(table.places).dom() =~= Set::<u64>::empty());
            assert(table@ =~= Map::<u64, V>::empty());
        }
        table
    }

    /// Returns the value of `key`, if it has one.
    pub fn get(&self, key: u64) -> (value: Option<&V>)
        requires
            self.wf(),
        ensures
            match value {
                Some(v) => self@.contains_key(key) && *v == self@[key],
                None => !self@.contains_key(key),
            },
    {
        match id_map_get(&self.places, key) {
            Some(place) => {
                proof {
                    assert(id_map_entries(self.places).contains_key(key));
                    assert(self.values.len() == self.values@.len());
                }
                self.values[place as usize].as_ref()
            },
            None => None,
        }
    }

    /// Takes the value of `key` out of the table, if it has one, and returns it.
    pub fn remove(&mut self, key: u64) -> (previous: Option<V>)
        requires
            old(self).wf(),
        ensures
            final(self).wf(),
            final(self)@ == old(self)@.remove(key),
            previous == (if old(self)@.contains_key(key) {
                Some(old(self)@[key])
            } else {
                None
            }),
    {
        match id_map_remove(&mut self.places, key) {
            Some(place) => {
                proof {
                    assert(id_map_entries(old(self).places).contains_key(key));
                    assert(self.values.len() == self.values@.len());
                }
                let place: usize = place as usize;
                self.values.push(None);
                let previous = self.values.swap_remove(place);
                self.free.push(place);
                proof {
                    let before = id_map_entries(old(self).places);
                    let after = id_map_entries(self.places);
                    assert(before.contains_key(key) && before[key] == place);
                    assert forall|k: u64| #[trigger] after.contains_key(k) implies after[k]
                        < self.values@.len() && self.values@[after[k] as int] is Some by {
                        assert(before.contains_key(k));
                        assert(before[k] != place);
                    }
                    assert forall|a: u64, b: u64|
                        #![trigger after.contains_key(a), after.contains_key(b)]
                        after.contains_key(a) && after.contains_key(b) && after[a]
                            == after[b] implies a == b by {
                        assert(before.contains_key(a) && before.contains_key(b));
                    }
                    assert forall|i: int| 0 <= i < self.free@.len() implies (
                    #[trigger] self.free@[i]) < self.values@.len()
                        && self.values@[self.free@[i] as int] is None by {
                        if i < old(self).free@.len() {
                            assert(self.free@[i] == old(self).free@[i]);
                        }
                    }
                    assert forall|i: int, j: int| 0 <= i < j < self.free@.len() implies
                        #[trigger] self.free@[i] != #[trigger] self.free@[j] by {
                        assert(self.free@[i] == old(self).free@[i]);
                        if j < old(self).free@.len() {
                            assert(self.free@[j] == old(self).free@[j]);
                        }
                    }
                    assert(self@ =~= old(self)@.remove(key));
                }
                previous
            },
            None => {
                proof {
                    assert(id_map_entries(self.places) =~= id_map_entries(old(self).places));
                    assert(self@ =~= old(self)@.remove(key));
                }
                None
            },
        }
    }

    /// Gives `key` the value `value`, and returns the value that it had, if it had one.
    pub fn insert(&mut self, key: u64, value: V) -> (previous: Option<V>)
        requires
            old(self).wf(),
        ensures
            final(self).wf(),
            final(self)@ == old(self)@.insert(key, value),
            previous == (if old(self)@.contains_key(key) {
                Some(old(self)@[key])
            } else {
                None
            }),
    {
        let previous = self.remove(key);
        let ghost removed = *self;
        let place: usize = match self.free.pop() {
            Some(place) => {
                self.values.set(place, Some(value));
                place
            },
            None => {
                self.values.push(Some(value));
                self.values.len() - 1
            },
        };
        let _none = id_map_insert(&mut self.places, key, place as u64);
        proof {
            let before = id_map_entries(removed.places);
            let after = id_map_entries(self.places);
            assert(!removed@.contains_key(key));
            assert(!before.contains_key(key));
            assert forall|k: u64| before.contains_key(k) implies before[k] != place by {
                assert(removed.values@[before[k] as int] is Some);
            }
            assert forall|k: u64| #[trigger] after.contains_key(k) implies after[k]
                < self.values@.len() && self.values@[after[k] as int] is Some by {
                if k != key {
                    assert(before.contains_key(k));
                }
            }
            assert forall|a: u64, b: u64|
                #![trigger after.contains_key(a), after.contains_key(b)]
                after.contains_key(a) && after.contains_key(b) && after[a] == after[b] implies a
                == b by {
                if a != key {
                    assert(before.contains_key(a));
                }
                if b != key {
                    assert(before.contains_key(b));
                }
            }
            assert forall|i: int| 0 <= i < self.free@.len() implies (#[trigger] self.free@[i])
                < self.values@.len() && self.values@[self.free@[i] as int] is None by {
                assert(self.free@[i] == removed.free@[i]);
                if removed.free@.len() > 0 {
                    assert(removed.free@[i] != removed.free@[removed.free@.len() - 1]);
                }
            }
            assert forall|i: int, j: int| 0 <= i < j < self.free@.len() implies
                #[trigger] self.free@[i] != #[trigger] self.free@[j] by {
                assert(self.free@[i] == removed.free@[i]);
                assert(self.free@[j] == removed.free@[j]);
            }
            assert(self@ =~= removed@.insert(key, value));
            assert(removed@.insert(key, value) =~= old(self)@.insert(key, value));
        }
        previous
    }
}

} // verus!
