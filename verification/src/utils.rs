//! An insertion-ordered map keyed by strings.

use vstd::hash_map::StringHashMap;
use vstd::prelude::*;

verus! {

/// A map from names to values that remembers the order in which the names
/// were first inserted.
///
/// The names are kept in insertion order in `ord`, the value of `ord[i]` is
/// `map[i]`, and `index` finds the position of a name by hashing. In a
/// well-formed map the index holds nothing but the positions of the names,
/// so the names and the values say all there is to say of the map.
pub struct OrdHashMap<V> {
    ord: Vec<String>,
    map: Vec<V>,
    index: StringHashMap<usize>,
}

/// The position of `key` in `keys`, if it occurs there.
pub open spec fn position_of(keys: Seq<Seq<char>>, key: Seq<char>) -> Option<int> {
    if keys.contains(key) {
        Some(keys.index_of(key))
    } else {
        None
    }
}

impl<V> OrdHashMap<V> {
    /// The names, in insertion order.
    pub closed spec fn keys(&self) -> Seq<Seq<char>> {
        self.ord@.map_values(|k: String| k@)
    }

    /// The values, each at the position of its name.
    pub closed spec fn values(&self) -> Seq<V> {
        self.map@
    }

    /// The index holds exactly the names, each with its position.
    pub closed spec fn indexed(&self) -> bool {
        &&& forall|i: int|
            0 <= i < self.keys().len() ==> self.index@.contains_key(#[trigger] self.keys()[i])
                && self.index@[self.keys()[i]] == i
        &&& forall|k: Seq<char>| #[trigger]
            self.index@.contains_key(k) ==> 0 <= self.index@[k] < self.keys().len()
                && self.keys()[self.index@[k] as int] == k
    }

    /// Every name has exactly one value, no name occurs twice, and every
    /// name is found at its position.
    pub open spec fn wf(&self) -> bool {
        &&& self.keys().len() == self.values().len()
        &&& self.keys().no_duplicates()
        &&& self.indexed()
    }

    /// A map without names.
    pub fn new() -> (m: Self)
        ensures
            m.wf(),
            m.keys() == Seq::<Seq<char>>::empty(),
            m.values() == Seq::<V>::empty(),
    {
        OrdHashMap { ord: Vec::new(), map: Vec::new(), index: StringHashMap::new() }
    }

    /// The number of names.
    pub fn len(&self) -> (n: usize)
        requires
            self.wf(),
        ensures
            n == self.keys().len(),
    {
        self.ord.len()
    }

    /// The position of `key` among the names.
    pub fn position(&self, key: &String) -> (r: Option<usize>)
        requires
            self.wf(),
        ensures
            match r {
                Some(i) => position_of(self.keys(), key@) == Some(i as int),
                None => position_of(self.keys(), key@).is_none(),
            },
    {
        match self.index.get(key.as_str()) {
            Some(i) => {
                assert(self.keys()[*i as int] == key@);
                Some(*i)
            },
            None => None,
        }
    }

    /// The name at position `i`.
    pub fn key(&self, i: usize) -> (k: &String)
        requires
            self.wf(),
            i < self.keys().len(),
        ensures
            k@ == self.keys()[i as int],
    {
        &self.ord[i]
    }

    /// The value at position `i`.
    pub fn value(&self, i: usize) -> (v: &V)
        requires
            self.wf(),
            i < self.keys().len(),
        ensures
            *v == self.values()[i as int],
    {
        &self.map[i]
    }

    /// The value at position `i`, to be changed in place.
    pub fn value_mut(&mut self, i: usize) -> (v: &mut V)
        requires
            old(self).wf(),
            i < old(self).keys().len(),
        ensures
            *v == old(self).values()[i as int],
            final(self).wf(),
            final(self).keys() == old(self).keys(),
            final(self).values() == old(self).values().update(i as int, *final(v)),
    {
        &mut self.map[i]
    }

    /// The value bound to `key`, if there is one.
    pub fn get(&self, key: &String) -> (v: Option<&V>)
        requires
            self.wf(),
        ensures
            match position_of(self.keys(), key@) {
                Some(i) => v == Some(&self.values()[i]),
                None => v.is_none(),
            },
    {
        match self.position(key) {
            Some(i) => Some(&self.map[i]),
            None => None,
        }
    }

    /// Binds `key` to `val`. A new name is appended after the names already
    /// present; a name that is already present keeps its position and gets
    /// the new value, and its previous value is returned.
    pub fn insert(&mut self, key: String, val: V) -> (previous: Option<V>)
        requires
            old(self).wf(),
        ensures
            final(self).wf(),
            match position_of(old(self).keys(), key@) {
                Some(i) => {
                    &&& final(self).keys() == old(self).keys()
                    &&& final(self).values() == old(self).values().update(i, val)
                    &&& previous == Some(old(self).values()[i])
                },
                None => {
                    &&& final(self).keys() == old(self).keys().push(key@)
                    &&& final(self).values() == old(self).values().push(val)
                    &&& previous.is_none()
                },
            },
    {
        match self.position(&key) {
            Some(i) => {
                self.map.push(val);
                let previous = self.map.swap_remove(i);
                assert(self.values() =~= old(self).values().update(i as int, val));
                Some(previous)
            },
            None => {
                let ghost name = key@;
                self.index.insert(key.clone(), self.ord.len());
                self.ord.push(key);
                self.map.push(val);
                assert(self.keys() =~= old(self).keys().push(name));
                assert(self.values() =~= old(self).values().push(val));
                assert forall|a: int, b: int|
                    0 <= a < self.keys().len() && 0 <= b < self.keys().len() && a != b implies self.keys()[a]
                    != self.keys()[b] by {
                    if a < old(self).keys().len() && b < old(self).keys().len() {
                        assert(old(self).keys()[a] != old(self).keys()[b]);
                    }
                }
                assert forall|i: int| 0 <= i < self.keys().len() implies self.index@.contains_key(
                    #[trigger] self.keys()[i],
                ) && self.index@[self.keys()[i]] == i by {
                    if i < old(self).keys().len() {
                        assert(old(self).keys()[i] != name);
                    }
                }
                assert forall|k: Seq<char>| #[trigger] self.index@.contains_key(k) implies 0 <= self.index@[k]
                    < self.keys().len() && self.keys()[self.index@[k] as int] == k by {
                    if k != name {
                        assert(old(self).index@.contains_key(k));
                    }
                }
                None
            },
        }
    }
}

} // verus!
