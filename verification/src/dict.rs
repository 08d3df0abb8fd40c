//! A small table from text keys to values, kept in the order in which the
//! keys first came.

use vstd::prelude::*;

verus! {

/// A table from text keys to values.
pub struct Dict<V> {
    entries: Vec<(String, V)>,
}

impl<V> Dict<V> {
    /// The keys, in the order in which they first came.
    pub closed spec fn keys(&self) -> Seq<Seq<char>> {
        Seq::new(self.entries@.len(), |i: int| self.entries@[i].0@)
    }

    /// The values, each at the position of its key.
    pub closed spec fn values(&self) -> Seq<V> {
        Seq::new(self.entries@.len(), |i: int| self.entries@[i].1)
    }

    /// The invariant of the table: no key stands in it twice.
    pub open spec fn wf(&self) -> bool {
        self.keys().no_duplicates()
    }

    /// An empty table.
    pub fn new() -> (d: Self)
        ensures
            d.wf(),
            d.keys() == Seq::<Seq<char>>::empty(),
            d.values() == Seq::<V>::empty(),
            d@ == Map::<Seq<char>, V>::empty(),
    {
        let d = Dict { entries: Vec::new() };
        assert(d.keys() =~= Seq::<Seq<char>>::empty());
        assert(d.values() =~= Seq::<V>::empty());
        assert(d@ =~= Map::<Seq<char>, V>::empty());
        d
    }

    /// The number of keys.
    pub fn len(&self) -> (n: usize)
        ensures
            n == self.keys().len(),
            n == self.values().len(),
    {
        self.entries.len()
    }

    /// The key at position `i`.
    pub fn key_at(&self, i: usize) -> (key: &String)
        requires
            i < self.keys().len(),
        ensures
            key@ == self.keys()[i as int],
    {
        &self.entries[i].0
    }

    /// The value at position `i`.
    pub fn value_at(&self, i: usize) -> (value: &V)
        requires
            i < self.values().len(),
        ensures
            *value == self.values()[i as int],
    {
        &self.entries[i].1
    }

    /// The position of `key`, if it is in the table.
    pub fn position(&self, key: &str) -> (at: Option<usize>)
        ensures
            match at {
                Some(i) => i < self.keys().len() && self.keys()[i as int] == key@,
                None => !self.keys().contains(key@),
            },
    {
        let wanted = key.to_owned();
        let mut i: usize = 0;
        while i < self.entries.len()
            invariant
                i <= self.entries.len(),
                wanted@ == key@,
                forall|j: int| 0 <= j < i ==> self.keys()[j] != key@,
            decreases self.entries.len() - i,
        {
            if self.entries[i].0 == wanted {
                return Some(i);
            }
            i += 1;
        }
        None
    }

    /// The value of `key`, if it has one.
    pub fn get(&self, key: &str) -> (value: Option<&V>)
        requires
            self.wf(),
        ensures
            match value {
                Some(v) => self@.contains_key(key@) && *v == self@[key@],
                None => !self@.contains_key(key@),
            },
    {
        match self.position(key) {
            Some(i) => {
                assert(self.keys().contains(key@));
                assert(self.keys().index_of(key@) == i);
                Some(&self.entries[i].1)
            },
            None => None,
        }
    }

    /// Whether `key` is in the table.
    pub fn contains_key(&self, key: &str) -> (found: bool)
        ensures
            found == self@.contains_key(key@),
    {
        self.position(key).is_some()
    }

    /// Gives `key` the value `value`. A key that is new comes last; one that
    /// is there keeps its place. Returns the position of the key.
    pub fn insert(&mut self, key: String, value: V) -> (at: usize)
        requires
            old(self).wf(),
        ensures
            final(self).wf(),
            final(self)@ == old(self)@.insert(key@, value),
            at < final(self).keys().len(),
            final(self).keys()[at as int] == key@,
            final(self).values() == (if old(self).keys().contains(key@) {
                old(self).values().update(at as int, value)
            } else {
                old(self).values().push(value)
            }),
            final(self).keys() == (if old(self).keys().contains(key@) {
                old(self).keys()
            } else {
                old(self).keys().push(key@)
            }),
    {
        match self.position(key.as_str()) {
            Some(i) => {
                assert(old(self).keys().contains(key@));
                self.entries[i].1 = value;
                assert(self.keys() =~= old(self).keys());
                assert(self.values() =~= old(self).values().update(i as int, value));
                assert(self@ =~= old(self)@.insert(key@, value)) by {
                    assert forall|k: Seq<char>| self@.contains_key(k) implies #[trigger] self@[k]
                        == old(self)@.insert(key@, value)[k] by {
                        let j = self.keys().index_of(k);
                        assert(self.keys()[j] == k);
                    }
                }
                i
            },
            None => {
                let at = self.entries.len();
                self.entries.push((key, value));
                assert(self.keys() =~= old(self).keys().push(key@));
                assert(self.values() =~= old(self).values().push(value));
                assert(self.keys().no_duplicates());
                assert(self@ =~= old(self)@.insert(key@, value)) by {
                    assert forall|k: Seq<char>| self@.contains_key(k) <==> #[trigger] old(
                        self,
                    )@.insert(key@, value).contains_key(k) by {
                        if old(self).keys().contains(k) {
                            let j = old(self).keys().index_of(k);
                            assert(self.keys()[j] == k);
                        }
                        if k == key@ {
                            assert(self.keys()[at as int] == k);
                        }
                    }
                    assert forall|k: Seq<char>| self@.contains_key(k) implies #[trigger] self@[k]
                        == old(self)@.insert(key@, value)[k] by {
                        let j = self.keys().index_of(k);
                        assert(self.keys()[j] == k);
                        if k != key@ {
                            let j0 = old(self).keys().index_of(k);
                            assert(old(self).keys()[j0] == k);
                            assert(self.keys()[j0] == k);
                        } else {
                            assert(self.keys()[at as int] == k);
                        }
                    }
                }
                at
            },
        }
    }
}

impl<V> View for Dict<V> {
    type V = Map<Seq<char>, V>;

    /// The table as a map: each key with its value.
    open spec fn view(&self) -> Map<Seq<char>, V> {
        Map::new(
            |k: Seq<char>| self.keys().contains(k),
            |k: Seq<char>| self.values()[self.keys().index_of(k)],
        )
    }
}

} // verus!
