//! A map keyed by strings whose entries can be walked by position.
use vstd::hash_map::StringHashMap;
use vstd::prelude::*;

verus! {

/// The parts of a [`StringMap`]: the entries, and where each key stands among them.
struct Table<V> {
    entries: Vec<(String, V)>,
    positions: StringHashMap<usize>,
}

/// A map from strings to values.
#[verifier::reject_recursive_types(V)]
pub struct StringMap<V> {
    table: Table<V>,
}

impl<V> Table<V> {
    spec fn consistent(self) -> bool {
        &&& forall|i: int|
            0 <= i < self.entries@.len() ==> {
                &&& self.positions@.contains_key((#[trigger] self.entries@[i]).0@)
                &&& self.positions@[self.entries@[i].0@] == i
            }
        &&& forall|key: Seq<char>| #[trigger]
            self.positions@.contains_key(key) ==> {
                &&& self.positions@[key] < self.entries@.len()
                &&& self.entries@[self.positions@[key] as int].0@ == key
            }
    }

    spec fn contents(self) -> Map<Seq<char>, V> {
        Map::new(
            |key: Seq<char>| self.positions@.contains_key(key),
            |key: Seq<char>| self.entries@[self.positions@[key] as int].1,
        )
    }

    fn empty() -> (table: Table<V>)
        ensures
            table.consistent(),
            table.contents() == Map::<Seq<char>, V>::empty(),
            table.entries@.len() == 0,
    {
        let table = Table { entries: Vec::new(), positions: StringHashMap::new() };
        assert(table.contents() =~= Map::empty());
        table
    }

    fn put(&mut self, key: String, value: V)
        requires
            old(self).consistent(),
        ensures
            final(self).consistent(),
            final(self).contents() == old(self).contents().insert(key@, value),
    {
        let ghost wanted = key@;
        let known: Option<usize> = match self.positions.get(key.as_str()) {
            Some(position) => Some(*position),
            None => None,
        };
        match known {
            Some(i) => {
                assert(self.entries@[i as int].0@ == key@);
                self.entries[i] = (key, value);
                assert forall|k: int| 0 <= k < self.entries@.len() implies {
                    &&& self.positions@.contains_key((#[trigger] self.entries@[k]).0@)
                    &&& self.positions@[self.entries@[k].0@] == k
                } by {
                    if k != i {
                        assert(self.entries@[k] == old(self).entries@[k]);
                    }
                }
            },
            None => {
                let at = self.entries.len();
                self.positions.insert(key.clone(), at);
                self.entries.push((key, value));
                assert forall|k: int| 0 <= k < self.entries@.len() implies {
                    &&& self.positions@.contains_key((#[trigger] self.entries@[k]).0@)
                    &&& self.positions@[self.entries@[k].0@] == k
                } by {
                    if k != at {
                        assert(self.entries@[k] == old(self).entries@[k]);
                    }
                }
            },
        }
        assert forall|k: Seq<char>| #[trigger] self.positions@.contains_key(k) implies {
            &&& self.positions@[k] < self.entries@.len()
            &&& self.entries@[self.positions@[k] as int].0@ == k
        } by {
            if k != wanted {
                assert(old(self).positions@.contains_key(k));
            }
        }
        assert(self.contents() =~= old(self).contents().insert(wanted, value));
    }

    fn take_out(&mut self, key: &str)
        requires
            old(self).consistent(),
        ensures
            final(self).consistent(),
            final(self).contents() == old(self).contents().remove(key@),
    {
        let known: Option<usize> = match self.positions.get(key) {
            Some(position) => Some(*position),
            None => None,
        };
        match known {
            Some(i) => {
                let last = self.entries.len() - 1;
                let ghost before = self.entries@;
                let ghost placed = self.positions@;
                self.positions.remove(key);
                self.entries.swap_remove(i);
                if i < last {
                    let moved = self.entries[i].0.clone();
                    assert(moved@ == before[last as int].0@);
                    assert(placed[before[last as int].0@] == last);
                    assert(placed[before[i as int].0@] == i);
                    self.positions.insert(moved, i);
                }
                assert forall|k: int| 0 <= k < self.entries@.len() implies {
                    &&& self.positions@.contains_key((#[trigger] self.entries@[k]).0@)
                    &&& self.positions@[self.entries@[k].0@] == k
                } by {
                    let origin = if k == i {
                        last as int
                    } else {
                        k
                    };
                    assert(self.entries@[k] == before[origin]);
                    assert(placed[before[origin].0@] == origin);
                    assert(placed[before[i as int].0@] == i);
                    assert(placed[before[last as int].0@] == last);
                }
                assert forall|k: Seq<char>| #[trigger] self.positions@.contains_key(k) implies {
                    &&& self.positions@[k] < self.entries@.len()
                    &&& self.entries@[self.positions@[k] as int].0@ == k
                } by {
                    assert(placed.contains_key(k));
                    let origin = placed[k] as int;
                    assert(before[origin].0@ == k);
                }
                assert forall|k: Seq<char>|
                    self.contents().contains_key(k) == old(self).contents().remove(
                        key@,
                    ).contains_key(k) by {
                    assert(placed[before[last as int].0@] == last);
                }
                assert forall|k: Seq<char>| #[trigger] self.contents().contains_key(k) implies self.contents()[k]
                    == old(self).contents().remove(key@)[k] by {
                    assert(placed.contains_key(k));
                    let origin = placed[k] as int;
                    assert(before[origin].0@ == k);
                    assert(origin != i);
                }
                assert(self.contents() =~= old(self).contents().remove(key@));
            },
            None => {
                assert(self.contents() =~= old(self).contents().remove(key@));
            },
        }
    }
}

impl<V> View for StringMap<V> {
    type V = Map<Seq<char>, V>;

    closed spec fn view(&self) -> Map<Seq<char>, V> {
        self.table.contents()
    }
}

impl<V> StringMap<V> {
    #[verifier::type_invariant]
    spec fn well_formed(self) -> bool {
        self.table.consistent()
    }

    /// The keys, by position.
    pub closed spec fn spec_keys(&self) -> Seq<Seq<char>> {
        self.table.entries@.map_values(|entry: (String, V)| entry.0@)
    }

    /// A map without entries.
    pub fn new() -> (map: StringMap<V>)
        ensures
            map@ == Map::<Seq<char>, V>::empty(),
    {
        StringMap { table: Table::empty() }
    }

    /// How many entries there are. Each key has one position.
    pub fn len(&self) -> (len: usize)
        ensures
            len == self.spec_keys().len(),
            self.spec_keys().no_duplicates(),
            forall|key: Seq<char>| #[trigger]
                self.spec_keys().contains(key) <==> self@.contains_key(key),
    {
        proof {
            use_type_invariant(self);
            let keys = self.spec_keys();
            let entries = self.table.entries@;
            assert forall|i: int, j: int|
                0 <= i < keys.len() && 0 <= j < keys.len() && i != j implies keys[i] != keys[j] by {
                assert(keys[i] == entries[i].0@ && keys[j] == entries[j].0@);
            }
            assert forall|key: Seq<char>| #[trigger] keys.contains(key) <==> self@.contains_key(
                key,
            ) by {
                if keys.contains(key) {
                    let i = choose|i: int| 0 <= i < keys.len() && keys[i] == key;
                    assert(entries[i].0@ == key);
                }
                if self@.contains_key(key) {
                    assert(self.table.positions@.contains_key(key));
                    let i = self.table.positions@[key] as int;
                    assert(keys[i] == key);
                }
            }
        }
        self.table.entries.len()
    }

    /// The key at position `i`.
    pub fn key_at(&self, i: usize) -> (key: &String)
        requires
            i < self.spec_keys().len(),
        ensures
            key@ == self.spec_keys()[i as int],
    {
        &self.table.entries[i].0
    }

    /// The value at position `i`.
    pub fn value_at(&self, i: usize) -> (value: &V)
        requires
            i < self.spec_keys().len(),
        ensures
            self@.contains_key(self.spec_keys()[i as int]),
            *value == self@[self.spec_keys()[i as int]],
    {
        proof {
            use_type_invariant(self);
            assert(self.spec_keys()[i as int] == self.table.entries@[i as int].0@);
        }
        &self.table.entries[i].1
    }

    /// Whether the key has an entry.
    pub fn contains_key(&self, key: &str) -> (found: bool)
        ensures
            found == self@.contains_key(key@),
    {
        self.table.positions.contains_key(key)
    }

    /// The value of the key, if it has one.
    pub fn get(&self, key: &str) -> (value: Option<&V>)
        ensures
            match value {
                Some(v) => self@.contains_key(key@) && *v == self@[key@],
                None => !self@.contains_key(key@),
            },
    {
        proof {
            use_type_invariant(self);
        }
        match self.table.positions.get(key) {
            Some(position) => Some(&self.table.entries[*position].1),
            None => None,
        }
    }

    /// Give the key a value, whether or not it had one.
    pub fn insert(&mut self, key: String, value: V)
        ensures
            final(self)@ == old(self)@.insert(key@, value),
    {
        proof {
            use_type_invariant(&*self);
        }
        let mut table = Table::empty();
        std::mem::swap(&mut self.table, &mut table);
        table.put(key, value);
        self.table = table;
    }

    /// Take the key out, if it is there.
    pub fn remove(&mut self, key: &str)
        ensures
            final(self)@ == old(self)@.remove(key@),
    {
        proof {
            use_type_invariant(&*self);
        }
        let mut table = Table::empty();
        std::mem::swap(&mut self.table, &mut table);
        table.take_out(key);
        self.table = table;
    }

    /// Drop every entry.
    pub fn clear(&mut self)
        ensures
            final(self)@ == Map::<Seq<char>, V>::empty(),
    {
        self.table = Table::empty();
    }
}

} // verus!
