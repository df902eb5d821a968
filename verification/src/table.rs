//! A small map from text keys to values that remembers the order in which
//! the keys arrived.
//!
//! The executable side is a vector of pairs; the mathematical side is a
//! `Map<Seq<char>, V>`.  No key occurs twice, which the type guarantees by
//! itself: callers never have to ask for it.

use vstd::prelude::*;

verus! {

/// Where `key` stands in a duplicate-free listing, it stands only there.
pub proof fn lemma_index_of_unique(keys: Seq<Seq<char>>, i: int)
    requires
        keys.no_duplicates(),
        0 <= i < keys.len(),
    ensures
        keys.contains(keys[i]),
        keys.index_of(keys[i]) == i,
{
    let j = keys.index_of(keys[i]);
    assert(0 <= j < keys.len() && keys[j] == keys[i]);
}

/// The map that a listing of keys and a listing of values of the same
/// length stand for.
pub open spec fn map_of<V>(keys: Seq<Seq<char>>, values: Seq<V>) -> Map<Seq<char>, V> {
    Map::new(|k: Seq<char>| keys.contains(k), |k: Seq<char>| values[keys.index_of(k)])
}

/// Appending a fresh key is inserting it.
pub proof fn lemma_map_of_push<V>(keys: Seq<Seq<char>>, values: Seq<V>, k: Seq<char>, v: V)
    requires
        keys.no_duplicates(),
        keys.len() == values.len(),
        !keys.contains(k),
    ensures
        keys.push(k).no_duplicates(),
        map_of(keys.push(k), values.push(v)) == map_of(keys, values).insert(k, v),
{
    let keys2 = keys.push(k);
    let values2 = values.push(v);
    assert forall|i: int, j: int| 0 <= i < keys2.len() && 0 <= j < keys2.len() && i != j implies keys2[i]
        != keys2[j] by {
        if i < keys.len() {
            assert(keys[i] == keys2[i]);
        }
        if j < keys.len() {
            assert(keys[j] == keys2[j]);
        }
    }
    assert forall|x: Seq<char>| keys2.contains(x) <==> (keys.contains(x) || x == k) by {
        if keys.contains(x) {
            let i = keys.index_of(x);
            assert(keys2[i] == x);
        }
        if x == k {
            assert(keys2[keys.len() as int] == x);
        }
        if keys2.contains(x) {
            let i = keys2.index_of(x);
            if i < keys.len() {
                assert(keys[i] == x);
            }
        }
    }
    assert forall|x: Seq<char>| keys2.contains(x) implies #[trigger] values2[keys2.index_of(x)] == (if x
        == k {
        v
    } else {
        values[keys.index_of(x)]
    }) by {
        let i = keys2.index_of(x);
        lemma_index_of_unique(keys2, i);
        if x != k {
            assert(keys[i] == x);
            lemma_index_of_unique(keys, i);
        }
    }
    assert(map_of(keys2, values2) =~= map_of(keys, values).insert(k, v));
}

/// Writing a new value at the place of a key is inserting under that key.
pub proof fn lemma_map_of_update<V>(keys: Seq<Seq<char>>, values: Seq<V>, i: int, v: V)
    requires
        keys.no_duplicates(),
        keys.len() == values.len(),
        0 <= i < keys.len(),
    ensures
        map_of(keys, values.update(i, v)) == map_of(keys, values).insert(keys[i], v),
{
    let values2 = values.update(i, v);
    lemma_index_of_unique(keys, i);
    assert forall|x: Seq<char>| keys.contains(x) implies #[trigger] values2[keys.index_of(x)] == (if x
        == keys[i] {
        v
    } else {
        values[keys.index_of(x)]
    }) by {
        let j = keys.index_of(x);
        lemma_index_of_unique(keys, j);
    }
    assert(map_of(keys, values2) =~= map_of(keys, values).insert(keys[i], v));
}

/// What the map holds under the key at place `i` is the value at place `i`.
pub proof fn lemma_map_of_at<V>(keys: Seq<Seq<char>>, values: Seq<V>, i: int)
    requires
        keys.no_duplicates(),
        keys.len() == values.len(),
        0 <= i < keys.len(),
    ensures
        map_of(keys, values).contains_key(keys[i]),
        map_of(keys, values)[keys[i]] == values[i],
{
    lemma_index_of_unique(keys, i);
}

#[derive(Debug)]
pub struct Table<V> {
    entries: Vec<(String, V)>,
}

impl<V> Table<V> {
    /// The keys, in the order in which they were first inserted.
    pub closed spec fn keys(&self) -> Seq<Seq<char>> {
        Seq::new(self.entries@.len(), |i: int| self.entries@[i].0@)
    }

    /// The values, each at the place of its key.
    pub closed spec fn values(&self) -> Seq<V> {
        Seq::new(self.entries@.len(), |i: int| self.entries@[i].1)
    }

    /// What every table satisfies: one value per key, no key twice.
    #[verifier::type_invariant]
    pub open spec fn wf(&self) -> bool {
        &&& self.keys().len() == self.values().len()
        &&& self.keys().no_duplicates()
    }

    pub open spec fn view(&self) -> Map<Seq<char>, V> {
        map_of(self.keys(), self.values())
    }

    pub fn new() -> (t: Self)
        ensures
            t.wf(),
            t.keys() == Seq::<Seq<char>>::empty(),
            t.values() == Seq::<V>::empty(),
            t@ == Map::<Seq<char>, V>::empty(),
    {
        let t = Table { entries: Vec::new() };
        assert(t.keys() =~= Seq::<Seq<char>>::empty());
        assert(t.values() =~= Seq::<V>::empty());
        assert(t@ =~= Map::<Seq<char>, V>::empty());
        t
    }

    pub fn len(&self) -> (n: usize)
        ensures
            self.wf(),
            n == self.keys().len(),
    {
        proof {
            use_type_invariant(self);
        }
        self.entries.len()
    }

    pub fn key(&self, i: usize) -> (k: &String)
        requires
            i < self.keys().len(),
        ensures
            self.wf(),
            k@ == self.keys()[i as int],
            self@.contains_key(k@),
    {
        proof {
            use_type_invariant(self);
            lemma_map_of_at(self.keys(), self.values(), i as int);
        }
        &self.entries[i].0
    }

    pub fn value(&self, i: usize) -> (v: &V)
        requires
            i < self.keys().len(),
        ensures
            self.wf(),
            *v == self.values()[i as int],
            *v == self@[self.keys()[i as int]],
    {
        proof {
            use_type_invariant(self);
            lemma_map_of_at(self.keys(), self.values(), i as int);
        }
        &self.entries[i].1
    }

    /// The place of `key`, if the table holds it.
    pub fn find(&self, key: &String) -> (r: Option<usize>)
        ensures
            self.wf(),
            match r {
                Some(i) => i < self.keys().len() && self.keys()[i as int] == key@,
                None => !self.keys().contains(key@),
            },
            r.is_some() == self@.contains_key(key@),
    {
        proof {
            use_type_invariant(self);
        }
        let mut i: usize = 0;
        while i < self.entries.len()
            invariant
                i <= self.entries@.len(),
                self.wf(),
                self.keys().len() == self.entries@.len(),
                forall|j: int| 0 <= j < i ==> self.keys()[j] != key@,
            decreases self.entries@.len() - i,
        {
            if self.entries[i].0 == *key {
                assert(self.keys()[i as int] == key@);
                return Some(i);
            }
            i += 1;
        }
        None
    }

    pub fn contains_key(&self, key: &String) -> (r: bool)
        ensures
            r == self@.contains_key(key@),
    {
        self.find(key).is_some()
    }

    pub fn get(&self, key: &String) -> (r: Option<&V>)
        ensures
            match r {
                Some(v) => self@.contains_key(key@) && self@[key@] == *v,
                None => !self@.contains_key(key@),
            },
    {
        match self.find(key) {
            Some(i) => Some(self.value(i)),
            None => None,
        }
    }

    /// Adds a key that the table does not hold yet, behind all others.
    pub fn append(&mut self, key: String, value: V)
        requires
            !old(self)@.contains_key(key@),
        ensures
            final(self).wf(),
            final(self).keys() == old(self).keys().push(key@),
            final(self).values() == old(self).values().push(value),
            final(self)@ == old(self)@.insert(key@, value),
    {
        proof {
            use_type_invariant(&*self);
            lemma_map_of_push(self.keys(), self.values(), key@, value);
        }
        let ghost keys0 = self.keys();
        let ghost values0 = self.values();
        let mut entries: Vec<(String, V)> = Vec::new();
        std::mem::swap(&mut self.entries, &mut entries);
        entries.push((key, value));
        proof {
            let t = Table { entries };
            assert(t.keys() =~= keys0.push(key@));
            assert(t.values() =~= values0.push(value));
        }
        self.entries = entries;
    }

    /// Puts `value` at place `i` and hands back what stood there.
    pub fn replace(&mut self, i: usize, value: V) -> (previous: V)
        requires
            i < old(self).keys().len(),
        ensures
            final(self).wf(),
            previous == old(self).values()[i as int],
            final(self).keys() == old(self).keys(),
            final(self).values() == old(self).values().update(i as int, value),
            final(self)@ == old(self)@.insert(old(self).keys()[i as int], value),
    {
        proof {
            use_type_invariant(&*self);
            lemma_map_of_update(self.keys(), self.values(), i as int, value);
        }
        let ghost keys0 = self.keys();
        let ghost values0 = self.values();
        let mut entries: Vec<(String, V)> = Vec::new();
        std::mem::swap(&mut self.entries, &mut entries);
        let mut slot = value;
        std::mem::swap(&mut entries[i].1, &mut slot);
        proof {
            let t = Table { entries };
            assert(t.keys() =~= keys0);
            assert(t.values() =~= values0.update(i as int, value));
        }
        self.entries = entries;
        slot
    }

    /// Maps `key` to `value`, at the key's old place if it has one and
    /// behind all others if not.
    pub fn insert(&mut self, key: String, value: V)
        ensures
            final(self).wf(),
            final(self)@ == old(self)@.insert(key@, value),
            old(self)@.contains_key(key@) ==> final(self).keys() == old(self).keys(),
            !old(self)@.contains_key(key@) ==> final(self).keys() == old(self).keys().push(key@),
    {
        match self.find(&key) {
            Some(i) => {
                let _ = self.replace(i, value);
            },
            None => {
                self.append(key, value);
            },
        }
    }

    /// The pairs of the table, in their order.
    pub fn into_entries(self) -> (entries: Vec<(String, V)>)
        ensures
            self.wf(),
            entries@.len() == self.keys().len(),
            forall|i: int|
                0 <= i < entries@.len() ==> (#[trigger] entries@[i]).0@ == self.keys()[i]
                    && entries@[i].1 == self.values()[i],
    {
        proof {
            use_type_invariant(&self);
        }
        self.entries
    }
}

} // verus!
