//! A map from strings to values that keeps its keys in the order in which
//! they came.

use vstd::prelude::*;

verus! {

/// The map that gives each key of `keys` the value at the same index of
/// `values`.
pub open spec fn assoc<V>(keys: Seq<Seq<char>>, values: Seq<V>) -> Map<Seq<char>, V> {
    Map::new(|k: Seq<char>| keys.contains(k), |k: Seq<char>| values[keys.index_of(k)])
}

/// In a list of keys without duplicates, a key is found at its own index,
/// and the map gives it the value at that index.
pub proof fn lemma_assoc_at<V>(keys: Seq<Seq<char>>, values: Seq<V>, i: int)
    requires
        keys.no_duplicates(),
        0 <= i < keys.len(),
    ensures
        keys.contains(keys[i]),
        keys.index_of(keys[i]) == i,
        assoc(keys, values).contains_key(keys[i]),
        assoc(keys, values)[keys[i]] == values[i],
{
    let j = keys.index_of(keys[i]);
    assert(0 <= j < keys.len() && keys[j] == keys[i]);
}

/// A map with as many keys as the list without duplicates that it was made
/// from.
pub proof fn lemma_assoc_len<V>(keys: Seq<Seq<char>>, values: Seq<V>)
    requires
        keys.no_duplicates(),
    ensures
        assoc(keys, values).dom().finite(),
        assoc(keys, values).len() == keys.len(),
        assoc(keys, values).dom() == keys.to_set(),
{
    keys.unique_seq_to_set();
    assert(assoc(keys, values).dom() =~= keys.to_set());
}

/// Replacing the value at index `i` is inserting under the key at `i`.
pub proof fn lemma_assoc_update<V>(keys: Seq<Seq<char>>, values: Seq<V>, i: int, value: V)
    requires
        keys.no_duplicates(),
        keys.len() == values.len(),
        0 <= i < keys.len(),
    ensures
        assoc(keys, values.update(i, value)) == assoc(keys, values).insert(keys[i], value),
{
    let before = assoc(keys, values);
    let after = assoc(keys, values.update(i, value));
    assert forall|k: Seq<char>| #[trigger] after.contains_key(k) implies after[k] == before.insert(
        keys[i],
        value,
    )[k] by {
        let j = keys.index_of(k);
        assert(0 <= j < keys.len() && keys[j] == k);
        lemma_assoc_at(keys, values, i);
    }
    lemma_assoc_at(keys, values, i);
    assert(after =~= before.insert(keys[i], value));
}

/// Adding a new key with its value at the end is inserting.
pub proof fn lemma_assoc_push<V>(keys: Seq<Seq<char>>, values: Seq<V>, key: Seq<char>, value: V)
    requires
        keys.no_duplicates(),
        keys.len() == values.len(),
        !keys.contains(key),
    ensures
        keys.push(key).no_duplicates(),
        assoc(keys.push(key), values.push(value)) == assoc(keys, values).insert(key, value),
{
    let keys2 = keys.push(key);
    let values2 = values.push(value);
    assert forall|i: int, j: int| 0 <= i < keys2.len() && 0 <= j < keys2.len() && i != j implies keys2[i] != keys2[j] by {
        if i < keys.len() {
            assert(keys.contains(keys[i]));
        }
        if j < keys.len() {
            assert(keys.contains(keys[j]));
        }
    }
    let before = assoc(keys, values);
    let after = assoc(keys2, values2);
    assert forall|k: Seq<char>| after.contains_key(k) <==> before.insert(key, value).contains_key(
        k,
    ) by {
        if keys2.contains(k) {
            let j = keys2.index_of(k);
            assert(0 <= j < keys2.len() && keys2[j] == k);
            if j < keys.len() {
                assert(keys[j] == k);
            }
        }
        if keys.contains(k) {
            let j = keys.index_of(k);
            assert(keys2[j] == k);
        }
        if k == key {
            assert(keys2[keys.len() as int] == k);
        }
    }
    assert forall|k: Seq<char>| #[trigger] after.contains_key(k) implies after[k] == before.insert(
        key,
        value,
    )[k] by {
        let j = keys2.index_of(k);
        assert(0 <= j < keys2.len() && keys2[j] == k);
        if j < keys.len() {
            assert(keys[j] == k);
            lemma_assoc_at(keys, values, j);
        }
    }
    assert(after =~= before.insert(key, value));
}

/// Taking out the key at index `i` with its value is removing that key.
pub proof fn lemma_assoc_remove<V>(keys: Seq<Seq<char>>, values: Seq<V>, i: int)
    requires
        keys.no_duplicates(),
        keys.len() == values.len(),
        0 <= i < keys.len(),
    ensures
        keys.remove(i).no_duplicates(),
        !keys.remove(i).contains(keys[i]),
        assoc(keys.remove(i), values.remove(i)) == assoc(keys, values).remove(keys[i]),
{
    let keys2 = keys.remove(i);
    let values2 = values.remove(i);
    assert forall|a: int| 0 <= a < keys2.len() implies keys2[a] == keys[if a < i {
        a
    } else {
        a + 1
    }] && values2[a] == values[if a < i {
        a
    } else {
        a + 1
    }] by {}
    assert forall|a: int, b: int| 0 <= a < keys2.len() && 0 <= b < keys2.len() && a != b implies keys2[a] != keys2[b] by {}
    if keys2.contains(keys[i]) {
        let a = keys2.index_of(keys[i]);
        assert(0 <= a < keys2.len() && keys2[a] == keys[i]);
        assert(false);
    }
    let before = assoc(keys, values);
    let after = assoc(keys2, values2);
    assert forall|k: Seq<char>| after.contains_key(k) <==> before.remove(keys[i]).contains_key(
        k,
    ) by {
        if keys2.contains(k) {
            let a = keys2.index_of(k);
            assert(0 <= a < keys2.len() && keys2[a] == k);
            assert(keys.contains(k));
        }
        if keys.contains(k) && k != keys[i] {
            let j = keys.index_of(k);
            assert(0 <= j < keys.len() && keys[j] == k);
            let a = if j < i {
                j
            } else {
                j - 1
            };
            assert(keys2[a] == k);
        }
    }
    assert forall|k: Seq<char>| #[trigger] after.contains_key(k) implies after[k] == before.remove(
        keys[i],
    )[k] by {
        let a = keys2.index_of(k);
        assert(0 <= a < keys2.len() && keys2[a] == k);
        let j = if a < i {
            a
        } else {
            a + 1
        };
        lemma_assoc_at(keys, values, j);
        lemma_assoc_at(keys2, values2, a);
    }
    assert(after =~= before.remove(keys[i]));
}

/// A map from strings to values. It holds each key once and hands its keys
/// out in the order in which they were first inserted.
#[derive(Debug)]
pub struct StringMap<V> {
    entries: Vec<(String, V)>,
}

impl<V: Clone> Clone for StringMap<V> {
    /// A map with the same keys in the same order, each with a clone of its
    /// value.
    fn clone(&self) -> (copy: Self)
        ensures
            copy.keys() == self.keys(),
    {
        proof {
            use_type_invariant(self);
        }
        let mut entries: Vec<(String, V)> = Vec::new();
        let mut i: usize = 0;
        while i < self.entries.len()
            invariant
                i <= self.entries.len(),
                entries.len() == i,
                forall|j: int| 0 <= j < i ==> (#[trigger] entries@[j]).0@ == self.entries@[j].0@,
            decreases self.entries.len() - i,
        {
            let key = self.entries[i].0.clone();
            let value = self.entries[i].1.clone();
            entries.push((key, value));
            i = i + 1;
        }
        proof {
            let held = StringMap { entries };
            assert(held.keys() =~= self.keys());
        }
        StringMap { entries }
    }
}

impl<V> View for StringMap<V> {
    type V = Map<Seq<char>, V>;

    closed spec fn view(&self) -> Map<Seq<char>, V> {
        assoc(self.keys(), self.values())
    }
}

impl<V> StringMap<V> {
    #[verifier::type_invariant]
    spec fn distinct_keys(self) -> bool {
        self.keys().no_duplicates()
    }

    /// The keys, in the order in which they were first inserted.
    pub closed spec fn keys(self) -> Seq<Seq<char>> {
        Seq::new(self.entries@.len(), |i: int| self.entries@[i].0@)
    }

    /// The values, each at the index of its key.
    pub closed spec fn values(self) -> Seq<V> {
        Seq::new(self.entries@.len(), |i: int| self.entries@[i].1)
    }

    /// Creates an empty map.
    pub fn new() -> (m: Self)
        ensures
            m@ == Map::<Seq<char>, V>::empty(),
            m.keys() == Seq::<Seq<char>>::empty(),
            m.values() == Seq::<V>::empty(),
    {
        let m = StringMap { entries: Vec::new() };
        assert(m.keys() =~= Seq::<Seq<char>>::empty());
        assert(m.values() =~= Seq::<V>::empty());
        assert(m@ =~= Map::<Seq<char>, V>::empty());
        m
    }

    /// The number of keys.
    pub fn len(&self) -> (n: usize)
        ensures
            n == self.keys().len(),
            n == self.values().len(),
            self@.dom().finite(),
            n == self@.len(),
            self.keys().no_duplicates(),
            self@ == assoc(self.keys(), self.values()),
    {
        proof {
            use_type_invariant(self);
            lemma_assoc_len(self.keys(), self.values());
        }
        self.entries.len()
    }

    /// Whether the map holds no key.
    pub fn is_empty(&self) -> (empty: bool)
        ensures
            empty == (self.keys().len() == 0),
            empty == (self@ == Map::<Seq<char>, V>::empty()),
    {
        proof {
            use_type_invariant(self);
            if self.keys().len() == 0 {
                assert(self@ =~= Map::<Seq<char>, V>::empty());
            } else {
                lemma_assoc_at(self.keys(), self.values(), 0);
            }
        }
        self.entries.len() == 0
    }

    /// The index of `key` among the keys.
    fn find(&self, key: &String) -> (found: Option<usize>)
        ensures
            match found {
                Some(i) => i < self.keys().len() && self.keys()[i as int] == key@,
                None => !self.keys().contains(key@),
            },
    {
        let mut i: usize = 0;
        while i < self.entries.len()
            invariant
                i <= self.entries.len(),
                forall|j: int| 0 <= j < i ==> self.keys()[j] != key@,
            decreases self.entries.len() - i,
        {
            if self.entries[i].0 == *key {
                return Some(i);
            }
            i = i + 1;
        }
        None
    }

    /// Whether the map holds `key`.
    pub fn contains_key(&self, key: &str) -> (held: bool)
        ensures
            held == self@.contains_key(key@),
            held == self.keys().contains(key@),
    {
        let owned = String::from_str(key);
        self.find(&owned).is_some()
    }

    /// The index of `key` in the order of the keys.
    pub fn position(&self, key: &str) -> (found: Option<usize>)
        ensures
            match found {
                Some(i) => i < self.keys().len() && self.keys()[i as int] == key@,
                None => !self@.contains_key(key@),
            },
    {
        let owned = String::from_str(key);
        self.find(&owned)
    }

    /// The value under `key`.
    pub fn get(&self, key: &str) -> (value: Option<&V>)
        ensures
            match value {
                Some(v) => self@.contains_key(key@) && *v == self@[key@],
                None => !self@.contains_key(key@),
            },
    {
        let owned = String::from_str(key);
        match self.find(&owned) {
            Some(i) => {
                proof {
                    use_type_invariant(self);
                    lemma_assoc_at(self.keys(), self.values(), i as int);
                }
                Some(&self.entries[i].1)
            },
            None => None,
        }
    }

    /// Puts `value` under `key` and gives back the value that was there. A
    /// key that is new comes last in the order of the keys; one that was
    /// there keeps its place.
    pub fn insert(&mut self, key: String, value: V) -> (previous: Option<V>)
        ensures
            final(self)@ == old(self)@.insert(key@, value),
            previous == if old(self)@.contains_key(key@) {
                Some(old(self)@[key@])
            } else {
                None
            },
            final(self).keys() == if old(self)@.contains_key(key@) {
                old(self).keys()
            } else {
                old(self).keys().push(key@)
            },
            final(self).values() == if old(self)@.contains_key(key@) {
                old(self).values().update(old(self).keys().index_of(key@), value)
            } else {
                old(self).values().push(value)
            },
            old(self).keys().no_duplicates(),
            old(self).keys().len() == old(self).values().len(),
            old(self)@ == assoc(old(self).keys(), old(self).values()),
    {
        proof {
            use_type_invariant(&*self);
        }
        let ghost keys = self.keys();
        let ghost values = self.values();
        match self.find(&key) {
            Some(i) => {
                proof {
                    lemma_assoc_at(keys, values, i as int);
                    lemma_assoc_update(keys, values, i as int, value);
                    lemma_assoc_remove(keys, values, i as int);
                }
                let mut entries: Vec<(String, V)> = Vec::new();
                core::mem::swap(&mut self.entries, &mut entries);
                let taken = entries.remove(i);
                entries.insert(i, (key, value));
                proof {
                    let held = StringMap { entries };
                    assert(held.keys() =~= keys);
                    assert(held.values() =~= values.update(i as int, value));
                }
                core::mem::swap(&mut self.entries, &mut entries);
                Some(taken.1)
            },
            None => {
                proof {
                    lemma_assoc_push(keys, values, key@, value);
                }
                let mut entries: Vec<(String, V)> = Vec::new();
                core::mem::swap(&mut self.entries, &mut entries);
                entries.push((key, value));
                proof {
                    let held = StringMap { entries };
                    assert(held.keys() =~= keys.push(key@));
                    assert(held.values() =~= values.push(value));
                }
                core::mem::swap(&mut self.entries, &mut entries);
                None
            },
        }
    }

    /// Takes `key` out and gives back the value that was under it. The other
    /// keys keep their order.
    pub fn remove(&mut self, key: &str) -> (previous: Option<V>)
        ensures
            final(self)@ == old(self)@.remove(key@),
            previous == if old(self)@.contains_key(key@) {
                Some(old(self)@[key@])
            } else {
                None
            },
            final(self).keys() == if old(self)@.contains_key(key@) {
                old(self).keys().remove(old(self).keys().index_of(key@))
            } else {
                old(self).keys()
            },
            final(self).values() == if old(self)@.contains_key(key@) {
                old(self).values().remove(old(self).keys().index_of(key@))
            } else {
                old(self).values()
            },
            old(self).keys().no_duplicates(),
            old(self).keys().len() == old(self).values().len(),
            old(self)@ == assoc(old(self).keys(), old(self).values()),
    {
        proof {
            use_type_invariant(&*self);
        }
        let ghost keys = self.keys();
        let ghost values = self.values();
        let owned = String::from_str(key);
        match self.find(&owned) {
            Some(i) => {
                proof {
                    lemma_assoc_at(keys, values, i as int);
                    lemma_assoc_remove(keys, values, i as int);
                }
                let mut entries: Vec<(String, V)> = Vec::new();
                core::mem::swap(&mut self.entries, &mut entries);
                let taken = entries.remove(i);
                proof {
                    let held = StringMap { entries };
                    assert(held.keys() =~= keys.remove(i as int));
                    assert(held.values() =~= values.remove(i as int));
                }
                core::mem::swap(&mut self.entries, &mut entries);
                Some(taken.1)
            },
            None => {
                assert(self@ =~= old(self)@.remove(key@));
                None
            },
        }
    }

    /// Takes every key out.
    pub fn clear(&mut self)
        ensures
            final(self)@ == Map::<Seq<char>, V>::empty(),
            final(self).keys() == Seq::<Seq<char>>::empty(),
            final(self).values() == Seq::<V>::empty(),
    {
        let mut entries: Vec<(String, V)> = Vec::new();
        proof {
            let held = StringMap { entries };
            assert(held.keys() =~= Seq::<Seq<char>>::empty());
            assert(held.values() =~= Seq::<V>::empty());
            assert(held@ =~= Map::<Seq<char>, V>::empty());
        }
        core::mem::swap(&mut self.entries, &mut entries);
    }

    /// The key at `index` in the order of the keys.
    pub fn key_at(&self, index: usize) -> (key: &String)
        requires
            index < self.keys().len(),
        ensures
            key@ == self.keys()[index as int],
            self@.contains_key(key@),
    {
        proof {
            use_type_invariant(self);
            lemma_assoc_at(self.keys(), self.values(), index as int);
        }
        &self.entries[index].0
    }

    /// The value of the key at `index` in the order of the keys.
    pub fn value_at(&self, index: usize) -> (value: &V)
        requires
            index < self.keys().len(),
        ensures
            *value == self.values()[index as int],
            self@.contains_key(self.keys()[index as int]),
            *value == self@[self.keys()[index as int]],
    {
        proof {
            use_type_invariant(self);
            lemma_assoc_at(self.keys(), self.values(), index as int);
        }
        &self.entries[index].1
    }

    /// Takes out the key at `index` and gives back its value. The other keys
    /// keep their order.
    pub fn remove_at(&mut self, index: usize) -> (previous: V)
        requires
            index < old(self).keys().len(),
        ensures
            final(self)@ == old(self)@.remove(old(self).keys()[index as int]),
            previous == old(self).values()[index as int],
            final(self).keys() == old(self).keys().remove(index as int),
            final(self).values() == old(self).values().remove(index as int),
    {
        proof {
            use_type_invariant(&*self);
            lemma_assoc_remove(self.keys(), self.values(), index as int);
        }
        let ghost keys = self.keys();
        let ghost values = self.values();
        let mut entries: Vec<(String, V)> = Vec::new();
        core::mem::swap(&mut self.entries, &mut entries);
        let taken = entries.remove(index);
        proof {
            let held = StringMap { entries };
            assert(held.keys() =~= keys.remove(index as int));
            assert(held.values() =~= values.remove(index as int));
        }
        core::mem::swap(&mut self.entries, &mut entries);
        taken.1
    }

    /// Puts `value` in the place of the value at `index`.
    pub fn set_value_at(&mut self, index: usize, value: V)
        requires
            index < old(self).keys().len(),
        ensures
            final(self)@ == old(self)@.insert(old(self).keys()[index as int], value),
            final(self).keys() == old(self).keys(),
            final(self).values() == old(self).values().update(index as int, value),
    {
        proof {
            use_type_invariant(&*self);
            lemma_assoc_update(self.keys(), self.values(), index as int, value);
            lemma_assoc_remove(self.keys(), self.values(), index as int);
        }
        let ghost keys = self.keys();
        let ghost values = self.values();
        let mut entries: Vec<(String, V)> = Vec::new();
        core::mem::swap(&mut self.entries, &mut entries);
        let taken = entries.remove(index);
        entries.insert(index, (taken.0, value));
        proof {
            let held = StringMap { entries };
            assert(held.keys() =~= keys);
            assert(held.values() =~= values.update(index as int, value));
        }
        core::mem::swap(&mut self.entries, &mut entries);
    }
}

} // verus!
