//! A small table with text keys that remembers the order in which the keys
//! came. No key occurs twice.

use crate::text::same;
use vstd::prelude::*;

verus! {

/// Values by text key, in the order of insertion.
pub struct Keyed<V> {
    entries: Vec<(String, V)>,
}

impl<V> Keyed<V> {
    /// The keys, in the order of insertion.
    pub closed spec fn keys(&self) -> Seq<Seq<char>> {
        self.entries@.map_values(|e: (String, V)| e.0@)
    }

    /// The values, in the order of their keys.
    pub closed spec fn vals(&self) -> Seq<V> {
        self.entries@.map_values(|e: (String, V)| e.1)
    }

    #[verifier::type_invariant]
    spec fn distinct(self) -> bool {
        self.keys().no_duplicates()
    }
}

impl<V> View for Keyed<V> {
    type V = Map<Seq<char>, V>;

    open spec fn view(&self) -> Map<Seq<char>, V> {
        table(self.keys(), self.vals())
    }
}

/// The map that pairs each key with the value at its position.
pub open spec fn table<V>(keys: Seq<Seq<char>>, vals: Seq<V>) -> Map<Seq<char>, V> {
    Map::new(|k: Seq<char>| keys.contains(k), |k: Seq<char>| vals[keys.index_of(k)])
}

/// A key of the table stands at exactly one position.
pub proof fn lemma_position<V>(keys: Seq<Seq<char>>, vals: Seq<V>, i: int)
    requires
        keys.no_duplicates(),
        0 <= i < keys.len(),
    ensures
        keys.contains(keys[i]),
        keys.index_of(keys[i]) == i,
        table(keys, vals).dom().contains(keys[i]),
        table(keys, vals)[keys[i]] == vals[i],
{
    assert(keys.contains(keys[i]));
}

/// Appending a new key inserts it into the map.
pub proof fn lemma_push<V>(keys: Seq<Seq<char>>, vals: Seq<V>, k: Seq<char>, v: V)
    requires
        keys.no_duplicates(),
        keys.len() == vals.len(),
        !keys.contains(k),
    ensures
        keys.push(k).no_duplicates(),
        table(keys.push(k), vals.push(v)) == table(keys, vals).insert(k, v),
{
    let ks = keys.push(k);
    let vs = vals.push(v);
    assert(ks.no_duplicates());
    assert forall|x: Seq<char>| ks.contains(x) <==> (keys.contains(x) || x == k) by {
        if keys.contains(x) {
            assert(ks[keys.index_of(x)] == x);
        }
        assert(ks[keys.len() as int] == k);
    }
    assert forall|x: Seq<char>| ks.contains(x) implies table(ks, vs)[x] == table(keys, vals).insert(
        k,
        v,
    )[x] by {
        let i = ks.index_of(x);
        lemma_position(ks, vs, i);
        if x != k {
            lemma_position(keys, vals, i);
        }
    }
    assert(table(ks, vs) =~= table(keys, vals).insert(k, v));
}

/// Replacing the value at a key's position replaces it in the map.
pub proof fn lemma_update<V>(keys: Seq<Seq<char>>, vals: Seq<V>, i: int, v: V)
    requires
        keys.no_duplicates(),
        keys.len() == vals.len(),
        0 <= i < keys.len(),
    ensures
        table(keys, vals.update(i, v)) == table(keys, vals).insert(keys[i], v),
{
    let vs = vals.update(i, v);
    assert forall|x: Seq<char>| keys.contains(x) implies table(keys, vs)[x] == table(
        keys,
        vals,
    ).insert(keys[i], v)[x] by {
        let j = keys.index_of(x);
        lemma_position(keys, vs, j);
        lemma_position(keys, vals, j);
    }
    assert(keys.contains(keys[i]));
    assert(table(keys, vs) =~= table(keys, vals).insert(keys[i], v));
}

/// Taking a position out removes its key from the map.
pub proof fn lemma_remove<V>(keys: Seq<Seq<char>>, vals: Seq<V>, i: int)
    requires
        keys.no_duplicates(),
        keys.len() == vals.len(),
        0 <= i < keys.len(),
    ensures
        keys.remove(i).no_duplicates(),
        !keys.remove(i).contains(keys[i]),
        table(keys.remove(i), vals.remove(i)) == table(keys, vals).remove(keys[i]),
{
    let ks = keys.remove(i);
    let vs = vals.remove(i);
    assert forall|a: int, b: int| 0 <= a < ks.len() && 0 <= b < ks.len() && a != b implies ks[a]
        != ks[b] by {
        let a2: int = if a < i { a } else { a + 1 };
        let b2: int = if b < i { b } else { b + 1 };
        assert(ks[a] == keys[a2] && ks[b] == keys[b2]);
    }
    assert forall|x: Seq<char>| ks.contains(x) <==> (keys.contains(x) && x != keys[i]) by {
        if keys.contains(x) && x != keys[i] {
            let j = keys.index_of(x);
            let j2: int = if j < i { j } else { j - 1 };
            assert(ks[j2] == x);
        }
        if ks.contains(x) {
            let j = ks.index_of(x);
            let j2: int = if j < i { j } else { j + 1 };
            assert(keys[j2] == x);
        }
    }
    assert forall|x: Seq<char>| ks.contains(x) implies table(ks, vs)[x] == table(keys, vals)[x] by {
        let j = ks.index_of(x);
        let j2: int = if j < i { j } else { j + 1 };
        lemma_position(ks, vs, j);
        lemma_position(keys, vals, j2);
    }
    assert(table(ks, vs) =~= table(keys, vals).remove(keys[i]));
}

impl<V> Keyed<V> {
    /// A table without keys.
    pub fn new() -> (r: Self)
        ensures
            r@ == Map::<Seq<char>, V>::empty(),
            r.keys() == Seq::<Seq<char>>::empty(),
            r.vals() == Seq::<V>::empty(),
    {
        let r = Keyed { entries: Vec::new() };
        assert(r@ =~= Map::<Seq<char>, V>::empty());
        r
    }

    /// How many keys there are.
    pub fn len(&self) -> (n: usize)
        ensures
            n == self.keys().len(),
            n == self.vals().len(),
            self.keys().no_duplicates(),
    {
        proof {
            use_type_invariant(self);
        }
        self.entries.len()
    }

    /// The key at a position.
    pub fn key_at(&self, i: usize) -> (k: &String)
        requires
            i < self.keys().len(),
        ensures
            k@ == self.keys()[i as int],
            self@.dom().contains(k@),
    {
        proof {
            use_type_invariant(self);
            lemma_position(self.keys(), self.vals(), i as int);
        }
        &self.entries[i].0
    }

    /// The value at a position.
    pub fn value_at(&self, i: usize) -> (v: &V)
        requires
            i < self.keys().len(),
        ensures
            *v == self.vals()[i as int],
            *v == self@[self.keys()[i as int]],
            self@.dom().contains(self.keys()[i as int]),
    {
        proof {
            use_type_invariant(self);
            lemma_position(self.keys(), self.vals(), i as int);
        }
        &self.entries[i].1
    }

    /// Where a key stands.
    pub fn position(&self, key: &str) -> (r: Option<usize>)
        ensures
            self.keys().no_duplicates(),
            self.keys().len() == self.vals().len(),
            match r {
                Some(i) => i < self.keys().len() && self.keys()[i as int] == key@,
                None => !self.keys().contains(key@),
            },
            r is Some <==> self@.dom().contains(key@),
    {
        proof {
            use_type_invariant(self);
        }
        let mut i: usize = 0;
        while i < self.entries.len()
            invariant
                i <= self.entries@.len(),
                self.keys().no_duplicates(),
                forall|j: int| 0 <= j < i ==> self.keys()[j] != key@,
            decreases self.entries.len() - i,
        {
            if same(self.entries[i].0.as_str(), key) {
                assert(self.keys()[i as int] == key@);
                return Some(i);
            }
            i = i + 1;
        }
        None
    }

    /// Whether a key is there.
    pub fn contains(&self, key: &str) -> (r: bool)
        ensures
            r == self@.dom().contains(key@),
    {
        self.position(key).is_some()
    }

    /// The value of a key.
    pub fn get(&self, key: &str) -> (r: Option<&V>)
        ensures
            r is Some <==> self@.dom().contains(key@),
            r matches Some(v) ==> *v == self@[key@],
    {
        match self.position(key) {
            Some(i) => {
                proof {
                    lemma_position(self.keys(), self.vals(), i as int);
                }
                Some(&self.entries[i].1)
            },
            None => None,
        }
    }

    /// Gives a key a value: a key that is there keeps its position, a new one
    /// comes last.
    pub fn insert(&mut self, key: String, value: V)
        ensures
            final(self)@ == old(self)@.insert(key@, value),
            old(self)@.dom().contains(key@) ==> final(self).keys() == old(self).keys(),
            !old(self)@.dom().contains(key@) ==> final(self).keys() == old(self).keys().push(key@),
    {
        let at = self.position(key.as_str());
        let ghost ks = self.keys();
        let ghost vs = self.vals();
        let mut entries: Vec<(String, V)> = Vec::new();
        core::mem::swap(&mut entries, &mut self.entries);
        match at {
            Some(i) => {
                proof {
                    lemma_update(ks, vs, i as int, value);
                }
                entries.set(i, (key, value));
                assert(entries@.map_values(|e: (String, V)| e.0@) =~= ks);
                assert(entries@.map_values(|e: (String, V)| e.1) =~= vs.update(i as int, value));
                self.entries = entries;
            },
            None => {
                proof {
                    lemma_push(ks, vs, key@, value);
                }
                let ghost k = key@;
                entries.push((key, value));
                assert(entries@.map_values(|e: (String, V)| e.0@) =~= ks.push(k));
                assert(entries@.map_values(|e: (String, V)| e.1) =~= vs.push(value));
                self.entries = entries;
            },
        }
    }

    /// Takes a key out, if it is there.
    pub fn remove(&mut self, key: &str)
        ensures
            final(self)@ == old(self)@.remove(key@),
            match old(self)@.dom().contains(key@) {
                true => exists|i: int|
                    0 <= i < old(self).keys().len() && #[trigger] old(self).keys()[i] == key@
                        && final(self).keys() == old(self).keys().remove(i),
                false => final(self).keys() == old(self).keys(),
            },
    {
        let at = self.position(key);
        let ghost ks = self.keys();
        let ghost vs = self.vals();
        match at {
            Some(i) => {
                let mut entries: Vec<(String, V)> = Vec::new();
                core::mem::swap(&mut entries, &mut self.entries);
                proof {
                    lemma_remove(ks, vs, i as int);
                }
                entries.remove(i);
                assert(entries@.map_values(|e: (String, V)| e.0@) =~= ks.remove(i as int));
                assert(entries@.map_values(|e: (String, V)| e.1) =~= vs.remove(i as int));
                self.entries = entries;
            },
            None => {
                assert(self@ =~= self@.remove(key@));
            },
        }
    }
}

} // verus!
