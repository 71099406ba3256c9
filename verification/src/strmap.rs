//! A small map keyed by strings, kept as a list of entries in the order in
//! which their keys were first inserted.

use vstd::prelude::*;

verus! {

/// Index of the first entry with key `k` in `ks`, or `ks.len()` where none has it.
pub open spec fn key_index(ks: Seq<Seq<char>>, k: Seq<char>) -> nat
    decreases ks.len(),
{
    if ks.len() == 0 {
        0
    } else if ks[0] == k {
        0
    } else {
        1 + key_index(ks.drop_first(), k)
    }
}

pub proof fn lemma_key_index(ks: Seq<Seq<char>>, k: Seq<char>)
    ensures
        key_index(ks, k) <= ks.len(),
        forall|j: int| 0 <= j < key_index(ks, k) ==> #[trigger] ks[j] != k,
        key_index(ks, k) < ks.len() ==> ks[key_index(ks, k) as int] == k,
    decreases ks.len(),
{
    if ks.len() > 0 && ks[0] != k {
        lemma_key_index(ks.drop_first(), k);
        assert forall|j: int| 0 <= j < key_index(ks, k) implies #[trigger] ks[j] != k by {
            if j > 0 {
                assert(ks[j] == ks.drop_first()[j - 1]);
            }
        }
    }
}

pub proof fn lemma_key_index_unique(ks: Seq<Seq<char>>, k: Seq<char>, a: int)
    requires
        0 <= a <= ks.len(),
        forall|j: int| 0 <= j < a ==> #[trigger] ks[j] != k,
        a < ks.len() ==> ks[a] == k,
    ensures
        key_index(ks, k) == a,
{
    lemma_key_index(ks, k);
    let f = key_index(ks, k) as int;
    if f < a {
        assert(ks[f] != k);
    } else if a < f {
        assert(ks[a] != k);
    }
}

/// A map from strings to copyable values.
pub struct StringMap<V> {
    entries: Vec<(String, V)>,
}

impl<V: Copy> StringMap<V> {
    /// The keys, in the order of their first insertion.
    pub closed spec fn keys(&self) -> Seq<Seq<char>> {
        Seq::new(self.entries@.len(), |i: int| self.entries@[i].0@)
    }

    pub closed spec fn values(&self) -> Seq<V> {
        Seq::new(self.entries@.len(), |i: int| self.entries@[i].1)
    }

    pub open spec fn view(&self) -> Map<Seq<char>, V> {
        Map::new(
            |k: Seq<char>| key_index(self.keys(), k) < self.keys().len(),
            |k: Seq<char>| self.values()[key_index(self.keys(), k) as int],
        )
    }

    /// An empty map.
    pub fn new() -> (r: Self)
        ensures
            r.view() == Map::<Seq<char>, V>::empty(),
    {
        let r = StringMap { entries: Vec::new() };
        assert(r.view() =~= Map::<Seq<char>, V>::empty());
        r
    }

    /// The position of `key` among the entries.
    fn position(&self, key: &String) -> (r: Option<usize>)
        ensures
            self.keys().len() == self.values().len(),
            match r {
                Some(i) => i == key_index(self.keys(), key@) && i < self.keys().len(),
                None => key_index(self.keys(), key@) == self.keys().len(),
            },
    {
        let mut i: usize = 0;
        while i < self.entries.len()
            invariant
                i <= self.entries@.len(),
                forall|j: int| 0 <= j < i ==> #[trigger] self.keys()[j] != key@,
            decreases self.entries.len() - i,
        {
            if self.entries[i].0 == *key {
                proof {
                    lemma_key_index_unique(self.keys(), key@, i as int);
                }
                return Some(i);
            }
            i = i + 1;
        }
        proof {
            lemma_key_index_unique(self.keys(), key@, i as int);
        }
        None
    }

    /// Whether `key` has a value.
    pub fn contains_key(&self, key: &String) -> (r: bool)
        ensures
            r == self.view().contains_key(key@),
    {
        self.position(key).is_some()
    }

    /// The value of `key`, where it has one.
    pub fn get(&self, key: &String) -> (r: Option<V>)
        ensures
            r == (if self.view().contains_key(key@) {
                Some(self.view()[key@])
            } else {
                None
            }),
    {
        match self.position(key) {
            Some(i) => Some(self.entries[i].1),
            None => None,
        }
    }

    /// Gives `key` the value `value`.
    pub fn insert(&mut self, key: String, value: V)
        ensures
            final(self).view() == old(self).view().insert(key@, value),
    {
        let ghost ks = self.keys();
        let ghost vs = self.values();
        let ghost k = key@;
        match self.position(&key) {
            Some(i) => {
                proof {
                    lemma_key_index(ks, k);
                }
                self.entries.set(i, (key, value));
                assert(self.keys() =~= ks);
                assert(self.values() =~= vs.update(i as int, value));
                assert forall|q: Seq<char>| #[trigger] key_index(ks, q) < ks.len() && q != k implies key_index(ks, q) != i by {
                    lemma_key_index(ks, q);
                }
                assert(self.view() =~= old(self).view().insert(k, value));
            },
            None => {
                self.entries.push((key, value));
                assert(self.keys() =~= ks.push(k));
                assert(self.values() =~= vs.push(value));
                let ghost nks = ks.push(k);
                assert forall|q: Seq<char>| #[trigger] key_index(nks, q) == (if key_index(ks, q) < ks.len() {
                    key_index(ks, q)
                } else if q == k {
                    ks.len()
                } else {
                    ks.len() + 1
                }) by {
                    lemma_key_index(ks, q);
                    if key_index(ks, q) < ks.len() {
                        lemma_key_index_unique(nks, q, key_index(ks, q) as int);
                    } else if q == k {
                        lemma_key_index_unique(nks, q, ks.len() as int);
                    } else {
                        lemma_key_index_unique(nks, q, ks.len() as int + 1);
                    }
                }
                proof {
                    lemma_key_index(ks, k);
                }
                assert(self.view() =~= old(self).view().insert(k, value));
            },
        }
    }
}

} // verus!
